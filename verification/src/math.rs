//! Geometry layer: fixed-point vectors and rectangles, exact fractions, and
//! the ray / swept-rectangle intersection tests.

pub mod frac;
pub mod rect;
pub mod sweep;
pub mod vec;

pub use frac::Frac;
pub use frac::FracVec2;
pub use rect::Rect;
pub use rect::point_in_rect;
pub use rect::rect_intersect;
pub use sweep::Contact;
pub use sweep::dynamic_rect_vs_rect;
pub use sweep::ray_vs_rect;
pub use vec::Vec2;
