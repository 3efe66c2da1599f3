//! Continuous (swept) axis-aligned collision detection over exact
//! fixed-point coordinates.
//!
//! The crate models a 2D scene of axis-aligned boxes: a vector and
//! rectangle layer ([`math::vec::Vec2`], [`math::rect::Rect`]), a
//! ray-vs-rectangle slab test and the swept moving-box-vs-static-box test
//! built on it ([`math::sweep`]), and the per-tick resolution loop that
//! applies the swept test against an ordered list of static obstacles
//! ([`phys`]).
//!
//! Coordinates, sizes and velocities are `i64` values on a fixed-point
//! grid ([`math::vec::SCALE`] grid steps stand for one world unit).
//! Contact times and contact points are exact fractions
//! ([`math::frac::Frac`]), so every result of the collision layer is
//! pinned exactly by its contract, and a fast thin obstacle cannot be
//! tunnelled through by rounding.

pub mod math;
pub mod phys;
pub mod tile_map;
