//! Axis-aligned rectangles.
//!
//! A rectangle is a top-left corner, a size with non-negative components,
//! and a velocity that is meaningful only for the one moving entity driven
//! by the resolution loop; static obstacles carry a zero velocity.

use crate::math::vec::Vec2;
use vstd::prelude::*;

verus! {

/// An axis-aligned box on the fixed-point grid.
#[derive(Clone, Copy, PartialEq, Eq, Structural, Debug)]
pub struct Rect {
    pub pos: Vec2,
    pub size: Vec2,
    pub vel: Vec2,
}

/// `p` lies strictly inside the open rectangle `r`; boundary points are out.
pub open spec fn spec_point_in_rect(p: Vec2, r: Rect) -> bool {
    &&& p.x > r.pos.x
    &&& p.y > r.pos.y
    &&& p.x < r.pos.x + r.size.x
    &&& p.y < r.pos.y + r.size.y
}

/// The two rectangles' projections overlap on both axes, with strict
/// comparisons: rectangles that merely touch do not intersect, and a
/// zero-size rectangle never overlaps anything on its degenerate axis.
pub open spec fn spec_rect_intersect(a: Rect, b: Rect) -> bool {
    &&& a.pos.x < b.pos.x + b.size.x
    &&& a.pos.x + a.size.x > b.pos.x
    &&& a.pos.y < b.pos.y + b.size.y
    &&& a.pos.y + a.size.y > b.pos.y
}

/// Rectangle intersection does not depend on the order of its arguments.
pub proof fn lemma_rect_intersect_symmetric(a: Rect, b: Rect)
    ensures
        spec_rect_intersect(a, b) == spec_rect_intersect(b, a),
{
}

impl Rect {
    /// A rectangle at `pos` of extent `size`, at rest.
    pub fn new(pos: Vec2, size: Vec2) -> (r: Rect)
        ensures
            r.pos == pos,
            r.size == size,
            r.vel.x == 0,
            r.vel.y == 0,
    {
        Rect { pos, size, vel: Vec2::zero() }
    }

    /// Whether `p` lies strictly inside this rectangle.
    pub fn point_in_rect(&self, p: Vec2) -> (r: bool)
        ensures
            r == spec_point_in_rect(p, *self),
    {
        let px: i128 = p.x as i128;
        let py: i128 = p.y as i128;
        px > self.pos.x as i128 && py > self.pos.y as i128
            && px < self.pos.x as i128 + self.size.x as i128
            && py < self.pos.y as i128 + self.size.y as i128
    }

    /// Whether this rectangle and `r2` overlap on both axes.
    pub fn rect_intersect(&self, r2: &Rect) -> (r: bool)
        ensures
            r == spec_rect_intersect(*self, *r2),
    {
        (self.pos.x as i128) < r2.pos.x as i128 + r2.size.x as i128
            && self.pos.x as i128 + self.size.x as i128 > (r2.pos.x as i128)
            && (self.pos.y as i128) < r2.pos.y as i128 + r2.size.y as i128
            && self.pos.y as i128 + self.size.y as i128 > (r2.pos.y as i128)
    }
}

/// Whether `p` lies strictly inside `r`.
pub fn point_in_rect(p: Vec2, r: &Rect) -> (res: bool)
    ensures
        res == spec_point_in_rect(p, *r),
{
    r.point_in_rect(p)
}

/// Whether `r1` and `r2` overlap on both axes. Symmetric in its arguments.
pub fn rect_intersect(r1: &Rect, r2: &Rect) -> (res: bool)
    ensures
        res == spec_rect_intersect(*r1, *r2),
        res == spec_rect_intersect(*r2, *r1),
{
    r1.rect_intersect(r2)
}

} // verus!
