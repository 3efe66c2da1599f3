//! Ray-vs-rectangle slab test and the swept rectangle-vs-rectangle test.
//!
//! The slab test intersects the ray's valid parameter interval per axis:
//! entry and exit times on each axis are exact fractions over the positive
//! denominator `|direction|`, compared by cross-multiplication. A moving box
//! against a static box reduces to one slab test from the moving box's
//! center against the static box expanded by the moving box's half extents;
//! to stay on integers, that reduction works in coordinates scaled by
//! `2 * elapsed.den`, which leaves every time ratio unchanged.

use crate::math::frac::{Frac, FracVec2, Rat, rat_add, rat_mul};
use crate::math::rect::Rect;
use crate::math::vec::{SCALE, Vec2};
use vstd::prelude::*;

verus! {

/// Largest coordinate magnitude the collision layer accepts; positions,
/// sizes and velocities must stay within it so that the scaled slab
/// arithmetic fits in `i128`.
pub const COORD_BOUND: i64 = 0x80_0000_0000;

/// Largest numerator and denominator accepted for an elapsed-time fraction.
pub const ELAPSED_BOUND: i128 = 0x10_0000;

/// A coordinate the collision layer accepts.
pub open spec fn in_bounds(v: int) -> bool {
    -(COORD_BOUND as int) <= v <= COORD_BOUND as int
}

/// Both components of a vector are in range.
pub open spec fn vec_in_bounds(v: Vec2) -> bool {
    in_bounds(v.x as int) && in_bounds(v.y as int)
}

/// Position in range and size components non-negative and in range.
pub open spec fn rect_in_bounds(r: Rect) -> bool {
    &&& vec_in_bounds(r.pos)
    &&& 0 <= r.size.x <= COORD_BOUND
    &&& 0 <= r.size.y <= COORD_BOUND
}

/// A positive elapsed time whose numerator and denominator are in range.
pub open spec fn elapsed_in_bounds(dt: Frac) -> bool {
    &&& 1 <= dt.num <= ELAPSED_BOUND
    &&& 1 <= dt.den <= ELAPSED_BOUND
}

/// `n1 / d1 <= n2 / d2` by cross-multiplication, for positive denominators.
pub open spec fn frac_le_parts(n1: int, d1: int, n2: int, d2: int) -> bool {
    n1 * d2 <= n2 * d1
}

/// `n1 / d1 < n2 / d2` by cross-multiplication, for positive denominators.
pub open spec fn frac_lt_parts(n1: int, d1: int, n2: int, d2: int) -> bool {
    n1 * d2 < n2 * d1
}

/// The product `k * v`.
pub open spec fn scaled(k: int, v: int) -> int {
    k * v
}

/// The numerator of `origin + dir * (t_num / t_den)` over denominator
/// `t_den`.
pub open spec fn point_num(o: int, d: int, t_num: int, t_den: int) -> int {
    o * t_den + d * t_num
}

/// One slab-test instance over the mathematical integers: a ray from
/// `(ox, oy)` along `(dx, dy)` against the box at `(px, py)` of size
/// `(sx, sy)`.
pub struct SlabQuery {
    pub ox: int,
    pub oy: int,
    pub dx: int,
    pub dy: int,
    pub px: int,
    pub py: int,
    pub sx: int,
    pub sy: int,
}

impl SlabQuery {
    /// Numerator of the x entry time over denominator `den_x`.
    pub open spec fn near_x(self) -> int {
        if self.dx > 0 {
            self.px - self.ox
        } else {
            -(self.px + self.sx - self.ox)
        }
    }

    /// Numerator of the x exit time over denominator `den_x`.
    pub open spec fn far_x(self) -> int {
        if self.dx > 0 {
            self.px + self.sx - self.ox
        } else {
            -(self.px - self.ox)
        }
    }

    /// Positive denominator of the x times: `|dx|`.
    pub open spec fn den_x(self) -> int {
        if self.dx >= 0 {
            self.dx
        } else {
            -self.dx
        }
    }

    /// Numerator of the y entry time over denominator `den_y`.
    pub open spec fn near_y(self) -> int {
        if self.dy > 0 {
            self.py - self.oy
        } else {
            -(self.py + self.sy - self.oy)
        }
    }

    /// Numerator of the y exit time over denominator `den_y`.
    pub open spec fn far_y(self) -> int {
        if self.dy > 0 {
            self.py + self.sy - self.oy
        } else {
            -(self.py - self.oy)
        }
    }

    /// Positive denominator of the y times: `|dy|`.
    pub open spec fn den_y(self) -> int {
        if self.dy >= 0 {
            self.dy
        } else {
            -self.dy
        }
    }

    /// A ray parallel to the x axis passes the x slab when its origin lies
    /// in the slab's closed extent.
    pub open spec fn x_parallel_pass(self) -> bool {
        self.px <= self.ox <= self.px + self.sx
    }

    /// A ray parallel to the y axis passes the y slab when its origin lies
    /// in the slab's closed extent.
    pub open spec fn y_parallel_pass(self) -> bool {
        self.py <= self.oy <= self.py + self.sy
    }

    /// The ray reaches the box: the per-axis parameter intervals overlap
    /// and the overlap does not lie entirely behind the origin. A ray with
    /// no direction at all hits nothing.
    pub open spec fn hits(self) -> bool {
        if self.dx == 0 && self.dy == 0 {
            false
        } else if self.dx == 0 {
            self.x_parallel_pass() && self.far_y() >= 0
        } else if self.dy == 0 {
            self.y_parallel_pass() && self.far_x() >= 0
        } else {
            &&& frac_le_parts(self.near_x(), self.den_x(), self.far_y(), self.den_y())
            &&& frac_le_parts(self.near_y(), self.den_y(), self.far_x(), self.den_x())
            &&& self.far_x() >= 0
            &&& self.far_y() >= 0
        }
    }

    /// The x axis supplies the entry time: its entry is at least the y
    /// entry. An axis parallel to the ray never binds.
    pub open spec fn x_binds(self) -> bool {
        if self.dx == 0 {
            false
        } else if self.dy == 0 {
            true
        } else {
            frac_le_parts(self.near_y(), self.den_y(), self.near_x(), self.den_x())
        }
    }

    /// Numerator of the entry time `t_hit_near`.
    pub open spec fn t_num(self) -> int {
        if self.x_binds() {
            self.near_x()
        } else {
            self.near_y()
        }
    }

    /// Positive denominator of the entry time `t_hit_near`.
    pub open spec fn t_den(self) -> int {
        if self.x_binds() {
            self.den_x()
        } else {
            self.den_y()
        }
    }

    /// x component of the contact normal, in `{-1, 0, 1}`: set against the
    /// ray's x direction when the x entry time is strictly the later one,
    /// zero on a tie (the corner case leaves the normal unresolved) and
    /// zero when the x axis is parallel to the ray.
    pub open spec fn normal_x(self) -> int {
        if self.dx == 0 {
            0
        } else if self.dy == 0 {
            if self.dx < 0 {
                1
            } else {
                -1
            }
        } else if frac_lt_parts(self.near_y(), self.den_y(), self.near_x(), self.den_x()) {
            if self.dx < 0 {
                1
            } else {
                -1
            }
        } else {
            0
        }
    }

    /// y component of the contact normal, in `{-1, 0, 1}`; symmetric to
    /// [`SlabQuery::normal_x`].
    pub open spec fn normal_y(self) -> int {
        if self.dy == 0 {
            0
        } else if self.dx == 0 {
            if self.dy < 0 {
                1
            } else {
                -1
            }
        } else if frac_lt_parts(self.near_x(), self.den_x(), self.near_y(), self.den_y()) {
            if self.dy < 0 {
                1
            } else {
                -1
            }
        } else {
            0
        }
    }

    /// Numerator of the contact point's x coordinate over denominator
    /// `t_den()`.
    pub open spec fn point_x_num(self) -> int {
        point_num(self.ox, self.dx, self.t_num(), self.t_den())
    }

    /// Numerator of the contact point's y coordinate over denominator
    /// `t_den()`.
    pub open spec fn point_y_num(self) -> int {
        point_num(self.oy, self.dy, self.t_num(), self.t_den())
    }
}

/// The slab query posed by [`ray_vs_rect`].
pub open spec fn ray_query(origin: Vec2, dir: Vec2, target: Rect) -> SlabQuery {
    SlabQuery {
        ox: origin.x as int,
        oy: origin.y as int,
        dx: dir.x as int,
        dy: dir.y as int,
        px: target.pos.x as int,
        py: target.pos.y as int,
        sx: target.size.x as int,
        sy: target.size.y as int,
    }
}

/// The slab query posed by [`dynamic_rect_vs_rect`]: the ray from the
/// moving box's center along `vel * elapsed`, against the static box grown
/// by the moving box's half extents, everything scaled by
/// `2 * elapsed.den` to stay on integers.
pub open spec fn swept_query(moving: Rect, target: Rect, elapsed: Frac) -> SlabQuery {
    SlabQuery {
        ox: scaled(elapsed.den as int, 2 * moving.pos.x + moving.size.x),
        oy: scaled(elapsed.den as int, 2 * moving.pos.y + moving.size.y),
        dx: scaled(2 * elapsed.num, moving.vel.x as int),
        dy: scaled(2 * elapsed.num, moving.vel.y as int),
        px: scaled(elapsed.den as int, 2 * target.pos.x - moving.size.x),
        py: scaled(elapsed.den as int, 2 * target.pos.y - moving.size.y),
        sx: scaled(2 * elapsed.den, target.size.x + moving.size.x),
        sy: scaled(2 * elapsed.den, target.size.y + moving.size.y),
    }
}

/// The moving rectangle stands strictly clear of the static one: their
/// closed extents are disjoint on at least one axis. Equivalently, the
/// moving rectangle's center starts outside the closed expanded box that
/// the swept test shoots its ray at.
pub open spec fn starts_separated(moving: Rect, target: Rect) -> bool {
    ||| moving.pos.x + moving.size.x < target.pos.x
    ||| moving.pos.x > target.pos.x + target.size.x
    ||| moving.pos.y + moving.size.y < target.pos.y
    ||| moving.pos.y > target.pos.y + target.size.y
}

/// A reported collision: where, against which face, and when. The normal
/// is a unit vector on the fixed-point grid, or the zero vector when a
/// corner-exact hit leaves it unresolved. Times and point coordinates are
/// exact fractions.
#[derive(Clone, Copy, PartialEq, Eq, Structural, Debug)]
pub struct Contact {
    pub contact_point: FracVec2,
    pub contact_normal: Vec2,
    pub contact_time: Frac,
}

/// The product of values within the given magnitudes stays within their
/// product.
pub proof fn lemma_mul_le(a: int, b: int, ma: int, mb: int)
    requires
        -ma <= a <= ma,
        -mb <= b <= mb,
        0 <= ma,
        0 <= mb,
    ensures
        -(ma * mb) <= a * b <= ma * mb,
{
    assert(-(ma * mb) <= a * b <= ma * mb) by (nonlinear_arith)
        requires
            -ma <= a <= ma,
            -mb <= b <= mb,
            0 <= ma,
            0 <= mb,
    ;
}

/// One hit of the integer slab core: entry time and contact point as
/// fractions over `t_den`, and the unit normal components.
struct SlabHit {
    t_num: i128,
    t_den: i128,
    point_x_num: i128,
    point_y_num: i128,
    nx: i64,
    ny: i64,
}

/// `n1 / d1 <= n2 / d2` for positive denominators, by cross-multiplication.
fn le_parts(n1: i128, d1: i128, n2: i128, d2: i128) -> (r: bool)
    requires
        -0x8000_0000_0000_0000 <= n1 <= 0x8000_0000_0000_0000,
        -0x8000_0000_0000_0000 <= n2 <= 0x8000_0000_0000_0000,
        0 <= d1 <= 0x4000_0000_0000_0000,
        0 <= d2 <= 0x4000_0000_0000_0000,
    ensures
        r == frac_le_parts(n1 as int, d1 as int, n2 as int, d2 as int),
{
    proof {
        lemma_mul_le(n1 as int, d2 as int, 0x8000_0000_0000_0000, 0x4000_0000_0000_0000);
        lemma_mul_le(n2 as int, d1 as int, 0x8000_0000_0000_0000, 0x4000_0000_0000_0000);
    }
    n1 * d2 <= n2 * d1
}

/// `n1 / d1 < n2 / d2` for positive denominators, by cross-multiplication.
fn lt_parts(n1: i128, d1: i128, n2: i128, d2: i128) -> (r: bool)
    requires
        -0x8000_0000_0000_0000 <= n1 <= 0x8000_0000_0000_0000,
        -0x8000_0000_0000_0000 <= n2 <= 0x8000_0000_0000_0000,
        0 <= d1 <= 0x4000_0000_0000_0000,
        0 <= d2 <= 0x4000_0000_0000_0000,
    ensures
        r == frac_lt_parts(n1 as int, d1 as int, n2 as int, d2 as int),
{
    proof {
        lemma_mul_le(n1 as int, d2 as int, 0x8000_0000_0000_0000, 0x4000_0000_0000_0000);
        lemma_mul_le(n2 as int, d1 as int, 0x8000_0000_0000_0000, 0x4000_0000_0000_0000);
    }
    n1 * d2 < n2 * d1
}

/// The numerator of `origin + dir * t` over the time's denominator.
fn point_num_exec(o: i128, d: i128, t_num: i128, t_den: i128) -> (r: i128)
    requires
        -0x4000_0000_0000_0000 <= o <= 0x4000_0000_0000_0000,
        -0x4000_0000_0000_0000 <= d <= 0x4000_0000_0000_0000,
        -0x8000_0000_0000_0000 <= t_num <= 0x8000_0000_0000_0000,
        0 <= t_den <= 0x4000_0000_0000_0000,
    ensures
        r == point_num(o as int, d as int, t_num as int, t_den as int),
{
    proof {
        lemma_mul_le(o as int, t_den as int, 0x4000_0000_0000_0000, 0x4000_0000_0000_0000);
        lemma_mul_le(d as int, t_num as int, 0x4000_0000_0000_0000, 0x8000_0000_0000_0000);
    }
    o * t_den + d * t_num
}

/// The slab test on integer coordinates. Arguments are the ray origin,
/// the ray direction and the box position and size, each within
/// `2^62` so that the cross-multiplied comparisons fit in `i128`.
fn slab_test(ox: i128, oy: i128, dx: i128, dy: i128, px: i128, py: i128, sx: i128, sy: i128) -> (r:
    Option<SlabHit>)
    requires
        !(dx == 0 && dy == 0),
        0 <= sx,
        0 <= sy,
        -0x4000_0000_0000_0000 <= ox <= 0x4000_0000_0000_0000,
        -0x4000_0000_0000_0000 <= oy <= 0x4000_0000_0000_0000,
        -0x4000_0000_0000_0000 <= dx <= 0x4000_0000_0000_0000,
        -0x4000_0000_0000_0000 <= dy <= 0x4000_0000_0000_0000,
        -0x4000_0000_0000_0000 <= px,
        px + sx <= 0x4000_0000_0000_0000,
        -0x4000_0000_0000_0000 <= py,
        py + sy <= 0x4000_0000_0000_0000,
    ensures
        ({
            let q = SlabQuery {
                ox: ox as int,
                oy: oy as int,
                dx: dx as int,
                dy: dy as int,
                px: px as int,
                py: py as int,
                sx: sx as int,
                sy: sy as int,
            };
            &&& (r is Some <==> q.hits())
            &&& (r matches Some(h) ==> {
                &&& h.t_num == q.t_num()
                &&& h.t_den == q.t_den()
                &&& h.t_den > 0
                &&& h.t_den <= 0x4000_0000_0000_0000
                &&& -0x8000_0000_0000_0000 <= h.t_num <= 0x8000_0000_0000_0000
                &&& h.point_x_num == q.point_x_num()
                &&& h.point_y_num == q.point_y_num()
                &&& h.nx == q.normal_x()
                &&& h.ny == q.normal_y()
            })
        }),
{
    let ghost q = SlabQuery {
        ox: ox as int,
        oy: oy as int,
        dx: dx as int,
        dy: dy as int,
        px: px as int,
        py: py as int,
        sx: sx as int,
        sy: sy as int,
    };
    if dx == 0 {
        // The ray runs parallel to the x slab: it passes only when the
        // origin lies within the slab's closed extent, and the times come
        // from the y axis alone.
        if !(px <= ox && ox <= px + sx) {
            return None;
        }
        let nn_y: i128 = if dy > 0 { py - oy } else { -(py + sy - oy) };
        let ff_y: i128 = if dy > 0 { py + sy - oy } else { -(py - oy) };
        let td_y: i128 = if dy >= 0 { dy } else { -dy };
        proof {
            assert(nn_y == q.near_y() && ff_y == q.far_y() && td_y == q.den_y());
        }
        if ff_y < 0 {
            return None;
        }
        let nyv: i64 = if dy < 0 { 1 } else { -1 };
        let cpx: i128 = point_num_exec(ox, dx, nn_y, td_y);
        let cpy: i128 = point_num_exec(oy, dy, nn_y, td_y);
        Some(SlabHit { t_num: nn_y, t_den: td_y, point_x_num: cpx, point_y_num: cpy, nx: 0, ny: nyv })
    } else if dy == 0 {
        // Symmetric: the ray runs parallel to the y slab.
        if !(py <= oy && oy <= py + sy) {
            return None;
        }
        let nn_x: i128 = if dx > 0 { px - ox } else { -(px + sx - ox) };
        let ff_x: i128 = if dx > 0 { px + sx - ox } else { -(px - ox) };
        let td_x: i128 = if dx >= 0 { dx } else { -dx };
        proof {
            assert(nn_x == q.near_x() && ff_x == q.far_x() && td_x == q.den_x());
        }
        if ff_x < 0 {
            return None;
        }
        let nxv: i64 = if dx < 0 { 1 } else { -1 };
        let cpx: i128 = point_num_exec(ox, dx, nn_x, td_x);
        let cpy: i128 = point_num_exec(oy, dy, nn_x, td_x);
        Some(SlabHit { t_num: nn_x, t_den: td_x, point_x_num: cpx, point_y_num: cpy, nx: nxv, ny: 0 })
    } else {
        let nn_x: i128 = if dx > 0 { px - ox } else { -(px + sx - ox) };
        let ff_x: i128 = if dx > 0 { px + sx - ox } else { -(px - ox) };
        let td_x: i128 = if dx >= 0 { dx } else { -dx };
        let nn_y: i128 = if dy > 0 { py - oy } else { -(py + sy - oy) };
        let ff_y: i128 = if dy > 0 { py + sy - oy } else { -(py - oy) };
        let td_y: i128 = if dy >= 0 { dy } else { -dy };
        proof {
            assert(nn_x == q.near_x() && ff_x == q.far_x() && td_x == q.den_x());
            assert(nn_y == q.near_y() && ff_y == q.far_y() && td_y == q.den_y());
        }
        // The intervals must overlap: reject when one axis enters only
        // after the other has already been left.
        if !le_parts(nn_x, td_x, ff_y, td_y) || !le_parts(nn_y, td_y, ff_x, td_x) {
            return None;
        }
        // Reject an overlap that lies entirely behind the ray origin.
        if ff_x < 0 || ff_y < 0 {
            return None;
        }
        // The later entry binds; on an exact tie both normal components
        // stay zero.
        let xb: bool = le_parts(nn_y, td_y, nn_x, td_x);
        let tn: i128 = if xb { nn_x } else { nn_y };
        let td: i128 = if xb { td_x } else { td_y };
        let x_strict: bool = lt_parts(nn_y, td_y, nn_x, td_x);
        let y_strict: bool = lt_parts(nn_x, td_x, nn_y, td_y);
        let nxv: i64 = if x_strict {
            if dx < 0 { 1 } else { -1 }
        } else {
            0
        };
        let nyv: i64 = if y_strict {
            if dy < 0 { 1 } else { -1 }
        } else {
            0
        };
        let cpx: i128 = point_num_exec(ox, dx, tn, td);
        let cpy: i128 = point_num_exec(oy, dy, tn, td);
        Some(SlabHit { t_num: tn, t_den: td, point_x_num: cpx, point_y_num: cpy, nx: nxv, ny: nyv })
    }
}

/// Slab test of a ray against a rectangle.
///
/// The direction need not be normalized: a time of one means the whole
/// direction vector has been travelled, so a direction of `velocity * dt`
/// makes the times fractions of that step. On a hit, the contact carries
/// the entry time (which may be negative when the origin starts inside the
/// box), the contact point `origin + dir * time` as exact fractions, and
/// the axis-aligned unit normal — the zero vector when the two axes tie
/// corner-exactly, which this crate reports explicitly rather than leaving
/// the normal to the caller's previous state. An axis on which the
/// direction is zero never rejects the ray while the origin lies in that
/// axis' closed slab, and never supplies the normal.
pub fn ray_vs_rect(ray_origin: &Vec2, ray_dir: &Vec2, target: &Rect) -> (r: Option<Contact>)
    requires
        vec_in_bounds(*ray_origin),
        vec_in_bounds(*ray_dir),
        rect_in_bounds(*target),
        !(ray_dir.x == 0 && ray_dir.y == 0),
    ensures
        ({
            let q = ray_query(*ray_origin, *ray_dir, *target);
            &&& (r is Some <==> q.hits())
            &&& (r matches Some(c) ==> {
                &&& c.contact_time.num == q.t_num()
                &&& c.contact_time.den == q.t_den()
                &&& c.contact_time.wf()
                &&& c.contact_point.x.num == q.point_x_num()
                &&& c.contact_point.x.den == q.t_den()
                &&& c.contact_point.y.num == q.point_y_num()
                &&& c.contact_point.y.den == q.t_den()
                &&& c.contact_normal.x == q.normal_x() * SCALE
                &&& c.contact_normal.y == q.normal_y() * SCALE
            })
        }),
{
    let ghost q = ray_query(*ray_origin, *ray_dir, *target);
    let res: Option<SlabHit> = slab_test(
        ray_origin.x as i128,
        ray_origin.y as i128,
        ray_dir.x as i128,
        ray_dir.y as i128,
        target.pos.x as i128,
        target.pos.y as i128,
        target.size.x as i128,
        target.size.y as i128,
    );
    match res {
        None => None,
        Some(h) => {
            proof {
                assert(-1 <= q.normal_x() <= 1);
                assert(-1 <= q.normal_y() <= 1);
            }
            Some(
                Contact {
                    contact_point: FracVec2 {
                        x: Frac { num: h.point_x_num, den: h.t_den },
                        y: Frac { num: h.point_y_num, den: h.t_den },
                    },
                    contact_normal: Vec2 { x: h.nx * SCALE, y: h.ny * SCALE },
                    contact_time: Frac { num: h.t_num, den: h.t_den },
                },
            )
        },
    }
}

/// The product `k * v` for a small non-negative factor and a moderate
/// signed value.
fn mul_scaled(k: i128, v: i128) -> (r: i128)
    requires
        0 <= k <= 0x20_0000,
        -0x400_0000_0000 <= v <= 0x400_0000_0000,
    ensures
        r == scaled(k as int, v as int),
{
    proof {
        lemma_mul_le(k as int, v as int, 0x20_0000, 0x400_0000_0000);
    }
    k * v
}

/// The product `k * v` for small and wide non-negative factors.
fn mul_wide(k: i128, v: i128) -> (r: i128)
    requires
        0 <= k <= 0x20_0000,
        0 <= v <= 0x4000_0000_0000_0000,
    ensures
        r == scaled(k as int, v as int),
{
    proof {
        lemma_mul_le(k as int, v as int, 0x20_0000, 0x4000_0000_0000_0000);
    }
    k * v
}

/// A non-negative scale factor keeps a value within the product of the
/// two magnitudes.
proof fn lemma_scaled_bounds(k: int, v: int, mk: int, mv: int)
    requires
        0 <= k <= mk,
        -mv <= v <= mv,
        0 <= mv,
    ensures
        -(mk * mv) <= scaled(k, v) <= mk * mv,
{
    assert(-(mk * mv) <= k * v <= mk * mv) by (nonlinear_arith)
        requires
            0 <= k <= mk,
            -mv <= v <= mv,
            0 <= mv,
    ;
}

/// Swept test of a moving rectangle against a static one.
///
/// Returns a contact exactly when the moving rectangle, travelling by
/// `vel * elapsed_time` this tick, first touches the static rectangle at a
/// time strictly before the end of the tick. A moving rectangle with zero
/// velocity never collides, whatever the elapsed time. The contact time is
/// the fraction of the tick's motion at which contact happens, and the
/// contact point is where the moving rectangle's center is at that moment,
/// both exact.
pub fn dynamic_rect_vs_rect(r_dynamic: &Rect, r_static: &Rect, elapsed_time: &Frac) -> (r: Option<
    Contact,
>)
    requires
        rect_in_bounds(*r_dynamic),
        rect_in_bounds(*r_static),
        vec_in_bounds(r_dynamic.vel),
        elapsed_in_bounds(*elapsed_time),
    ensures
        ({
            let q = swept_query(*r_dynamic, *r_static, *elapsed_time);
            &&& (r is Some <==> {
                &&& !(r_dynamic.vel.x == 0 && r_dynamic.vel.y == 0)
                &&& q.hits()
                &&& q.t_num() < q.t_den()
            })
            &&& (r matches Some(c) ==> {
                &&& c.contact_time.num == q.t_num()
                &&& c.contact_time.den == q.t_den()
                &&& c.contact_time.num < c.contact_time.den
                &&& c.contact_time.wf()
                &&& c.contact_time.den <= 0x4000_0000_0000_0000
                &&& -0x8000_0000_0000_0000 <= c.contact_time.num <= 0x8000_0000_0000_0000
                &&& c.contact_point.x.num == q.point_x_num()
                &&& c.contact_point.x.den == scaled(2 * elapsed_time.den, q.t_den())
                &&& c.contact_point.y.num == q.point_y_num()
                &&& c.contact_point.y.den == scaled(2 * elapsed_time.den, q.t_den())
                &&& c.contact_point.x.wf()
                &&& c.contact_point.y.wf()
                &&& c.contact_normal.x == q.normal_x() * SCALE
                &&& c.contact_normal.y == q.normal_y() * SCALE
            })
        }),
        (r_dynamic.vel.x == 0 && r_dynamic.vel.y == 0) ==> r is None,
{
    // No motion means no new collision this tick.
    if r_dynamic.vel.x == 0 && r_dynamic.vel.y == 0 {
        return None;
    }
    let ghost q = swept_query(*r_dynamic, *r_static, *elapsed_time);
    let ed: i128 = elapsed_time.den;
    let en2: i128 = 2 * elapsed_time.num;
    let ox: i128 = mul_scaled(ed, 2 * (r_dynamic.pos.x as i128) + (r_dynamic.size.x as i128));
    let oy: i128 = mul_scaled(ed, 2 * (r_dynamic.pos.y as i128) + (r_dynamic.size.y as i128));
    let dx: i128 = mul_scaled(en2, r_dynamic.vel.x as i128);
    let dy: i128 = mul_scaled(en2, r_dynamic.vel.y as i128);
    let px: i128 = mul_scaled(ed, 2 * (r_static.pos.x as i128) - (r_dynamic.size.x as i128));
    let py: i128 = mul_scaled(ed, 2 * (r_static.pos.y as i128) - (r_dynamic.size.y as i128));
    let sx: i128 = mul_scaled(2 * ed, (r_static.size.x as i128) + (r_dynamic.size.x as i128));
    let sy: i128 = mul_scaled(2 * ed, (r_static.size.y as i128) + (r_dynamic.size.y as i128));
    proof {
        lemma_scaled_bounds(ed as int, 2 * r_dynamic.pos.x + r_dynamic.size.x, 0x10_0000, 0x180_0000_0000);
        lemma_scaled_bounds(ed as int, 2 * r_dynamic.pos.y + r_dynamic.size.y, 0x10_0000, 0x180_0000_0000);
        lemma_scaled_bounds(en2 as int, r_dynamic.vel.x as int, 0x20_0000, 0x80_0000_0000);
        lemma_scaled_bounds(en2 as int, r_dynamic.vel.y as int, 0x20_0000, 0x80_0000_0000);
        lemma_scaled_bounds(ed as int, 2 * r_static.pos.x - r_dynamic.size.x, 0x10_0000, 0x180_0000_0000);
        lemma_scaled_bounds(ed as int, 2 * r_static.pos.y - r_dynamic.size.y, 0x10_0000, 0x180_0000_0000);
        lemma_scaled_bounds(2 * ed as int, r_static.size.x + r_dynamic.size.x, 0x20_0000, 0x100_0000_0000);
        lemma_scaled_bounds(2 * ed as int, r_static.size.y + r_dynamic.size.y, 0x20_0000, 0x100_0000_0000);
        assert(px as int + sx as int == scaled(
            ed as int,
            2 * r_static.pos.x + 2 * r_static.size.x + r_dynamic.size.x,
        )) by (nonlinear_arith)
            requires
                px == scaled(ed as int, 2 * r_static.pos.x - r_dynamic.size.x),
                sx == scaled(2 * ed as int, r_static.size.x + r_dynamic.size.x),
        ;
        assert(py as int + sy as int == scaled(
            ed as int,
            2 * r_static.pos.y + 2 * r_static.size.y + r_dynamic.size.y,
        )) by (nonlinear_arith)
            requires
                py == scaled(ed as int, 2 * r_static.pos.y - r_dynamic.size.y),
                sy == scaled(2 * ed as int, r_static.size.y + r_dynamic.size.y),
        ;
        lemma_scaled_bounds(
            ed as int,
            2 * r_static.pos.x + 2 * r_static.size.x + r_dynamic.size.x,
            0x10_0000,
            0x280_0000_0000,
        );
        lemma_scaled_bounds(
            ed as int,
            2 * r_static.pos.y + 2 * r_static.size.y + r_dynamic.size.y,
            0x10_0000,
            0x280_0000_0000,
        );
        assert(sx >= 0) by (nonlinear_arith)
            requires
                sx == scaled(2 * ed as int, r_static.size.x + r_dynamic.size.x),
                ed >= 1,
                r_static.size.x >= 0,
                r_dynamic.size.x >= 0,
        ;
        assert(sy >= 0) by (nonlinear_arith)
            requires
                sy == scaled(2 * ed as int, r_static.size.y + r_dynamic.size.y),
                ed >= 1,
                r_static.size.y >= 0,
                r_dynamic.size.y >= 0,
        ;
        assert(!(dx == 0 && dy == 0)) by (nonlinear_arith)
            requires
                dx == scaled(en2 as int, r_dynamic.vel.x as int),
                dy == scaled(en2 as int, r_dynamic.vel.y as int),
                en2 >= 2,
                !(r_dynamic.vel.x == 0 && r_dynamic.vel.y == 0),
        ;
        assert(q == SlabQuery {
            ox: ox as int,
            oy: oy as int,
            dx: dx as int,
            dy: dy as int,
            px: px as int,
            py: py as int,
            sx: sx as int,
            sy: sy as int,
        });
    }
    let res: Option<SlabHit> = slab_test(ox, oy, dx, dy, px, py, sx, sy);
    match res {
        None => None,
        Some(h) => {
            if h.t_num < h.t_den {
                let pden: i128 = mul_wide(2 * ed, h.t_den);
                proof {
                    assert(-1 <= q.normal_x() <= 1);
                    assert(-1 <= q.normal_y() <= 1);
                    assert(pden > 0) by (nonlinear_arith)
                        requires
                            pden == scaled(2 * ed as int, h.t_den as int),
                            ed >= 1,
                            h.t_den > 0,
                    ;
                }
                Some(
                    Contact {
                        contact_point: FracVec2 {
                            x: Frac { num: h.point_x_num, den: pden },
                            y: Frac { num: h.point_y_num, den: pden },
                        },
                        contact_normal: Vec2 { x: h.nx * SCALE, y: h.ny * SCALE },
                        contact_time: Frac { num: h.t_num, den: h.t_den },
                    },
                )
            } else {
                None
            }
        },
    }
}

/// A negative entry time with a non-negative exit time on the x axis means
/// the ray origin lies in that axis' closed slab.
proof fn lemma_negative_entry_contained_x(q: SlabQuery)
    requires
        q.dx != 0,
        q.near_x() < 0,
        q.far_x() >= 0,
    ensures
        q.px <= q.ox <= q.px + q.sx,
{
}

/// A negative entry time with a non-negative exit time on the y axis means
/// the ray origin lies in that axis' closed slab.
proof fn lemma_negative_entry_contained_y(q: SlabQuery)
    requires
        q.dy != 0,
        q.near_y() < 0,
        q.far_y() >= 0,
    ensures
        q.py <= q.oy <= q.py + q.sy,
{
}

/// A fraction at most a negative fraction is itself negative.
proof fn lemma_num_sign(n1: int, d1: int, n2: int, d2: int)
    requires
        n1 * d2 <= n2 * d1,
        n2 < 0,
        d1 >= 1,
        d2 >= 1,
    ensures
        n1 < 0,
{
    assert(n1 < 0) by (nonlinear_arith)
        requires
            n1 * d2 <= n2 * d1,
            n2 < 0,
            d1 >= 1,
            d2 >= 1,
    ;
}

/// A swept contact reported by [`dynamic_rect_vs_rect`] happens within the
/// tick: the contact time is below one by construction, and it is not
/// negative provided the moving rectangle starts strictly clear of the
/// obstacle. (A moving rectangle already overlapping the expanded obstacle
/// gets the slab test's negative entry time, pointing back to where the
/// overlap began.)
pub proof fn lemma_contact_time_in_tick(d: Rect, s: Rect, dt: Frac, c: Contact)
    requires
        elapsed_in_bounds(dt),
        starts_separated(d, s),
        ({
            let q = swept_query(d, s, dt);
            &&& q.hits()
            &&& c.contact_time.num == q.t_num()
            &&& c.contact_time.den == q.t_den()
            &&& c.contact_time.num < c.contact_time.den
        }),
    ensures
        0 <= c.contact_time.num < c.contact_time.den,
{
    let q = swept_query(d, s, dt);
    if c.contact_time.num < 0 {
        // The binding entry time is negative; show the origin then lies in
        // both closed slabs, contradicting the separation premise.
        if q.dx == 0 {
            assert(q.px <= q.ox <= q.px + q.sx);
            lemma_negative_entry_contained_y(q);
        } else if q.dy == 0 {
            assert(q.py <= q.oy <= q.py + q.sy);
            lemma_negative_entry_contained_x(q);
        } else {
            if q.x_binds() {
                lemma_num_sign(q.near_y(), q.den_y(), q.near_x(), q.den_x());
            } else {
                lemma_num_sign(q.near_x(), q.den_x(), q.near_y(), q.den_y());
            }
            lemma_negative_entry_contained_x(q);
            lemma_negative_entry_contained_y(q);
        }
        assert(s.pos.x <= d.pos.x + d.size.x) by (nonlinear_arith)
            requires
                (dt.den as int) * (2 * s.pos.x - d.size.x) <= (dt.den as int) * (2 * d.pos.x
                    + d.size.x),
                dt.den >= 1,
        ;
        assert(d.pos.x <= s.pos.x + s.size.x) by (nonlinear_arith)
            requires
                (dt.den as int) * (2 * d.pos.x + d.size.x) <= (dt.den as int) * (2 * s.pos.x
                    - d.size.x) + (2 * dt.den) * (s.size.x + d.size.x),
                dt.den >= 1,
        ;
        assert(s.pos.y <= d.pos.y + d.size.y) by (nonlinear_arith)
            requires
                (dt.den as int) * (2 * s.pos.y - d.size.y) <= (dt.den as int) * (2 * d.pos.y
                    + d.size.y),
                dt.den >= 1,
        ;
        assert(d.pos.y <= s.pos.y + s.size.y) by (nonlinear_arith)
            requires
                (dt.den as int) * (2 * d.pos.y + d.size.y) <= (dt.den as int) * (2 * s.pos.y
                    - d.size.y) + (2 * dt.den) * (s.size.y + d.size.y),
                dt.den >= 1,
        ;
        assert(false);
    }
}

/// A swept contact's point lies exactly on the moving center's path:
/// `point == center + vel * elapsed_time * contact_time`, as unbounded
/// rationals, in both coordinates.
pub proof fn lemma_contact_point_on_path(d: Rect, s: Rect, dt: Frac, c: Contact)
    requires
        ({
            let q = swept_query(d, s, dt);
            &&& c.contact_time.num == q.t_num()
            &&& c.contact_time.den == q.t_den()
            &&& c.contact_point.x.num == q.point_x_num()
            &&& c.contact_point.x.den == scaled(2 * dt.den, q.t_den())
            &&& c.contact_point.y.num == q.point_y_num()
            &&& c.contact_point.y.den == scaled(2 * dt.den, q.t_den())
        }),
    ensures
        c.contact_point.x@ == rat_add(
            Rat { num: 2 * d.pos.x + d.size.x, den: 2 },
            rat_mul(Rat { num: d.vel.x * dt.num, den: dt.den as int }, c.contact_time@),
        ),
        c.contact_point.y@ == rat_add(
            Rat { num: 2 * d.pos.y + d.size.y, den: 2 },
            rat_mul(Rat { num: d.vel.y * dt.num, den: dt.den as int }, c.contact_time@),
        ),
    {
    let q = swept_query(d, s, dt);
    let tn: int = q.t_num();
    let td: int = q.t_den();
    assert(c.contact_point.x.num as int == (2 * d.pos.x + d.size.x) * ((dt.den as int) * td) + (
    (d.vel.x * dt.num) * tn) * 2) by (nonlinear_arith)
        requires
            c.contact_point.x.num as int == ((dt.den as int) * (2 * d.pos.x + d.size.x)) * td + (
            (2 * dt.num) * (d.vel.x as int)) * tn,
    ;
    assert(c.contact_point.y.num as int == (2 * d.pos.y + d.size.y) * ((dt.den as int) * td) + (
    (d.vel.y * dt.num) * tn) * 2) by (nonlinear_arith)
        requires
            c.contact_point.y.num as int == ((dt.den as int) * (2 * d.pos.y + d.size.y)) * td + (
            (2 * dt.num) * (d.vel.y as int)) * tn,
    ;
    assert(c.contact_point.x.den as int == 2 * ((dt.den as int) * td) && c.contact_point.y.den
        as int == 2 * ((dt.den as int) * td)) by (nonlinear_arith)
        requires
            c.contact_point.x.den as int == (2 * dt.den) * td,
            c.contact_point.y.den as int == (2 * dt.den) * td,
    ;
}

/// A ray contact's point lies exactly on the ray:
/// `point == origin + dir * t_hit`, as unbounded rationals, in both
/// coordinates.
pub proof fn lemma_ray_point_on_ray(origin: Vec2, dir: Vec2, target: Rect, c: Contact)
    requires
        ({
            let q = ray_query(origin, dir, target);
            &&& c.contact_time.num == q.t_num()
            &&& c.contact_time.den == q.t_den()
            &&& c.contact_point.x.num == q.point_x_num()
            &&& c.contact_point.x.den == q.t_den()
            &&& c.contact_point.y.num == q.point_y_num()
            &&& c.contact_point.y.den == q.t_den()
        }),
    ensures
        c.contact_point.x@ == rat_add(
            Rat { num: origin.x as int, den: 1 },
            rat_mul(Rat { num: dir.x as int, den: 1 }, c.contact_time@),
        ),
        c.contact_point.y@ == rat_add(
            Rat { num: origin.y as int, den: 1 },
            rat_mul(Rat { num: dir.y as int, den: 1 }, c.contact_time@),
        ),
{
    let q = ray_query(origin, dir, target);
    let tn: int = q.t_num();
    let td: int = q.t_den();
    assert(c.contact_point.x.num as int == (origin.x as int) * (1 * td) + ((dir.x as int) * tn)
        * 1 && c.contact_point.x.den as int == 1 * (1 * td)) by (nonlinear_arith)
        requires
            c.contact_point.x.num as int == (origin.x as int) * td + (dir.x as int) * tn,
            c.contact_point.x.den as int == td,
    ;
    assert(c.contact_point.y.num as int == (origin.y as int) * (1 * td) + ((dir.y as int) * tn)
        * 1 && c.contact_point.y.den as int == 1 * (1 * td)) by (nonlinear_arith)
        requires
            c.contact_point.y.num as int == (origin.y as int) * td + (dir.y as int) * tn,
            c.contact_point.y.den as int == td,
    ;
}

} // verus!
