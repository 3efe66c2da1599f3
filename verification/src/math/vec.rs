//! Fixed-point 2D vectors.
//!
//! A component value of [`SCALE`] stands for one world unit, so `Vec2` holds
//! world coordinates with a granularity of `1 / SCALE`. All operations state
//! their result exactly over the mathematical integers; products and
//! quotients that leave the grid are brought back by floor division, and the
//! contracts say so.

use crate::math::frac::{div_floor, lemma_div_bounds};
use vstd::arithmetic::div_mod::{
    lemma_div_is_ordered, lemma_div_multiples_vanish, lemma_fundamental_div_mod,
    lemma_mod_division_less_than_divisor,
};
use vstd::prelude::*;

verus! {

/// Number of grid steps in one world unit.
pub const SCALE: i64 = 65536;

/// A 2D vector on the fixed-point grid.
#[derive(Clone, Copy, PartialEq, Eq, Structural, Debug)]
pub struct Vec2 {
    pub x: i64,
    pub y: i64,
}

/// The product of two `i64`-range values stays within `2^126` either way.
pub proof fn lemma_i64_product_bounds(a: int, b: int)
    requires
        -0x8000_0000_0000_0000 <= a <= 0x7fff_ffff_ffff_ffff,
        -0x8000_0000_0000_0000 <= b <= 0x7fff_ffff_ffff_ffff,
    ensures
        -0x4000_0000_0000_0000_0000_0000_0000_0000 <= a * b
            <= 0x4000_0000_0000_0000_0000_0000_0000_0000,
        a == b ==> a * b >= 0,
{
    assert(-0x4000_0000_0000_0000_0000_0000_0000_0000 <= a * b
        <= 0x4000_0000_0000_0000_0000_0000_0000_0000) by (nonlinear_arith)
        requires
            -0x8000_0000_0000_0000 <= a <= 0x7fff_ffff_ffff_ffff,
            -0x8000_0000_0000_0000 <= b <= 0x7fff_ffff_ffff_ffff,
    ;
    assert(a == b ==> a * b >= 0) by (nonlinear_arith);
}

/// For a divisor below zero, Euclidean division is the negated quotient by
/// the negated divisor.
pub proof fn lemma_div_neg_divisor(a: int, b: int)
    requires
        b < 0,
    ensures
        a / b == -(a / (-b)),
{
    let m: int = -b;
    lemma_fundamental_div_mod(a, m);
    lemma_mod_division_less_than_divisor(a, m);
    let q: int = a / m;
    let r: int = a % m;
    assert(a / b == -q) by (nonlinear_arith)
        requires
            b < 0,
            m == -b,
            a == m * q + r,
            0 <= r < m,
    ;
}

/// Euclidean division for any nonzero divisor, on moderate dividends.
pub(crate) fn div_euclid_i128(a: i128, b: i128) -> (r: i128)
    requires
        b != 0,
        b > i128::MIN,
        -0x4000_0000_0000_0000_0000_0000_0000_0000 <= a
            <= 0x4000_0000_0000_0000_0000_0000_0000_0000,
    ensures
        r == a as int / b as int,
{
    if b > 0 {
        div_floor(a, b)
    } else {
        proof {
            lemma_div_bounds(a as int, -b as int);
            lemma_div_neg_divisor(a as int, b as int);
        }
        let q: i128 = div_floor(a, -b);
        -q
    }
}

impl Vec2 {
    pub fn new(x: i64, y: i64) -> (r: Vec2)
        ensures
            r.x == x,
            r.y == y,
    {
        Vec2 { x, y }
    }

    pub fn zero() -> (r: Vec2)
        ensures
            r.x == 0,
            r.y == 0,
    {
        Vec2 { x: 0, y: 0 }
    }

    /// One world unit on both axes.
    pub fn one() -> (r: Vec2)
        ensures
            r.x == SCALE,
            r.y == SCALE,
    {
        Vec2 { x: SCALE, y: SCALE }
    }

    /// Component-wise sum.
    pub fn add(&self, rhs: &Vec2) -> (r: Vec2)
        requires
            i64::MIN <= self.x + rhs.x <= i64::MAX,
            i64::MIN <= self.y + rhs.y <= i64::MAX,
        ensures
            r.x == self.x + rhs.x,
            r.y == self.y + rhs.y,
    {
        Vec2 { x: self.x + rhs.x, y: self.y + rhs.y }
    }

    /// Component-wise difference.
    pub fn sub(&self, rhs: &Vec2) -> (r: Vec2)
        requires
            i64::MIN <= self.x - rhs.x <= i64::MAX,
            i64::MIN <= self.y - rhs.y <= i64::MAX,
        ensures
            r.x == self.x - rhs.x,
            r.y == self.y - rhs.y,
    {
        Vec2 { x: self.x - rhs.x, y: self.y - rhs.y }
    }

    /// Negation.
    pub fn neg(&self) -> (r: Vec2)
        requires
            self.x > i64::MIN,
            self.y > i64::MIN,
        ensures
            r.x == -self.x,
            r.y == -self.y,
    {
        Vec2 { x: -self.x, y: -self.y }
    }

    /// Component-wise fixed-point product: each component is the exact
    /// product divided by [`SCALE`], rounded toward negative infinity.
    pub fn mul(&self, rhs: &Vec2) -> (r: Vec2)
        requires
            i64::MIN <= self.x * rhs.x / (SCALE as int) <= i64::MAX,
            i64::MIN <= self.y * rhs.y / (SCALE as int) <= i64::MAX,
        ensures
            r.x == self.x * rhs.x / (SCALE as int),
            r.y == self.y * rhs.y / (SCALE as int),
    {
        proof {
            lemma_i64_product_bounds(self.x as int, rhs.x as int);
            lemma_i64_product_bounds(self.y as int, rhs.y as int);
        }
        let px: i128 = (self.x as i128) * (rhs.x as i128);
        let py: i128 = (self.y as i128) * (rhs.y as i128);
        let qx: i128 = div_floor(px, SCALE as i128);
        let qy: i128 = div_floor(py, SCALE as i128);
        Vec2 { x: qx as i64, y: qy as i64 }
    }

    /// Component-wise fixed-point quotient, rounded by Euclidean division.
    pub fn div(&self, rhs: &Vec2) -> (r: Vec2)
        requires
            rhs.x != 0,
            rhs.y != 0,
            i64::MIN <= self.x * SCALE / (rhs.x as int) <= i64::MAX,
            i64::MIN <= self.y * SCALE / (rhs.y as int) <= i64::MAX,
        ensures
            r.x == self.x * SCALE / (rhs.x as int),
            r.y == self.y * SCALE / (rhs.y as int),
    {
        proof {
            lemma_i64_product_bounds(self.x as int, SCALE as int);
            lemma_i64_product_bounds(self.y as int, SCALE as int);
        }
        let nx: i128 = (self.x as i128) * (SCALE as i128);
        let ny: i128 = (self.y as i128) * (SCALE as i128);
        let qx: i128 = div_euclid_i128(nx, rhs.x as i128);
        let qy: i128 = div_euclid_i128(ny, rhs.y as i128);
        Vec2 { x: qx as i64, y: qy as i64 }
    }

    /// Fixed-point dot product: the exact sum of component products,
    /// divided by [`SCALE`] with floor rounding.
    pub fn dot(&self, v: Vec2) -> (r: i64)
        requires
            i128::MIN <= self.x * v.x + self.y * v.y <= i128::MAX,
            i64::MIN <= spec_dot(*self, v) <= i64::MAX,
        ensures
            r == spec_dot(*self, v),
    {
        proof {
            lemma_i64_product_bounds(self.x as int, v.x as int);
            lemma_i64_product_bounds(self.y as int, v.y as int);
        }
        let px: i128 = (self.x as i128) * (v.x as i128);
        let py: i128 = (self.y as i128) * (v.y as i128);
        let q: i128 = div_floor(px + py, SCALE as i128);
        q as i64
    }

    /// Squared length, on the grid: the exact sum of squared components
    /// divided by [`SCALE`] with floor rounding.
    pub fn lenght_sqr(&self) -> (r: i64)
        requires
            self.x * self.x + self.y * self.y <= i128::MAX,
            (self.x * self.x + self.y * self.y) / (SCALE as int) <= i64::MAX,
        ensures
            r == (self.x * self.x + self.y * self.y) / (SCALE as int),
            r >= 0,
    {
        proof {
            lemma_i64_product_bounds(self.x as int, self.x as int);
            lemma_i64_product_bounds(self.y as int, self.y as int);
            lemma_div_bounds(self.x * self.x + self.y * self.y, SCALE as int);
        }
        let px: i128 = (self.x as i128) * (self.x as i128);
        let py: i128 = (self.y as i128) * (self.y as i128);
        let q: i128 = div_floor(px + py, SCALE as i128);
        q as i64
    }

    /// Euclidean length, on the grid: the integer square root of the exact
    /// sum of squared components.
    pub fn length(&self) -> (r: i64)
        requires
            self.x * self.x + self.y * self.y < 0x4000_0000_0000_0000_0000_0000_0000_0000,
        ensures
            r == isqrt((self.x * self.x + self.y * self.y) as nat),
            r >= 0,
    {
        proof {
            lemma_i64_product_bounds(self.x as int, self.x as int);
            lemma_i64_product_bounds(self.y as int, self.y as int);
        }
        let px: i128 = (self.x as i128) * (self.x as i128);
        let py: i128 = (self.y as i128) * (self.y as i128);
        let s: u128 = (px + py) as u128;
        let r: u128 = isqrt_u128(s);
        proof {
            lemma_isqrt_fits(s as nat);
        }
        r as i64
    }

    /// Distance to another point on the grid: the integer square root of the
    /// exact squared distance.
    pub fn distance_to(&self, v: Vec2) -> (r: i64)
        requires
            (self.x - v.x) * (self.x - v.x) + (self.y - v.y) * (self.y - v.y)
                < 0x4000_0000_0000_0000_0000_0000_0000_0000,
        ensures
            r == isqrt(((self.x - v.x) * (self.x - v.x) + (self.y - v.y) * (self.y - v.y)) as nat),
            r >= 0,
    {
        let dx: i128 = (self.x as i128) - (v.x as i128);
        let dy: i128 = (self.y as i128) - (v.y as i128);
        proof {
            lemma_square_sum_parts(dx as int, dy as int);
        }
        let s: u128 = (dx * dx + dy * dy) as u128;
        let r: u128 = isqrt_u128(s);
        proof {
            lemma_isqrt_fits(s as nat);
        }
        r as i64
    }

    /// Scale by a fixed-point factor, in place.
    pub fn scale(&mut self, scale: i64)
        requires
            i64::MIN <= old(self).x * scale / (SCALE as int) <= i64::MAX,
            i64::MIN <= old(self).y * scale / (SCALE as int) <= i64::MAX,
        ensures
            final(self).x == old(self).x * scale / (SCALE as int),
            final(self).y == old(self).y * scale / (SCALE as int),
    {
        let v: Vec2 = *self;
        *self = v.scale_by(scale);
    }

    /// Scale by a fixed-point factor.
    pub fn scale_by(&self, scale: i64) -> (r: Vec2)
        requires
            i64::MIN <= self.x * scale / (SCALE as int) <= i64::MAX,
            i64::MIN <= self.y * scale / (SCALE as int) <= i64::MAX,
        ensures
            r.x == self.x * scale / (SCALE as int),
            r.y == self.y * scale / (SCALE as int),
    {
        proof {
            lemma_i64_product_bounds(self.x as int, scale as int);
            lemma_i64_product_bounds(self.y as int, scale as int);
        }
        let px: i128 = (self.x as i128) * (scale as i128);
        let py: i128 = (self.y as i128) * (scale as i128);
        let qx: i128 = div_floor(px, SCALE as i128);
        let qy: i128 = div_floor(py, SCALE as i128);
        Vec2 { x: qx as i64, y: qy as i64 }
    }

    /// Normalize in place; the zero vector stays the zero vector.
    pub fn normalize(&mut self)
        requires
            old(self).x * old(self).x + old(self).y * old(self).y
                < 0x4000_0000_0000_0000_0000_0000_0000_0000,
        ensures
            *final(self) == spec_normalized(*old(self)),
    {
        let v: Vec2 = *self;
        *self = v.normalized();
    }

    /// A vector of (approximately) unit length pointing the same way.
    ///
    /// The zero vector is returned unchanged: normalizing it would divide by
    /// zero, and the zero result is the documented degenerate-input policy,
    /// not an error. Any other vector is divided by its grid length, each
    /// component rounded toward negative infinity.
    pub fn normalized(&self) -> (r: Vec2)
        requires
            self.x * self.x + self.y * self.y < 0x4000_0000_0000_0000_0000_0000_0000_0000,
        ensures
            r == spec_normalized(*self),
            (self.x == 0 && self.y == 0) ==> r == *self,
    {
        if self.x == 0 && self.y == 0 {
            return *self;
        }
        proof {
            lemma_i64_product_bounds(self.x as int, self.x as int);
            lemma_i64_product_bounds(self.y as int, self.y as int);
            assert(self.x * self.x + self.y * self.y > 0) by (nonlinear_arith)
                requires
                    !(self.x == 0 && self.y == 0),
            ;
        }
        let px: i128 = (self.x as i128) * (self.x as i128);
        let py: i128 = (self.y as i128) * (self.y as i128);
        let s: u128 = (px + py) as u128;
        let len: u128 = isqrt_u128(s);
        proof {
            lemma_isqrt_fits(s as nat);
            lemma_isqrt_pos(s as nat);
            lemma_i64_product_bounds(self.x as int, SCALE as int);
            lemma_i64_product_bounds(self.y as int, SCALE as int);
            lemma_normalized_component_fits(self.x as int, self.y as int);
            lemma_normalized_component_fits(self.y as int, self.x as int);
        }
        let nx: i128 = div_floor((self.x as i128) * (SCALE as i128), len as i128);
        let ny: i128 = div_floor((self.y as i128) * (SCALE as i128), len as i128);
        Vec2 { x: nx as i64, y: ny as i64 }
    }

    /// Linear interpolation toward `v` by the fixed-point fraction `amount`
    /// (`SCALE` means all the way), each component floor-rounded.
    pub fn lerp(&self, v: Vec2, amount: i64) -> (r: Vec2)
        requires
            i64::MIN <= self.x + (v.x - self.x) * amount / (SCALE as int) <= i64::MAX,
            i64::MIN <= self.y + (v.y - self.y) * amount / (SCALE as int) <= i64::MAX,
        ensures
            r.x == self.x + (v.x - self.x) * amount / (SCALE as int),
            r.y == self.y + (v.y - self.y) * amount / (SCALE as int),
    {
        proof {
            lemma_lerp_product_bounds(self.x as int, v.x as int, amount as int);
            lemma_lerp_product_bounds(self.y as int, v.y as int, amount as int);
        }
        let dx: i128 = ((v.x as i128) - (self.x as i128)) * (amount as i128);
        let dy: i128 = ((v.y as i128) - (self.y as i128)) * (amount as i128);
        let qx: i128 = div_floor(dx, SCALE as i128);
        let qy: i128 = div_floor(dy, SCALE as i128);
        Vec2 { x: ((self.x as i128) + qx) as i64, y: ((self.y as i128) + qy) as i64 }
    }

    /// Clamp both components into `[min, max]`.
    pub fn clamp(&self, min: i64, max: i64) -> (r: Vec2)
        requires
            min <= max,
        ensures
            r.x == spec_clamp(self.x as int, min as int, max as int),
            r.y == spec_clamp(self.y as int, min as int, max as int),
    {
        let x: i64 = if self.x < min {
            min
        } else if self.x > max {
            max
        } else {
            self.x
        };
        let y: i64 = if self.y < min {
            min
        } else if self.y > max {
            max
        } else {
            self.y
        };
        Vec2 { x, y }
    }
}

/// The fixed-point dot product of two vectors: the exact sum of component
/// products, divided by [`SCALE`] with floor rounding.
pub open spec fn spec_dot(a: Vec2, b: Vec2) -> int {
    (a.x * b.x + a.y * b.y) / (SCALE as int)
}

/// A value clamped into `[min, max]`.
pub open spec fn spec_clamp(v: int, min: int, max: int) -> int {
    if v < min {
        min
    } else if v > max {
        max
    } else {
        v
    }
}

/// What [`Vec2::normalized`] returns: the zero vector unchanged, any other
/// vector divided by its grid length with floor rounding.
pub open spec fn spec_normalized(v: Vec2) -> Vec2 {
    if v.x == 0 && v.y == 0 {
        v
    } else {
        let len = isqrt((v.x * v.x + v.y * v.y) as nat);
        Vec2 { x: (v.x * SCALE / (len as int)) as i64, y: (v.y * SCALE / (len as int)) as i64 }
    }
}

/// If two squares sum below `2^126`, each square does on its own.
proof fn lemma_square_sum_parts(a: int, b: int)
    requires
        a * a + b * b < 0x4000_0000_0000_0000_0000_0000_0000_0000,
    ensures
        0 <= a * a < 0x4000_0000_0000_0000_0000_0000_0000_0000,
        0 <= b * b < 0x4000_0000_0000_0000_0000_0000_0000_0000,
{
    assert(0 <= a * a && 0 <= b * b) by (nonlinear_arith);
}

/// The product inside `lerp` stays within `2^128` signed range.
proof fn lemma_lerp_product_bounds(a: int, b: int, k: int)
    requires
        -0x8000_0000_0000_0000 <= a <= 0x7fff_ffff_ffff_ffff,
        -0x8000_0000_0000_0000 <= b <= 0x7fff_ffff_ffff_ffff,
        -0x8000_0000_0000_0000 <= k <= 0x7fff_ffff_ffff_ffff,
    ensures
        -0x8000_0000_0000_0000_0000_0000_0000_0000 <= (b - a) * k
            < 0x8000_0000_0000_0000_0000_0000_0000_0000,
{
    assert(-0x8000_0000_0000_0000_0000_0000_0000_0000 <= (b - a) * k
        < 0x8000_0000_0000_0000_0000_0000_0000_0000) by (nonlinear_arith)
        requires
            -0x8000_0000_0000_0000 <= a <= 0x7fff_ffff_ffff_ffff,
            -0x8000_0000_0000_0000 <= b <= 0x7fff_ffff_ffff_ffff,
            -0x8000_0000_0000_0000 <= k <= 0x7fff_ffff_ffff_ffff,
    ;
}

/// A normalized component lies within `[-SCALE, SCALE]`: the grid length of
/// a vector is at least the magnitude of each of its components.
proof fn lemma_normalized_component_fits(a: int, b: int)
    requires
        -0x8000_0000_0000_0000 <= a <= 0x7fff_ffff_ffff_ffff,
        -0x8000_0000_0000_0000 <= b <= 0x7fff_ffff_ffff_ffff,
        a != 0 || b != 0,
    ensures
        -(SCALE as int) <= a * SCALE / (isqrt((a * a + b * b) as nat) as int) <= SCALE,
{
    let s: nat = (a * a + b * b) as nat;
    let len: int = isqrt(s) as int;
    lemma_isqrt(s);
    lemma_isqrt_pos_of(a, b);
    assert(-len <= a <= len) by (nonlinear_arith)
        requires
            len >= 1,
            s == a * a + b * b,
            s < (len + 1) * (len + 1),
    ;
    assert(len * (-(SCALE as int)) <= a * (SCALE as int) <= len * (SCALE as int))
        by (nonlinear_arith)
        requires
            -len <= a <= len,
            len >= 1,
    ;
    lemma_div_is_ordered(len * (-(SCALE as int)), a * (SCALE as int), len);
    lemma_div_is_ordered(a * (SCALE as int), len * (SCALE as int), len);
    lemma_div_multiples_vanish(SCALE as int, len);
    lemma_div_multiples_vanish(-(SCALE as int), len);
}

/// Normalizing keeps the length within a few grid steps of one world unit:
/// for any vector at least one world unit long, the normalized vector's
/// exact squared component sum deviates from `SCALE * SCALE` (the square of
/// unit length, in grid units) by less than `8 * SCALE`, a relative error
/// below `2^-13`. The zero vector instead normalizes to itself, by the
/// ensures of [`Vec2::normalized`]; a nonzero vector shorter than one world
/// unit loses too much to the floor rounding for such a bound to hold.
pub proof fn lemma_normalized_unit_length(v: Vec2)
    requires
        v.x * v.x + v.y * v.y >= (SCALE as int) * SCALE,
    ensures
        ({
            let n = spec_normalized(v);
            (SCALE as int) * SCALE - 5 * SCALE <= n.x * n.x + n.y * n.y
                <= (SCALE as int) * SCALE + 7 * SCALE
        }),
{
    let x: int = v.x as int;
    let y: int = v.y as int;
    let sq: int = x * x + y * y;
    let s: int = SCALE as int;
    assert(sq > 0) by (nonlinear_arith)
        requires
            sq >= s * s,
            s == 65536,
    ;
    let l: int = isqrt(sq as nat) as int;
    lemma_isqrt(sq as nat);
    lemma_isqrt_pos(sq as nat);
    assert(l >= s) by (nonlinear_arith)
        requires
            sq < (l + 1) * (l + 1),
            sq >= s * s,
            l >= 1,
            s == 65536,
    ;
    assert(v.x != 0 || v.y != 0) by (nonlinear_arith)
        requires
            x * x + y * y > 0,
            x == v.x as int,
            y == v.y as int,
    ;
    lemma_normalized_component_fits(x, y);
    lemma_normalized_component_fits(y, x);
    let a: int = x * s;
    let b: int = y * s;
    lemma_fundamental_div_mod(a, l);
    lemma_mod_division_less_than_divisor(a, l);
    lemma_fundamental_div_mod(b, l);
    lemma_mod_division_less_than_divisor(b, l);
    let nx: int = a / l;
    let ny: int = b / l;
    let r1: int = a % l;
    let r2: int = b % l;
    // The spec's components are these quotients.
    assert(spec_normalized(v).x == x * SCALE / (l as int) && spec_normalized(v).y == y * SCALE / (
    l as int));
    assert(nx == x * SCALE / l && ny == y * SCALE / l) by (nonlinear_arith)
        requires
            nx == a / l,
            ny == b / l,
            a == x * s,
            b == y * s,
            s == SCALE as int,
            SCALE == 65536,
            l >= 1,
    ;
    assert(-s <= nx <= s && -s <= ny <= s);
    // Each squared quotient differs from the squared dividend over `l * l`
    // by at most the cross terms.
    assert(l * l * (nx * nx) <= a * a + 2 * s * (l * l) && a * a <= l * l * (nx * nx) + 2 * s * (l
        * l) + l * l) by (nonlinear_arith)
        requires
            a == l * nx + r1,
            0 <= r1 < l,
            -s <= nx <= s,
            l >= 1,
            s == 65536,
    ;
    assert(l * l * (ny * ny) <= b * b + 2 * s * (l * l) && b * b <= l * l * (ny * ny) + 2 * s * (l
        * l) + l * l) by (nonlinear_arith)
        requires
            b == l * ny + r2,
            0 <= r2 < l,
            -s <= ny <= s,
            l >= 1,
            s == 65536,
    ;
    assert(a * a + b * b == s * s * sq) by (nonlinear_arith)
        requires
            a == x * s,
            b == y * s,
            sq == x * x + y * y,
    ;
    assert(s * s * (l * l) <= s * s * sq) by (nonlinear_arith)
        requires
            l * l <= sq,
            s == 65536,
    ;
    assert(s * s * sq <= s * s * (l * l) + 3 * s * (l * l)) by (nonlinear_arith)
        requires
            sq < (l + 1) * (l + 1),
            l >= s,
            s == 65536,
    ;
    assert((s * s - 4 * s - 2) * (l * l) <= (nx * nx + ny * ny) * (l * l) && (nx * nx + ny * ny)
        * (l * l) <= (s * s + 7 * s) * (l * l)) by (nonlinear_arith)
        requires
            l * l * (nx * nx) <= a * a + 2 * s * (l * l),
            a * a <= l * l * (nx * nx) + 2 * s * (l * l) + l * l,
            l * l * (ny * ny) <= b * b + 2 * s * (l * l),
            b * b <= l * l * (ny * ny) + 2 * s * (l * l) + l * l,
            a * a + b * b == s * s * sq,
            s * s * (l * l) <= s * s * sq,
            s * s * sq <= s * s * (l * l) + 3 * s * (l * l),
            l >= 1,
            s == 65536,
    ;
    assert(s * s - 4 * s - 2 <= nx * nx + ny * ny <= s * s + 7 * s) by (nonlinear_arith)
        requires
            (s * s - 4 * s - 2) * (l * l) <= (nx * nx + ny * ny) * (l * l),
            (nx * nx + ny * ny) * (l * l) <= (s * s + 7 * s) * (l * l),
            l >= 1,
    ;
    assert((SCALE as int) * SCALE - 5 * SCALE <= spec_normalized(v).x * spec_normalized(v).x
        + spec_normalized(v).y * spec_normalized(v).y <= (SCALE as int) * SCALE + 7 * SCALE)
        by (nonlinear_arith)
        requires
            spec_normalized(v).x == nx,
            spec_normalized(v).y == ny,
            s * s - 4 * s - 2 <= nx * nx + ny * ny <= s * s + 7 * s,
            s == SCALE as int,
            SCALE == 65536,
    ;
}

/// A nonzero vector has positive squared length and a positive grid length.
proof fn lemma_isqrt_pos_of(a: int, b: int)
    requires
        a != 0 || b != 0,
    ensures
        a * a + b * b > 0,
        isqrt((a * a + b * b) as nat) >= 1,
{
    assert(a * a + b * b > 0) by (nonlinear_arith)
        requires
            a != 0 || b != 0,
    ;
    lemma_isqrt_pos((a * a + b * b) as nat);
}

/// The integer square root: the largest `r` with `r * r <= n`.
pub open spec fn isqrt(n: nat) -> nat
    decreases n,
{
    if n == 0 {
        0
    } else {
        let p = isqrt((n - 1) as nat);
        if (p + 1) * (p + 1) <= n {
            p + 1
        } else {
            p
        }
    }
}

/// `isqrt(n)` squares to at most `n`, and is the largest such number.
pub proof fn lemma_isqrt(n: nat)
    ensures
        isqrt(n) * isqrt(n) <= n,
        n < (isqrt(n) + 1) * (isqrt(n) + 1),
    decreases n,
{
    if n > 0 {
        lemma_isqrt((n - 1) as nat);
        let p = isqrt((n - 1) as nat);
        if (p + 1) * (p + 1) <= n {
            assert(isqrt(n) == p + 1);
            assert(isqrt(n) * isqrt(n) <= n && n < (isqrt(n) + 1) * (isqrt(n) + 1))
                by (nonlinear_arith)
                requires
                    isqrt(n) == p + 1,
                    (p + 1) * (p + 1) <= n,
                    n - 1 < (p + 1) * (p + 1),
            ;
        } else {
            assert(isqrt(n) == p);
            assert(isqrt(n) * isqrt(n) <= n && n < (isqrt(n) + 1) * (isqrt(n) + 1))
                by (nonlinear_arith)
                requires
                    isqrt(n) == p,
                    p * p <= n - 1,
                    !((p + 1) * (p + 1) <= n),
            ;
        }
    } else {
        assert(isqrt(0nat) == 0);
        assert(isqrt(n) * isqrt(n) <= n && n < (isqrt(n) + 1) * (isqrt(n) + 1))
            by (nonlinear_arith)
            requires
                n == 0,
                isqrt(n) == 0,
        ;
    }
}

/// A positive number has a positive integer square root.
pub proof fn lemma_isqrt_pos(n: nat)
    requires
        n > 0,
    ensures
        isqrt(n) >= 1,
{
    lemma_isqrt(n);
    if isqrt(n) == 0 {
        assert(false) by (nonlinear_arith)
            requires
                n > 0,
                isqrt(n) == 0,
                n < (isqrt(n) + 1) * (isqrt(n) + 1),
        ;
    }
}

/// The integer square root of anything below `2^126` fits in 63 bits.
pub proof fn lemma_isqrt_fits(n: nat)
    requires
        n < 0x4000_0000_0000_0000_0000_0000_0000_0000,
    ensures
        isqrt(n) < 0x8000_0000_0000_0000,
{
    lemma_isqrt(n);
    let r = isqrt(n);
    assert(r < 0x8000_0000_0000_0000) by (nonlinear_arith)
        requires
            r * r <= n,
            n < 0x4000_0000_0000_0000_0000_0000_0000_0000,
    ;
}

/// The integer square root, computed by bisection.
fn isqrt_u128(n: u128) -> (r: u128)
    ensures
        r == isqrt(n as nat),
{
    proof {
        lemma_isqrt(n as nat);
    }
    let mut lo: u128 = 0;
    let mut hi: u128 = 0x1_0000_0000_0000_0000;
    proof {
        assert(n < hi * hi) by (nonlinear_arith)
            requires
                hi == 0x1_0000_0000_0000_0000,
                n <= u128::MAX,
        ;
    }
    while hi - lo > 1
        invariant
            lo < hi <= 0x1_0000_0000_0000_0000,
            lo * lo <= n,
            n < hi * hi,
        decreases hi - lo,
    {
        let mid: u128 = lo + (hi - lo) / 2;
        proof {
            assert(mid * mid <= u128::MAX) by (nonlinear_arith)
                requires
                    mid < 0x1_0000_0000_0000_0000,
            ;
        }
        if mid * mid <= n {
            lo = mid;
        } else {
            hi = mid;
        }
    }
    proof {
        let r = isqrt(n as nat);
        assert(lo == r) by (nonlinear_arith)
            requires
                lo * lo <= n < (lo + 1) * (lo + 1),
                r * r <= n < (r + 1) * (r + 1),
                lo >= 0,
                r >= 0,
        ;
    }
    lo
}

} // verus!
