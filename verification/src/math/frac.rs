//! Exact fractions with a positive denominator.
//!
//! Contact times and contact points of the swept collision tests are exact
//! rational numbers, not grid values; this module holds the value type that
//! carries them, and the floor-division helper used wherever a rational
//! result has to be brought back onto the integer grid.

use vstd::arithmetic::div_mod::{
    lemma_div_pos_is_pos, lemma_div_nonincreasing, lemma_fundamental_div_mod,
    lemma_mod_division_less_than_divisor,
};
use vstd::prelude::*;

verus! {

/// An exact fraction `num / den`. Well-formed values keep `den` positive, so
/// that fractions compare by cross-multiplication without sign care.
#[derive(Clone, Copy, PartialEq, Eq, Structural, Debug)]
pub struct Frac {
    pub num: i128,
    pub den: i128,
}

impl Frac {
    /// Well-formed: the denominator is positive.
    pub open spec fn wf(self) -> bool {
        self.den > 0
    }

    pub fn new(num: i128, den: i128) -> (r: Frac)
        requires
            den > 0,
        ensures
            r.num == num,
            r.den == den,
            r.wf(),
    {
        Frac { num, den }
    }
}

impl View for Frac {
    type V = Rat;

    /// The unbounded rational a fraction stands for.
    open spec fn view(&self) -> Rat {
        Rat { num: self.num as int, den: self.den as int }
    }
}

/// A point with exact fraction coordinates.
#[derive(Clone, Copy, PartialEq, Eq, Structural, Debug)]
pub struct FracVec2 {
    pub x: Frac,
    pub y: Frac,
}

/// A rational number over the unbounded integers, for specifications.
pub struct Rat {
    pub num: int,
    pub den: int,
}

impl Rat {
    /// Well-formed: the denominator is positive.
    pub open spec fn wf(self) -> bool {
        self.den > 0
    }
}

/// The exact rational sum.
pub open spec fn rat_add(a: Rat, b: Rat) -> Rat {
    Rat { num: a.num * b.den + b.num * a.den, den: a.den * b.den }
}

/// The exact rational product.
pub open spec fn rat_mul(a: Rat, b: Rat) -> Rat {
    Rat { num: a.num * b.num, den: a.den * b.den }
}

/// A quotient with a positive divisor lies between the dividend and zero.
pub proof fn lemma_div_bounds(a: int, b: int)
    requires
        b > 0,
    ensures
        0 <= a ==> 0 <= a / b <= a,
        a < 0 ==> a <= a / b <= 0,
{
    if 0 <= a {
        lemma_div_pos_is_pos(a, b);
        lemma_div_nonincreasing(a, b);
    } else {
        lemma_fundamental_div_mod(a, b);
        lemma_mod_division_less_than_divisor(a, b);
        let q: int = a / b;
        let r: int = a % b;
        assert(q <= 0) by (nonlinear_arith)
            requires
                a < 0,
                b > 0,
                a == b * q + r,
                0 <= r < b,
        ;
        assert(a <= q) by (nonlinear_arith)
            requires
                a < 0,
                b > 0,
                q <= 0,
                a == b * q + r,
                0 <= r < b,
        ;
    }
}

/// Floor division with a positive divisor: exactly `a / b` in the Euclidean
/// (round-toward-negative-infinity) sense.
pub fn div_floor(a: i128, b: i128) -> (r: i128)
    requires
        b > 0,
    ensures
        r == a as int / b as int,
{
    proof {
        lemma_div_bounds(a as int, b as int);
    }
    match a.checked_div_euclid(b) {
        Some(q) => q,
        None => {
            proof {
                assert(false);
            }
            0
        },
    }
}

} // verus!
