//! Fixed-point scalar arithmetic: truncating division and integer square
//! root, with the spec-level functions that the engine's contracts use.

use vstd::arithmetic::div_mod::{
    lemma_div_by_multiple, lemma_div_of0, lemma_div_pos_is_pos, lemma_fundamental_div_mod,
    lemma_mod_division_less_than_divisor,
};
use vstd::prelude::*;

verus! {

/// Number of fixed-point units to one physical unit.
pub const SCALE: i128 = 1_000_000;

/// Largest magnitude allowed for a coordinate of a position or velocity,
/// and for a radius.
pub const COORD_LIMIT: i128 = 1_000_000_000_000_000;

/// Largest mass, chosen so that `g * m1 * m2` always fits in an `i128`.
pub const MASS_LIMIT: i128 = 1_000_000_000_000;

/// Largest gravitational constant.
pub const GRAV_LIMIT: i128 = 1_000_000_000_000;

/// Largest magnitude allowed for a force component or a force magnitude.
pub const FORCE_LIMIT: i128 = 10_000_000_000_000_000_000_000_000_000;

/// Largest rocket-force scale factor.
pub const FACTOR_LIMIT: i128 = 100_000_000;

/// Truncating division (round toward zero), the rounding used by every
/// fixed-point operation of the engine. Meaningful for `b > 0`.
pub open spec fn tdiv(a: int, b: int) -> int {
    if a >= 0 {
        a / b
    } else {
        -((-a) / b)
    }
}

/// Truncating division is an odd function of the dividend.
pub proof fn lemma_tdiv_neg(a: int, b: int)
    requires
        b > 0,
    ensures
        tdiv(-a, b) == -tdiv(a, b),
{
    if a == 0 {
        lemma_div_of0(b);
    }
}

/// The quotient is exact up to a remainder smaller than the divisor and
/// of the dividend's sign.
pub proof fn lemma_tdiv_facts(a: int, b: int)
    requires
        b > 0,
    ensures
        a >= 0 ==> 0 <= tdiv(a, b) && b * tdiv(a, b) <= a && a - b * tdiv(a, b) < b,
        a <= 0 ==> tdiv(a, b) <= 0 && b * tdiv(a, b) >= a && b * tdiv(a, b) - a < b,
{
    if a >= 0 {
        lemma_fundamental_div_mod(a, b);
        lemma_mod_division_less_than_divisor(a, b);
        lemma_div_pos_is_pos(a, b);
    } else {
        let m = -a;
        lemma_fundamental_div_mod(m, b);
        lemma_mod_division_less_than_divisor(m, b);
        lemma_div_pos_is_pos(m, b);
        assert(b * tdiv(a, b) == -(b * (m / b))) by (nonlinear_arith)
            requires
                tdiv(a, b) == -(m / b),
        ;
    }
}

/// A bound on the dividend gives the same bound, scaled down, on the
/// truncated quotient.
pub proof fn lemma_tdiv_bound(a: int, b: int, c: int)
    requires
        b > 0,
        c >= 0,
        -(c * b) <= a <= c * b,
    ensures
        -c <= tdiv(a, b) <= c,
{
    lemma_tdiv_facts(a, b);
    if a >= 0 {
        let q = tdiv(a, b);
        if q > c {
            assert(b * q >= b * (c + 1)) by (nonlinear_arith)
                requires
                    b > 0,
                    q >= c + 1,
            ;
            assert(b * (c + 1) == c * b + b) by (nonlinear_arith);
            assert(false);
        }
    } else {
        let q = tdiv(a, b);
        if q < -c {
            assert(b * q <= b * (-c - 1)) by (nonlinear_arith)
                requires
                    b > 0,
                    q <= -c - 1,
            ;
            assert(b * (-c - 1) == -(c * b) - b) by (nonlinear_arith);
            assert(false);
        }
    }
}

/// Dividing an exact multiple truncates nothing.
pub proof fn lemma_tdiv_exact(k: int, b: int)
    requires
        b > 0,
    ensures
        tdiv(k * b, b) == k,
{
    if k >= 0 {
        lemma_div_by_multiple(k, b);
    } else {
        lemma_div_by_multiple(-k, b);
        assert((-k) * b == -(k * b)) by (nonlinear_arith);
        lemma_tdiv_neg(k * b, b);
        assert(tdiv(-(k * b), b) == -k);
    }
}

/// Executable truncating division, matching `tdiv`.
pub fn div_trunc(a: i128, b: i128) -> (q: i128)
    requires
        b > 0,
        a > i128::MIN,
    ensures
        q == tdiv(a as int, b as int),
{
    if a >= 0 {
        let q: u128 = (a as u128) / (b as u128);
        proof {
            lemma_div_pos_is_pos(a as int, b as int);
            vstd::arithmetic::div_mod::lemma_div_nonincreasing(a as int, b as int);
        }
        q as i128
    } else {
        let m: i128 = -a;
        let q: u128 = (m as u128) / (b as u128);
        proof {
            lemma_div_pos_is_pos(m as int, b as int);
            vstd::arithmetic::div_mod::lemma_div_nonincreasing(m as int, b as int);
        }
        -(q as i128)
    }
}

/// `r` is the integer square root of `n`, rounded down.
pub open spec fn is_sqrt_floor(n: int, r: int) -> bool {
    0 <= r && r * r <= n && n < (r + 1) * (r + 1)
}

/// The integer square root of `n`, rounded down (meaningful for `n >= 0`).
pub open spec fn sqrt_floor(n: int) -> int {
    choose|r: int| is_sqrt_floor(n, r)
}

/// The rounded-down square root is unique, so exhibiting a witness pins
/// `sqrt_floor` down.
pub proof fn lemma_sqrt_floor_unique(n: int, r: int)
    requires
        is_sqrt_floor(n, r),
    ensures
        sqrt_floor(n) == r,
{
    assert(exists|x: int| is_sqrt_floor(n, x));
    let s = sqrt_floor(n);
    assert(is_sqrt_floor(n, s));
    if s < r {
        assert(false) by (nonlinear_arith)
            requires
                0 <= s,
                s < r,
                r * r <= n,
                n < (s + 1) * (s + 1),
        ;
    }
    if s > r {
        assert(false) by (nonlinear_arith)
            requires
                0 <= r,
                r < s,
                s * s <= n,
                n < (r + 1) * (r + 1),
        ;
    }
}

/// Every nonnegative integer has a rounded-down square root, so
/// `sqrt_floor` meets its characterization.
pub proof fn lemma_sqrt_floor_exists(n: int)
    requires
        n >= 0,
    ensures
        is_sqrt_floor(n, sqrt_floor(n)),
    decreases n,
{
    if n == 0 {
        assert(is_sqrt_floor(0, 0));
        assert(exists|x: int| is_sqrt_floor(n, x));
    } else {
        lemma_sqrt_floor_exists(n - 1);
        let r = sqrt_floor(n - 1);
        if (r + 1) * (r + 1) <= n {
            assert((n as int) < (r + 2) * (r + 2)) by (nonlinear_arith)
                requires
                    0 <= r,
                    n - 1 < (r + 1) * (r + 1),
            ;
            assert(is_sqrt_floor(n, r + 1));
        } else {
            assert(is_sqrt_floor(n, r));
        }
        assert(exists|x: int| is_sqrt_floor(n, x));
    }
}

/// A square root floor is no smaller than any coordinate whose square is
/// under the radicand.
pub proof fn lemma_sqrt_floor_dominates(n: int, r: int, x: int)
    requires
        is_sqrt_floor(n, r),
        x * x <= n,
    ensures
        -r <= x <= r,
{
    if x > r {
        assert(false) by (nonlinear_arith)
            requires
                0 <= r,
                r < x,
                x * x <= n,
                n < (r + 1) * (r + 1),
        ;
    }
    if x < -r {
        assert(false) by (nonlinear_arith)
            requires
                0 <= r,
                x < -r,
                x * x <= n,
                n < (r + 1) * (r + 1),
        ;
    }
}

/// Executable integer square root by bisection.
pub fn isqrt(n: u128) -> (r: u128)
    requires
        n < 0x40000000000000000000000000000000u128,
    ensures
        is_sqrt_floor(n as int, r as int),
        r as int == sqrt_floor(n as int),
        r < 0x8000000000000000u128,
{
    let mut lo: u128 = 0;
    let mut hi: u128 = 0x8000000000000000u128;
    assert((hi as int) * (hi as int) == 0x40000000000000000000000000000000) by (nonlinear_arith)
        requires
            hi == 0x8000000000000000u128,
    ;
    while lo + 1 < hi
        invariant
            lo < hi <= 0x8000000000000000u128,
            (lo as int) * (lo as int) <= n as int,
            (n as int) < (hi as int) * (hi as int),
        decreases hi - lo,
    {
        let mid: u128 = lo + (hi - lo) / 2;
        assert(lo < mid < hi);
        assert((mid as int) * (mid as int) <= u128::MAX) by (nonlinear_arith)
            requires
                mid <= 0x8000000000000000u128,
        ;
        let sq: u128 = mid * mid;
        if sq <= n {
            lo = mid;
        } else {
            hi = mid;
        }
    }
    proof {
        lemma_sqrt_floor_unique(n as int, lo as int);
    }
    lo
}

} // verus!
