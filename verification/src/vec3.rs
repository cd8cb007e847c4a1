//! A three-component vector of fixed-point coordinates, with the ghost
//! model `V3` over unbounded integers that all contracts speak of.

use crate::fixed::{is_sqrt_floor, sqrt_floor, tdiv, COORD_LIMIT, SCALE};
use vstd::prelude::*;

verus! {

/// Mathematical model of a vector: an unbounded integer triple.
pub ghost struct V3 {
    pub x: int,
    pub y: int,
    pub z: int,
}

impl V3 {
    pub open spec fn zero() -> V3 {
        V3 { x: 0, y: 0, z: 0 }
    }

    pub open spec fn plus(self, o: V3) -> V3 {
        V3 { x: self.x + o.x, y: self.y + o.y, z: self.z + o.z }
    }

    pub open spec fn minus(self, o: V3) -> V3 {
        V3 { x: self.x - o.x, y: self.y - o.y, z: self.z - o.z }
    }

    pub open spec fn neg(self) -> V3 {
        V3 { x: -self.x, y: -self.y, z: -self.z }
    }

    /// Multiplication by a fixed-point scalar, rounded toward zero.
    pub open spec fn scaled(self, s: int) -> V3 {
        V3 {
            x: tdiv(self.x * s, SCALE as int),
            y: tdiv(self.y * s, SCALE as int),
            z: tdiv(self.z * s, SCALE as int),
        }
    }

    /// Division by a fixed-point scalar, rounded toward zero.
    pub open spec fn div_scaled(self, s: int) -> V3 {
        V3 {
            x: tdiv(self.x * SCALE, s),
            y: tdiv(self.y * SCALE, s),
            z: tdiv(self.z * SCALE, s),
        }
    }

    /// Squared magnitude, exact (in squared fixed-point units).
    pub open spec fn sq_mag(self) -> int {
        self.x * self.x + self.y * self.y + self.z * self.z
    }

    /// Magnitude: the integer square root of the squared magnitude,
    /// rounded down.
    pub open spec fn len(self) -> int {
        sqrt_floor(self.sq_mag())
    }

    /// Every component's magnitude is at most `m`.
    pub open spec fn bounded(self, m: int) -> bool {
        &&& -m <= self.x <= m
        &&& -m <= self.y <= m
        &&& -m <= self.z <= m
    }

    /// The range every position and velocity vector is kept in.
    pub open spec fn in_range(self) -> bool {
        self.bounded(COORD_LIMIT as int)
    }
}

/// A square is monotone in the magnitude of its argument.
pub proof fn lemma_square_bound(x: int, m: int)
    requires
        -m <= x <= m,
    ensures
        0 <= x * x <= m * m,
{
    assert(0 <= x * x <= m * m) by (nonlinear_arith)
        requires
            -m <= x <= m,
    ;
}

/// No component's square exceeds the squared magnitude.
pub proof fn lemma_components_within_sq_mag(v: V3)
    ensures
        v.x * v.x <= v.sq_mag(),
        v.y * v.y <= v.sq_mag(),
        v.z * v.z <= v.sq_mag(),
{
    assert(v.x * v.x >= 0) by (nonlinear_arith);
    assert(v.y * v.y >= 0) by (nonlinear_arith);
    assert(v.z * v.z >= 0) by (nonlinear_arith);
}

/// The squared magnitude of a vector and of its negation agree.
pub proof fn lemma_sq_mag_neg(v: V3)
    ensures
        v.neg().sq_mag() == v.sq_mag(),
{
    assert((-v.x) * (-v.x) == v.x * v.x) by (nonlinear_arith);
    assert((-v.y) * (-v.y) == v.y * v.y) by (nonlinear_arith);
    assert((-v.z) * (-v.z) == v.z * v.z) by (nonlinear_arith);
}

/// Fixed-point vector: each coordinate holds `SCALE` units to one
/// physical unit.
#[derive(Clone, Copy, Debug, PartialEq, Eq, Structural)]
pub struct Vec3 {
    pub x: i128,
    pub y: i128,
    pub z: i128,
}

impl View for Vec3 {
    type V = V3;

    open spec fn view(&self) -> V3 {
        V3 { x: self.x as int, y: self.y as int, z: self.z as int }
    }
}

impl Default for Vec3 {
    /// The zero vector.
    fn default() -> (r: Vec3)
        ensures
            r@ == V3::zero(),
    {
        Vec3 { x: 0, y: 0, z: 0 }
    }
}

impl Vec3 {
    pub fn new(x: i128, y: i128, z: i128) -> (r: Vec3)
        ensures
            r@ == (V3 { x: x as int, y: y as int, z: z as int }),
    {
        Vec3 { x, y, z }
    }

    pub fn plus(&self, o: &Vec3) -> (r: Vec3)
        requires
            i128::MIN <= self@.x + o@.x <= i128::MAX,
            i128::MIN <= self@.y + o@.y <= i128::MAX,
            i128::MIN <= self@.z + o@.z <= i128::MAX,
        ensures
            r@ == self@.plus(o@),
    {
        Vec3 { x: self.x + o.x, y: self.y + o.y, z: self.z + o.z }
    }

    pub fn minus(&self, o: &Vec3) -> (r: Vec3)
        requires
            i128::MIN <= self@.x - o@.x <= i128::MAX,
            i128::MIN <= self@.y - o@.y <= i128::MAX,
            i128::MIN <= self@.z - o@.z <= i128::MAX,
        ensures
            r@ == self@.minus(o@),
    {
        Vec3 { x: self.x - o.x, y: self.y - o.y, z: self.z - o.z }
    }

    pub fn neg(&self) -> (r: Vec3)
        requires
            self@.x > i128::MIN,
            self@.y > i128::MIN,
            self@.z > i128::MIN,
        ensures
            r@ == self@.neg(),
    {
        Vec3 { x: -self.x, y: -self.y, z: -self.z }
    }

    /// Multiply by the fixed-point scalar `s`, each component rounded
    /// toward zero.
    pub fn scaled(&self, s: i128) -> (r: Vec3)
        requires
            i128::MIN < self@.x * s <= i128::MAX,
            i128::MIN < self@.y * s <= i128::MAX,
            i128::MIN < self@.z * s <= i128::MAX,
        ensures
            r@ == self@.scaled(s as int),
    {
        Vec3 {
            x: crate::fixed::div_trunc(self.x * s, SCALE),
            y: crate::fixed::div_trunc(self.y * s, SCALE),
            z: crate::fixed::div_trunc(self.z * s, SCALE),
        }
    }

    /// Divide by the positive fixed-point scalar `s`, each component
    /// rounded toward zero.
    pub fn div_scaled(&self, s: i128) -> (r: Vec3)
        requires
            s > 0,
            i128::MIN < self@.x * SCALE <= i128::MAX,
            i128::MIN < self@.y * SCALE <= i128::MAX,
            i128::MIN < self@.z * SCALE <= i128::MAX,
        ensures
            r@ == self@.div_scaled(s as int),
    {
        Vec3 {
            x: crate::fixed::div_trunc(self.x * SCALE, s),
            y: crate::fixed::div_trunc(self.y * SCALE, s),
            z: crate::fixed::div_trunc(self.z * SCALE, s),
        }
    }

    /// Runtime test of `in_range`.
    pub fn check_in_range(&self) -> (r: bool)
        ensures
            r == self@.in_range(),
    {
        -COORD_LIMIT <= self.x && self.x <= COORD_LIMIT && -COORD_LIMIT <= self.y && self.y
            <= COORD_LIMIT && -COORD_LIMIT <= self.z && self.z <= COORD_LIMIT
    }

    /// Squared magnitude, exact.
    pub fn sq_mag(&self) -> (r: i128)
        requires
            self@.bounded(2 * COORD_LIMIT),
        ensures
            r == self@.sq_mag(),
            0 <= r <= 12_000_000_000_000_000_000_000_000_000_000i128,
    {
        proof {
            lemma_square_bound(self@.x, 2 * COORD_LIMIT as int);
            lemma_square_bound(self@.y, 2 * COORD_LIMIT as int);
            lemma_square_bound(self@.z, 2 * COORD_LIMIT as int);
            assert((2 * COORD_LIMIT as int) * (2 * COORD_LIMIT as int)
                == 4_000_000_000_000_000_000_000_000_000_000) by (nonlinear_arith)
                requires
                    COORD_LIMIT == 1_000_000_000_000_000i128,
            ;
        }
        self.x * self.x + self.y * self.y + self.z * self.z
    }

    /// Magnitude, rounded down to a whole number of fixed-point units.
    pub fn mag(&self) -> (r: i128)
        requires
            self@.bounded(2 * COORD_LIMIT),
        ensures
            r == self@.len(),
            is_sqrt_floor(self@.sq_mag(), r as int),
            0 <= r,
    {
        let q: i128 = self.sq_mag();
        let r: u128 = crate::fixed::isqrt(q as u128);
        r as i128
    }
}

} // verus!
