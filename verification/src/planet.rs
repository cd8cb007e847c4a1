//! A simulated body: mass, radius, position and velocity, with the
//! pairwise force laws and the collision resolver.

use crate::fixed::{
    is_sqrt_floor, lemma_sqrt_floor_dominates, lemma_sqrt_floor_exists, lemma_sqrt_floor_unique,
    lemma_tdiv_bound, lemma_tdiv_exact, lemma_tdiv_facts, lemma_tdiv_neg, tdiv, COORD_LIMIT,
    FACTOR_LIMIT, FORCE_LIMIT, GRAV_LIMIT, MASS_LIMIT, SCALE,
};
use crate::vec3::{lemma_components_within_sq_mag, lemma_sq_mag_neg, lemma_square_bound, Vec3, V3};
use vstd::arithmetic::div_mod::lemma_div_of0;
use vstd::prelude::*;

verus! {

/// Mathematical model of a body, over unbounded integers.
pub ghost struct PlanetModel {
    pub mass: int,
    pub radius: int,
    pub velocity: V3,
    pub position: V3,
}

impl PlanetModel {
    /// Well-formed: positive mass, nonnegative radius, and every
    /// coordinate within the fixed-point working range.
    pub open spec fn wf(self) -> bool {
        &&& 1 <= self.mass <= MASS_LIMIT
        &&& 0 <= self.radius <= COORD_LIMIT
        &&& self.velocity.in_range()
        &&& self.position.in_range()
    }
}

/// The separation vector from `b` to `a` (pointing at `a`).
pub open spec fn sep(a: PlanetModel, b: PlanetModel) -> V3 {
    a.position.minus(b.position)
}

/// The gravitational force magnitude `g * m_a * m_b / |sep|^2`, rounded
/// toward zero (in fixed-point force units).
pub open spec fn grav_mag_spec(a: PlanetModel, b: PlanetModel, g: int) -> int {
    tdiv(g * a.mass * b.mass, sep(a, b).sq_mag())
}

/// The force vector with magnitude `mag` directed along `d`: the unit
/// vector of `d` (times `SCALE`) scaled by `mag`.
pub open spec fn force_from_mag(d: V3, mag: int) -> V3 {
    d.div_scaled(d.len()).scaled(mag)
}

/// Inputs on which the gravitational force is defined and representable:
/// well-formed bodies, a gravitational constant in range, distinct
/// positions, and a force magnitude that fits the working range.
pub open spec fn grav_force_ok(a: PlanetModel, b: PlanetModel, g: int) -> bool {
    &&& a.wf()
    &&& b.wf()
    &&& 0 <= g <= GRAV_LIMIT
    &&& sep(a, b).sq_mag() > 0
    &&& grav_mag_spec(a, b, g) <= FORCE_LIMIT
}

/// The gravitational force exerted on `a` along the separation vector
/// `a.position - b.position` (so pointing away from `b`; the simulation
/// step subtracts it from `a`'s momentum and adds it to `b`'s).
pub open spec fn grav_force_spec(a: PlanetModel, b: PlanetModel, g: int) -> V3 {
    force_from_mag(sep(a, b), grav_mag_spec(a, b, g))
}

/// A positive squared magnitude forces a positive rounded-down length.
pub proof fn lemma_len_pos(d: V3)
    requires
        d.sq_mag() > 0,
    ensures
        is_sqrt_floor(d.sq_mag(), d.len()),
        d.len() >= 1,
{
    lemma_sqrt_floor_exists(d.sq_mag());
}

/// Squared length of the separation vector's planar (x, y) part.
pub open spec fn planar_sq(d: V3) -> int {
    d.x * d.x + d.y * d.y
}

/// The fixed-point value of `sin(2 * bearing)` where the bearing is the
/// planar angle of `d`: exactly `2*x*y / (x^2 + y^2)`, rounded toward
/// zero, and zero on the degenerate planar origin (matching
/// `atan2(0, 0) == 0`).
pub open spec fn sin_double_bearing_spec(d: V3) -> int {
    if planar_sq(d) == 0 {
        0
    } else {
        tdiv(2 * d.x * d.y * SCALE, planar_sq(d))
    }
}

/// The rocket force magnitude: the gravitational magnitude scaled by the
/// bearing oscillation and by the rocket factor, each stage rounded
/// toward zero.
pub open spec fn rocket_mag_spec(a: PlanetModel, b: PlanetModel, g: int, rf: int) -> int {
    tdiv(
        tdiv(grav_mag_spec(a, b, g) * sin_double_bearing_spec(sep(a, b)), SCALE as int) * rf,
        SCALE as int,
    )
}

/// Inputs on which the rocket force is defined and representable.
pub open spec fn rocket_force_ok(a: PlanetModel, b: PlanetModel, g: int, rf: int) -> bool {
    &&& grav_force_ok(a, b, g)
    &&& 0 <= rf <= FACTOR_LIMIT
    &&& -FORCE_LIMIT <= rocket_mag_spec(a, b, g, rf) <= FORCE_LIMIT
}

/// The rocket force vector along the separation vector.
pub open spec fn rocket_force_spec(a: PlanetModel, b: PlanetModel, g: int, rf: int) -> V3 {
    force_from_mag(sep(a, b), rocket_mag_spec(a, b, g, rf))
}

/// One position step: `position += velocity * delta_t`, the velocity
/// taken as it stands.
pub open spec fn kinematics_spec(p: PlanetModel, dt: int) -> PlanetModel {
    PlanetModel {
        mass: p.mass,
        radius: p.radius,
        velocity: p.velocity,
        position: p.position.plus(p.velocity.scaled(dt)),
    }
}

/// The velocity change one time step of `f` imparts to a body of mass
/// `m`: `f * dt / m`, each component rounded toward zero once.
pub open spec fn delta_v(f: V3, dt: int, m: int) -> V3 {
    V3 { x: tdiv(f.x * dt, m), y: tdiv(f.y * dt, m), z: tdiv(f.z * dt, m) }
}

/// One velocity step: `velocity += force / mass * delta_t`.
pub open spec fn apply_force_spec(p: PlanetModel, f: V3, dt: int) -> PlanetModel {
    PlanetModel {
        mass: p.mass,
        radius: p.radius,
        velocity: p.velocity.plus(delta_v(f, dt, p.mass)),
        position: p.position,
    }
}

/// Half the interpenetration depth (rounded toward zero): positive
/// exactly when the collision resolver acts.
pub open spec fn overlap_amount(a: PlanetModel, b: PlanetModel) -> int {
    tdiv(a.radius + b.radius - sep(a, b).len(), 2)
}

/// The displacement the resolver adds to `a`'s position (and subtracts
/// from `b`'s): the unit separation vector scaled by the overlap.
pub open spec fn separate_push(a: PlanetModel, b: PlanetModel) -> V3 {
    sep(a, b).div_scaled(sep(a, b).len()).scaled(overlap_amount(a, b))
}

/// Inputs on which the resolver is defined: radii and positions in
/// range, and the two positions distinct.
pub open spec fn separate_ok(a: Planet, b: Planet) -> bool {
    &&& 0 <= a@.radius <= COORD_LIMIT
    &&& 0 <= b@.radius <= COORD_LIMIT
    &&& a@.position.in_range()
    &&& b@.position.in_range()
    &&& sep(a@, b@).sq_mag() > 0
}

/// What the resolver does: on overlap, push the bodies apart
/// symmetrically and zero both velocities; otherwise change nothing.
pub open spec fn separate_spec(a: PlanetModel, b: PlanetModel) -> (PlanetModel, PlanetModel) {
    if overlap_amount(a, b) > 0 {
        let push = separate_push(a, b);
        (
            PlanetModel {
                mass: a.mass,
                radius: a.radius,
                velocity: V3::zero(),
                position: a.position.plus(push),
            },
            PlanetModel {
                mass: b.mass,
                radius: b.radius,
                velocity: V3::zero(),
                position: b.position.minus(push),
            },
        )
    } else {
        (a, b)
    }
}

/// A position increment `v * dt / SCALE` stays within the coordinate
/// range when the velocity does.
proof fn lemma_kick_bound(v: int, dt: int)
    requires
        -COORD_LIMIT <= v <= COORD_LIMIT,
        1 <= dt <= SCALE,
    ensures
        -COORD_LIMIT <= tdiv(v * dt, SCALE as int) <= COORD_LIMIT,
{
    assert(-(COORD_LIMIT * SCALE) <= v * dt <= COORD_LIMIT * SCALE) by (nonlinear_arith)
        requires
            -COORD_LIMIT <= v <= COORD_LIMIT,
            1 <= dt <= SCALE,
            SCALE == 1_000_000i128,
            COORD_LIMIT == 1_000_000_000_000_000i128,
    ;
    lemma_tdiv_bound(v * dt, SCALE as int, COORD_LIMIT as int);
}

/// A velocity increment `f * dt / m` is bounded by the force limit times
/// the time step.
proof fn lemma_impulse_bound(f: int, dt: int, m: int)
    requires
        -FORCE_LIMIT <= f <= FORCE_LIMIT,
        1 <= dt <= SCALE,
        m >= 1,
    ensures
        -(FORCE_LIMIT * SCALE) <= tdiv(f * dt, m) <= FORCE_LIMIT * SCALE,
        -(FORCE_LIMIT * SCALE) <= f * dt <= FORCE_LIMIT * SCALE,
{
    assert(-(FORCE_LIMIT * SCALE) <= f * dt <= FORCE_LIMIT * SCALE) by (nonlinear_arith)
        requires
            -FORCE_LIMIT <= f <= FORCE_LIMIT,
            1 <= dt <= SCALE,
            SCALE == 1_000_000i128,
            FORCE_LIMIT == 10_000_000_000_000_000_000_000_000_000i128,
    ;
    assert(-((FORCE_LIMIT * SCALE) * m) <= f * dt <= (FORCE_LIMIT * SCALE) * m)
        by (nonlinear_arith)
        requires
            -(FORCE_LIMIT * SCALE) <= f * dt <= FORCE_LIMIT * SCALE,
            m >= 1,
            FORCE_LIMIT * SCALE > 0,
    ;
    lemma_tdiv_bound(f * dt, m, FORCE_LIMIT * SCALE);
}

/// A push component `u * ext / SCALE` is bounded by the overlap.
proof fn lemma_push_bound(u: int, ext: int)
    requires
        -SCALE <= u <= SCALE,
        0 <= ext <= 3 * COORD_LIMIT,
    ensures
        -ext <= tdiv(u * ext, SCALE as int) <= ext,
        -(SCALE * ext) <= u * ext <= SCALE * ext,
{
    assert(-(SCALE * ext) <= u * ext <= SCALE * ext) by (nonlinear_arith)
        requires
            -SCALE <= u <= SCALE,
            0 <= ext,
    ;
    assert(SCALE * ext == ext * SCALE) by (nonlinear_arith);
    lemma_tdiv_bound(u * ext, SCALE as int, ext);
}

/// The body simulated by the engine.
#[derive(Clone, Copy, Debug, PartialEq, Eq, Structural)]
pub struct Planet {
    pub radius: i128,
    pub mass: i128,
    pub velocity: Vec3,
    pub position: Vec3,
}

impl View for Planet {
    type V = PlanetModel;

    open spec fn view(&self) -> PlanetModel {
        PlanetModel {
            mass: self.mass as int,
            radius: self.radius as int,
            velocity: self.velocity@,
            position: self.position@,
        }
    }
}

impl Planet {
    /// Construct a body. The construction boundary owns validation:
    /// callers reject non-positive masses and negative radii before this
    /// point.
    pub fn new(mass: i128, radius: i128, velocity: Vec3, position: Vec3) -> (r: Planet)
        requires
            1 <= mass <= MASS_LIMIT,
            0 <= radius <= COORD_LIMIT,
            velocity@.in_range(),
            position@.in_range(),
        ensures
            r@ == (PlanetModel {
                mass: mass as int,
                radius: radius as int,
                velocity: velocity@,
                position: position@,
            }),
            r@.wf(),
    {
        Planet { mass, radius, velocity, position }
    }

    /// The rounded gravitational force magnitude
    /// `g * m_a * m_b / |sep|^2` (in fixed-point force units).
    pub fn gravitational_magnitude(&self, other_planet: &Planet, g: i128) -> (r: i128)
        requires
            self@.wf(),
            other_planet@.wf(),
            0 <= g <= GRAV_LIMIT,
            sep(self@, other_planet@).sq_mag() > 0,
        ensures
            r == grav_mag_spec(self@, other_planet@, g as int),
            r >= 0,
    {
        let d: Vec3 = self.position.minus(&other_planet.position);
        let q: i128 = d.sq_mag();
        proof {
            assert(0 <= g * self.mass <= GRAV_LIMIT * MASS_LIMIT) by (nonlinear_arith)
                requires
                    0 <= g <= GRAV_LIMIT,
                    1 <= self.mass <= MASS_LIMIT,
                    GRAV_LIMIT == 1_000_000_000_000i128,
                    MASS_LIMIT == 1_000_000_000_000i128,
            ;
            assert(0 <= (g * self.mass) * other_planet.mass
                <= 1_000_000_000_000_000_000_000_000_000_000_000_000) by (nonlinear_arith)
                requires
                    0 <= g * self.mass <= 1_000_000_000_000_000_000_000_000,
                    1 <= other_planet.mass <= 1_000_000_000_000i128,
            ;
        }
        let gm: i128 = g * self.mass;
        let gmm: i128 = gm * other_planet.mass;
        let r: i128 = crate::fixed::div_trunc(gmm, q);
        proof {
            lemma_tdiv_facts(gmm as int, q as int);
        }
        r
    }

    /// Runtime test of well-formedness.
    pub fn check_wf(&self) -> (r: bool)
        ensures
            r == self@.wf(),
    {
        1 <= self.mass && self.mass <= MASS_LIMIT && 0 <= self.radius && self.radius
            <= COORD_LIMIT && self.velocity.check_in_range() && self.position.check_in_range()
    }

    /// The gravitational force of `other_planet` on `self`, directed
    /// along their separation vector, every component rounded exactly as
    /// `grav_force_spec` states.
    pub fn gravitational_force(&self, other_planet: &Planet, g: i128) -> (r: Vec3)
        requires
            grav_force_ok(self@, other_planet@, g as int),
        ensures
            r@ == grav_force_spec(self@, other_planet@, g as int),
            r@.bounded(FORCE_LIMIT as int),
    {
        let ghost am = self@;
        let ghost bm = other_planet@;
        let d: Vec3 = self.position.minus(&other_planet.position);
        assert(d@ == sep(am, bm));
        let l: i128 = d.mag();
        proof {
            lemma_len_pos(d@);
        }
        let mag: i128 = self.gravitational_magnitude(other_planet, g);
        let f: Vec3 = force_along(&d, l, mag);
        proof {
            assert(f@ == grav_force_spec(am, bm, g as int));
        }
        f
    }

    /// The rocket force: the gravitational magnitude scaled by
    /// `sin(2 * bearing) * rocket_factor`, where the bearing is the
    /// planar angle of the separation vector. Since
    /// `sin(2 * atan2(y, x)) == 2*x*y / (x^2 + y^2)`, the oscillation is
    /// computed exactly in fixed point, with no trigonometry.
    pub fn rocket_force(&self, other_planet: &Planet, g: i128, rocket_factor: i128) -> (r: Vec3)
        requires
            rocket_force_ok(self@, other_planet@, g as int, rocket_factor as int),
        ensures
            r@ == rocket_force_spec(self@, other_planet@, g as int, rocket_factor as int),
            r@.bounded(FORCE_LIMIT as int),
    {
        let ghost am = self@;
        let ghost bm = other_planet@;
        let d: Vec3 = self.position.minus(&other_planet.position);
        let l: i128 = d.mag();
        proof {
            lemma_len_pos(d@);
        }
        let mag: i128 = self.gravitational_magnitude(other_planet, g);
        proof {
            lemma_square_bound(d@.x, 2 * COORD_LIMIT as int);
            lemma_square_bound(d@.y, 2 * COORD_LIMIT as int);
            assert((2 * COORD_LIMIT as int) * (2 * COORD_LIMIT as int)
                == 4_000_000_000_000_000_000_000_000_000_000) by (nonlinear_arith)
                requires
                    COORD_LIMIT == 1_000_000_000_000_000i128,
            ;
        }
        let qxy: i128 = d.x * d.x + d.y * d.y;
        let s2: i128 = if qxy == 0 {
            0
        } else {
            proof {
                assert(qxy > 0);
                assert(-qxy <= 2 * d.x * d.y <= qxy) by (nonlinear_arith)
                    requires
                        qxy == d.x * d.x + d.y * d.y,
                ;
                assert(-(SCALE * qxy) <= (2 * d.x * d.y) * SCALE <= SCALE * qxy)
                    by (nonlinear_arith)
                    requires
                        -qxy <= 2 * d.x * d.y <= qxy,
                        qxy > 0,
                        SCALE == 1_000_000i128,
                ;
                lemma_tdiv_bound((2 * d.x * d.y) * SCALE, qxy as int, SCALE as int);
            }
            let n2: i128 = 2 * d.x;
            let n3: i128 = n2 * d.y;
            crate::fixed::div_trunc(n3 * SCALE, qxy)
        };
        proof {
            assert(s2 as int == sin_double_bearing_spec(d@));
            assert(-SCALE <= s2 <= SCALE);
            assert(-(FORCE_LIMIT * SCALE) <= mag * s2 <= FORCE_LIMIT * SCALE) by (nonlinear_arith)
                requires
                    0 <= mag <= FORCE_LIMIT,
                    -SCALE <= s2 <= SCALE,
                    SCALE == 1_000_000i128,
                    FORCE_LIMIT == 10_000_000_000_000_000_000_000_000_000i128,
            ;
            lemma_tdiv_bound(mag * s2, SCALE as int, FORCE_LIMIT as int);
        }
        let t: i128 = crate::fixed::div_trunc(mag * s2, SCALE);
        proof {
            assert(-(FORCE_LIMIT * FACTOR_LIMIT) <= t * rocket_factor <= FORCE_LIMIT * FACTOR_LIMIT)
                by (nonlinear_arith)
                requires
                    -FORCE_LIMIT <= t <= FORCE_LIMIT,
                    0 <= rocket_factor <= FACTOR_LIMIT,
                    FACTOR_LIMIT == 100_000_000i128,
                    FORCE_LIMIT == 10_000_000_000_000_000_000_000_000_000i128,
            ;
        }
        let magr: i128 = crate::fixed::div_trunc(t * rocket_factor, SCALE);
        proof {
            assert(magr as int == rocket_mag_spec(am, bm, g as int, rocket_factor as int));
            assert(-FORCE_LIMIT <= magr <= FORCE_LIMIT);
        }
        let f: Vec3 = force_along(&d, l, magr);
        proof {
            assert(f@ == rocket_force_spec(am, bm, g as int, rocket_factor as int));
        }
        f
    }

    /// Advance the position by one time step using the current velocity
    /// (the velocity the integrator has already updated: semi-implicit
    /// Euler).
    pub fn kinematics_update(&mut self, delta_t: i128)
        requires
            1 <= delta_t <= SCALE,
            old(self)@.velocity.in_range(),
            old(self)@.position.in_range(),
        ensures
            final(self)@ == kinematics_spec(old(self)@, delta_t as int),
    {
        proof {
            lemma_kick_bound(old(self)@.velocity.x, delta_t as int);
            lemma_kick_bound(old(self)@.velocity.y, delta_t as int);
            lemma_kick_bound(old(self)@.velocity.z, delta_t as int);
        }
        let dx: i128 = crate::fixed::div_trunc(self.velocity.x * delta_t, SCALE);
        let dy: i128 = crate::fixed::div_trunc(self.velocity.y * delta_t, SCALE);
        let dz: i128 = crate::fixed::div_trunc(self.velocity.z * delta_t, SCALE);
        self.position = self.position.plus(&Vec3::new(dx, dy, dz));
    }

    /// Add one time step's worth of acceleration from `force` to the
    /// velocity: `v += force / mass * delta_t`, each component rounded
    /// toward zero once.
    pub fn apply_force(&mut self, force: &Vec3, delta_t: i128)
        requires
            1 <= old(self)@.mass <= MASS_LIMIT,
            1 <= delta_t <= SCALE,
            force@.bounded(FORCE_LIMIT as int),
            old(self)@.velocity.in_range(),
        ensures
            final(self)@ == apply_force_spec(old(self)@, force@, delta_t as int),
    {
        proof {
            lemma_impulse_bound(force@.x, delta_t as int, old(self)@.mass);
            lemma_impulse_bound(force@.y, delta_t as int, old(self)@.mass);
            lemma_impulse_bound(force@.z, delta_t as int, old(self)@.mass);
        }
        let dvx: i128 = crate::fixed::div_trunc(force.x * delta_t, self.mass);
        let dvy: i128 = crate::fixed::div_trunc(force.y * delta_t, self.mass);
        let dvz: i128 = crate::fixed::div_trunc(force.z * delta_t, self.mass);
        self.velocity = self.velocity.plus(&Vec3::new(dvx, dvy, dvz));
    }

    /// Resolve an overlap: if the spheres interpenetrate by more than the
    /// fixed-point resolution, push both bodies apart symmetrically along
    /// their connecting axis and stop them dead (fully inelastic contact).
    /// Not touching means not touched: positions and velocities are left
    /// exactly as they were.
    pub fn separate_planets(&mut self, other_planet: &mut Planet)
        requires
            separate_ok(*old(self), *old(other_planet)),
        ensures
            (final(self)@, final(other_planet)@) == separate_spec(
                old(self)@,
                old(other_planet)@,
            ),
            overlap_amount(old(self)@, old(other_planet)@) > 0 ==> final(self)@.velocity
                == V3::zero() && final(other_planet)@.velocity == V3::zero(),
            sep(old(self)@, old(other_planet)@).len() >= old(self)@.radius + old(
                other_planet,
            )@.radius ==> *final(self) == *old(self) && *final(other_planet) == *old(
                other_planet,
            ),
            final(self)@.position.bounded(4 * COORD_LIMIT),
            final(other_planet)@.position.bounded(4 * COORD_LIMIT),
    {
        let ghost am = self@;
        let ghost bm = other_planet@;
        let d: Vec3 = self.position.minus(&other_planet.position);
        let l: i128 = d.mag();
        proof {
            lemma_len_pos(d@);
            lemma_components_within_sq_mag(d@);
            lemma_sqrt_floor_dominates(d@.sq_mag(), l as int, d@.x);
            lemma_sqrt_floor_dominates(d@.sq_mag(), l as int, d@.y);
            lemma_sqrt_floor_dominates(d@.sq_mag(), l as int, d@.z);
            lemma_square_bound(d@.x, 2 * COORD_LIMIT as int);
            lemma_square_bound(d@.y, 2 * COORD_LIMIT as int);
            lemma_square_bound(d@.z, 2 * COORD_LIMIT as int);
            assert((2 * COORD_LIMIT as int) * (2 * COORD_LIMIT as int)
                == 4_000_000_000_000_000_000_000_000_000_000) by (nonlinear_arith)
                requires
                    COORD_LIMIT == 1_000_000_000_000_000i128,
            ;
            assert(l as int <= 4 * COORD_LIMIT) by (nonlinear_arith)
                requires
                    0 <= l as int,
                    (l as int) * (l as int) <= 12_000_000_000_000_000_000_000_000_000_000,
                    COORD_LIMIT == 1_000_000_000_000_000i128,
            ;
            lemma_tdiv_bound(
                self@.radius + other_planet@.radius - l as int,
                2,
                3 * COORD_LIMIT as int,
            );
            lemma_tdiv_facts(self@.radius + other_planet@.radius - l as int, 2);
        }
        let extension: i128 = crate::fixed::div_trunc(self.radius + other_planet.radius - l, 2);
        if extension > 0 {
            let ux: i128 = unit_component(d.x, l);
            let uy: i128 = unit_component(d.y, l);
            let uz: i128 = unit_component(d.z, l);
            proof {
                lemma_push_bound(ux as int, extension as int);
                lemma_push_bound(uy as int, extension as int);
                lemma_push_bound(uz as int, extension as int);
            }
            let px: i128 = crate::fixed::div_trunc(ux * extension, SCALE);
            let py: i128 = crate::fixed::div_trunc(uy * extension, SCALE);
            let pz: i128 = crate::fixed::div_trunc(uz * extension, SCALE);
            let push: Vec3 = Vec3::new(px, py, pz);
            self.position = self.position.plus(&push);
            other_planet.position = other_planet.position.minus(&push);
            self.velocity = Vec3::default();
            other_planet.velocity = Vec3::default();
            proof {
                assert(push@ == separate_push(am, bm));
            }
        }
    }
}

/// Build the force vector of magnitude `mag` along `d`, whose rounded
/// length `l` is already known. Shared by the two force laws.
fn force_along(d: &Vec3, l: i128, mag: i128) -> (r: Vec3)
    requires
        d@.bounded(2 * COORD_LIMIT),
        is_sqrt_floor(d@.sq_mag(), l as int),
        l >= 1,
        -FORCE_LIMIT <= mag <= FORCE_LIMIT,
    ensures
        r@ == force_from_mag(d@, mag as int),
        r@.bounded(FORCE_LIMIT as int),
{
    proof {
        lemma_sqrt_floor_unique(d@.sq_mag(), l as int);
        lemma_components_within_sq_mag(d@);
        lemma_sqrt_floor_dominates(d@.sq_mag(), l as int, d@.x);
        lemma_sqrt_floor_dominates(d@.sq_mag(), l as int, d@.y);
        lemma_sqrt_floor_dominates(d@.sq_mag(), l as int, d@.z);
        lemma_square_bound(d@.x, 2 * COORD_LIMIT as int);
        lemma_square_bound(d@.y, 2 * COORD_LIMIT as int);
        lemma_square_bound(d@.z, 2 * COORD_LIMIT as int);
        assert((2 * COORD_LIMIT as int) * (2 * COORD_LIMIT as int)
            == 4_000_000_000_000_000_000_000_000_000_000) by (nonlinear_arith)
            requires
                COORD_LIMIT == 1_000_000_000_000_000i128,
        ;
        assert(l as int <= 4 * COORD_LIMIT) by (nonlinear_arith)
            requires
                0 <= l as int,
                (l as int) * (l as int) <= 12_000_000_000_000_000_000_000_000_000_000,
                COORD_LIMIT == 1_000_000_000_000_000i128,
        ;
    }
    let ux: i128 = unit_component(d.x, l);
    let uy: i128 = unit_component(d.y, l);
    let uz: i128 = unit_component(d.z, l);
    let fx: i128 = scaled_component(ux, mag);
    let fy: i128 = scaled_component(uy, mag);
    let fz: i128 = scaled_component(uz, mag);
    Vec3::new(fx, fy, fz)
}

/// One component of the unit vector of `d` (times `SCALE`): `x * SCALE`
/// divided by the length, rounded toward zero.
fn unit_component(x: i128, l: i128) -> (r: i128)
    requires
        l >= 1,
        -l <= x <= l,
        l <= 4 * COORD_LIMIT,
    ensures
        r == tdiv(x * SCALE, l as int),
        -SCALE <= r <= SCALE,
{
    proof {
        assert(-(SCALE * l) <= x * SCALE <= SCALE * l) by (nonlinear_arith)
            requires
                -l <= x <= l,
                l >= 1,
                SCALE == 1_000_000i128,
        ;
        lemma_tdiv_bound(x * SCALE, l as int, SCALE as int);
    }
    crate::fixed::div_trunc(x * SCALE, l)
}

/// One force component: a unit-vector component scaled by the magnitude
/// and divided by `SCALE`, rounded toward zero.
fn scaled_component(u: i128, mag: i128) -> (r: i128)
    requires
        -SCALE <= u <= SCALE,
        -FORCE_LIMIT <= mag <= FORCE_LIMIT,
    ensures
        r == tdiv(u * mag as int, SCALE as int),
        -FORCE_LIMIT <= r <= FORCE_LIMIT,
{
    proof {
        assert(-(FORCE_LIMIT * SCALE) <= u * mag <= FORCE_LIMIT * SCALE) by (nonlinear_arith)
            requires
                -SCALE <= u <= SCALE,
                -FORCE_LIMIT <= mag <= FORCE_LIMIT,
                SCALE == 1_000_000i128,
                FORCE_LIMIT == 10_000_000_000_000_000_000_000_000_000i128,
        ;
        lemma_tdiv_bound(u * mag, SCALE as int, FORCE_LIMIT as int);
    }
    crate::fixed::div_trunc(u * mag, SCALE)
}

/// Collision separation invariant, along the connecting axis: when the
/// resolver acts on two bodies separated along one axis, the distance it
/// leaves between them equals the radius sum to within one fixed-point
/// unit (the parity loss of halving the overlap), and both velocities
/// are exactly zero.
pub proof fn lemma_separation_restores_contact(a: PlanetModel, b: PlanetModel)
    requires
        0 <= a.radius <= COORD_LIMIT,
        0 <= b.radius <= COORD_LIMIT,
        a.position.in_range(),
        b.position.in_range(),
        sep(a, b).y == 0,
        sep(a, b).z == 0,
        sep(a, b).sq_mag() > 0,
        overlap_amount(a, b) > 0,
    ensures
        ({
            let r = separate_spec(a, b);
            &&& r.0.velocity == V3::zero()
            &&& r.1.velocity == V3::zero()
            &&& sep(r.0, r.1).y == 0
            &&& sep(r.0, r.1).z == 0
            &&& a.radius + b.radius - 1 <= vstd::math::abs(sep(r.0, r.1).x) <= a.radius + b.radius
        }),
{
    let d = sep(a, b);
    let dx = d.x;
    let s = a.radius + b.radius;
    assert(d.sq_mag() == dx * dx);
    if dx == 0 {
        assert(dx * dx == 0) by (nonlinear_arith)
            requires
                dx == 0,
        ;
        assert(false);
    }
    let ax: int = if dx >= 0 { dx } else { -dx };
    assert(is_sqrt_floor(dx * dx, ax)) by {
        assert(ax * ax == dx * dx && ax * ax < (ax + 1) * (ax + 1)) by (nonlinear_arith)
            requires
                ax == (if dx >= 0 { dx } else { -dx }),
                ax >= 0,
        ;
    }
    lemma_sqrt_floor_unique(dx * dx, ax);
    let l = d.len();
    assert(l == ax);
    let ext = overlap_amount(a, b);
    lemma_tdiv_facts(s - l, 2);
    assert(s - l >= 1);
    assert(2 * ext <= s - l && s - l < 2 * ext + 2);
    lemma_div_of0(l);
    lemma_div_of0(SCALE as int);
    assert(tdiv(0 * SCALE, l) == 0);
    let push = separate_push(a, b);
    if dx > 0 {
        assert(tdiv(dx * SCALE, l) == SCALE) by {
            assert(dx * SCALE == SCALE * l) by (nonlinear_arith)
                requires
                    l == dx,
            ;
            lemma_tdiv_exact(SCALE as int, l);
        }
        assert(push.x == ext) by {
            assert(SCALE * ext == ext * SCALE) by (nonlinear_arith);
            lemma_tdiv_exact(ext, SCALE as int);
        }
        assert(tdiv(0 * ext, SCALE as int) == 0);
        let r = separate_spec(a, b);
        assert(sep(r.0, r.1).x == dx + 2 * ext);
        assert(vstd::math::abs(dx + 2 * ext) == dx + 2 * ext);
    } else {
        assert(tdiv(dx * SCALE, l) == -SCALE) by {
            assert(dx * SCALE == (-SCALE) * l) by (nonlinear_arith)
                requires
                    l == -dx,
            ;
            lemma_tdiv_exact(-SCALE as int, l);
        }
        assert(push.x == -ext) by {
            assert((-SCALE) * ext == (-ext) * SCALE) by (nonlinear_arith);
            lemma_tdiv_exact(-ext, SCALE as int);
        }
        assert(tdiv(0 * ext, SCALE as int) == 0);
        let r = separate_spec(a, b);
        assert(sep(r.0, r.1).x == dx - 2 * ext);
        assert(vstd::math::abs(dx - 2 * ext) == l + 2 * ext);
    }
}

/// A force component built along `-x` is the exact negation of the one
/// built along `x`: truncating division is odd in the dividend.
proof fn lemma_force_component_neg(x: int, l: int, mag: int)
    requires
        l >= 1,
    ensures
        tdiv((-x) * SCALE, l) == -tdiv(x * SCALE, l),
        tdiv((-tdiv(x * SCALE, l)) * mag, SCALE as int) == -tdiv(tdiv(x * SCALE, l) * mag, SCALE as int),
{
    assert((-x) * SCALE == -(x * SCALE)) by (nonlinear_arith);
    lemma_tdiv_neg(x * SCALE, l);
    let u = tdiv(x * SCALE, l);
    assert((-u) * mag == -(u * mag)) by (nonlinear_arith);
    lemma_tdiv_neg(u * mag, SCALE as int);
}

/// Newton's third law: the gravitational force the pair exerts on `b` is
/// the exact negation, component for component, of the force on `a` —
/// no rounding breaks the symmetry, because truncating division is odd.
pub proof fn lemma_newtons_third_law(a: PlanetModel, b: PlanetModel, g: int)
    requires
        grav_force_ok(a, b, g),
    ensures
        grav_force_ok(b, a, g),
        grav_force_spec(b, a, g) == grav_force_spec(a, b, g).neg(),
{
    let d = sep(a, b);
    let d2 = sep(b, a);
    assert(d2 == d.neg());
    lemma_sq_mag_neg(d);
    let q = d.sq_mag();
    lemma_len_pos(d);
    lemma_sqrt_floor_unique(q, d.len());
    assert(d2.len() == d.len()) by {
        lemma_sqrt_floor_unique(d2.sq_mag(), d.len());
    }
    let l = d.len();
    assert(g * b.mass * a.mass == g * a.mass * b.mass) by (nonlinear_arith);
    let mag = grav_mag_spec(a, b, g);
    assert(grav_mag_spec(b, a, g) == mag);
    lemma_force_component_neg(d.x, l, mag);
    lemma_force_component_neg(d.y, l, mag);
    lemma_force_component_neg(d.z, l, mag);
    assert(grav_force_spec(b, a, g) == grav_force_spec(a, b, g).neg());
}

/// Force magnitude law: two unit masses (`mass == SCALE`) with `G` one
/// (`g == SCALE`), separated along one axis by `dx`, attract with the
/// fixed-point representation of `1 / dx^2`: the force is
/// `(tdiv(SCALE^3, dx*dx), 0, 0)`, which on the axis is the whole
/// magnitude.
pub proof fn lemma_force_magnitude(a: PlanetModel, b: PlanetModel, dx: int)
    requires
        a.wf(),
        b.wf(),
        a.mass == SCALE,
        b.mass == SCALE,
        sep(a, b) == (V3 { x: dx, y: 0, z: 0 }),
        dx >= 1,
    ensures
        grav_force_ok(a, b, SCALE as int),
        grav_force_spec(a, b, SCALE as int) == (V3 {
            x: tdiv(SCALE * SCALE * SCALE, dx * dx),
            y: 0,
            z: 0,
        }),
{
    let d = sep(a, b);
    let q = d.sq_mag();
    assert(q == dx * dx);
    assert(dx * dx >= 1) by (nonlinear_arith)
        requires
            dx >= 1,
    ;
    assert(is_sqrt_floor(q, dx)) by {
        assert(dx * dx < (dx + 1) * (dx + 1)) by (nonlinear_arith)
            requires
                dx >= 1,
        ;
    }
    lemma_sqrt_floor_unique(q, dx);
    assert(d.len() == dx);
    let mag = grav_mag_spec(a, b, SCALE as int);
    assert(mag == tdiv(SCALE * SCALE * SCALE, dx * dx));
    lemma_tdiv_facts(SCALE * SCALE * SCALE, dx * dx);
    assert(mag <= SCALE * SCALE * SCALE) by {
        assert(-((SCALE * SCALE * SCALE) * (dx * dx)) <= SCALE * SCALE * SCALE
            <= (SCALE * SCALE * SCALE) * (dx * dx)) by (nonlinear_arith)
            requires
                dx * dx >= 1,
                SCALE == 1_000_000i128,
        ;
        lemma_tdiv_bound(SCALE * SCALE * SCALE, dx * dx, SCALE * SCALE * SCALE);
    }
    // Unit vector along the axis is exactly (SCALE, 0, 0).
    assert(tdiv(dx * SCALE, dx) == SCALE) by {
        assert(dx * SCALE == SCALE * dx) by (nonlinear_arith);
        lemma_tdiv_exact(SCALE as int, dx);
    }
    lemma_div_of0(dx);
    assert(tdiv(0 * SCALE, dx) == 0);
    // The axis force component is exactly the magnitude.
    assert(tdiv(SCALE * mag, SCALE as int) == mag) by {
        assert(SCALE * mag == mag * SCALE) by (nonlinear_arith);
        lemma_tdiv_exact(mag, SCALE as int);
    }
    lemma_div_of0(SCALE as int);
    assert(tdiv(0 * mag, SCALE as int) == 0);
}

} // verus!
