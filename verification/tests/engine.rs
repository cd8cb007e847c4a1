// Unit tests of the fixed-point primitives, the vector type, the force
// laws and the collision resolver, on exact expected values.

use planetary_motion::fixed::{div_trunc, isqrt, SCALE};
use planetary_motion::planet::Planet;
use planetary_motion::vec3::Vec3;

#[test]
fn div_trunc_rounds_toward_zero() {
    assert_eq!(div_trunc(7, 2), 3);
    assert_eq!(div_trunc(-7, 2), -3);
    assert_eq!(div_trunc(6, 3), 2);
    assert_eq!(div_trunc(-6, 3), -2);
    assert_eq!(div_trunc(0, 5), 0);
    assert_eq!(div_trunc(1, 1_000_000), 0);
    assert_eq!(div_trunc(-1, 1_000_000), 0);
}

#[test]
fn isqrt_small_values() {
    assert_eq!(isqrt(0), 0);
    assert_eq!(isqrt(1), 1);
    assert_eq!(isqrt(2), 1);
    assert_eq!(isqrt(3), 1);
    assert_eq!(isqrt(4), 2);
    assert_eq!(isqrt(99), 9);
    assert_eq!(isqrt(100), 10);
    assert_eq!(isqrt(2_000_000_000_000), 1_414_213);
}

#[test]
fn vec3_arithmetic() {
    let a: Vec3 = Vec3::new(1_000_000, -2_000_000, 3_000_000);
    let b: Vec3 = Vec3::new(500_000, 500_000, -500_000);
    assert_eq!(a.plus(&b), Vec3::new(1_500_000, -1_500_000, 2_500_000));
    assert_eq!(a.minus(&b), Vec3::new(500_000, -2_500_000, 3_500_000));
    assert_eq!(a.neg(), Vec3::new(-1_000_000, 2_000_000, -3_000_000));
    // Scaling by 0.5 rounds each component toward zero.
    assert_eq!(a.scaled(500_000), Vec3::new(500_000, -1_000_000, 1_500_000));
    // Dividing by 2.0.
    assert_eq!(a.div_scaled(2_000_000), Vec3::new(500_000, -1_000_000, 1_500_000));
    assert_eq!(Vec3::default(), Vec3::new(0, 0, 0));
}

#[test]
fn vec3_magnitude_of_three_four_five() {
    let v: Vec3 = Vec3::new(3_000_000, 4_000_000, 0);
    assert_eq!(v.sq_mag(), 25_000_000_000_000);
    assert_eq!(v.mag(), 5_000_000);
}

#[test]
fn planet_new_sets_fields() {
    let velocity: Vec3 = Vec3::new(1, 2, 3);
    let position: Vec3 = Vec3::new(4, 5, 6);
    let p: Planet = Planet::new(7, 8, velocity, position);
    assert_eq!(p.mass, 7);
    assert_eq!(p.radius, 8);
    assert_eq!(p.velocity, velocity);
    assert_eq!(p.position, position);
}

// Two unit masses one gravitational constant apart at distance 2 attract
// with magnitude 1/4: the fixed-point force is exactly (250000, 0, 0).
#[test]
fn gravitational_force_inverse_square() {
    let a: Planet = Planet::new(SCALE, 0, Vec3::default(), Vec3::new(2_000_000, 0, 0));
    let b: Planet = Planet::new(SCALE, 0, Vec3::default(), Vec3::new(0, 0, 0));
    assert_eq!(a.gravitational_magnitude(&b, SCALE), 250_000);
    let f: Vec3 = a.gravitational_force(&b, SCALE);
    assert_eq!(f, Vec3::new(250_000, 0, 0));
}

// At distance 3 the magnitude 1/9 truncates to 0.111111 in fixed point.
#[test]
fn gravitational_magnitude_truncates() {
    let a: Planet = Planet::new(SCALE, 0, Vec3::default(), Vec3::new(3_000_000, 0, 0));
    let b: Planet = Planet::new(SCALE, 0, Vec3::default(), Vec3::new(0, 0, 0));
    assert_eq!(a.gravitational_magnitude(&b, SCALE), 111_111);
}

// Newton's third law on concrete values: swapping the bodies negates
// the force exactly, also off-axis.
#[test]
fn gravitational_force_antisymmetric() {
    let a: Planet = Planet::new(
        3 * SCALE,
        0,
        Vec3::default(),
        Vec3::new(1_000_000, -2_000_000, 500_000),
    );
    let b: Planet = Planet::new(5 * SCALE, 0, Vec3::default(), Vec3::new(-250_000, 750_000, 0));
    let fab: Vec3 = a.gravitational_force(&b, SCALE);
    let fba: Vec3 = b.gravitational_force(&a, SCALE);
    assert_eq!(fba, fab.neg());
    assert_ne!(fab, Vec3::new(0, 0, 0));
}

// The rocket force on a 3-4-0 separation: sin(2*bearing) = 24/25, and
// every stage divides exactly.
#[test]
fn rocket_force_exact() {
    let a: Planet = Planet::new(SCALE, 0, Vec3::default(), Vec3::new(3_000_000, 4_000_000, 0));
    let b: Planet = Planet::new(SCALE, 0, Vec3::default(), Vec3::new(0, 0, 0));
    let rocket_factor: i128 = 2_100_000;
    let f: Vec3 = a.rocket_force(&b, SCALE, rocket_factor);
    assert_eq!(f, Vec3::new(48_384, 64_512, 0));
}

// The rocket oscillation vanishes on the planar axes (bearing 0 or
// pi/2), where sin(2*bearing) == 0.
#[test]
fn rocket_force_vanishes_on_axis() {
    let a: Planet = Planet::new(SCALE, 0, Vec3::default(), Vec3::new(2_000_000, 0, 0));
    let b: Planet = Planet::new(SCALE, 0, Vec3::default(), Vec3::new(0, 0, 0));
    let f: Vec3 = a.rocket_force(&b, SCALE, 2_100_000);
    assert_eq!(f, Vec3::new(0, 0, 0));
}

#[test]
fn kinematics_update_moves_with_velocity() {
    let mut p: Planet = Planet::new(
        SCALE,
        0,
        Vec3::new(1_000_000, -500_000, 0),
        Vec3::new(10_000_000, 0, 0),
    );
    // A half-second step: position += velocity * 0.5.
    p.kinematics_update(500_000);
    assert_eq!(p.position, Vec3::new(10_500_000, -250_000, 0));
    assert_eq!(p.velocity, Vec3::new(1_000_000, -500_000, 0));
}

#[test]
fn apply_force_kicks_velocity() {
    let mut p: Planet = Planet::new(2 * SCALE, 0, Vec3::new(100, 0, 0), Vec3::default());
    // force (4, 0, 0) over a full second on mass 2: dv = (2, 0, 0).
    p.apply_force(&Vec3::new(4_000_000, 0, 0), SCALE);
    assert_eq!(p.velocity, Vec3::new(2_000_100, 0, 0));
    assert_eq!(p.position, Vec3::new(0, 0, 0));
}

// Collision separation invariant: overlapping spheres are pushed to
// exact surface contact and stopped dead.
#[test]
fn separate_restores_contact_even_overlap() {
    let mut a: Planet = Planet::new(
        SCALE,
        2_000_000,
        Vec3::new(7, 8, 9),
        Vec3::new(3_000_000, 0, 0),
    );
    let mut b: Planet = Planet::new(SCALE, 2_000_000, Vec3::new(-7, -8, -9), Vec3::new(0, 0, 0));
    a.separate_planets(&mut b);
    assert_eq!(a.position, Vec3::new(3_500_000, 0, 0));
    assert_eq!(b.position, Vec3::new(-500_000, 0, 0));
    assert_eq!(a.velocity, Vec3::new(0, 0, 0));
    assert_eq!(b.velocity, Vec3::new(0, 0, 0));
    // Separation equals the radius sum exactly.
    assert_eq!(a.position.minus(&b.position).mag(), 4_000_000);
}

// With an odd interpenetration depth the resolver lands one fixed-point
// unit inside the radius sum (halving truncates).
#[test]
fn separate_restores_contact_odd_overlap() {
    let mut a: Planet = Planet::new(SCALE, 2_000_000, Vec3::default(), Vec3::new(2_999_999, 0, 0));
    let mut b: Planet = Planet::new(SCALE, 2_000_000, Vec3::default(), Vec3::new(0, 0, 0));
    a.separate_planets(&mut b);
    assert_eq!(a.position.minus(&b.position).mag(), 3_999_999);
}

// No-op when not overlapping: surfaces at or beyond contact are left
// exactly alone, velocities included.
#[test]
fn separate_no_op_when_apart() {
    let va: Vec3 = Vec3::new(11, 12, 13);
    let vb: Vec3 = Vec3::new(-11, -12, -13);
    let mut a: Planet = Planet::new(SCALE, 1_000_000, va, Vec3::new(5_000_000, 0, 0));
    let mut b: Planet = Planet::new(SCALE, 1_000_000, vb, Vec3::new(0, 0, 0));
    a.separate_planets(&mut b);
    assert_eq!(a.position, Vec3::new(5_000_000, 0, 0));
    assert_eq!(b.position, Vec3::new(0, 0, 0));
    assert_eq!(a.velocity, va);
    assert_eq!(b.velocity, vb);
}

// Exactly touching surfaces are a no-op too.
#[test]
fn separate_no_op_at_contact() {
    let mut a: Planet = Planet::new(SCALE, 1_500_000, Vec3::new(5, 0, 0), Vec3::new(3_000_000, 0, 0));
    let mut b: Planet = Planet::new(SCALE, 1_500_000, Vec3::new(0, 5, 0), Vec3::new(0, 0, 0));
    a.separate_planets(&mut b);
    assert_eq!(a.position, Vec3::new(3_000_000, 0, 0));
    assert_eq!(b.position, Vec3::new(0, 0, 0));
    assert_eq!(a.velocity, Vec3::new(5, 0, 0));
    assert_eq!(b.velocity, Vec3::new(0, 5, 0));
}
