// Whole-run scenarios through the simulation loop: orbital stability,
// head-on collision, momentum conservation and determinism.

use planetary_motion::fixed::SCALE;
use planetary_motion::planet::Planet;
use planetary_motion::sim::{simulate, step, SimConfig};
use planetary_motion::vec3::Vec3;

// Two equal masses m = 500000 with G = 1 at separation d = 100, each
// moving at sqrt(G*m/(2d)) = 50 perpendicular to the separation: an
// approximately circular orbit around the midpoint. After 1000 steps of
// deltaT = 0.001 both bodies are still within a few percent of 50 units
// from their center of mass.
#[test]
fn symmetric_orbit_keeps_distance() {
    let m: i128 = 500_000_000_000;
    let d: i128 = 100_000_000;
    let v: i128 = 50_000_000;
    let mut a: Planet = Planet::new(m, 1_000_000, Vec3::new(0, v, 0), Vec3::new(d, 0, 0));
    let mut b: Planet = Planet::new(m, 1_000_000, Vec3::new(0, -v, 0), Vec3::new(0, 0, 0));
    let config: SimConfig = SimConfig { g: SCALE, delta_t: 1_000, still_frame: false };
    let done: u64 = simulate(&mut a, &mut b, &config, 1_000);
    assert_eq!(done, 1_000);
    let com_x: i128 = (a.position.x + b.position.x) / 2;
    let com_y: i128 = (a.position.y + b.position.y) / 2;
    let radius: i128 = d / 2;
    let lo: i128 = radius * 95 / 100;
    let hi: i128 = radius * 105 / 100;
    for p in [&a, &b] {
        let dx: i128 = p.position.x - com_x;
        let dy: i128 = p.position.y - com_y;
        let rr: i128 = dx * dx + dy * dy;
        assert!(rr >= lo * lo, "body fell inside the orbit band: {}", rr);
        assert!(rr <= hi * hi, "body left the orbit band: {}", rr);
        assert_eq!(p.position.z, 0);
    }
}

// Head-on collision: two bodies aimed straight at each other pass
// inside the radius sum during a step; the resolver within that step
// restores the separation to the radius sum exactly and stops both.
#[test]
fn head_on_collision_stops_both() {
    let mut a: Planet = Planet::new(
        1_000_000_000,
        500_000,
        Vec3::new(-600_000, 0, 0),
        Vec3::new(2_000_000, 0, 0),
    );
    let mut b: Planet = Planet::new(
        1_000_000_000,
        500_000,
        Vec3::new(600_000, 0, 0),
        Vec3::new(0, 0, 0),
    );
    // Gravity off: the approach is purely ballistic.
    let config: SimConfig = SimConfig { g: 0, delta_t: SCALE, still_frame: false };
    let ok: bool = step(&mut a, &mut b, &config);
    assert!(ok);
    // After integration the gap was 800000 < 1000000; the resolver acted.
    assert_eq!(a.position, Vec3::new(1_500_000, 0, 0));
    assert_eq!(b.position, Vec3::new(500_000, 0, 0));
    assert_eq!(a.position.minus(&b.position).mag(), 1_000_000);
    assert_eq!(a.velocity, Vec3::new(0, 0, 0));
    assert_eq!(b.velocity, Vec3::new(0, 0, 0));
}

// Momentum conservation: for equal masses the two velocity kicks round
// identically, so the total momentum of the orbit run is conserved
// exactly, step after step.
#[test]
fn momentum_exactly_conserved_for_equal_masses() {
    let m: i128 = 500_000_000_000;
    let v: i128 = 50_000_000;
    let mut a: Planet = Planet::new(m, 1_000_000, Vec3::new(0, v, 0), Vec3::new(100_000_000, 0, 0));
    let mut b: Planet = Planet::new(m, 1_000_000, Vec3::new(0, -v, 0), Vec3::new(0, 0, 0));
    let config: SimConfig = SimConfig { g: SCALE, delta_t: 1_000, still_frame: false };
    for _ in 0..10 {
        let done: u64 = simulate(&mut a, &mut b, &config, 50);
        assert_eq!(done, 50);
        assert_eq!(m * a.velocity.x + m * b.velocity.x, 0);
        assert_eq!(m * a.velocity.y + m * b.velocity.y, 0);
        assert_eq!(m * a.velocity.z + m * b.velocity.z, 0);
    }
}

// Determinism: two independent runs from identical initial conditions
// agree bit for bit.
#[test]
fn identical_runs_agree_exactly() {
    let make = || {
        (
            Planet::new(
                300_000_000_000,
                2_000_000,
                Vec3::new(0, 40_000_000, 0),
                Vec3::new(80_000_000, 0, 0),
            ),
            Planet::new(
                700_000_000_000,
                2_000_000,
                Vec3::new(0, -17_000_000, 0),
                Vec3::new(0, 0, 0),
            ),
        )
    };
    let (mut a1, mut b1) = make();
    let (mut a2, mut b2) = make();
    let config: SimConfig = SimConfig { g: SCALE, delta_t: 1_000, still_frame: false };
    let done1: u64 = simulate(&mut a1, &mut b1, &config, 700);
    let done2: u64 = simulate(&mut a2, &mut b2, &config, 700);
    assert_eq!(done1, done2);
    assert_eq!(a1, a2);
    assert_eq!(b1, b2);
}

// The still-frame recentering pins the first body at the origin without
// touching velocities.
#[test]
fn still_frame_recenters_on_first_body() {
    let m: i128 = 500_000_000_000;
    let mut a: Planet = Planet::new(m, 1_000_000, Vec3::new(0, 50_000_000, 0), Vec3::new(100_000_000, 0, 0));
    let mut b: Planet = Planet::new(m, 1_000_000, Vec3::new(0, -50_000_000, 0), Vec3::new(0, 0, 0));
    let config: SimConfig = SimConfig { g: SCALE, delta_t: 1_000, still_frame: true };
    let ok: bool = step(&mut a, &mut b, &config);
    assert!(ok);
    assert_eq!(a.position, Vec3::new(0, 0, 0));
    assert_ne!(b.position, Vec3::new(0, 0, 0));
    assert_ne!(a.velocity, Vec3::new(0, 0, 0));
}

// A degenerate pair (coincident positions) is refused: the step reports
// failure and leaves the bodies untouched.
#[test]
fn coincident_positions_refused() {
    let mut a: Planet = Planet::new(SCALE, 500_000, Vec3::new(1, 2, 3), Vec3::new(5, 5, 5));
    let mut b: Planet = Planet::new(SCALE, 500_000, Vec3::new(4, 5, 6), Vec3::new(5, 5, 5));
    let config: SimConfig = SimConfig { g: SCALE, delta_t: SCALE, still_frame: false };
    let ok: bool = step(&mut a, &mut b, &config);
    assert!(!ok);
    assert_eq!(a.position, Vec3::new(5, 5, 5));
    assert_eq!(a.velocity, Vec3::new(1, 2, 3));
    assert_eq!(b.velocity, Vec3::new(4, 5, 6));
}

// A run started on degenerate geometry takes no steps at all.
#[test]
fn simulate_stops_on_degenerate_start() {
    let mut a: Planet = Planet::new(SCALE, 500_000, Vec3::default(), Vec3::new(5, 5, 5));
    let mut b: Planet = Planet::new(SCALE, 500_000, Vec3::default(), Vec3::new(5, 5, 5));
    let config: SimConfig = SimConfig { g: SCALE, delta_t: SCALE, still_frame: false };
    let done: u64 = simulate(&mut a, &mut b, &config, 100);
    assert_eq!(done, 0);
    assert_eq!(a.position, Vec3::new(5, 5, 5));
}

// An out-of-range configuration is refused before anything moves.
#[test]
fn bad_config_refused() {
    let mut a: Planet = Planet::new(SCALE, 0, Vec3::default(), Vec3::new(2_000_000, 0, 0));
    let mut b: Planet = Planet::new(SCALE, 0, Vec3::default(), Vec3::new(0, 0, 0));
    let config: SimConfig = SimConfig { g: -1, delta_t: SCALE, still_frame: false };
    assert!(!step(&mut a, &mut b, &config));
    let config2: SimConfig = SimConfig { g: SCALE, delta_t: 0, still_frame: false };
    assert!(!step(&mut a, &mut b, &config2));
    assert_eq!(a.position, Vec3::new(2_000_000, 0, 0));
}
