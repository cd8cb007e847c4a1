//! The simulation loop: one step is force computation, symmetric
//! semi-implicit Euler integration of both bodies, collision
//! resolution, and an optional frame-of-reference recentering.

use crate::fixed::{lemma_tdiv_facts, lemma_tdiv_neg, tdiv, FORCE_LIMIT, GRAV_LIMIT, SCALE};
use crate::planet::{
    apply_force_spec, grav_force_ok, grav_force_spec, grav_mag_spec, kinematics_spec,
    overlap_amount, sep, separate_push, separate_spec, Planet, PlanetModel,
};
use crate::vec3::{Vec3, V3};
use vstd::prelude::*;

verus! {

/// Configuration of a run: gravitational constant, fixed time step, and
/// the "still frame" toggle that recenters positions on the first body.
#[derive(Clone, Copy, Debug, PartialEq, Eq, Structural)]
pub struct SimConfig {
    pub g: i128,
    pub delta_t: i128,
    pub still_frame: bool,
}

impl SimConfig {
    pub open spec fn wf(self) -> bool {
        &&& 0 <= self.g <= GRAV_LIMIT
        &&& 1 <= self.delta_t <= SCALE
    }
}

/// Both bodies after one integration: the force on `a` is subtracted
/// from its momentum and added to `b`'s, then each position advances by
/// the already-updated velocity.
pub open spec fn integrate_spec(a: PlanetModel, b: PlanetModel, g: int, dt: int) -> (
    PlanetModel,
    PlanetModel,
) {
    let f = grav_force_spec(a, b, g);
    let a1 = kinematics_spec(apply_force_spec(a, f.neg(), dt), dt);
    let b1 = kinematics_spec(apply_force_spec(b, f, dt), dt);
    (a1, b1)
}

/// The optional "still frame" transform: subtract the first body's
/// position from both, pinning the first body at the origin.
pub open spec fn recenter_spec(a: PlanetModel, b: PlanetModel, still: bool) -> (
    PlanetModel,
    PlanetModel,
) {
    if still {
        let p = a.position;
        (
            PlanetModel {
                mass: a.mass,
                radius: a.radius,
                velocity: a.velocity,
                position: a.position.minus(p),
            },
            PlanetModel {
                mass: b.mass,
                radius: b.radius,
                velocity: b.velocity,
                position: b.position.minus(p),
            },
        )
    } else {
        (a, b)
    }
}

/// One whole simulation step: integrate, resolve collision, recenter.
pub open spec fn step_spec(a: PlanetModel, b: PlanetModel, g: int, dt: int, still: bool) -> (
    PlanetModel,
    PlanetModel,
) {
    let i = integrate_spec(a, b, g, dt);
    let s = separate_spec(i.0, i.1);
    recenter_spec(s.0, s.1, still)
}

/// The inputs on which one step is defined and every intermediate value
/// representable: well-formed state, distinct positions, a force within
/// the working range, and integrated coordinates still in range.
pub open spec fn step_ok(a: PlanetModel, b: PlanetModel, g: int, dt: int) -> bool {
    &&& a.wf()
    &&& b.wf()
    &&& 0 <= g <= GRAV_LIMIT
    &&& 1 <= dt <= SCALE
    &&& sep(a, b).sq_mag() > 0
    &&& grav_mag_spec(a, b, g) <= FORCE_LIMIT
    &&& ({
        let i = integrate_spec(a, b, g, dt);
        &&& i.0.velocity.in_range()
        &&& i.1.velocity.in_range()
        &&& i.0.position.in_range()
        &&& i.1.position.in_range()
        &&& sep(i.0, i.1).sq_mag() > 0
    })
}

/// Advance the two bodies by one step. Every precondition is tested at
/// run time: on any out-of-range intermediate value or degenerate
/// geometry the bodies are left untouched and `false` comes back.
pub fn step(a: &mut Planet, b: &mut Planet, config: &SimConfig) -> (ok: bool)
    ensures
        ok == step_ok(old(a)@, old(b)@, config.g as int, config.delta_t as int),
        ok ==> (final(a)@, final(b)@) == step_spec(
            old(a)@,
            old(b)@,
            config.g as int,
            config.delta_t as int,
            config.still_frame,
        ),
        !ok ==> *final(a) == *old(a) && *final(b) == *old(b),
{
    let ghost am = a@;
    let ghost bm = b@;
    let ghost gi = config.g as int;
    let ghost dti = config.delta_t as int;
    if !a.check_wf() || !b.check_wf() {
        return false;
    }
    if config.g < 0 || config.g > GRAV_LIMIT || config.delta_t < 1 || config.delta_t > SCALE {
        return false;
    }
    let d: Vec3 = a.position.minus(&b.position);
    let q: i128 = d.sq_mag();
    if q == 0 {
        return false;
    }
    let mag: i128 = a.gravitational_magnitude(b, config.g);
    if mag > FORCE_LIMIT {
        return false;
    }
    let mut a2: Planet = *a;
    let mut b2: Planet = *b;
    assert(grav_force_ok(a2@, b2@, gi));
    let f: Vec3 = a2.gravitational_force(&b2, config.g);
    let nf: Vec3 = f.neg();
    a2.apply_force(&nf, config.delta_t);
    proof {
        assert(a2@.velocity == integrate_spec(am, bm, gi, dti).0.velocity);
    }
    if !a2.velocity.check_in_range() {
        return false;
    }
    a2.kinematics_update(config.delta_t);
    b2.apply_force(&f, config.delta_t);
    proof {
        assert(b2@.velocity == integrate_spec(am, bm, gi, dti).1.velocity);
    }
    if !b2.velocity.check_in_range() {
        return false;
    }
    b2.kinematics_update(config.delta_t);
    proof {
        assert((a2@, b2@) == integrate_spec(am, bm, gi, dti));
    }
    if !a2.position.check_in_range() || !b2.position.check_in_range() {
        return false;
    }
    let d2: Vec3 = a2.position.minus(&b2.position);
    let q2: i128 = d2.sq_mag();
    if q2 == 0 {
        return false;
    }
    assert(step_ok(am, bm, gi, dti));
    a2.separate_planets(&mut b2);
    if config.still_frame {
        let p: Vec3 = a2.position;
        a2.position = a2.position.minus(&p);
        b2.position = b2.position.minus(&p);
    }
    *a = a2;
    *b = b2;
    true
}

/// The state after `n` steps.
pub open spec fn run_spec(a: PlanetModel, b: PlanetModel, g: int, dt: int, still: bool, n: nat) -> (
    PlanetModel,
    PlanetModel,
)
    decreases n,
{
    if n == 0 {
        (a, b)
    } else {
        let prev = run_spec(a, b, g, dt, still, (n - 1) as nat);
        step_spec(prev.0, prev.1, g, dt, still)
    }
}

/// Every one of the first `n` steps is defined and representable.
pub open spec fn run_ok(a: PlanetModel, b: PlanetModel, g: int, dt: int, still: bool, n: nat) -> bool
    decreases n,
{
    if n == 0 {
        true
    } else {
        let prev = run_spec(a, b, g, dt, still, (n - 1) as nat);
        run_ok(a, b, g, dt, still, (n - 1) as nat) && step_ok(prev.0, prev.1, g, dt)
    }
}

/// Run up to `steps` steps, stopping early if a step's preconditions
/// fail at run time; reports how many steps were taken. The final state
/// is exactly the `run_spec` fold of the initial state.
pub fn simulate(a: &mut Planet, b: &mut Planet, config: &SimConfig, steps: u64) -> (done: u64)
    ensures
        done <= steps,
        run_ok(old(a)@, old(b)@, config.g as int, config.delta_t as int, config.still_frame, done as nat),
        (final(a)@, final(b)@) == run_spec(
            old(a)@,
            old(b)@,
            config.g as int,
            config.delta_t as int,
            config.still_frame,
            done as nat,
        ),
        done < steps ==> !step_ok(final(a)@, final(b)@, config.g as int, config.delta_t as int),
{
    let ghost am = a@;
    let ghost bm = b@;
    let ghost gi = config.g as int;
    let ghost dti = config.delta_t as int;
    let ghost still = config.still_frame;
    let mut i: u64 = 0;
    while i < steps
        invariant
            i <= steps,
            am == old(a)@,
            bm == old(b)@,
            run_ok(am, bm, gi, dti, still, i as nat),
            (a@, b@) == run_spec(am, bm, gi, dti, still, i as nat),
            gi == config.g as int,
            dti == config.delta_t as int,
            still == config.still_frame,
        decreases steps - i,
    {
        let ok = step(a, b, config);
        if !ok {
            return i;
        }
        i = i + 1;
    }
    i
}

/// The total momentum of the pair, `m_a * v_a + m_b * v_b`, component
/// by component (in fixed-point mass-velocity units).
pub open spec fn momentum(a: PlanetModel, b: PlanetModel) -> V3 {
    V3 {
        x: a.mass * a.velocity.x + b.mass * b.velocity.x,
        y: a.mass * a.velocity.y + b.mass * b.velocity.y,
        z: a.mass * a.velocity.z + b.mass * b.velocity.z,
    }
}

/// The step's collision resolver does not act: after integration the
/// bodies do not interpenetrate.
pub open spec fn step_no_contact(a: PlanetModel, b: PlanetModel, g: int, dt: int) -> bool {
    let i = integrate_spec(a, b, g, dt);
    overlap_amount(i.0, i.1) <= 0
}

/// Momentum drift of one shared impulse component applied to both
/// masses with opposite signs: below one unit of each mass's rounding,
/// and exactly zero for equal masses.
proof fn lemma_momentum_component(c: int, m1: int, m2: int)
    requires
        m1 >= 1,
        m2 >= 1,
    ensures
        -(m1 + m2) < m2 * tdiv(c, m2) - m1 * tdiv(c, m1) < m1 + m2,
        m1 == m2 ==> m2 * tdiv(c, m2) - m1 * tdiv(c, m1) == 0,
{
    lemma_tdiv_facts(c, m1);
    lemma_tdiv_facts(c, m2);
}

/// Momentum conservation over one collision-free step: the total
/// momentum moves by strictly less than `m_a + m_b` in every component
/// (the rounding of the two velocity kicks), and for equal masses it
/// does not move at all — the two kicks round identically and cancel.
pub proof fn lemma_momentum_conservation_step(
    a: PlanetModel,
    b: PlanetModel,
    g: int,
    dt: int,
    still: bool,
)
    requires
        a.mass >= 1,
        b.mass >= 1,
        step_no_contact(a, b, g, dt),
    ensures
        ({
            let r = step_spec(a, b, g, dt, still);
            let drift = momentum(r.0, r.1).minus(momentum(a, b));
            &&& r.0.mass == a.mass && r.1.mass == b.mass
            &&& drift.bounded(a.mass + b.mass - 1)
            &&& a.mass == b.mass ==> drift == V3::zero()
        }),
{
    let f = grav_force_spec(a, b, g);
    let m1 = a.mass;
    let m2 = b.mass;
    let r = step_spec(a, b, g, dt, still);
    // Velocities pass unchanged through the no-contact resolver and the
    // recentering, so the step's whole effect on momentum is the pair of
    // opposite kicks.
    assert(r.0.velocity == a.velocity.plus(crate::planet::delta_v(f.neg(), dt, m1)));
    assert(r.1.velocity == b.velocity.plus(crate::planet::delta_v(f, dt, m2)));
    lemma_momentum_axis(a.velocity.x, b.velocity.x, f.x, dt, m1, m2);
    lemma_momentum_axis(a.velocity.y, b.velocity.y, f.y, dt, m1, m2);
    lemma_momentum_axis(a.velocity.z, b.velocity.z, f.z, dt, m1, m2);
}

/// One component of the momentum-drift argument: distribute the mass
/// over the kicked velocity and bound the two roundings.
proof fn lemma_momentum_axis(v1: int, v2: int, fc: int, dt: int, m1: int, m2: int)
    requires
        m1 >= 1,
        m2 >= 1,
    ensures
        -(m1 + m2) < (m1 * (v1 + tdiv((-fc) * dt, m1)) + m2 * (v2 + tdiv(fc * dt, m2))) - (m1 * v1
            + m2 * v2) < m1 + m2,
        m1 == m2 ==> (m1 * (v1 + tdiv((-fc) * dt, m1)) + m2 * (v2 + tdiv(fc * dt, m2))) - (m1 * v1
            + m2 * v2) == 0,
{
    assert((-fc) * dt == -(fc * dt)) by (nonlinear_arith);
    lemma_tdiv_neg(fc * dt, m1);
    assert(m1 * (v1 + tdiv((-fc) * dt, m1)) == m1 * v1 - m1 * tdiv(fc * dt, m1))
        by (nonlinear_arith)
        requires
            tdiv((-fc) * dt, m1) == -tdiv(fc * dt, m1),
    ;
    assert(m2 * (v2 + tdiv(fc * dt, m2)) == m2 * v2 + m2 * tdiv(fc * dt, m2)) by (nonlinear_arith);
    lemma_momentum_component(fc * dt, m1, m2);
}

/// The steps a run takes never trigger the collision resolver.
pub open spec fn collision_free_run(
    a: PlanetModel,
    b: PlanetModel,
    g: int,
    dt: int,
    still: bool,
    n: nat,
) -> bool
    decreases n,
{
    if n == 0 {
        true
    } else {
        let prev = run_spec(a, b, g, dt, still, (n - 1) as nat);
        collision_free_run(a, b, g, dt, still, (n - 1) as nat) && step_no_contact(
            prev.0,
            prev.1,
            g,
            dt,
        )
    }
}

/// Momentum conservation over any number of collision-free steps: the
/// total momentum drifts by less than `n * (m_a + m_b)` per component,
/// and for equal masses it is conserved exactly, bit for bit.
pub proof fn lemma_momentum_conservation_run(
    a: PlanetModel,
    b: PlanetModel,
    g: int,
    dt: int,
    still: bool,
    n: nat,
)
    requires
        a.mass >= 1,
        b.mass >= 1,
        collision_free_run(a, b, g, dt, still, n),
    ensures
        ({
            let r = run_spec(a, b, g, dt, still, n);
            let drift = momentum(r.0, r.1).minus(momentum(a, b));
            &&& r.0.mass == a.mass && r.1.mass == b.mass
            &&& drift.bounded(n * (a.mass + b.mass))
            &&& a.mass == b.mass ==> drift == V3::zero()
        }),
    decreases n,
{
    let m = a.mass + b.mass;
    if n == 0 {
    } else {
        lemma_momentum_conservation_run(a, b, g, dt, still, (n - 1) as nat);
        let prev = run_spec(a, b, g, dt, still, (n - 1) as nat);
        lemma_momentum_conservation_step(prev.0, prev.1, g, dt, still);
        assert((n - 1) * m + m == n * m) by (nonlinear_arith);
    }
}

/// The body `p` with its position translated by `t`.
pub open spec fn shift(p: PlanetModel, t: V3) -> PlanetModel {
    PlanetModel {
        mass: p.mass,
        radius: p.radius,
        velocity: p.velocity,
        position: p.position.plus(t),
    }
}

/// A step commutes with translating both bodies by a common vector:
/// every stage reads positions only through the separation vector.
proof fn lemma_step_translation(a: PlanetModel, b: PlanetModel, g: int, dt: int, t: V3)
    ensures
        step_spec(shift(a, t), shift(b, t), g, dt, false) == (
            shift(step_spec(a, b, g, dt, false).0, t),
            shift(step_spec(a, b, g, dt, false).1, t),
        ),
{
    assert(sep(shift(a, t), shift(b, t)) == sep(a, b));
    let f = grav_force_spec(a, b, g);
    assert(grav_force_spec(shift(a, t), shift(b, t), g) == f);
    let a1 = kinematics_spec(apply_force_spec(a, f.neg(), dt), dt);
    let b1 = kinematics_spec(apply_force_spec(b, f, dt), dt);
    assert(kinematics_spec(apply_force_spec(shift(a, t), f.neg(), dt), dt) == shift(a1, t));
    assert(kinematics_spec(apply_force_spec(shift(b, t), f, dt), dt) == shift(b1, t));
    assert(sep(shift(a1, t), shift(b1, t)) == sep(a1, b1));
    let s = separate_spec(a1, b1);
    assert(separate_spec(shift(a1, t), shift(b1, t)) == (shift(s.0, t), shift(s.1, t))) by {
        if overlap_amount(a1, b1) > 0 {
            assert(separate_push(shift(a1, t), shift(b1, t)) == separate_push(a1, b1));
            assert(shift(a1, t).position.plus(separate_push(a1, b1)) == shift(s.0, t).position);
            assert(shift(b1, t).position.minus(separate_push(a1, b1)) == shift(s.1, t).position);
        }
    }
}

/// The "still frame" recentering has no effect on relative dynamics:
/// over any number of steps, a recentered run and a free run from the
/// same initial conditions give both bodies identical velocities, and
/// positions that differ only by one translation common to both bodies,
/// so the separation vector agrees exactly at every step.
pub proof fn lemma_still_frame_relative_dynamics(
    a: PlanetModel,
    b: PlanetModel,
    g: int,
    dt: int,
    n: nat,
)
    ensures
        ({
            let rs = run_spec(a, b, g, dt, true, n);
            let rf = run_spec(a, b, g, dt, false, n);
            &&& rs.0.velocity == rf.0.velocity
            &&& rs.1.velocity == rf.1.velocity
            &&& rs.0.mass == rf.0.mass && rs.1.mass == rf.1.mass
            &&& rs.0.radius == rf.0.radius && rs.1.radius == rf.1.radius
            &&& rs.1.position.minus(rf.1.position) == rs.0.position.minus(rf.0.position)
            &&& sep(rs.0, rs.1) == sep(rf.0, rf.1)
        }),
    decreases n,
{
    if n == 0 {
    } else {
        lemma_still_frame_relative_dynamics(a, b, g, dt, (n - 1) as nat);
        let rsp = run_spec(a, b, g, dt, true, (n - 1) as nat);
        let rfp = run_spec(a, b, g, dt, false, (n - 1) as nat);
        let t = rsp.0.position.minus(rfp.0.position);
        assert(rsp.0 == shift(rfp.0, t));
        assert(rsp.1 == shift(rfp.1, t));
        lemma_step_translation(rfp.0, rfp.1, g, dt, t);
        let sf = step_spec(rfp.0, rfp.1, g, dt, false);
        assert(step_spec(rsp.0, rsp.1, g, dt, false) == (shift(sf.0, t), shift(sf.1, t)));
        assert(step_spec(rsp.0, rsp.1, g, dt, true) == recenter_spec(
            shift(sf.0, t),
            shift(sf.1, t),
            true,
        ));
        assert(run_spec(a, b, g, dt, true, n) == step_spec(rsp.0, rsp.1, g, dt, true));
        assert(run_spec(a, b, g, dt, false, n) == sf);
    }
}

/// Determinism: a run is a mathematical function of the initial bodies
/// and the configuration alone — two runs from identical initial
/// conditions agree on every step's state, bit for bit.
pub proof fn lemma_determinism(
    a1: PlanetModel,
    b1: PlanetModel,
    a2: PlanetModel,
    b2: PlanetModel,
    g: int,
    dt: int,
    still: bool,
    n: nat,
)
    requires
        a1 == a2,
        b1 == b2,
    ensures
        run_spec(a1, b1, g, dt, still, n) == run_spec(a2, b2, g, dt, still, n),
{
}

} // verus!

