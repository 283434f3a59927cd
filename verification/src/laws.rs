//! The laws the solver keeps, proved over the model of `model`: what
//! each stage leaves untouched, and what a whole tick guarantees.

use crate::model::{
    integrate_m, integrate_p, pair_correction, pair_overlaps, solve_pair, solve_pos_m,
    solve_vel_m, sweep, tick_m, update_vel_m, update_vel_p, vel_pair, vel_sweep, vels_sane,
    Model, PModel,
};
use crate::model::FIELD_LIMIT;
use crate::num::{
    div_t, lemma_div_t_decomp, lemma_div_t_exact, lemma_div_t_mag, lemma_div_t_scale,
    lemma_sqrt_floor_square, mag, times_dt, SCALE, TICKS_PER_SECOND,
};
use vstd::arithmetic::div_mod::lemma_fundamental_div_mod;
use vstd::prelude::*;

verus! {

/// The position-solve sweep changes only positions and the contact
/// list: every other field of every particle is left as it was.
pub proof fn lemma_sweep_frame(ps: Seq<PModel>, cs: Seq<(int, int)>, n: int, a: int, b: int)
    requires
        n <= ps.len(),
    ensures
        sweep(ps, cs, n, a, b).0.len() == ps.len(),
        forall|i: int|
            0 <= i < ps.len() ==> {
                let q = #[trigger] sweep(ps, cs, n, a, b).0[i];
                q.pos_prev == ps[i].pos_prev && q.vel == ps[i].vel && q.vel_pre == ps[i].vel_pre
                    && q.mass == ps[i].mass && q.restitution == ps[i].restitution && q.radius
                    == ps[i].radius
            },
    decreases n - a, n - b,
{
    if a < 0 || b <= a || a + 1 >= n {
    } else if b >= n {
        lemma_sweep_frame(ps, cs, n, a + 1, a + 2);
    } else if crate::model::overlapping(ps, a, b) {
        let ps2 = solve_pair(ps, a, b);
        assert(ps2.len() == ps.len());
        assert(forall|i: int|
            0 <= i < ps.len() ==> {
                let q = #[trigger] ps2[i];
                q.pos_prev == ps[i].pos_prev && q.vel == ps[i].vel && q.vel_pre == ps[i].vel_pre
                    && q.mass == ps[i].mass && q.restitution == ps[i].restitution && q.radius
                    == ps[i].radius
            });
        lemma_sweep_frame(ps2, cs.push((a, b)), n, a, b + 1);
    } else {
        lemma_sweep_frame(ps, cs, n, a, b + 1);
    }
}

/// The velocity-solve fold changes only velocities: every other field
/// of every particle is left as it was.
pub proof fn lemma_vel_sweep_frame(ps: Seq<PModel>, cs: Seq<(int, int)>, k: int)
    requires
        crate::model::contacts_valid(cs, ps.len() as int),
    ensures
        vel_sweep(ps, cs, k).len() == ps.len(),
        forall|i: int|
            0 <= i < ps.len() ==> {
                let q = #[trigger] vel_sweep(ps, cs, k)[i];
                q.pos == ps[i].pos && q.pos_prev == ps[i].pos_prev && q.vel_pre == ps[i].vel_pre
                    && q.mass == ps[i].mass && q.restitution == ps[i].restitution && q.radius
                    == ps[i].radius
            },
    decreases cs.len() - k,
{
    if k < 0 || k >= cs.len() {
    } else {
        let ps2 = vel_pair(ps, cs[k].0, cs[k].1);
        assert(ps2.len() == ps.len());
        assert(forall|i: int|
            0 <= i < ps.len() ==> {
                let q = #[trigger] ps2[i];
                q.pos == ps[i].pos && q.pos_prev == ps[i].pos_prev && q.vel_pre == ps[i].vel_pre
                    && q.mass == ps[i].mass && q.restitution == ps[i].restitution && q.radius
                    == ps[i].radius
            });
        lemma_vel_sweep_frame(ps2, cs, k + 1);
    }
}

/// The contacts a sweep records are in range and strictly ordered.
pub proof fn lemma_sweep_contacts_valid(
    ps: Seq<PModel>,
    cs: Seq<(int, int)>,
    n: int,
    a: int,
    b: int,
)
    requires
        crate::model::contacts_valid(cs, n),
    ensures
        crate::model::contacts_valid(sweep(ps, cs, n, a, b).1, n),
        sweep(ps, cs, n, a, b).1.len() >= cs.len(),
    decreases n - a, n - b,
{
    if a < 0 || b <= a || a + 1 >= n {
    } else if b >= n {
        lemma_sweep_contacts_valid(ps, cs, n, a + 1, a + 2);
    } else if crate::model::overlapping(ps, a, b) {
        let cs2 = cs.push((a, b));
        assert(crate::model::contacts_valid(cs2, n));
        lemma_sweep_contacts_valid(solve_pair(ps, a, b), cs2, n, a, b + 1);
    } else {
        lemma_sweep_contacts_valid(ps, cs, n, a, b + 1);
    }
}

/// A sweep over a configuration in which no pair overlaps records no
/// contact and moves nothing.
pub proof fn lemma_sweep_no_overlap(ps: Seq<PModel>, cs: Seq<(int, int)>, n: int, a: int, b: int)
    requires
        n <= ps.len(),
        forall|i: int, j: int|
            0 <= i < j < n ==> !pair_overlaps(#[trigger] ps[i], #[trigger] ps[j]),
    ensures
        sweep(ps, cs, n, a, b) == (ps, cs),
    decreases n - a, n - b,
{
    if a < 0 || b <= a || a + 1 >= n {
    } else if b >= n {
        lemma_sweep_no_overlap(ps, cs, n, a + 1, a + 2);
    } else {
        assert(!pair_overlaps(ps[a], ps[b]));
        lemma_sweep_no_overlap(ps, cs, n, a, b + 1);
    }
}

/// Contact set idempotence: the position solve on a non-overlapping
/// configuration records zero contacts and leaves every position as
/// it found it.
pub proof fn law_contact_set_idempotent(m: Model)
    requires
        forall|i: int, j: int|
            0 <= i < j < m.ps.len() ==> !pair_overlaps(#[trigger] m.ps[i], #[trigger] m.ps[j]),
    ensures
        solve_pos_m(m).contacts.len() == 0,
        solve_pos_m(m).ps == m.ps,
{
    lemma_sweep_no_overlap(m.ps, Seq::<(int, int)>::empty(), m.ps.len() as int, 0, 1);
}

/// Previous-position correctness: after a tick, every particle's
/// `pos_prev` is exactly the position it had when the tick began.
pub proof fn law_pos_prev(m: Model, i: int)
    requires
        0 <= i < m.ps.len(),
    ensures
        tick_m(m).ps[i].pos_prev == m.ps[i].pos,
{
    let m1 = integrate_m(m);
    let m2 = solve_pos_m(m1);
    let m3 = update_vel_m(m2);
    lemma_sweep_frame(m1.ps, Seq::<(int, int)>::empty(), m1.ps.len() as int, 0, 1);
    lemma_sweep_contacts_valid(m1.ps, Seq::<(int, int)>::empty(), m1.ps.len() as int, 0, 1);
    lemma_vel_sweep_frame(m3.ps, m3.contacts, 0);
    assert(m1.ps[i] == integrate_p(m.ps[i], m.gravity));
    assert(m2.ps[i].pos_prev == m.ps[i].pos);
    assert(m3.ps[i].pos_prev == m.ps[i].pos);
}

/// Velocity-position consistency: immediately after velocity
/// re-derivation, every velocity is exactly the position change over
/// the tick divided by the timestep (division by `1 / 60` being
/// multiplication by 60).
pub proof fn law_vel_consistent(m: Model, i: int)
    requires
        0 <= i < m.ps.len(),
    ensures
        update_vel_m(m).ps[i].vel.0 == (m.ps[i].pos.0 - m.ps[i].pos_prev.0) * (
        TICKS_PER_SECOND as int),
        update_vel_m(m).ps[i].vel.1 == (m.ps[i].pos.1 - m.ps[i].pos_prev.1) * (
        TICKS_PER_SECOND as int),
{
    assert(update_vel_m(m).ps[i] == update_vel_p(m.ps[i]));
}

/// Free flight: with zero gravity and no contact after integration, a
/// particle travels exactly `vel * dt` in the tick, its velocity
/// direction untouched, and the contact list stays empty.
pub proof fn law_free_flight(m: Model, i: int)
    requires
        m.gravity.0 == 0,
        m.gravity.1 == 0,
        0 <= i < m.ps.len(),
        forall|x: int, y: int|
            0 <= x < y < m.ps.len() ==> !pair_overlaps(
                integrate_p(#[trigger] m.ps[x], m.gravity),
                integrate_p(#[trigger] m.ps[y], m.gravity),
            ),
    ensures
        tick_m(m).contacts.len() == 0,
        tick_m(m).ps[i].pos.0 == m.ps[i].pos.0 + times_dt(m.ps[i].vel.0),
        tick_m(m).ps[i].pos.1 == m.ps[i].pos.1 + times_dt(m.ps[i].vel.1),
{
    lemma_div_t_exact(0, TICKS_PER_SECOND as int);
    assert(times_dt(0) == 0);
    let m1 = integrate_m(m);
    assert forall|x: int, y: int| 0 <= x < y < m1.ps.len() implies !pair_overlaps(
        m1.ps[x],
        m1.ps[y],
    ) by {
        assert(m1.ps[x] == integrate_p(m.ps[x], m.gravity));
        assert(m1.ps[y] == integrate_p(m.ps[y], m.gravity));
    }
    law_contact_set_idempotent(m1);
    let m2 = solve_pos_m(m1);
    let m3 = update_vel_m(m2);
    let m4 = solve_vel_m(m3);
    assert(m1.ps[i] == integrate_p(m.ps[i], m.gravity));
    assert(m3.ps[i] == update_vel_p(m2.ps[i]));
    assert(m4.ps == vel_sweep(m3.ps, m3.contacts, 0));
    assert(m4.ps == m3.ps);
}

/// Semi-implicit Euler observed over one tick of a lone particle: the
/// velocity gains exactly `g * dt` (held unrounded in the pre-solve
/// snapshot), the position advances by one tick of that new velocity,
/// and the re-derived velocity agrees with the integrated one to
/// within the timestep quantization of a single position step.
pub proof fn law_single_particle(m: Model)
    requires
        m.ps.len() == 1,
    ensures
        tick_m(m).contacts.len() == 0,
        tick_m(m).ps[0].vel_pre.0 == m.ps[0].vel.0 + times_dt(m.gravity.0),
        tick_m(m).ps[0].vel_pre.1 == m.ps[0].vel.1 + times_dt(m.gravity.1),
        tick_m(m).ps[0].pos.0 == m.ps[0].pos.0 + times_dt(m.ps[0].vel.0 + times_dt(m.gravity.0)),
        tick_m(m).ps[0].pos.1 == m.ps[0].pos.1 + times_dt(m.ps[0].vel.1 + times_dt(m.gravity.1)),
        mag(tick_m(m).ps[0].vel.0 - (m.ps[0].vel.0 + times_dt(m.gravity.0))) < TICKS_PER_SECOND
            as int,
        mag(tick_m(m).ps[0].vel.1 - (m.ps[0].vel.1 + times_dt(m.gravity.1))) < TICKS_PER_SECOND
            as int,
{
    let m1 = integrate_m(m);
    assert(m1.ps[0] == integrate_p(m.ps[0], m.gravity));
    let m2 = solve_pos_m(m1);
    assert(sweep(m1.ps, Seq::<(int, int)>::empty(), 1, 0, 1) == (
        m1.ps,
        Seq::<(int, int)>::empty(),
    ));
    let m3 = update_vel_m(m2);
    assert(m3.ps[0] == update_vel_p(m2.ps[0]));
    let m4 = solve_vel_m(m3);
    assert(m4.ps == vel_sweep(m3.ps, m3.contacts, 0));
    assert(m4.ps == m3.ps);
    let vx = m.ps[0].vel.0 + times_dt(m.gravity.0);
    let vy = m.ps[0].vel.1 + times_dt(m.gravity.1);
    assert(m3.ps[0].vel.0 == times_dt(vx) * (TICKS_PER_SECOND as int));
    assert(m3.ps[0].vel.1 == times_dt(vy) * (TICKS_PER_SECOND as int));
    lemma_div_t_decomp(vx, TICKS_PER_SECOND as int);
    lemma_div_t_decomp(vy, TICKS_PER_SECOND as int);
}

/// Momentum conservation for an isolated equal-mass pair without
/// gravity: the position projection and the velocity impulse are
/// exactly antisymmetric, so over a whole tick each component of the
/// momentum sum moves by less than two timestep quanta — the
/// truncation slack of turning each velocity into one tick of travel.
#[verifier::rlimit(100)]
pub proof fn law_momentum_pair(m: Model)
    requires
        m.ps.len() == 2,
        m.ps[0].mass == m.ps[1].mass,
        m.gravity.0 == 0,
        m.gravity.1 == 0,
    ensures
        mag((tick_m(m).ps[0].vel.0 + tick_m(m).ps[1].vel.0) - (m.ps[0].vel.0 + m.ps[1].vel.0)) < 2
            * TICKS_PER_SECOND as int,
        mag((tick_m(m).ps[0].vel.1 + tick_m(m).ps[1].vel.1) - (m.ps[0].vel.1 + m.ps[1].vel.1)) < 2
            * TICKS_PER_SECOND as int,
{
    lemma_div_t_exact(0, TICKS_PER_SECOND as int);
    assert(times_dt(0) == 0);
    let m1 = integrate_m(m);
    assert(m1.ps[0] == integrate_p(m.ps[0], m.gravity));
    assert(m1.ps[1] == integrate_p(m.ps[1], m.gravity));
    let m2 = solve_pos_m(m1);
    let cs = sweep(m1.ps, Seq::<(int, int)>::empty(), 2, 0, 1).1;
    if crate::model::overlapping(m1.ps, 0, 1) {
        let ps1 = m1.ps;
        let cs1 = Seq::<(int, int)>::empty().push((0int, 1int));
        let ps2 = solve_pair(ps1, 0, 1);
        assert(sweep(ps1, Seq::<(int, int)>::empty(), 2, 0, 1) == sweep(ps2, cs1, 2, 0, 2));
        assert(sweep(ps2, cs1, 2, 0, 2) == sweep(ps2, cs1, 2, 1, 2));
        assert(sweep(ps2, cs1, 2, 1, 2) == (ps2, cs1));
        let c = pair_correction(ps1[0], ps1[1]);
        assert(c.0 == c.1);
        assert(ps2.len() == 2);
        assert(m2.ps == ps2);
        assert(ps2[0].pos.0 + ps2[1].pos.0 == ps1[0].pos.0 + ps1[1].pos.0);
        assert(ps2[0].pos.1 + ps2[1].pos.1 == ps1[0].pos.1 + ps1[1].pos.1);
    } else {
        let ps1 = m1.ps;
        let cse = Seq::<(int, int)>::empty();
        assert(sweep(ps1, cse, 2, 0, 1) == sweep(ps1, cse, 2, 0, 2));
        assert(sweep(ps1, cse, 2, 0, 2) == sweep(ps1, cse, 2, 1, 2));
        assert(sweep(ps1, cse, 2, 1, 2) == (ps1, cse));
        assert(m2.ps == ps1);
    }
    assert(m2.ps[0].pos.0 + m2.ps[1].pos.0 == m1.ps[0].pos.0 + m1.ps[1].pos.0);
    assert(m2.ps[0].pos.1 + m2.ps[1].pos.1 == m1.ps[0].pos.1 + m1.ps[1].pos.1);
    assert(m2.ps[0].pos_prev == m.ps[0].pos && m2.ps[1].pos_prev == m.ps[1].pos);
    assert(m2.ps[0].mass == m.ps[0].mass && m2.ps[1].mass == m.ps[1].mass);
    let m3 = update_vel_m(m2);
    assert(m3.ps[0] == update_vel_p(m2.ps[0]));
    assert(m3.ps[1] == update_vel_p(m2.ps[1]));
    lemma_div_t_decomp(m.ps[0].vel.0, TICKS_PER_SECOND as int);
    lemma_div_t_decomp(m.ps[1].vel.0, TICKS_PER_SECOND as int);
    lemma_div_t_decomp(m.ps[0].vel.1, TICKS_PER_SECOND as int);
    lemma_div_t_decomp(m.ps[1].vel.1, TICKS_PER_SECOND as int);
    let m4 = solve_vel_m(m3);
    assert(m4.ps == vel_sweep(m3.ps, cs, 0));
    if cs.len() > 0 {
        assert(cs[0] == (0int, 1int));
        assert(vel_sweep(m3.ps, cs, 0) == vel_sweep(vel_pair(m3.ps, 0, 1), cs, 1));
        assert(vel_sweep(vel_pair(m3.ps, 0, 1), cs, 1) == vel_pair(m3.ps, 0, 1));
        assert(m4.ps[0].vel.0 + m4.ps[1].vel.0 == m3.ps[0].vel.0 + m3.ps[1].vel.0);
        assert(m4.ps[0].vel.1 + m4.ps[1].vel.1 == m3.ps[0].vel.1 + m3.ps[1].vel.1);
    } else {
        assert(vel_sweep(m3.ps, cs, 0) == m3.ps);
    }
}

/// Non-penetration after correction: two overlapping particles on a
/// horizontal line are pushed apart to at least the combined radius
/// less one sub-unit: far tighter than the 1e-4 world units of
/// slack a host should allow for.
#[verifier::rlimit(100)]
pub proof fn law_pair_separation(pa: PModel, pb: PModel)
    requires
        pa.pos.1 == pb.pos.1,
        pa.pos.0 < pb.pos.0,
        pair_overlaps(pa, pb),
        0 < pa.mass,
        0 < pb.mass,
        0 < pa.radius,
        0 < pb.radius,
    ensures
        ({
            let ps2 = solve_pair(seq![pa, pb], 0, 1);
            ps2[1].pos.0 - ps2[0].pos.0 >= pa.radius + pb.radius - 1
        }),
{
    let ps = seq![pa, pb];
    let abx = pb.pos.0 - pa.pos.0;
    let r = pa.radius + pb.radius;
    assert(abx * abx > 0) by (nonlinear_arith)
        requires
            abx >= 1,
    ;
    assert(0 * 0 == 0) by (nonlinear_arith);
    assert(abx < r) by (nonlinear_arith)
        requires
            abx * abx + 0 * 0 < r * r,
            abx >= 1,
            r >= 2,
    ;
    lemma_sqrt_floor_square(abx);
    let pen = r - abx;
    lemma_div_t_exact(SCALE as int, abx);
    assert(0 * SCALE as int == 0) by (nonlinear_arith);
    lemma_div_t_exact(0, abx);
    lemma_div_t_exact(pen, SCALE as int);
    assert(SCALE as int * pen == div_t(abx * SCALE as int, abx) * pen);
    let msum = pa.mass + pb.mass;
    lemma_div_t_exact(0, msum);
    let cax = div_t(pen * pb.mass, msum);
    let cbx = div_t(pen * pa.mass, msum);
    assert(pen * pb.mass >= 0 && pen * pa.mass >= 0) by (nonlinear_arith)
        requires
            pen >= 1,
            pa.mass > 0,
            pb.mass > 0,
    ;
    lemma_fundamental_div_mod(pen * pb.mass, msum);
    lemma_fundamental_div_mod(pen * pa.mass, msum);
    assert(pen * pb.mass + pen * pa.mass == pen * msum) by (nonlinear_arith)
        requires
            msum == pa.mass + pb.mass,
    ;
    assert(msum * cax + msum * cbx > pen * msum - 2 * msum);
    assert(cax + cbx > pen - 2) by (nonlinear_arith)
        requires
            msum * cax + msum * cbx > pen * msum - 2 * msum,
            msum > 0,
    ;
    let ps2 = solve_pair(ps, 0, 1);
    assert(ps2[0].pos.0 == pa.pos.0 - cax);
    assert(ps2[1].pos.0 == pb.pos.0 + cbx);
}

/// Elastic reflection (restitution 1, equal mass, head-on): one
/// velocity impulse turns the relative velocity along the normal into
/// the negated pre-solve relative velocity, to within one sub-unit.
#[verifier::rlimit(100)]
pub proof fn law_elastic_reflection(pa: PModel, pb: PModel)
    requires
        pa.pos.1 == pb.pos.1,
        pa.pos.0 < pb.pos.0,
        pa.mass == pb.mass,
        0 < pa.mass,
        pa.restitution == SCALE as int,
        pb.restitution == SCALE as int,
        vels_sane(pa, pb),
    ensures
        ({
            let ps2 = vel_pair(seq![pa, pb], 0, 1);
            mag((ps2[0].vel.0 - ps2[1].vel.0) + (pa.vel_pre.0 - pb.vel_pre.0)) <= 1
        }),
{
    let abx = pb.pos.0 - pa.pos.0;
    assert(abx * abx > 0) by (nonlinear_arith)
        requires
            abx >= 1,
    ;
    assert(0 * 0 == 0) by (nonlinear_arith);
    lemma_sqrt_floor_square(abx);
    lemma_div_t_exact(SCALE as int, abx);
    lemma_div_t_exact(0, abx);
    assert(0 * SCALE as int == 0) by (nonlinear_arith);
    let vpx = pa.vel_pre.0 - pb.vel_pre.0;
    let vrx = pa.vel.0 - pb.vel.0;
    lemma_div_t_exact(vpx, SCALE as int);
    lemma_div_t_exact(vrx, SCALE as int);
    assert(vpx * (SCALE as int) == (SCALE as int) * vpx) by (nonlinear_arith);
    assert(vrx * (SCALE as int) == (SCALE as int) * vrx) by (nonlinear_arith);
    assert((pa.vel_pre.1 - pb.vel_pre.1) * 0 == 0) by (nonlinear_arith);
    assert((pa.vel.1 - pb.vel.1) * 0 == 0) by (nonlinear_arith);
    lemma_div_t_exact(SCALE as int, 2);
    let s = -vrx - vpx;
    lemma_div_t_exact(s, SCALE as int);
    assert(s * (SCALE as int) == (SCALE as int) * s) by (nonlinear_arith);
    assert(0 * s == 0) by (nonlinear_arith);
    lemma_div_t_exact(0, SCALE as int);
    lemma_div_t_scale(s, 2, pa.mass);
    assert(s * pa.mass == s * pa.mass && 2 * pa.mass == pa.mass + pb.mass);
    lemma_div_t_exact(0, pa.mass + pb.mass);
    assert(0 * pb.mass == 0 && 0 * pa.mass == 0) by (nonlinear_arith);
    lemma_div_t_decomp(s, 2);
}

/// Fully inelastic impulse (restitution 0, equal mass, head-on): one
/// velocity impulse cancels the relative velocity along the normal,
/// to within one sub-unit.
#[verifier::rlimit(100)]
pub proof fn law_inelastic_stop(pa: PModel, pb: PModel)
    requires
        pa.pos.1 == pb.pos.1,
        pa.pos.0 < pb.pos.0,
        pa.mass == pb.mass,
        0 < pa.mass,
        pa.restitution == 0,
        pb.restitution == 0,
        vels_sane(pa, pb),
    ensures
        ({
            let ps2 = vel_pair(seq![pa, pb], 0, 1);
            mag(ps2[0].vel.0 - ps2[1].vel.0) <= 1
        }),
{
    let abx = pb.pos.0 - pa.pos.0;
    assert(abx * abx > 0) by (nonlinear_arith)
        requires
            abx >= 1,
    ;
    assert(0 * 0 == 0) by (nonlinear_arith);
    lemma_sqrt_floor_square(abx);
    lemma_div_t_exact(SCALE as int, abx);
    lemma_div_t_exact(0, abx);
    assert(0 * SCALE as int == 0) by (nonlinear_arith);
    let vpx = pa.vel_pre.0 - pb.vel_pre.0;
    let vrx = pa.vel.0 - pb.vel.0;
    lemma_div_t_exact(vpx, SCALE as int);
    lemma_div_t_exact(vrx, SCALE as int);
    assert(vpx * (SCALE as int) == (SCALE as int) * vpx) by (nonlinear_arith);
    assert(vrx * (SCALE as int) == (SCALE as int) * vrx) by (nonlinear_arith);
    assert((pa.vel_pre.1 - pb.vel_pre.1) * 0 == 0) by (nonlinear_arith);
    assert((pa.vel.1 - pb.vel.1) * 0 == 0) by (nonlinear_arith);
    lemma_div_t_exact(0, 2);
    assert(0 * vpx == 0) by (nonlinear_arith);
    lemma_div_t_exact(0, SCALE as int);
    let s = -vrx;
    lemma_div_t_exact(s, SCALE as int);
    assert(s * (SCALE as int) == (SCALE as int) * s) by (nonlinear_arith);
    assert(0 * s == 0) by (nonlinear_arith);
    lemma_div_t_scale(s, 2, pa.mass);
    lemma_div_t_exact(0, pa.mass + pb.mass);
    assert(0 * pb.mass == 0 && 0 * pa.mass == 0) by (nonlinear_arith);
    lemma_div_t_decomp(s, 2);
}

/// Non-penetration up to tolerance, through the position solve: a
/// two-particle world with both centers on one horizontal line ends
/// the stage, whenever its contact was recorded, with the centers
/// separated to at least the combined radius less one sub-unit.
pub proof fn law_non_penetration(m: Model)
    requires
        m.ps.len() == 2,
        m.ps[0].pos.1 == m.ps[1].pos.1,
        m.ps[0].pos.0 < m.ps[1].pos.0,
        0 < m.ps[0].mass,
        0 < m.ps[1].mass,
        0 < m.ps[0].radius,
        0 < m.ps[1].radius,
    ensures
        solve_pos_m(m).contacts.len() > 0 ==> solve_pos_m(m).ps[1].pos.0 - solve_pos_m(m).ps[0].pos.0
            >= m.ps[0].radius + m.ps[1].radius - 1,
{
    let cse = Seq::<(int, int)>::empty();
    if crate::model::overlapping(m.ps, 0, 1) {
        let cs1 = cse.push((0int, 1int));
        let ps2 = solve_pair(m.ps, 0, 1);
        assert(sweep(m.ps, cse, 2, 0, 1) == sweep(ps2, cs1, 2, 0, 2));
        assert(sweep(ps2, cs1, 2, 0, 2) == sweep(ps2, cs1, 2, 1, 2));
        assert(sweep(ps2, cs1, 2, 1, 2) == (ps2, cs1));
        assert(m.ps =~= seq![m.ps[0], m.ps[1]]);
        law_pair_separation(m.ps[0], m.ps[1]);
    } else {
        assert(sweep(m.ps, cse, 2, 0, 1) == sweep(m.ps, cse, 2, 0, 2));
        assert(sweep(m.ps, cse, 2, 0, 2) == sweep(m.ps, cse, 2, 1, 2));
        assert(sweep(m.ps, cse, 2, 1, 2) == (m.ps, cse));
    }
}

/// Elastic head-on swap over a whole tick: an equal-mass pair on a
/// horizontal line, overlapping after integration, with restitution 1
/// and no gravity, leaves the tick with the two velocities exchanged
/// along the normal, each within one timestep quantum of the other's
/// incoming velocity.
#[verifier::rlimit(100)]
pub proof fn law_elastic_swap(m: Model)
    requires
        crate::model::m_bounded(m),
        m.ps.len() == 2,
        m.ps[0].mass == m.ps[1].mass,
        m.gravity.0 == 0,
        m.gravity.1 == 0,
        m.ps[0].pos.1 == m.ps[1].pos.1,
        m.ps[0].vel.1 == m.ps[1].vel.1,
        m.ps[0].pos.0 + times_dt(m.ps[0].vel.0) < m.ps[1].pos.0 + times_dt(m.ps[1].vel.0),
        pair_overlaps(integrate_p(m.ps[0], m.gravity), integrate_p(m.ps[1], m.gravity)),
        m.ps[0].restitution == SCALE as int,
        m.ps[1].restitution == SCALE as int,
    ensures
        mag(tick_m(m).ps[0].vel.0 - m.ps[1].vel.0) < TICKS_PER_SECOND as int,
        mag(tick_m(m).ps[1].vel.0 - m.ps[0].vel.0) < TICKS_PER_SECOND as int,
{
    lemma_div_t_exact(0, TICKS_PER_SECOND as int);
    assert(times_dt(0) == 0);
    let m1 = integrate_m(m);
    assert(m1.ps[0] == integrate_p(m.ps[0], m.gravity));
    assert(m1.ps[1] == integrate_p(m.ps[1], m.gravity));
    let pa1 = m1.ps[0];
    let pb1 = m1.ps[1];
    let abx = pb1.pos.0 - pa1.pos.0;
    assert(abx >= 1);
    assert(abx * abx > 0) by (nonlinear_arith)
        requires
            abx >= 1,
    ;
    assert(0 * 0 == 0) by (nonlinear_arith);
    assert(crate::model::overlapping(m1.ps, 0, 1));
    let cse = Seq::<(int, int)>::empty();
    let cs1 = cse.push((0int, 1int));
    let ps2 = solve_pair(m1.ps, 0, 1);
    assert(sweep(m1.ps, cse, 2, 0, 1) == sweep(ps2, cs1, 2, 0, 2));
    assert(sweep(ps2, cs1, 2, 0, 2) == sweep(ps2, cs1, 2, 1, 2));
    assert(sweep(ps2, cs1, 2, 1, 2) == (ps2, cs1));
    let m2 = solve_pos_m(m1);
    assert(m2.ps == ps2 && m2.contacts == cs1);
    let r = pa1.radius + pb1.radius;
    assert(abx < r) by (nonlinear_arith)
        requires
            abx * abx + 0 * 0 < r * r,
            abx >= 1,
            r >= 2,
    ;
    lemma_sqrt_floor_square(abx);
    lemma_div_t_exact(SCALE as int, abx);
    assert(0 * SCALE as int == 0) by (nonlinear_arith);
    lemma_div_t_exact(0, abx);
    let pen = r - abx;
    lemma_div_t_exact(pen, SCALE as int);
    assert(SCALE as int * pen == div_t(abx * SCALE as int, abx) * pen);
    assert(0 * pen == 0) by (nonlinear_arith);
    lemma_div_t_exact(0, SCALE as int);
    let mm = m.ps[0].mass;
    let msum = pa1.mass + pb1.mass;
    assert(msum == 2 * mm);
    lemma_div_t_scale(pen, 2, mm);
    lemma_div_t_exact(0, msum);
    assert(0 * pa1.mass == 0 && 0 * pb1.mass == 0) by (nonlinear_arith);
    assert(pen * mm == pen * pb1.mass && pen * mm == pen * pa1.mass);
    let cx = div_t(pen, 2);
    assert(pair_correction(pa1, pb1) == (((cx, 0int)), ((cx, 0int))));
    assert(ps2[0].pos == (pa1.pos.0 - cx, pa1.pos.1));
    assert(ps2[1].pos == (pb1.pos.0 + cx, pb1.pos.1));
    lemma_div_t_mag(pen, 2);
    let m3 = update_vel_m(m2);
    assert(m3.ps[0] == update_vel_p(m2.ps[0]));
    assert(m3.ps[1] == update_vel_p(m2.ps[1]));
    let a0 = m.ps[0].vel.0;
    let b0 = m.ps[1].vel.0;
    let v0y = m.ps[0].vel.1;
    let dta = times_dt(a0);
    let dtb = times_dt(b0);
    lemma_div_t_decomp(a0, TICKS_PER_SECOND as int);
    lemma_div_t_decomp(b0, TICKS_PER_SECOND as int);
    lemma_div_t_decomp(v0y, TICKS_PER_SECOND as int);
    let ra = a0 - 60 * dta;
    let rb = b0 - 60 * dtb;
    let va2 = m3.ps[0].vel.0;
    let vb2 = m3.ps[1].vel.0;
    assert(va2 == (dta - cx) * 60 && vb2 == (dtb + cx) * 60);
    assert(va2 == a0 - ra - 60 * cx);
    assert(vb2 == b0 - rb + 60 * cx);
    let m4 = solve_vel_m(m3);
    assert(m4.ps == vel_sweep(m3.ps, cs1, 0));
    assert(cs1[0] == (0int, 1int));
    let ps4 = vel_pair(m3.ps, 0, 1);
    assert(vel_sweep(m3.ps, cs1, 0) == vel_sweep(ps4, cs1, 1));
    assert(vel_sweep(ps4, cs1, 1) == ps4);
    let pa3 = m3.ps[0];
    let pb3 = m3.ps[1];
    let abx2 = pb3.pos.0 - pa3.pos.0;
    assert(abx2 == abx + 2 * cx && abx2 >= 1);
    assert(abx2 * abx2 > 0) by (nonlinear_arith)
        requires
            abx2 >= 1,
    ;
    assert(mag(cx) <= pen && pen <= r && r <= 2 * FIELD_LIMIT as int);
    assert(mag(va2) <= 122 * FIELD_LIMIT as int && mag(vb2) <= 122 * FIELD_LIMIT as int);
    assert(mag(m3.ps[0].vel.1) <= FIELD_LIMIT as int + 60);
    assert(vels_sane(pa3, pb3));
    lemma_sqrt_floor_square(abx2);
    lemma_div_t_exact(SCALE as int, abx2);
    lemma_div_t_exact(0, abx2);
    assert(0 * SCALE as int == 0) by (nonlinear_arith);
    let vpx = pa3.vel_pre.0 - pb3.vel_pre.0;
    let vrx = pa3.vel.0 - pb3.vel.0;
    assert(pa3.vel_pre.1 - pb3.vel_pre.1 == 0);
    lemma_div_t_exact(vpx, SCALE as int);
    lemma_div_t_exact(vrx, SCALE as int);
    assert(vpx * (SCALE as int) == (SCALE as int) * vpx) by (nonlinear_arith);
    assert(vrx * (SCALE as int) == (SCALE as int) * vrx) by (nonlinear_arith);
    assert((pa3.vel_pre.1 - pb3.vel_pre.1) * 0 == 0) by (nonlinear_arith);
    assert((pa3.vel.1 - pb3.vel.1) * 0 == 0) by (nonlinear_arith);
    lemma_div_t_exact(SCALE as int, 2);
    let s = -vrx - vpx;
    lemma_div_t_exact(s, SCALE as int);
    assert(s * (SCALE as int) == (SCALE as int) * s) by (nonlinear_arith);
    assert(0 * s == 0) by (nonlinear_arith);
    lemma_div_t_scale(s, 2, mm);
    assert(s * mm == s * pb3.mass && s * mm == s * pa3.mass);
    assert(pa3.mass + pb3.mass == 2 * mm);
    lemma_div_t_exact(0, pa3.mass + pb3.mass);
    let q = div_t(s, 2);
    assert(ps4[0].vel.0 == va2 + q);
    assert(ps4[1].vel.0 == vb2 - q);
    lemma_div_t_decomp(s, 2);
    let sig = s - 2 * q;
    assert(pa3.vel_pre.0 == a0 && pb3.vel_pre.0 == b0);
    assert(2 * (ps4[0].vel.0 - b0) == -(ra + rb + sig));
    assert(2 * (ps4[1].vel.0 - a0) == -(ra + rb - sig));
    assert(tick_m(m).ps == ps4);
}

/// Fully inelastic head-on contact over a whole tick: an equal-mass
/// pair on a horizontal line, overlapping after integration, with
/// restitution 0 and no gravity, leaves the tick with a relative
/// normal velocity of at most one sub-unit.
#[verifier::rlimit(100)]
pub proof fn law_inelastic_head_on(m: Model)
    requires
        crate::model::m_bounded(m),
        m.ps.len() == 2,
        m.ps[0].mass == m.ps[1].mass,
        m.gravity.0 == 0,
        m.gravity.1 == 0,
        m.ps[0].pos.1 == m.ps[1].pos.1,
        m.ps[0].vel.1 == m.ps[1].vel.1,
        m.ps[0].pos.0 + times_dt(m.ps[0].vel.0) < m.ps[1].pos.0 + times_dt(m.ps[1].vel.0),
        pair_overlaps(integrate_p(m.ps[0], m.gravity), integrate_p(m.ps[1], m.gravity)),
        m.ps[0].restitution == 0,
        m.ps[1].restitution == 0,
    ensures
        mag(tick_m(m).ps[0].vel.0 - tick_m(m).ps[1].vel.0) <= 1,
{
    lemma_div_t_exact(0, TICKS_PER_SECOND as int);
    assert(times_dt(0) == 0);
    let m1 = integrate_m(m);
    assert(m1.ps[0] == integrate_p(m.ps[0], m.gravity));
    assert(m1.ps[1] == integrate_p(m.ps[1], m.gravity));
    let pa1 = m1.ps[0];
    let pb1 = m1.ps[1];
    let abx = pb1.pos.0 - pa1.pos.0;
    assert(abx >= 1);
    assert(abx * abx > 0) by (nonlinear_arith)
        requires
            abx >= 1,
    ;
    assert(0 * 0 == 0) by (nonlinear_arith);
    assert(crate::model::overlapping(m1.ps, 0, 1));
    let cse = Seq::<(int, int)>::empty();
    let cs1 = cse.push((0int, 1int));
    let ps2 = solve_pair(m1.ps, 0, 1);
    assert(sweep(m1.ps, cse, 2, 0, 1) == sweep(ps2, cs1, 2, 0, 2));
    assert(sweep(ps2, cs1, 2, 0, 2) == sweep(ps2, cs1, 2, 1, 2));
    assert(sweep(ps2, cs1, 2, 1, 2) == (ps2, cs1));
    let m2 = solve_pos_m(m1);
    assert(m2.ps == ps2 && m2.contacts == cs1);
    let r = pa1.radius + pb1.radius;
    assert(abx < r) by (nonlinear_arith)
        requires
            abx * abx + 0 * 0 < r * r,
            abx >= 1,
            r >= 2,
    ;
    lemma_sqrt_floor_square(abx);
    lemma_div_t_exact(SCALE as int, abx);
    assert(0 * SCALE as int == 0) by (nonlinear_arith);
    lemma_div_t_exact(0, abx);
    let pen = r - abx;
    lemma_div_t_exact(pen, SCALE as int);
    assert(SCALE as int * pen == div_t(abx * SCALE as int, abx) * pen);
    assert(0 * pen == 0) by (nonlinear_arith);
    lemma_div_t_exact(0, SCALE as int);
    let mm = m.ps[0].mass;
    let msum = pa1.mass + pb1.mass;
    assert(msum == 2 * mm);
    lemma_div_t_scale(pen, 2, mm);
    lemma_div_t_exact(0, msum);
    assert(0 * pa1.mass == 0 && 0 * pb1.mass == 0) by (nonlinear_arith);
    assert(pen * mm == pen * pb1.mass && pen * mm == pen * pa1.mass);
    let cx = div_t(pen, 2);
    assert(pair_correction(pa1, pb1) == (((cx, 0int)), ((cx, 0int))));
    assert(ps2[0].pos == (pa1.pos.0 - cx, pa1.pos.1));
    assert(ps2[1].pos == (pb1.pos.0 + cx, pb1.pos.1));
    lemma_div_t_mag(pen, 2);
    let m3 = update_vel_m(m2);
    assert(m3.ps[0] == update_vel_p(m2.ps[0]));
    assert(m3.ps[1] == update_vel_p(m2.ps[1]));
    let a0 = m.ps[0].vel.0;
    let b0 = m.ps[1].vel.0;
    let v0y = m.ps[0].vel.1;
    let dta = times_dt(a0);
    let dtb = times_dt(b0);
    lemma_div_t_decomp(a0, TICKS_PER_SECOND as int);
    lemma_div_t_decomp(b0, TICKS_PER_SECOND as int);
    lemma_div_t_decomp(v0y, TICKS_PER_SECOND as int);
    let ra = a0 - 60 * dta;
    let rb = b0 - 60 * dtb;
    let va2 = m3.ps[0].vel.0;
    let vb2 = m3.ps[1].vel.0;
    assert(va2 == (dta - cx) * 60 && vb2 == (dtb + cx) * 60);
    assert(va2 == a0 - ra - 60 * cx);
    assert(vb2 == b0 - rb + 60 * cx);
    let m4 = solve_vel_m(m3);
    assert(m4.ps == vel_sweep(m3.ps, cs1, 0));
    assert(cs1[0] == (0int, 1int));
    let ps4 = vel_pair(m3.ps, 0, 1);
    assert(vel_sweep(m3.ps, cs1, 0) == vel_sweep(ps4, cs1, 1));
    assert(vel_sweep(ps4, cs1, 1) == ps4);
    let pa3 = m3.ps[0];
    let pb3 = m3.ps[1];
    let abx2 = pb3.pos.0 - pa3.pos.0;
    assert(abx2 == abx + 2 * cx && abx2 >= 1);
    assert(abx2 * abx2 > 0) by (nonlinear_arith)
        requires
            abx2 >= 1,
    ;
    assert(mag(cx) <= pen && pen <= r && r <= 2 * FIELD_LIMIT as int);
    assert(mag(va2) <= 122 * FIELD_LIMIT as int && mag(vb2) <= 122 * FIELD_LIMIT as int);
    assert(mag(m3.ps[0].vel.1) <= FIELD_LIMIT as int + 60);
    assert(vels_sane(pa3, pb3));
    lemma_sqrt_floor_square(abx2);
    lemma_div_t_exact(SCALE as int, abx2);
    lemma_div_t_exact(0, abx2);
    assert(0 * SCALE as int == 0) by (nonlinear_arith);
    let vpx = pa3.vel_pre.0 - pb3.vel_pre.0;
    let vrx = pa3.vel.0 - pb3.vel.0;
    assert(pa3.vel_pre.1 - pb3.vel_pre.1 == 0);
    lemma_div_t_exact(vpx, SCALE as int);
    lemma_div_t_exact(vrx, SCALE as int);
    assert(vpx * (SCALE as int) == (SCALE as int) * vpx) by (nonlinear_arith);
    assert(vrx * (SCALE as int) == (SCALE as int) * vrx) by (nonlinear_arith);
    assert((pa3.vel_pre.1 - pb3.vel_pre.1) * 0 == 0) by (nonlinear_arith);
    assert((pa3.vel.1 - pb3.vel.1) * 0 == 0) by (nonlinear_arith);
    lemma_div_t_exact(0, 2);
    assert(0 * vpx == 0) by (nonlinear_arith);
    let s = -vrx;
    lemma_div_t_exact(s, SCALE as int);
    assert(s * (SCALE as int) == (SCALE as int) * s) by (nonlinear_arith);
    assert(0 * s == 0) by (nonlinear_arith);
    lemma_div_t_scale(s, 2, mm);
    assert(s * mm == s * pb3.mass && s * mm == s * pa3.mass);
    assert(pa3.mass + pb3.mass == 2 * mm);
    lemma_div_t_exact(0, pa3.mass + pb3.mass);
    let q = div_t(s, 2);
    assert(ps4[0].vel.0 == va2 + q);
    assert(ps4[1].vel.0 == vb2 - q);
    lemma_div_t_decomp(s, 2);
    let sig = s - 2 * q;
    assert(ps4[0].vel.0 - ps4[1].vel.0 == -sig);
    assert(tick_m(m).ps == ps4);
}

} // verus!
