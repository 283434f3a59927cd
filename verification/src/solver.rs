//! The six pipeline stages and the tick entry point that runs them in
//! their fixed order.

use crate::component::{Pos, PosPrev, Vec2, Vel, VelPreSolve};
use crate::model::{
    contacts_valid, integrate_m, integrate_p, lemma_ps_split_mono, m_bounded, p_bounded,
    p_split_bounded, ps_bounded, ps_split_bounded, solve_pos_m, update_vel_m, update_vel_p,
    vels_sane, PModel, FIELD_LIMIT, LIM_DERIVED, LIM_FINAL, LIM_INTEGRATED, LIM_SOLVED,
    MAX_CONTACTS, VEL_GUARD,
};
use crate::model::{
    centers_distinct, lemma_ps_bounded_mono, overlapping, pair_correction, pair_overlaps,
    solve_pair, solve_vel_m, sw_bound, sweep, tick_m, vel_impulse, vel_pair, vel_sweep,
};
use crate::num::{
    div_t, isqrt, lemma_div_t_exact, lemma_div_t_le, lemma_div_t_mag, lemma_mul_mag,
    lemma_sqrt_floor_dominates, lemma_sqrt_floor_lt, mag, times_dt, SCALE, TICKS_PER_SECOND,
};
use crate::particle::ParticleBundle;
use crate::world::{Translation, World};
use vstd::arithmetic::mul::lemma_mul_inequality;
use vstd::prelude::*;

verus! {

/// Host-side token for installing the pipeline.  The stages must run
/// in the order `collect_collision_pairs`, `integrate`, `solve_pos`,
/// `update_vel`, `solve_vel`, `sync_transforms`; `tick` runs them all
/// in that order, and a host that schedules the stages itself must
/// keep it.
pub struct PhysicsPlugin;

/// Broad-phase placeholder: a reserved extension point that may
/// populate a candidate set for the position solver.  In this core it
/// is a no-op and the position solver tests all pairs directly.  It
/// runs before the integrator so a future implementation can snapshot
/// pre-integration positions.
pub fn collect_collision_pairs(w: &mut World)
    ensures
        *final(w) == *old(w),
{
}

/// One scalar of the integrator's velocity update: the gravity-derived
/// force (`mass * g`) divided back by mass — the division cancels
/// exactly, but the force-based shape is kept so per-particle forces
/// can be injected later — then scaled by the timestep.
fn accel_step(vel: i128, g: i128, m: i128) -> (r: i128)
    requires
        0 < m <= FIELD_LIMIT,
        mag(g as int) <= FIELD_LIMIT as int,
        mag(vel as int) <= FIELD_LIMIT as int,
    ensures
        r == vel + times_dt(g as int),
        mag(r as int) <= 2 * FIELD_LIMIT,
{
    proof {
        assert(-(FIELD_LIMIT as int * FIELD_LIMIT as int) <= m as int * g as int <= FIELD_LIMIT
            as int * FIELD_LIMIT as int) by (nonlinear_arith)
            requires
                0 < m as int <= FIELD_LIMIT as int,
                mag(g as int) <= FIELD_LIMIT as int,
        ;
    }
    let weight = m * g;
    let accel = weight / m;
    proof {
        lemma_div_t_exact(g as int, m as int);
        assert(accel == div_t(m as int * g as int, m as int));
    }
    let dv = accel / TICKS_PER_SECOND;
    proof {
        lemma_div_t_mag(g as int, TICKS_PER_SECOND as int);
    }
    vel + dv
}

/// The integrator: for every particle, snapshot the previous
/// position, advance velocity under gravity and position by one tick
/// of the new velocity (semi-implicit Euler), and snapshot the
/// pre-solve velocity.
pub fn integrate(w: &mut World)
    requires
        m_bounded(old(w)@),
    ensures
        final(w)@ == integrate_m(old(w)@),
        ps_bounded(final(w)@.ps, LIM_INTEGRATED as int),
{
    let ghost m0 = w@;
    let gx = w.gravity.0.x;
    let gy = w.gravity.0.y;
    let n = w.particles.len();
    let mut i: usize = 0;
    while i < n
        invariant
            i <= n,
            n == w.particles.len(),
            m_bounded(m0),
            n == m0.ps.len(),
            gx as int == m0.gravity.0,
            gy as int == m0.gravity.1,
            w.gravity == old(w).gravity,
            w.contacts.0@ == old(w).contacts.0@,
            w@.gravity == m0.gravity,
            w@.contacts == m0.contacts,
            forall|j: int| 0 <= j < i ==> w@.ps[j] == integrate_p(#[trigger] m0.ps[j], m0.gravity),
            forall|j: int| 0 <= j < i ==> p_bounded(#[trigger] w@.ps[j], LIM_INTEGRATED as int),
            forall|j: int| i <= j < n ==> w@.ps[j] == m0.ps[j],
        decreases n - i,
    {
        let p = w.particles[i];
        assert(p@ == m0.ps[i as int]);
        let vx = accel_step(p.vel.0.x, gx, p.mass.0);
        let vy = accel_step(p.vel.0.y, gy, p.mass.0);
        let mvx = vx / TICKS_PER_SECOND;
        let mvy = vy / TICKS_PER_SECOND;
        proof {
            lemma_div_t_mag(vx as int, TICKS_PER_SECOND as int);
            lemma_div_t_mag(vy as int, TICKS_PER_SECOND as int);
        }
        let px = p.pos.0.x + mvx;
        let py = p.pos.0.y + mvy;
        let p2 = ParticleBundle {
            pos: Pos(Vec2 { x: px, y: py }),
            pos_prev: PosPrev(p.pos.0),
            vel: Vel(Vec2 { x: vx, y: vy }),
            vel_pre_solve: VelPreSolve(Vec2 { x: vx, y: vy }),
            ..p
        };
        assert(p2@ =~= integrate_p(m0.ps[i as int], m0.gravity));
        assert(p_bounded(p2@, LIM_INTEGRATED as int));
        let ghost prev = w@.ps;
        w.particles[i] = p2;
        proof {
            assert(w@.ps =~= prev.update(i as int, p2@));
        }
        i = i + 1;
    }
    proof {
        assert(w@.ps =~= m0.ps.map_values(|p: PModel| integrate_p(p, m0.gravity)));
        assert(w@ =~= integrate_m(m0));
    }
}

/// The positional correction of one overlapping pair with distinct
/// centers, as the four scalars `(cax, cay, cbx, cby)` of
/// `pair_correction`; each is bounded by the penetration depth, hence
/// by the combined radius.
#[verifier::rlimit(100)]
fn correction(pa: &ParticleBundle, pb: &ParticleBundle, bound: Ghost<int>) -> (c: (
    i128,
    i128,
    i128,
    i128,
))
    requires
        0 <= bound@ <= LIM_SOLVED as int,
        p_bounded(pa@, bound@),
        p_bounded(pb@, bound@),
        pair_overlaps(pa@, pb@),
        centers_distinct(pa@, pb@),
    ensures
        (c.0 as int, c.1 as int) == pair_correction(pa@, pb@).0,
        (c.2 as int, c.3 as int) == pair_correction(pa@, pb@).1,
        mag(c.0 as int) <= 2 * FIELD_LIMIT as int,
        mag(c.1 as int) <= 2 * FIELD_LIMIT as int,
        mag(c.2 as int) <= 2 * FIELD_LIMIT as int,
        mag(c.3 as int) <= 2 * FIELD_LIMIT as int,
{
    let abx = pb.pos.0.x - pa.pos.0.x;
    let aby = pb.pos.0.y - pa.pos.0.y;
    proof {
        lemma_mul_mag(abx as int, abx as int, 2 * LIM_SOLVED as int, 2 * LIM_SOLVED as int);
        lemma_mul_mag(aby as int, aby as int, 2 * LIM_SOLVED as int, 2 * LIM_SOLVED as int);
        assert(abx as int * abx as int >= 0) by (nonlinear_arith);
        assert(aby as int * aby as int >= 0) by (nonlinear_arith);
        lemma_mul_mag(
            pa.collider.radius as int + pb.collider.radius as int,
            pa.collider.radius as int + pb.collider.radius as int,
            2 * FIELD_LIMIT as int,
            2 * FIELD_LIMIT as int,
        );
    }
    let dd = abx * abx + aby * aby;
    let r = pa.collider.radius + pb.collider.radius;
    let d = isqrt(dd);
    proof {
        let di = d as int;
        let ddi = dd as int;
        assert(di >= 1) by (nonlinear_arith)
            requires
                di >= 0,
                1 <= ddi,
                ddi < (di + 1) * (di + 1),
        ;
        lemma_sqrt_floor_dominates(dd as int, abx as int);
        lemma_sqrt_floor_dominates(dd as int, aby as int);
        lemma_sqrt_floor_lt(dd as int, r as int);
        lemma_mul_mag(abx as int, SCALE as int, mag(abx as int), SCALE as int);
        lemma_mul_mag(aby as int, SCALE as int, mag(aby as int), SCALE as int);
        lemma_mul_inequality(mag(abx as int), d as int, SCALE as int);
        lemma_mul_inequality(mag(aby as int), d as int, SCALE as int);
        lemma_div_t_le(abx as int * SCALE as int, d as int, SCALE as int);
        lemma_div_t_le(aby as int * SCALE as int, d as int, SCALE as int);
    }
    let nx = (abx * SCALE) / d;
    let ny = (aby * SCALE) / d;
    let pen = r - d;
    proof {
        lemma_mul_mag(nx as int, pen as int, SCALE as int, pen as int);
        lemma_div_t_le(nx as int * pen as int, SCALE as int, pen as int);
        lemma_mul_mag(ny as int, pen as int, SCALE as int, pen as int);
        lemma_div_t_le(ny as int * pen as int, SCALE as int, pen as int);
    }
    let px = (nx * pen) / SCALE;
    let py = (ny * pen) / SCALE;
    let msum = pa.mass.0 + pb.mass.0;
    proof {
        lemma_mul_mag(px as int, pb.mass.0 as int, 2 * FIELD_LIMIT as int, FIELD_LIMIT as int);
        lemma_mul_mag(py as int, pb.mass.0 as int, 2 * FIELD_LIMIT as int, FIELD_LIMIT as int);
        lemma_mul_mag(px as int, pa.mass.0 as int, 2 * FIELD_LIMIT as int, FIELD_LIMIT as int);
        lemma_mul_mag(py as int, pa.mass.0 as int, 2 * FIELD_LIMIT as int, FIELD_LIMIT as int);
        lemma_mul_mag(px as int, pb.mass.0 as int, mag(px as int), msum as int);
        lemma_mul_mag(py as int, pb.mass.0 as int, mag(py as int), msum as int);
        lemma_mul_mag(px as int, pa.mass.0 as int, mag(px as int), msum as int);
        lemma_mul_mag(py as int, pa.mass.0 as int, mag(py as int), msum as int);
        assert(msum as int * mag(px as int) == mag(px as int) * msum as int) by (nonlinear_arith);
        assert(msum as int * mag(py as int) == mag(py as int) * msum as int) by (nonlinear_arith);
        lemma_div_t_le(px as int * pb.mass.0 as int, msum as int, mag(px as int));
        lemma_div_t_le(py as int * pb.mass.0 as int, msum as int, mag(py as int));
        lemma_div_t_le(px as int * pa.mass.0 as int, msum as int, mag(px as int));
        lemma_div_t_le(py as int * pa.mass.0 as int, msum as int, mag(py as int));
    }
    let cax = (px * pb.mass.0) / msum;
    let cay = (py * pb.mass.0) / msum;
    let cbx = (px * pa.mass.0) / msum;
    let cby = (py * pa.mass.0) / msum;
    (cax, cay, cbx, cby)
}

/// One pair of the position solve: test circle overlap using current (possibly
/// already-shifted) positions; on overlap, record the contact and
/// apply the mass-weighted positional correction along the normal.
/// Coincident centers record the contact but skip the correction for
/// this tick, since the normal is undefined; the next tick's
/// integration perturbs the pair apart.
#[verifier::rlimit(50)]
fn pair_step(w: &mut World, a: usize, b: usize, bound: Ghost<int>)
    requires
        a < b,
        (b as int) < old(w)@.ps.len(),
        0 <= bound@ <= LIM_SOLVED as int,
        ps_bounded(old(w)@.ps, bound@),
    ensures
        final(w)@.ps.len() == old(w)@.ps.len(),
        final(w)@.gravity == old(w)@.gravity,
        overlapping(old(w)@.ps, a as int, b as int) ==> final(w)@.ps == solve_pair(
            old(w)@.ps,
            a as int,
            b as int,
        ) && final(w)@.contacts == old(w)@.contacts.push((a as int, b as int)),
        !overlapping(old(w)@.ps, a as int, b as int) ==> *final(w) == *old(w),
        ps_bounded(final(w)@.ps, bound@ + 2 * FIELD_LIMIT as int),
{
    let ghost m0 = w@;
    let pa = w.particles[a];
    let pb = w.particles[b];
    assert(pa@ == m0.ps[a as int] && pb@ == m0.ps[b as int]);
    let abx = pb.pos.0.x - pa.pos.0.x;
    let aby = pb.pos.0.y - pa.pos.0.y;
    proof {
        lemma_mul_mag(abx as int, abx as int, 2 * LIM_SOLVED as int, 2 * LIM_SOLVED as int);
        lemma_mul_mag(aby as int, aby as int, 2 * LIM_SOLVED as int, 2 * LIM_SOLVED as int);
        lemma_mul_mag(
            pa.collider.radius as int + pb.collider.radius as int,
            pa.collider.radius as int + pb.collider.radius as int,
            2 * FIELD_LIMIT as int,
            2 * FIELD_LIMIT as int,
        );
    }
    let dd = abx * abx + aby * aby;
    let r = pa.collider.radius + pb.collider.radius;
    if dd < r * r {
        assert(overlapping(m0.ps, a as int, b as int));
        w.contacts.0.push((a, b));
        proof {
            assert(w@.contacts =~= m0.contacts.push((a as int, b as int)));
        }
        if dd > 0 {
            let c = correction(&pa, &pb, bound);
            let pa2 = ParticleBundle {
                pos: Pos(Vec2 { x: pa.pos.0.x - c.0, y: pa.pos.0.y - c.1 }),
                ..pa
            };
            let pb2 = ParticleBundle {
                pos: Pos(Vec2 { x: pb.pos.0.x + c.2, y: pb.pos.0.y + c.3 }),
                ..pb
            };
            w.particles[a] = pa2;
            w.particles[b] = pb2;
            proof {
                assert(w@.ps =~= solve_pair(m0.ps, a as int, b as int));
                assert(ps_bounded(w@.ps, bound@ + 2 * FIELD_LIMIT as int));
            }
        } else {
            proof {
                assert(w@.ps =~= m0.ps);
                assert(w@.ps == solve_pair(m0.ps, a as int, b as int));
            }
        }
    } else {
        assert(!overlapping(m0.ps, a as int, b as int));
    }
}

/// The position solver: clear the contact list, then make one
/// Gauss-Seidel sweep over every unordered pair in lexicographic
/// order, recording each overlap in the contact list and correcting
/// it in place, so later pairs in the same sweep see the shifted
/// positions.
#[verifier::rlimit(60)]
pub fn solve_pos(w: &mut World)
    requires
        old(w)@.ps.len() <= crate::model::MAX_PARTICLES as int,
        ps_bounded(old(w)@.ps, LIM_INTEGRATED as int),
    ensures
        final(w)@ == solve_pos_m(old(w)@),
        final(w)@.ps.len() == old(w)@.ps.len(),
        ps_bounded(final(w)@.ps, LIM_SOLVED as int),
        contacts_valid(final(w)@.contacts, old(w)@.ps.len() as int),
        final(w)@.contacts.len() <= MAX_CONTACTS as int,
{
    let ghost m0 = w@;
    w.contacts.0.clear();
    proof {
        assert(w@.ps =~= m0.ps);
        assert(w@.contacts =~= Seq::<(int, int)>::empty());
        assert(sw_bound(0) == LIM_INTEGRATED as int);
    }
    let n = w.particles.len();
    let ghost mut steps: int = 0;
    let mut a: usize = 0;
    while a + 1 < n
        invariant
            n == w.particles.len(),
            n == m0.ps.len(),
            n <= crate::model::MAX_PARTICLES,
            a <= n,
            w@.gravity == m0.gravity,
            0 <= steps,
            steps <= a as int * n as int,
            ps_bounded(w@.ps, sw_bound(steps)),
            sweep(m0.ps, Seq::<(int, int)>::empty(), n as int, 0, 1) == sweep(
                w@.ps,
                w@.contacts,
                n as int,
                a as int,
                a as int + 1,
            ),
            contacts_valid(w@.contacts, n as int),
            w@.contacts.len() <= steps,
        decreases n - a,
    {
        let mut b: usize = a + 1;
        while b < n
            invariant
                n == w.particles.len(),
                n == m0.ps.len(),
                n <= crate::model::MAX_PARTICLES,
                a + 1 < n,
                a < b <= n,
                w@.gravity == m0.gravity,
                0 <= steps,
                steps <= a as int * n as int + b as int,
                ps_bounded(w@.ps, sw_bound(steps)),
                sweep(m0.ps, Seq::<(int, int)>::empty(), n as int, 0, 1) == sweep(
                    w@.ps,
                    w@.contacts,
                    n as int,
                    a as int,
                    b as int,
                ),
                contacts_valid(w@.contacts, n as int),
                w@.contacts.len() <= steps,
            decreases n - b,
        {
            let ghost pre = w@;
            proof {
                assert(a as int <= 254 && n as int <= 256);
                assert(a as int * n as int <= 65024) by (nonlinear_arith)
                    requires
                        0 <= a as int <= 254,
                        0 <= n as int <= 256,
                ;
                assert(steps <= 65280);
                lemma_mul_inequality(steps, 65280, 2 * FIELD_LIMIT as int);
                assert(steps * (2 * FIELD_LIMIT as int) <= 65280 * (2 * FIELD_LIMIT as int));
                assert(2 * FIELD_LIMIT as int * steps == steps * (2 * FIELD_LIMIT as int))
                    by (nonlinear_arith);
                assert(sw_bound(steps) == LIM_INTEGRATED as int + 2 * FIELD_LIMIT as int * steps);
                assert(sw_bound(steps) <= LIM_SOLVED as int);
            }
            pair_step(w, a, b, Ghost(sw_bound(steps)));
            proof {
                if overlapping(pre.ps, a as int, b as int) {
                    assert(sweep(pre.ps, pre.contacts, n as int, a as int, b as int) == sweep(
                        solve_pair(pre.ps, a as int, b as int),
                        pre.contacts.push((a as int, b as int)),
                        n as int,
                        a as int,
                        b as int + 1,
                    ));
                } else {
                    assert(sweep(pre.ps, pre.contacts, n as int, a as int, b as int) == sweep(
                        pre.ps,
                        pre.contacts,
                        n as int,
                        a as int,
                        b as int + 1,
                    ));
                }
                steps = steps + 1;
            }
            b = b + 1;
        }
        proof {
            assert(sweep(w@.ps, w@.contacts, n as int, a as int, n as int) == sweep(
                w@.ps,
                w@.contacts,
                n as int,
                a as int + 1,
                a as int + 2,
            ));
            assert((a as int + 1) * n as int == a as int * n as int + n as int)
                by (nonlinear_arith);
        }
        a = a + 1;
    }
    proof {
        assert(sweep(w@.ps, w@.contacts, n as int, a as int, a as int + 1) == (
            w@.ps,
            w@.contacts,
        ));
        assert(w@ =~= solve_pos_m(m0));
        assert(a as int * n as int <= 65536) by (nonlinear_arith)
            requires
                0 <= a as int <= 256,
                0 <= n as int <= 256,
        ;
        lemma_ps_bounded_mono(w@.ps, sw_bound(steps), LIM_SOLVED as int);
    }
}

/// Velocity re-derivation: replace every velocity with the
/// position change over this tick divided by the timestep, making
/// velocity consistent with the projected positions.
pub fn update_vel(w: &mut World)
    requires
        old(w)@.ps.len() <= crate::model::MAX_PARTICLES as int,
        ps_bounded(old(w)@.ps, LIM_SOLVED as int),
    ensures
        final(w)@ == update_vel_m(old(w)@),
        ps_split_bounded(final(w)@.ps, LIM_SOLVED as int, LIM_DERIVED as int),
{
    let ghost m0 = w@;
    let n = w.particles.len();
    let mut i: usize = 0;
    while i < n
        invariant
            i <= n,
            n == w.particles.len(),
            ps_bounded(m0.ps, LIM_SOLVED as int),
            n == m0.ps.len(),
            w@.gravity == m0.gravity,
            w@.contacts == m0.contacts,
            forall|j: int| 0 <= j < i ==> w@.ps[j] == update_vel_p(#[trigger] m0.ps[j]),
            forall|j: int|
                0 <= j < i ==> p_split_bounded(
                    #[trigger] w@.ps[j],
                    LIM_SOLVED as int,
                    LIM_DERIVED as int,
                ),
            forall|j: int| i <= j < n ==> w@.ps[j] == m0.ps[j],
        decreases n - i,
    {
        let p = w.particles[i];
        assert(p@ == m0.ps[i as int]);
        let vx = (p.pos.0.x - p.pos_prev.0.x) * TICKS_PER_SECOND;
        let vy = (p.pos.0.y - p.pos_prev.0.y) * TICKS_PER_SECOND;
        let p2 = ParticleBundle { vel: Vel(Vec2 { x: vx, y: vy }), ..p };
        assert(p2@ =~= update_vel_p(m0.ps[i as int]));
        assert(p_split_bounded(p2@, LIM_SOLVED as int, LIM_DERIVED as int));
        let ghost prev = w@.ps;
        w.particles[i] = p2;
        proof {
            assert(w@.ps =~= prev.update(i as int, p2@));
        }
        i = i + 1;
    }
    proof {
        assert(w@.ps =~= m0.ps.map_values(|p: PModel| update_vel_p(p)));
        assert(w@ =~= update_vel_m(m0));
    }
}

/// The velocity impulse of one contact with distinct centers and sane
/// velocities, as the four scalars `(dax, day, dbx, dby)` of
/// `vel_impulse`; each is bounded by eight times `VEL_GUARD`.
#[verifier::rlimit(100)]
fn impulse(pa: &ParticleBundle, pb: &ParticleBundle) -> (u: (i128, i128, i128, i128))
    requires
        p_split_bounded(pa@, LIM_SOLVED as int, VEL_GUARD as int),
        p_split_bounded(pb@, LIM_SOLVED as int, VEL_GUARD as int),
        centers_distinct(pa@, pb@),
    ensures
        (u.0 as int, u.1 as int) == vel_impulse(pa@, pb@).0,
        (u.2 as int, u.3 as int) == vel_impulse(pa@, pb@).1,
        mag(u.0 as int) <= 8 * VEL_GUARD as int,
        mag(u.1 as int) <= 8 * VEL_GUARD as int,
        mag(u.2 as int) <= 8 * VEL_GUARD as int,
        mag(u.3 as int) <= 8 * VEL_GUARD as int,
{
    let abx = pb.pos.0.x - pa.pos.0.x;
    let aby = pb.pos.0.y - pa.pos.0.y;
    proof {
        lemma_mul_mag(abx as int, abx as int, 2 * LIM_SOLVED as int, 2 * LIM_SOLVED as int);
        lemma_mul_mag(aby as int, aby as int, 2 * LIM_SOLVED as int, 2 * LIM_SOLVED as int);
        assert(abx as int * abx as int >= 0) by (nonlinear_arith);
        assert(aby as int * aby as int >= 0) by (nonlinear_arith);
    }
    let dd = abx * abx + aby * aby;
    let d = isqrt(dd);
    proof {
        let di = d as int;
        let ddi = dd as int;
        assert(di >= 1) by (nonlinear_arith)
            requires
                di >= 0,
                1 <= ddi,
                ddi < (di + 1) * (di + 1),
        ;
        lemma_sqrt_floor_dominates(dd as int, abx as int);
        lemma_sqrt_floor_dominates(dd as int, aby as int);
        lemma_mul_mag(abx as int, SCALE as int, mag(abx as int), SCALE as int);
        lemma_mul_mag(aby as int, SCALE as int, mag(aby as int), SCALE as int);
        lemma_mul_inequality(mag(abx as int), d as int, SCALE as int);
        lemma_mul_inequality(mag(aby as int), d as int, SCALE as int);
        lemma_div_t_le(abx as int * SCALE as int, d as int, SCALE as int);
        lemma_div_t_le(aby as int * SCALE as int, d as int, SCALE as int);
    }
    let nx = (abx * SCALE) / d;
    let ny = (aby * SCALE) / d;
    let vpx = pa.vel_pre_solve.0.x - pb.vel_pre_solve.0.x;
    let vpy = pa.vel_pre_solve.0.y - pb.vel_pre_solve.0.y;
    proof {
        lemma_mul_mag(vpx as int, nx as int, 2 * VEL_GUARD as int, SCALE as int);
        lemma_mul_mag(vpy as int, ny as int, 2 * VEL_GUARD as int, SCALE as int);
        assert((2 * VEL_GUARD as int) * SCALE as int + (2 * VEL_GUARD as int) * SCALE as int
            == SCALE as int * (4 * VEL_GUARD as int)) by (nonlinear_arith);
        lemma_div_t_le(
            vpx as int * nx as int + vpy as int * ny as int,
            SCALE as int,
            4 * VEL_GUARD as int,
        );
    }
    let vnpre = (vpx * nx + vpy * ny) / SCALE;
    let vrx = pa.vel.0.x - pb.vel.0.x;
    let vry = pa.vel.0.y - pb.vel.0.y;
    proof {
        lemma_mul_mag(vrx as int, nx as int, 2 * VEL_GUARD as int, SCALE as int);
        lemma_mul_mag(vry as int, ny as int, 2 * VEL_GUARD as int, SCALE as int);
        lemma_div_t_le(
            vrx as int * nx as int + vry as int * ny as int,
            SCALE as int,
            4 * VEL_GUARD as int,
        );
    }
    let vn = (vrx * nx + vry * ny) / SCALE;
    proof {
        lemma_div_t_le(pa.restitution.0 as int + pb.restitution.0 as int, 2, SCALE as int);
    }
    let e = (pa.restitution.0 + pb.restitution.0) / 2;
    proof {
        lemma_mul_mag(e as int, vnpre as int, SCALE as int, 4 * VEL_GUARD as int);
        lemma_div_t_le(e as int * vnpre as int, SCALE as int, 4 * VEL_GUARD as int);
    }
    let s = -vn - (e * vnpre) / SCALE;
    proof {
        lemma_mul_mag(nx as int, s as int, SCALE as int, 8 * VEL_GUARD as int);
        lemma_mul_mag(ny as int, s as int, SCALE as int, 8 * VEL_GUARD as int);
        lemma_div_t_le(nx as int * s as int, SCALE as int, 8 * VEL_GUARD as int);
        lemma_div_t_le(ny as int * s as int, SCALE as int, 8 * VEL_GUARD as int);
    }
    let ux = (nx * s) / SCALE;
    let uy = (ny * s) / SCALE;
    let msum = pa.mass.0 + pb.mass.0;
    proof {
        lemma_mul_mag(ux as int, pb.mass.0 as int, 8 * VEL_GUARD as int, FIELD_LIMIT as int);
        lemma_mul_mag(uy as int, pb.mass.0 as int, 8 * VEL_GUARD as int, FIELD_LIMIT as int);
        lemma_mul_mag(ux as int, pa.mass.0 as int, 8 * VEL_GUARD as int, FIELD_LIMIT as int);
        lemma_mul_mag(uy as int, pa.mass.0 as int, 8 * VEL_GUARD as int, FIELD_LIMIT as int);
        lemma_mul_mag(ux as int, pb.mass.0 as int, mag(ux as int), msum as int);
        lemma_mul_mag(uy as int, pb.mass.0 as int, mag(uy as int), msum as int);
        lemma_mul_mag(ux as int, pa.mass.0 as int, mag(ux as int), msum as int);
        lemma_mul_mag(uy as int, pa.mass.0 as int, mag(uy as int), msum as int);
        assert(msum as int * mag(ux as int) == mag(ux as int) * msum as int) by (nonlinear_arith);
        assert(msum as int * mag(uy as int) == mag(uy as int) * msum as int) by (nonlinear_arith);
        lemma_div_t_le(ux as int * pb.mass.0 as int, msum as int, mag(ux as int));
        lemma_div_t_le(uy as int * pb.mass.0 as int, msum as int, mag(uy as int));
        lemma_div_t_le(ux as int * pa.mass.0 as int, msum as int, mag(ux as int));
        lemma_div_t_le(uy as int * pa.mass.0 as int, msum as int, mag(uy as int));
    }
    let dax = (ux * pb.mass.0) / msum;
    let day = (uy * pb.mass.0) / msum;
    let dbx = (ux * pa.mass.0) / msum;
    let dby = (uy * pa.mass.0) / msum;
    (dax, day, dbx, dby)
}

/// One contact of the velocity solve: apply the restitution impulse to the pair's
/// velocities.  Coincident centers are skipped (undefined normal), as
/// is a contact whose velocities exceed `VEL_GUARD`.
#[verifier::rlimit(50)]
fn vel_step(w: &mut World, a: usize, b: usize)
    requires
        a < b,
        (b as int) < old(w)@.ps.len(),
        ps_split_bounded(old(w)@.ps, LIM_SOLVED as int, LIM_FINAL as int),
    ensures
        final(w)@.ps.len() == old(w)@.ps.len(),
        final(w)@.gravity == old(w)@.gravity,
        final(w)@.contacts == old(w)@.contacts,
        final(w)@.ps == vel_pair(old(w)@.ps, a as int, b as int),
        ps_split_bounded(final(w)@.ps, LIM_SOLVED as int, LIM_FINAL as int),
{
    let ghost m0 = w@;
    let pa = w.particles[a];
    let pb = w.particles[b];
    assert(pa@ == m0.ps[a as int] && pb@ == m0.ps[b as int]);
    let abx = pb.pos.0.x - pa.pos.0.x;
    let aby = pb.pos.0.y - pa.pos.0.y;
    proof {
        lemma_mul_mag(abx as int, abx as int, 2 * LIM_SOLVED as int, 2 * LIM_SOLVED as int);
        lemma_mul_mag(aby as int, aby as int, 2 * LIM_SOLVED as int, 2 * LIM_SOLVED as int);
    }
    let dd = abx * abx + aby * aby;
    let g = crate::model::VEL_GUARD;
    let sane = -g <= pa.vel.0.x && pa.vel.0.x <= g && -g <= pa.vel.0.y && pa.vel.0.y <= g && -g
        <= pb.vel.0.x && pb.vel.0.x <= g && -g <= pb.vel.0.y && pb.vel.0.y <= g && -g
        <= pa.vel_pre_solve.0.x && pa.vel_pre_solve.0.x <= g && -g <= pa.vel_pre_solve.0.y
        && pa.vel_pre_solve.0.y <= g && -g <= pb.vel_pre_solve.0.x && pb.vel_pre_solve.0.x <= g
        && -g <= pb.vel_pre_solve.0.y && pb.vel_pre_solve.0.y <= g;
    assert(sane == vels_sane(pa@, pb@));
    if dd > 0 && sane {
        let u = impulse(&pa, &pb);
        let pa2 = ParticleBundle {
            vel: Vel(Vec2 { x: pa.vel.0.x + u.0, y: pa.vel.0.y + u.1 }),
            ..pa
        };
        let pb2 = ParticleBundle {
            vel: Vel(Vec2 { x: pb.vel.0.x - u.2, y: pb.vel.0.y - u.3 }),
            ..pb
        };
        w.particles[a] = pa2;
        w.particles[b] = pb2;
        proof {
            assert(w@.ps =~= vel_pair(m0.ps, a as int, b as int));
            assert(ps_split_bounded(w@.ps, LIM_SOLVED as int, LIM_FINAL as int));
        }
    } else {
        proof {
            assert(w@.ps =~= m0.ps);
            assert(w@.ps == vel_pair(m0.ps, a as int, b as int));
        }
    }
}

/// The velocity solver: consume the contacts recorded by the
/// position solve, in insertion order, applying to each pair an
/// impulse along the contact normal that produces restitution-based
/// elastic response, with the pre-solve relative normal velocity as
/// the bounce reference.
pub fn solve_vel(w: &mut World)
    requires
        contacts_valid(old(w)@.contacts, old(w)@.ps.len() as int),
        ps_split_bounded(old(w)@.ps, LIM_SOLVED as int, LIM_DERIVED as int),
    ensures
        final(w)@ == solve_vel_m(old(w)@),
        ps_split_bounded(final(w)@.ps, LIM_SOLVED as int, LIM_FINAL as int),
{
    let ghost m0 = w@;
    proof {
        lemma_ps_split_mono(m0.ps, LIM_SOLVED as int, LIM_DERIVED as int, LIM_FINAL as int);
    }
    let len = w.contacts.0.len();
    let mut k: usize = 0;
    while k < len
        invariant
            len == w.contacts.0.len(),
            k <= len,
            w@.contacts == m0.contacts,
            w@.gravity == m0.gravity,
            w@.ps.len() == m0.ps.len(),
            contacts_valid(m0.contacts, m0.ps.len() as int),
            ps_split_bounded(w@.ps, LIM_SOLVED as int, LIM_FINAL as int),
            vel_sweep(m0.ps, m0.contacts, 0) == vel_sweep(w@.ps, m0.contacts, k as int),
        decreases len - k,
    {
        let c = w.contacts.0[k];
        let ghost pre = w@;
        assert(m0.contacts[k as int] == (c.0 as int, c.1 as int));
        vel_step(w, c.0, c.1);
        proof {
            assert(vel_sweep(pre.ps, m0.contacts, k as int) == vel_sweep(
                vel_pair(pre.ps, c.0 as int, c.1 as int),
                m0.contacts,
                k as int + 1,
            ));
        }
        k = k + 1;
    }
    proof {
        assert(vel_sweep(w@.ps, m0.contacts, len as int) == w@.ps);
        assert(w@ =~= solve_vel_m(m0));
    }
}


/// The pipeline: one fixed tick, running the six stages in their
/// only admissible order — broad-phase, integrate, position solve,
/// velocity re-derivation, velocity solve, transform sync — and
/// returning the frame of translations the sync stage hands the host.
pub fn tick(w: &mut World) -> (frame: Vec<Translation>)
    requires
        m_bounded(old(w)@),
    ensures
        final(w)@ == tick_m(old(w)@),
        ps_split_bounded(final(w)@.ps, LIM_SOLVED as int, LIM_FINAL as int),
        frame@.len() == final(w)@.ps.len(),
        forall|i: int|
            0 <= i < frame@.len() ==> (#[trigger] frame@[i]).x as int == final(w)@.ps[i].pos.0
                && frame@[i].y as int == final(w)@.ps[i].pos.1 && frame@[i].z == 0,
{
    collect_collision_pairs(w);
    integrate(w);
    solve_pos(w);
    update_vel(w);
    solve_vel(w);
    let frame = sync_transforms(w);
    proof {
        assert(w@ == tick_m(old(w)@));
        assert forall|i: int| 0 <= i < frame@.len() implies (#[trigger] frame@[i]).x as int
            == w@.ps[i].pos.0 && frame@[i].y as int == w@.ps[i].pos.1 && frame@[i].z == 0 by {
            assert(frame@[i] == (Translation {
                x: w.particles@[i].pos.0.x,
                y: w.particles@[i].pos.0.y,
                z: 0,
            }));
            assert(w@.ps[i] == w.particles@[i]@);
        }
    }
    frame
}

/// Transform sync: the translations `(pos.x, pos.y, 0)` to write
/// into the host's presentation transforms, one per particle.
pub fn sync_transforms(w: &World) -> (frame: Vec<Translation>)
    ensures
        frame@.len() == w.particles@.len(),
        forall|i: int|
            0 <= i < frame@.len() ==> frame@[i] == (Translation {
                x: w.particles@[i].pos.0.x,
                y: w.particles@[i].pos.0.y,
                z: 0,
            }),
{
    let n = w.particles.len();
    let mut frame: Vec<Translation> = Vec::new();
    let mut i: usize = 0;
    while i < n
        invariant
            i <= n,
            n == w.particles.len(),
            frame@.len() == i,
            forall|j: int|
                0 <= j < i ==> frame@[j] == (Translation {
                    x: w.particles@[j].pos.0.x,
                    y: w.particles@[j].pos.0.y,
                    z: 0,
                }),
        decreases n - i,
    {
        let p = &w.particles[i];
        frame.push(Translation { x: p.pos.0.x, y: p.pos.0.y, z: 0 });
        i = i + 1;
    }
    frame
}

} // verus!
