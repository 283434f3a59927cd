//! The mathematical image of a world and of each pipeline stage.
//!
//! Every exec stage in `solver` promises to compute exactly what the
//! spec function of the same name says, over unbounded integers.

use crate::num::{div_t, mag, sqrt_floor, times_dt, SCALE, TICKS_PER_SECOND};
use crate::particle::ParticleBundle;
use crate::world::World;
use vstd::prelude::*;

verus! {

/// Bound on the magnitude of every input field of a world handed to
/// the pipeline (positions, velocities, gravity, radii, masses).
pub const FIELD_LIMIT: i128 = 1_000_000_000_000;

/// Bound on the particle population of a world handed to the pipeline.
pub const MAX_PARTICLES: usize = 256;

/// Field magnitudes after integration stay under this (`3 * FIELD_LIMIT`).
pub const LIM_INTEGRATED: i128 = 3_000_000_000_000;

/// Position magnitudes during and after the position solve stay under
/// this: each of the at most `MAX_PARTICLES * (MAX_PARTICLES + 1)`
/// pair corrections moves a particle by at most two radii, so this is
/// `(3 + 2 * 65792) * FIELD_LIMIT`.
pub const LIM_SOLVED: i128 = 131_587_000_000_000_000;

/// Velocity magnitudes after re-derivation stay under this
/// (`2 * TICKS_PER_SECOND * LIM_SOLVED`).
pub const LIM_DERIVED: i128 = 15_790_440_000_000_000_000;

/// Bound on the contact list length accepted by the velocity solve.
pub const MAX_CONTACTS: usize = 65536;

/// The velocity solve applies a contact's impulse only while the four
/// velocities involved are under this (about 1e18 world units per
/// second).  Velocities beyond it are far outside the physical
/// regime — the analogue of the non-finite values the host must keep
/// out — and such a contact is skipped.
pub const VEL_GUARD: i128 = 1_000_000_000_000_000_000_000_000;

/// Velocity magnitudes after the velocity solve stay under this: an
/// impulse is only applied under `VEL_GUARD` and adds at most eight
/// times that, so this is `9 * VEL_GUARD`.
pub const LIM_FINAL: i128 = 9_000_000_000_000_000_000_000_000;

/// The mathematical image of one particle.
#[verifier::ext_equal]
pub struct PModel {
    pub pos: (int, int),
    pub pos_prev: (int, int),
    pub vel: (int, int),
    pub vel_pre: (int, int),
    pub mass: int,
    pub restitution: int,
    pub radius: int,
}

impl View for ParticleBundle {
    type V = PModel;

    open spec fn view(&self) -> PModel {
        PModel {
            pos: (self.pos.0.x as int, self.pos.0.y as int),
            pos_prev: (self.pos_prev.0.x as int, self.pos_prev.0.y as int),
            vel: (self.vel.0.x as int, self.vel.0.y as int),
            vel_pre: (self.vel_pre_solve.0.x as int, self.vel_pre_solve.0.y as int),
            mass: self.mass.0 as int,
            restitution: self.restitution.0 as int,
            radius: self.collider.radius as int,
        }
    }
}

/// The mathematical image of a world.
#[verifier::ext_equal]
pub struct Model {
    pub ps: Seq<PModel>,
    pub gravity: (int, int),
    pub contacts: Seq<(int, int)>,
}

impl View for World {
    type V = Model;

    open spec fn view(&self) -> Model {
        Model {
            ps: self.particles@.map_values(|p: ParticleBundle| p@),
            gravity: (self.gravity.0.x as int, self.gravity.0.y as int),
            contacts: self.contacts.0@.map_values(|c: (usize, usize)| (c.0 as int, c.1 as int)),
        }
    }
}

/// All four vector fields of `p` have components within `b`, and mass,
/// restitution and radius are in their invariant ranges.
pub open spec fn p_bounded(p: PModel, b: int) -> bool {
    &&& mag(p.pos.0) <= b
    &&& mag(p.pos.1) <= b
    &&& mag(p.pos_prev.0) <= b
    &&& mag(p.pos_prev.1) <= b
    &&& mag(p.vel.0) <= b
    &&& mag(p.vel.1) <= b
    &&& mag(p.vel_pre.0) <= b
    &&& mag(p.vel_pre.1) <= b
    &&& 0 < p.mass <= FIELD_LIMIT as int
    &&& 0 <= p.restitution <= SCALE as int
    &&& 0 < p.radius <= FIELD_LIMIT as int
}

pub open spec fn ps_bounded(ps: Seq<PModel>, b: int) -> bool {
    forall|i: int| 0 <= i < ps.len() ==> p_bounded(#[trigger] ps[i], b)
}

/// Position fields within `posb`, velocity fields within `velb`, and
/// the scalar fields in their invariant ranges.
pub open spec fn p_split_bounded(p: PModel, posb: int, velb: int) -> bool {
    &&& mag(p.pos.0) <= posb
    &&& mag(p.pos.1) <= posb
    &&& mag(p.pos_prev.0) <= posb
    &&& mag(p.pos_prev.1) <= posb
    &&& mag(p.vel.0) <= velb
    &&& mag(p.vel.1) <= velb
    &&& mag(p.vel_pre.0) <= velb
    &&& mag(p.vel_pre.1) <= velb
    &&& 0 < p.mass <= FIELD_LIMIT as int
    &&& 0 <= p.restitution <= SCALE as int
    &&& 0 < p.radius <= FIELD_LIMIT as int
}

pub open spec fn ps_split_bounded(ps: Seq<PModel>, posb: int, velb: int) -> bool {
    forall|i: int| 0 <= i < ps.len() ==> p_split_bounded(#[trigger] ps[i], posb, velb)
}

/// A world fit to be handed to the pipeline.
pub open spec fn m_bounded(m: Model) -> bool {
    &&& m.ps.len() <= MAX_PARTICLES as int
    &&& mag(m.gravity.0) <= FIELD_LIMIT as int
    &&& mag(m.gravity.1) <= FIELD_LIMIT as int
    &&& ps_bounded(m.ps, FIELD_LIMIT as int)
}

/// One particle after semi-implicit Euler integration under gravity
/// `g`: velocity first (the gravity-derived force divided by mass,
/// which cancels exactly), then position from the new velocity.
pub open spec fn integrate_p(p: PModel, g: (int, int)) -> PModel {
    let vx = p.vel.0 + times_dt(g.0);
    let vy = p.vel.1 + times_dt(g.1);
    PModel {
        pos: (p.pos.0 + times_dt(vx), p.pos.1 + times_dt(vy)),
        pos_prev: p.pos,
        vel: (vx, vy),
        vel_pre: (vx, vy),
        ..p
    }
}

pub open spec fn integrate_m(m: Model) -> Model {
    Model { ps: m.ps.map_values(|p: PModel| integrate_p(p, m.gravity)), ..m }
}

/// The circles of `pa` and `pb` overlap: squared center distance
/// below squared combined radius.
pub open spec fn pair_overlaps(pa: PModel, pb: PModel) -> bool {
    let abx = pb.pos.0 - pa.pos.0;
    let aby = pb.pos.1 - pa.pos.1;
    let r = pa.radius + pb.radius;
    abx * abx + aby * aby < r * r
}

/// The centers of `pa` and `pb` do not coincide.
pub open spec fn centers_distinct(pa: PModel, pb: PModel) -> bool {
    let abx = pb.pos.0 - pa.pos.0;
    let aby = pb.pos.1 - pa.pos.1;
    abx * abx + aby * aby > 0
}

pub open spec fn overlapping(ps: Seq<PModel>, a: int, b: int) -> bool {
    pair_overlaps(ps[a], ps[b])
}

/// The mass-weighted positional correction of one overlapping pair,
/// as `((cax, cay), (cbx, cby))`: particle `a` moves by the negated
/// first pair, particle `b` by the second, apart along the contact
/// normal, splitting the penetration depth in inverse proportion to
/// mass.
pub open spec fn pair_correction(pa: PModel, pb: PModel) -> ((int, int), (int, int)) {
    let abx = pb.pos.0 - pa.pos.0;
    let aby = pb.pos.1 - pa.pos.1;
    let dd = abx * abx + aby * aby;
    let r = pa.radius + pb.radius;
    let d = sqrt_floor(dd);
    let nx = div_t(abx * SCALE, d);
    let ny = div_t(aby * SCALE, d);
    let pen = r - d;
    let px = div_t(nx * pen, SCALE as int);
    let py = div_t(ny * pen, SCALE as int);
    let msum = pa.mass + pb.mass;
    let cax = div_t(px * pb.mass, msum);
    let cay = div_t(py * pb.mass, msum);
    let cbx = div_t(px * pa.mass, msum);
    let cby = div_t(py * pa.mass, msum);
    ((cax, cay), (cbx, cby))
}

/// One overlapping pair after its positional correction.  Coincident
/// centers (`dd == 0`) leave the normal undefined; the correction is
/// skipped for that pair this tick (the contact is still recorded).
pub open spec fn solve_pair(ps: Seq<PModel>, a: int, b: int) -> Seq<PModel> {
    let pa = ps[a];
    let pb = ps[b];
    let abx = pb.pos.0 - pa.pos.0;
    let aby = pb.pos.1 - pa.pos.1;
    let dd = abx * abx + aby * aby;
    if dd > 0 {
        let c = pair_correction(pa, pb);
        ps.update(a, PModel { pos: (pa.pos.0 - c.0.0, pa.pos.1 - c.0.1), ..pa }).update(
            b,
            PModel { pos: (pb.pos.0 + c.1.0, pb.pos.1 + c.1.1), ..pb },
        )
    } else {
        ps
    }
}

/// One Gauss-Seidel sweep over all unordered pairs in lexicographic
/// order, starting at pair `(a, b)`: each overlapping pair is appended
/// to the contact accumulator `cs` and corrected in place, so later
/// pairs see the already-shifted positions.
pub open spec fn sweep(ps: Seq<PModel>, cs: Seq<(int, int)>, n: int, a: int, b: int) -> (
    Seq<PModel>,
    Seq<(int, int)>,
)
    decreases n - a, n - b,
{
    if a < 0 || b <= a || a + 1 >= n {
        (ps, cs)
    } else if b >= n {
        sweep(ps, cs, n, a + 1, a + 2)
    } else if overlapping(ps, a, b) {
        sweep(solve_pair(ps, a, b), cs.push((a, b)), n, a, b + 1)
    } else {
        sweep(ps, cs, n, a, b + 1)
    }
}

/// The position solve: clear the contact list, then sweep all pairs.
pub open spec fn solve_pos_m(m: Model) -> Model {
    let r = sweep(m.ps, Seq::empty(), m.ps.len() as int, 0, 1);
    Model { ps: r.0, contacts: r.1, ..m }
}

/// Velocity re-derived from the position change over the tick.
pub open spec fn update_vel_p(p: PModel) -> PModel {
    PModel {
        vel: (
            (p.pos.0 - p.pos_prev.0) * (TICKS_PER_SECOND as int),
            (p.pos.1 - p.pos_prev.1) * (TICKS_PER_SECOND as int),
        ),
        ..p
    }
}

pub open spec fn update_vel_m(m: Model) -> Model {
    Model { ps: m.ps.map_values(|p: PModel| update_vel_p(p)), ..m }
}

/// The restitution impulse of one recorded contact, as
/// `((dax, day), (dbx, dby))`: particle `a`'s velocity changes by the
/// first pair, particle `b`'s by the negated second.  Along the
/// current contact normal it cancels the projected relative normal
/// velocity and re-introduces a rebound proportional to the pre-solve
/// relative normal velocity, split in inverse proportion to mass.
pub open spec fn vel_impulse(pa: PModel, pb: PModel) -> ((int, int), (int, int)) {
    let abx = pb.pos.0 - pa.pos.0;
    let aby = pb.pos.1 - pa.pos.1;
    let dd = abx * abx + aby * aby;
    let d = sqrt_floor(dd);
    let nx = div_t(abx * SCALE, d);
    let ny = div_t(aby * SCALE, d);
    let vnpre = div_t(
        (pa.vel_pre.0 - pb.vel_pre.0) * nx + (pa.vel_pre.1 - pb.vel_pre.1) * ny,
        SCALE as int,
    );
    let vn = div_t((pa.vel.0 - pb.vel.0) * nx + (pa.vel.1 - pb.vel.1) * ny, SCALE as int);
    let e = div_t(pa.restitution + pb.restitution, 2);
    let s = -vn - div_t(e * vnpre, SCALE as int);
    let ux = div_t(nx * s, SCALE as int);
    let uy = div_t(ny * s, SCALE as int);
    let msum = pa.mass + pb.mass;
    let dax = div_t(ux * pb.mass, msum);
    let day = div_t(uy * pb.mass, msum);
    let dbx = div_t(ux * pa.mass, msum);
    let dby = div_t(uy * pa.mass, msum);
    ((dax, day), (dbx, dby))
}

/// The four velocities of a contact are under `VEL_GUARD`, so its
/// impulse is applied.
pub open spec fn vels_sane(pa: PModel, pb: PModel) -> bool {
    &&& mag(pa.vel.0) <= VEL_GUARD as int
    &&& mag(pa.vel.1) <= VEL_GUARD as int
    &&& mag(pb.vel.0) <= VEL_GUARD as int
    &&& mag(pb.vel.1) <= VEL_GUARD as int
    &&& mag(pa.vel_pre.0) <= VEL_GUARD as int
    &&& mag(pa.vel_pre.1) <= VEL_GUARD as int
    &&& mag(pb.vel_pre.0) <= VEL_GUARD as int
    &&& mag(pb.vel_pre.1) <= VEL_GUARD as int
}

/// One recorded contact after its velocity impulse.  Coincident
/// centers are skipped as in `solve_pair`, and so is a contact whose
/// velocities exceed `VEL_GUARD`.
pub open spec fn vel_pair(ps: Seq<PModel>, a: int, b: int) -> Seq<PModel> {
    let pa = ps[a];
    let pb = ps[b];
    let abx = pb.pos.0 - pa.pos.0;
    let aby = pb.pos.1 - pa.pos.1;
    let dd = abx * abx + aby * aby;
    if dd > 0 && vels_sane(pa, pb) {
        let u = vel_impulse(pa, pb);
        ps.update(a, PModel { vel: (pa.vel.0 + u.0.0, pa.vel.1 + u.0.1), ..pa }).update(
            b,
            PModel { vel: (pb.vel.0 - u.1.0, pb.vel.1 - u.1.1), ..pb },
        )
    } else {
        ps
    }
}

/// The velocity solve consumes the recorded contacts in insertion
/// order, starting at index `k`.
pub open spec fn vel_sweep(ps: Seq<PModel>, cs: Seq<(int, int)>, k: int) -> Seq<PModel>
    decreases cs.len() - k,
{
    if k < 0 || k >= cs.len() {
        ps
    } else {
        vel_sweep(vel_pair(ps, cs[k].0, cs[k].1), cs, k + 1)
    }
}

pub open spec fn solve_vel_m(m: Model) -> Model {
    Model { ps: vel_sweep(m.ps, m.contacts, 0), ..m }
}

/// One whole tick: integrate, solve positions (recording contacts),
/// re-derive velocities, solve velocities.  The broad-phase stage that
/// precedes integration is a no-op.
pub open spec fn tick_m(m: Model) -> Model {
    solve_vel_m(update_vel_m(solve_pos_m(integrate_m(m))))
}

/// The running position bound during the position-solve sweep: after
/// `k` pair steps, each of which moves a particle by at most two
/// radii, no field magnitude exceeds this.
pub open spec fn sw_bound(k: int) -> int {
    LIM_INTEGRATED as int + 2 * FIELD_LIMIT as int * k
}

pub proof fn lemma_ps_split_mono(ps: Seq<PModel>, posb: int, v1: int, v2: int)
    requires
        ps_split_bounded(ps, posb, v1),
        v1 <= v2,
    ensures
        ps_split_bounded(ps, posb, v2),
{
    assert forall|i: int| 0 <= i < ps.len() implies p_split_bounded(#[trigger] ps[i], posb, v2) by {
        assert(p_split_bounded(ps[i], posb, v1));
    }
}

pub proof fn lemma_ps_bounded_mono(ps: Seq<PModel>, b1: int, b2: int)
    requires
        ps_bounded(ps, b1),
        b1 <= b2,
    ensures
        ps_bounded(ps, b2),
{
    assert forall|i: int| 0 <= i < ps.len() implies p_bounded(#[trigger] ps[i], b2) by {
        assert(p_bounded(ps[i], b1));
    }
}

/// Every contact index pair is within range and strictly ordered.
pub open spec fn contacts_valid(cs: Seq<(int, int)>, n: int) -> bool {
    forall|k: int|
        0 <= k < cs.len() ==> 0 <= (#[trigger] cs[k]).0 && cs[k].0 < cs[k].1 && cs[k].1 < n
}

} // verus!
