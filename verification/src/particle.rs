//! The full per-particle record and its Verlet-consistent constructor.

use crate::component::{
    CircleCollider, Mass, Pos, PosPrev, Restitution, Vec2, Vel, VelPreSolve,
};
use crate::num::{times_dt, TICKS_PER_SECOND};
use vstd::prelude::*;

verus! {

/// Everything the solver reads or writes about one particle.
#[derive(Clone, Copy, PartialEq, Eq, Structural, Debug)]
pub struct ParticleBundle {
    pub pos: Pos,
    pub pos_prev: PosPrev,
    pub mass: Mass,
    pub collider: CircleCollider,
    pub vel: Vel,
    pub vel_pre_solve: VelPreSolve,
    pub restitution: Restitution,
}

impl Default for ParticleBundle {
    fn default() -> (p: Self)
        ensures
            p.pos.0 == (Vec2 { x: 0, y: 0 }),
            p.pos_prev.0 == (Vec2 { x: 0, y: 0 }),
            p.mass == (Mass(crate::component::MASS_DEFAULT)),
            p.collider == (CircleCollider { radius: crate::component::RADIUS_DEFAULT }),
            p.vel.0 == (Vec2 { x: 0, y: 0 }),
            p.vel_pre_solve.0 == (Vec2 { x: 0, y: 0 }),
            p.restitution == (Restitution(crate::component::RESTITUTION_DEFAULT)),
    {
        ParticleBundle {
            pos: Pos::default(),
            pos_prev: PosPrev::default(),
            mass: Mass::default(),
            collider: CircleCollider::default(),
            vel: Vel::default(),
            vel_pre_solve: VelPreSolve::default(),
            restitution: Restitution::default(),
        }
    }
}

impl ParticleBundle {
    /// A particle starting at `pos` with velocity `vel`, its previous
    /// position back-dated one tick (`pos - vel * dt`) so that the
    /// starting state is Verlet-consistent, and every other field at
    /// its default.
    pub fn from_pos_and_vel(pos: Vec2, vel: Vec2) -> (p: Self)
        requires
            -0x4000_0000_0000_0000_0000_0000_0000_0000 < pos.x - times_dt(vel.x as int),
            pos.x - times_dt(vel.x as int) < 0x4000_0000_0000_0000_0000_0000_0000_0000,
            -0x4000_0000_0000_0000_0000_0000_0000_0000 < pos.y - times_dt(vel.y as int),
            pos.y - times_dt(vel.y as int) < 0x4000_0000_0000_0000_0000_0000_0000_0000,
        ensures
            p.pos.0 == pos,
            p.pos_prev.0.x == pos.x - times_dt(vel.x as int),
            p.pos_prev.0.y == pos.y - times_dt(vel.y as int),
            p.vel.0 == vel,
            p.vel_pre_solve.0 == (Vec2 { x: 0, y: 0 }),
            p.mass == (Mass(crate::component::MASS_DEFAULT)),
            p.collider == (CircleCollider { radius: crate::component::RADIUS_DEFAULT }),
            p.restitution == (Restitution(crate::component::RESTITUTION_DEFAULT)),
    {
        let prev = Vec2 {
            x: pos.x - vel.x / TICKS_PER_SECOND,
            y: pos.y - vel.y / TICKS_PER_SECOND,
        };
        ParticleBundle {
            pos: Pos(pos),
            pos_prev: PosPrev(prev),
            vel: Vel(vel),
            ..ParticleBundle::default()
        }
    }
}

} // verus!
