//! Per-particle components and the solver's global state, in
//! fixed-point integers (see `num::SCALE`).

use crate::num::SCALE;
use vstd::prelude::*;

verus! {

/// Default mass: one world unit of mass.
pub const MASS_DEFAULT: i128 = SCALE;

/// Default coefficient of restitution: 0.3.
pub const RESTITUTION_DEFAULT: i128 = 300_000;

/// Default collider radius: 5 world units.
pub const RADIUS_DEFAULT: i128 = 5_000_000;

/// Default gravity: (0, -9.81) world units per second squared.
pub const GRAVITY_DEFAULT_Y: i128 = -9_810_000;

/// A 2-vector in fixed-point sub-units.
#[derive(Clone, Copy, PartialEq, Eq, Structural, Debug)]
pub struct Vec2 {
    pub x: i128,
    pub y: i128,
}

impl Vec2 {
    pub fn new(x: i128, y: i128) -> (v: Vec2)
        ensures
            v == (Vec2 { x, y }),
    {
        Vec2 { x, y }
    }
}

impl Default for Vec2 {
    fn default() -> (v: Self)
        ensures
            v == (Vec2 { x: 0, y: 0 }),
    {
        Vec2 { x: 0, y: 0 }
    }
}

/// Current position.
#[derive(Clone, Copy, PartialEq, Eq, Structural, Debug)]
pub struct Pos(pub Vec2);

impl Default for Pos {
    fn default() -> (v: Self)
        ensures
            v == (Pos(Vec2 { x: 0, y: 0 })),
    {
        Pos(Vec2 { x: 0, y: 0 })
    }
}

/// Position at the start of the current tick, written by the integrator.
#[derive(Clone, Copy, PartialEq, Eq, Structural, Debug)]
pub struct PosPrev(pub Vec2);

impl Default for PosPrev {
    fn default() -> (v: Self)
        ensures
            v == (PosPrev(Vec2 { x: 0, y: 0 })),
    {
        PosPrev(Vec2 { x: 0, y: 0 })
    }
}

/// Inertial mass; must be positive.
#[derive(Clone, Copy, PartialEq, Eq, Structural, Debug)]
pub struct Mass(pub i128);

impl Default for Mass {
    fn default() -> (v: Self)
        ensures
            v == (Mass(MASS_DEFAULT)),
    {
        Mass(MASS_DEFAULT)
    }
}

/// Coefficient of restitution, in `[0, SCALE]` for `[0.0, 1.0]`.
#[derive(Clone, Copy, PartialEq, Eq, Structural, Debug)]
pub struct Restitution(pub i128);

impl Default for Restitution {
    fn default() -> (v: Self)
        ensures
            v == (Restitution(RESTITUTION_DEFAULT)),
    {
        Restitution(RESTITUTION_DEFAULT)
    }
}

/// Current velocity.
#[derive(Clone, Copy, PartialEq, Eq, Structural, Debug)]
pub struct Vel(pub Vec2);

impl Default for Vel {
    fn default() -> (v: Self)
        ensures
            v == (Vel(Vec2 { x: 0, y: 0 })),
    {
        Vel(Vec2 { x: 0, y: 0 })
    }
}

/// Velocity snapshot taken after integration, before the position solve.
#[derive(Clone, Copy, PartialEq, Eq, Structural, Debug)]
pub struct VelPreSolve(pub Vec2);

impl Default for VelPreSolve {
    fn default() -> (v: Self)
        ensures
            v == (VelPreSolve(Vec2 { x: 0, y: 0 })),
    {
        VelPreSolve(Vec2 { x: 0, y: 0 })
    }
}

/// Circular collider; the radius must be positive.
#[derive(Clone, Copy, PartialEq, Eq, Structural, Debug)]
pub struct CircleCollider {
    pub radius: i128,
}

impl Default for CircleCollider {
    fn default() -> (v: Self)
        ensures
            v == (CircleCollider { radius: RADIUS_DEFAULT }),
    {
        CircleCollider { radius: RADIUS_DEFAULT }
    }
}

/// Process-wide acceleration, read by the integrator.
#[derive(Clone, Copy, PartialEq, Eq, Structural, Debug)]
pub struct Gravity(pub Vec2);

impl Default for Gravity {
    fn default() -> (v: Self)
        ensures
            v == (Gravity(Vec2 { x: 0, y: GRAVITY_DEFAULT_Y })),
    {
        Gravity(Vec2 { x: 0, y: GRAVITY_DEFAULT_Y })
    }
}

/// The unordered pairs found overlapping by the position solve of the
/// current tick, as index pairs `(a, b)` with `a < b`, in discovery
/// order.  Cleared at the start of that stage and consumed by the
/// velocity solve.
#[derive(Debug)]
pub struct Contacts(pub Vec<(usize, usize)>);

impl Default for Contacts {
    fn default() -> (v: Self)
        ensures
            v.0@ == Seq::<(usize, usize)>::empty(),
    {
        Contacts(Vec::new())
    }
}

} // verus!
