//! The solver context: the particle store, gravity and the contact
//! list of the current tick.

use crate::component::{Contacts, Gravity, Vec2};
use crate::particle::ParticleBundle;
use vstd::prelude::*;

verus! {

/// One translation written to the host's presentation transform.
#[derive(Clone, Copy, PartialEq, Eq, Structural, Debug)]
pub struct Translation {
    pub x: i128,
    pub y: i128,
    pub z: i128,
}

/// A physics world: the host owns particle identity (an index into
/// `particles`); the solver only reads and writes the fields.
#[derive(Debug)]
pub struct World {
    pub particles: Vec<ParticleBundle>,
    pub gravity: Gravity,
    pub contacts: Contacts,
}

impl World {
    /// An empty world under default gravity.
    pub fn new() -> (w: World)
        ensures
            w.particles@ == Seq::<ParticleBundle>::empty(),
            w.gravity == (Gravity(Vec2 { x: 0, y: crate::component::GRAVITY_DEFAULT_Y })),
            w.contacts.0@ == Seq::<(usize, usize)>::empty(),
    {
        World { particles: Vec::new(), gravity: Gravity::default(), contacts: Contacts::default() }
    }
}

} // verus!
