//! A 2D position-based-dynamics particle solver on a fixed timestep.
//!
//! Particles are circles with position, velocity, mass, radius and
//! restitution.  Each tick the pipeline advances them under gravity,
//! resolves pairwise penetrations by projecting positions, re-derives
//! velocities from the position change, and applies a restitution-based
//! velocity correction along contact normals.
//!
//! All quantities are fixed-point integers: `num::SCALE` sub-units make
//! one world unit, and the timestep is `1 / num::TICKS_PER_SECOND`
//! seconds.  Every stage has an exact contract over this integer model.

pub mod component;
pub mod laws;
pub mod model;
pub mod num;
pub mod particle;
pub mod solver;
pub mod world;
