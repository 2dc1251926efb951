//! A point mass: current position, previous position (the implicit velocity of
//! Verlet integration), accumulated acceleration, radius and mass. Particles
//! are passive data; all dynamics live in the engine.

use vstd::prelude::*;

use crate::math::MASS_LIMIT;
use crate::math::SIM_LIMIT;
use crate::vec2::Vec2;

verus! {

/// A point mass. Velocity is never stored: it is implied by
/// `position - position_last`, so it can never drift apart from the position
/// history — the defining property of Verlet integration.
#[derive(Clone, Copy, Debug, PartialEq, Eq, Structural)]
pub struct Particle {
    pub position: Vec2,
    pub position_last: Vec2,
    pub acceleration: Vec2,
    pub radius: i64,
    pub mass: i64,
}

/// The particle invariant: positive mass, non-negative radius, both within
/// the machine windows the simulation arithmetic needs.
pub open spec fn particle_wf(p: Particle) -> bool {
    &&& 1 <= p.mass <= MASS_LIMIT
    &&& 0 <= p.radius <= SIM_LIMIT
}

impl Particle {
    /// Builds a particle. A particle starting at rest has
    /// `position_last == position`; an initial velocity `v` is encoded by
    /// offsetting `position_last` to `position - v * dt`.
    pub fn new(position: Vec2, position_last: Vec2, acceleration: Vec2, radius: i64, mass: i64) -> (r:
        Particle)
        requires
            1 <= mass <= MASS_LIMIT,
            0 <= radius <= SIM_LIMIT,
        ensures
            r == (Particle { position, position_last, acceleration, radius, mass }),
            particle_wf(r),
    {
        Particle { position, position_last, acceleration, radius, mass }
    }
}

} // verus!
