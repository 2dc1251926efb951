//! A spring: a symmetric distance constraint between two particle slots of the
//! engine, referenced by index so that no spring ever owns or aliases a
//! particle.

use vstd::prelude::*;

use crate::math::SCALE;
use crate::math::SIM_LIMIT;

verus! {

/// A distance constraint between the particles at index `particle_a` and
/// `particle_b` of the owning engine. `stiffness` is a fixed-point fraction in
/// `[0, SCALE]` (`SCALE` meaning the constraint is enforced fully in one
/// relaxation); `length` is the fixed-point rest length.
#[derive(Clone, Copy, Debug, PartialEq, Eq, Structural)]
pub struct Spring {
    pub particle_a: usize,
    pub particle_b: usize,
    pub stiffness: i64,
    pub length: i64,
}

/// The spring invariant relative to a particle collection of length `n`:
/// both endpoints exist, are distinct, and the coefficients are in range.
pub open spec fn spring_wf(s: Spring, n: int) -> bool {
    &&& s.particle_a < n
    &&& s.particle_b < n
    &&& s.particle_a != s.particle_b
    &&& 0 <= s.stiffness <= SCALE
    &&& 0 <= s.length <= SIM_LIMIT
}

impl Spring {
    /// Builds a spring between two particle indices. Index validity against a
    /// concrete engine is checked by the engine's own constructor operation.
    pub fn new(particle_a: usize, particle_b: usize, stiffness: i64, length: i64) -> (r: Spring)
        requires
            particle_a != particle_b,
            0 <= stiffness <= SCALE,
            0 <= length <= SIM_LIMIT,
        ensures
            r == (Spring { particle_a, particle_b, stiffness, length }),
    {
        Spring { particle_a, particle_b, stiffness, length }
    }
}

} // verus!
