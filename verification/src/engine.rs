//! The simulation core: owns all particles and springs and advances them with
//! the per-step pipeline of force accumulation, Verlet integration, spring
//! relaxation, collision resolution and acceleration reset.

use vstd::prelude::*;

use crate::math::DT_LIMIT;
use crate::math::MASS_LIMIT;
use crate::math::SCALE;
use crate::math::SIM_LIMIT;
use crate::particle::particle_wf;
use crate::particle::Particle;
use crate::spring::spring_wf;
use crate::spring::Spring;
use crate::vec2::Vec2;

verus! {

/// The error taxonomy of the engine API.
#[derive(Clone, Copy, Debug, PartialEq, Eq, Structural)]
pub enum SimError {
    /// A spring construction referenced a nonexistent or repeated particle
    /// index.
    InvalidReference,
    /// `step` was called with a non-positive time step.
    InvalidTimeStep,
}

/// The mathematical state of an engine: its particle sequence, its spring
/// sequence, and the global force.
#[verifier::ext_equal]
pub ghost struct EngineView {
    pub particles: Seq<Particle>,
    pub springs: Seq<Spring>,
    pub force: Vec2,
}

/// The simulation engine. It is the sole mutator of particle and spring
/// state: callers add particles and springs, set the global force, call
/// `step`, and read positions back.
pub struct Engine {
    particles: Vec<Particle>,
    springs: Vec<Spring>,
    force: Vec2,
}

impl View for Engine {
    type V = EngineView;

    closed spec fn view(&self) -> EngineView {
        EngineView { particles: self.particles@, springs: self.springs@, force: self.force }
    }
}

impl Engine {
    /// The engine invariant: every spring refers to two distinct existing
    /// particles with in-range coefficients, and every particle satisfies the
    /// particle invariant.
    pub open spec fn wf(&self) -> bool {
        &&& forall|i: int|
            0 <= i < self@.springs.len() ==> spring_wf(
                #[trigger] self@.springs[i],
                self@.particles.len() as int,
            )
        &&& forall|i: int| 0 <= i < self@.particles.len() ==> particle_wf(#[trigger] self@.particles[i])
    }

    /// Builds an empty engine with no global force.
    pub fn new() -> (r: Engine)
        ensures
            r@.particles == Seq::<Particle>::empty(),
            r@.springs == Seq::<Spring>::empty(),
            r@.force == (Vec2 { x: 0i64, y: 0i64 }),
            r.wf(),
    {
        Engine { particles: Vec::new(), springs: Vec::new(), force: Vec2 { x: 0, y: 0 } }
    }

    /// Appends a particle and returns its stable index.
    pub fn add_particle(&mut self, particle: Particle) -> (r: usize)
        requires
            particle_wf(particle),
            old(self).wf(),
        ensures
            final(self)@.particles == old(self)@.particles.push(particle),
            final(self)@.springs == old(self)@.springs,
            final(self)@.force == old(self)@.force,
            r == old(self)@.particles.len(),
            final(self).wf(),
    {
        let r = self.particles.len();
        self.particles.push(particle);
        r
    }

    /// Appends a spring between two existing, distinct particle indices and
    /// returns its index; rejects a nonexistent or repeated index with
    /// `InvalidReference` and then changes nothing.
    pub fn add_spring(&mut self, particle_a: usize, particle_b: usize, stiffness: i64, length: i64) -> (r:
        Result<usize, SimError>)
        requires
            0 <= stiffness <= SCALE,
            0 <= length <= SIM_LIMIT,
            old(self).wf(),
        ensures
            final(self).wf(),
            final(self)@.particles == old(self)@.particles,
            final(self)@.force == old(self)@.force,
            ({
                let valid = particle_a < old(self)@.particles.len() && particle_b < old(
                    self,
                )@.particles.len() && particle_a != particle_b;
                match r {
                    Ok(idx) => valid && idx == old(self)@.springs.len() && final(self)@.springs == old(
                        self,
                    )@.springs.push(Spring { particle_a, particle_b, stiffness, length }),
                    Err(e) => !valid && e == SimError::InvalidReference && final(self)@.springs == old(
                        self,
                    )@.springs,
                }
            }),
    {
        let n = self.particles.len();
        if particle_a >= n || particle_b >= n || particle_a == particle_b {
            return Err(SimError::InvalidReference);
        }
        let idx = self.springs.len();
        self.springs.push(Spring { particle_a, particle_b, stiffness, length });
        proof {
            assert forall|i: int| 0 <= i < self@.springs.len() implies spring_wf(
                #[trigger] self@.springs[i],
                self@.particles.len() as int,
            ) by {
                if i < old(self)@.springs.len() {
                    assert(self@.springs[i] == old(self)@.springs[i]);
                }
            }
        }
        Ok(idx)
    }

    /// Sets the global force vector added to every particle's acceleration
    /// during each step (for example gravity).
    pub fn set_global_force(&mut self, force: Vec2)
        requires
            old(self).wf(),
        ensures
            final(self)@.particles == old(self)@.particles,
            final(self)@.springs == old(self)@.springs,
            final(self)@.force == force,
            final(self).wf(),
    {
        self.force = force;
    }

    /// Builds a particle from its raw values, appends it, and hands the built
    /// particle back.
    pub fn instantiate_particle(
        &mut self,
        position: Vec2,
        position_last: Vec2,
        acceleration: Vec2,
        radius: i64,
        mass: i64,
    ) -> (r: Particle)
        requires
            1 <= mass <= MASS_LIMIT,
            0 <= radius <= SIM_LIMIT,
            old(self).wf(),
        ensures
            r == (Particle { position, position_last, acceleration, radius, mass }),
            final(self)@.particles == old(self)@.particles.push(r),
            final(self)@.springs == old(self)@.springs,
            final(self)@.force == old(self)@.force,
            final(self).wf(),
    {
        let p = Particle::new(position, position_last, acceleration, radius, mass);
        self.add_particle(p);
        p
    }

    /// Builds a spring between two existing, distinct particle indices,
    /// appends it, and hands the built spring back; rejects a nonexistent or
    /// repeated index with `InvalidReference` and then changes nothing.
    pub fn instantiate_spring(
        &mut self,
        particle_a: usize,
        particle_b: usize,
        stiffness: i64,
        length: i64,
    ) -> (r: Result<Spring, SimError>)
        requires
            0 <= stiffness <= SCALE,
            0 <= length <= SIM_LIMIT,
            old(self).wf(),
        ensures
            final(self).wf(),
            final(self)@.particles == old(self)@.particles,
            final(self)@.force == old(self)@.force,
            ({
                let valid = particle_a < old(self)@.particles.len() && particle_b < old(
                    self,
                )@.particles.len() && particle_a != particle_b;
                match r {
                    Ok(sp) => valid && sp == (Spring { particle_a, particle_b, stiffness, length })
                        && final(self)@.springs == old(self)@.springs.push(sp),
                    Err(e) => !valid && e == SimError::InvalidReference && final(self)@.springs
                        == old(self)@.springs,
                }
            }),
    {
        match self.add_spring(particle_a, particle_b, stiffness, length) {
            Ok(_) => Ok(Spring { particle_a, particle_b, stiffness, length }),
            Err(e) => Err(e),
        }
    }

    /// Advances the whole scene by one time increment `dt` (fixed-point
    /// seconds): Verlet integration under the global force, `iterations`
    /// spring relaxation passes, one collision pass, acceleration reset.
    /// A non-positive `dt` is rejected with `InvalidTimeStep` and the engine
    /// is left exactly as it was; on success the new particle sequence is
    /// exactly `spec_step` of the old one, and springs and force are kept.
    pub fn step(&mut self, dt: i64, iterations: usize) -> (r: Result<(), SimError>)
        requires
            dt <= DT_LIMIT,
            old(self).wf(),
        ensures
            final(self).wf(),
            final(self)@.springs == old(self)@.springs,
            final(self)@.force == old(self)@.force,
            match r {
                Ok(u) => dt > 0 && final(self)@.particles == crate::dynamics::spec_step(
                    old(self)@.particles,
                    old(self)@.springs,
                    old(self)@.force,
                    dt as int,
                    iterations as int,
                ),
                Err(e) => dt <= 0 && e == SimError::InvalidTimeStep && final(self)@.particles
                    == old(self)@.particles,
            },
    {
        if dt <= 0 {
            return Err(SimError::InvalidTimeStep);
        }
        let force = self.force;
        crate::dynamics::integrate_all(&mut self.particles, force, dt);
        crate::dynamics::relax_all(&mut self.particles, &self.springs, iterations);
        crate::dynamics::collide_all(&mut self.particles);
        crate::dynamics::reset_all(&mut self.particles);
        proof {
            let ps0 = old(self)@.particles;
            crate::dynamics::lemma_step_meta(
                ps0,
                old(self)@.springs,
                old(self)@.force,
                dt as int,
                iterations as int,
            );
            assert(crate::dynamics::same_meta(ps0, self@.particles));
            assert forall|i: int| 0 <= i < self@.particles.len() implies particle_wf(
                #[trigger] self@.particles[i],
            ) by {
                assert(particle_wf(ps0[i]));
            }
        }
        Ok(())
    }

    /// Read-only view of the particles, for rendering.
    pub fn particles(&self) -> (r: &Vec<Particle>)
        ensures
            r@ == self@.particles,
    {
        &self.particles
    }
}

} // verus!
