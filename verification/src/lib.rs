//! A 2-D particle physics simulator: Verlet integration, iterative spring
//! constraint relaxation, and pairwise collision resolution.
//!
//! All physical quantities are fixed-point numbers: an `i64` counting
//! thousandths of a unit (see [`math::SCALE`]). Arithmetic is exact integer
//! arithmetic with truncating division, so every step of the simulation is
//! fully deterministic and its result is pinned down by the contracts.

pub mod dynamics;
pub mod engine;
pub mod laws;
pub mod math;
pub mod particle;
pub mod spring;
pub mod vec2;
