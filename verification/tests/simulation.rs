use verlet_physics::engine::Engine;
use verlet_physics::engine::SimError;
use verlet_physics::particle::Particle;
use verlet_physics::spring::Spring;
use verlet_physics::vec2::Vec2;

fn resting_particle(x: i64, y: i64, radius: i64, mass: i64) -> Particle {
    let p = Vec2::new(x, y);
    Particle::new(p, p, Vec2::new(0, 0), radius, mass)
}

#[test]
fn particle_new_keeps_fields() {
    let p = Particle::new(Vec2::new(1, 2), Vec2::new(3, 4), Vec2::new(5, 6), 700, 800);
    assert_eq!(p.position.x, 1);
    assert_eq!(p.position.y, 2);
    assert_eq!(p.position_last.x, 3);
    assert_eq!(p.position_last.y, 4);
    assert_eq!(p.acceleration.x, 5);
    assert_eq!(p.acceleration.y, 6);
    assert_eq!(p.radius, 700);
    assert_eq!(p.mass, 800);
}

#[test]
fn spring_new_keeps_fields() {
    let s = Spring::new(0, 1, 900, 2500);
    assert_eq!(s.particle_a, 0);
    assert_eq!(s.particle_b, 1);
    assert_eq!(s.stiffness, 900);
    assert_eq!(s.length, 2500);
}

#[test]
fn add_particle_returns_stable_indices() {
    let mut e = Engine::new();
    let i0 = e.add_particle(resting_particle(0, 0, 1000, 1000));
    let i1 = e.add_particle(resting_particle(5000, 0, 1000, 1000));
    assert_eq!(i0, 0);
    assert_eq!(i1, 1);
    assert_eq!(e.particles().len(), 2);
    assert_eq!(e.particles()[1].position.x, 5000);
}

#[test]
fn add_spring_rejects_out_of_range_index() {
    let mut e = Engine::new();
    e.add_particle(resting_particle(0, 0, 1000, 1000));
    e.add_particle(resting_particle(5000, 0, 1000, 1000));
    assert_eq!(e.add_spring(0, 2, 1000, 5000), Err(SimError::InvalidReference));
    assert_eq!(e.add_spring(7, 1, 1000, 5000), Err(SimError::InvalidReference));
    assert_eq!(e.add_spring(1, 1, 1000, 5000), Err(SimError::InvalidReference));
    // The collection was not mutated: the next valid spring still gets index 0.
    assert_eq!(e.add_spring(0, 1, 1000, 5000), Ok(0));
    assert_eq!(e.add_spring(1, 0, 1000, 5000), Ok(1));
}

#[test]
fn instantiate_operations() {
    let mut e = Engine::new();
    let p = e.instantiate_particle(Vec2::new(10, 20), Vec2::new(10, 20), Vec2::new(0, 0), 500, 1000);
    assert_eq!(p.position.x, 10);
    assert_eq!(e.particles().len(), 1);
    e.instantiate_particle(Vec2::new(9000, 20), Vec2::new(9000, 20), Vec2::new(0, 0), 500, 1000);
    let s = e.instantiate_spring(0, 1, 1000, 8990).unwrap();
    assert_eq!(s.particle_a, 0);
    assert_eq!(s.particle_b, 1);
    assert_eq!(s.length, 8990);
    assert_eq!(e.instantiate_spring(0, 5, 1000, 100), Err(SimError::InvalidReference));
}

#[test]
fn step_rejects_zero_dt_and_changes_nothing() {
    let mut e = Engine::new();
    e.add_particle(resting_particle(123, 456, 1000, 1000));
    e.set_global_force(Vec2::new(0, -9800));
    assert_eq!(e.step(0, 4), Err(SimError::InvalidTimeStep));
    assert_eq!(e.particles()[0].position.x, 123);
    assert_eq!(e.particles()[0].position.y, 456);
}

#[test]
fn step_rejects_negative_dt_and_changes_nothing() {
    let mut e = Engine::new();
    e.add_particle(resting_particle(123, 456, 1000, 1000));
    e.set_global_force(Vec2::new(0, -9800));
    assert_eq!(e.step(-1000, 4), Err(SimError::InvalidTimeStep));
    assert_eq!(e.particles()[0].position.x, 123);
    assert_eq!(e.particles()[0].position.y, 456);
}

#[test]
fn gravity_for_one_second_from_rest() {
    // Force of magnitude 9.8 downward, dt = 1.0: the Verlet formula gives
    // position (0, -9.8) after one step from rest.
    let mut e = Engine::new();
    e.add_particle(resting_particle(0, 0, 1000, 1000));
    e.set_global_force(Vec2::new(0, -9800));
    assert_eq!(e.step(1000, 1), Ok(()));
    assert_eq!(e.particles()[0].position.x, 0);
    assert_eq!(e.particles()[0].position.y, -9800);
    // position_last keeps the pre-step position; acceleration is reset.
    assert_eq!(e.particles()[0].position_last.y, 0);
    assert_eq!(e.particles()[0].acceleration.x, 0);
    assert_eq!(e.particles()[0].acceleration.y, 0);
}

#[test]
fn resting_scene_stays_at_rest() {
    let mut e = Engine::new();
    e.add_particle(resting_particle(1000, 2000, 500, 1000));
    e.add_particle(resting_particle(9000, 2000, 500, 2000));
    // A spring exactly at its rest length exerts no force.
    assert_eq!(e.add_spring(0, 1, 1000, 8000), Ok(0));
    for _ in 0..25 {
        assert_eq!(e.step(1000, 10), Ok(()));
    }
    assert_eq!(e.particles()[0].position.x, 1000);
    assert_eq!(e.particles()[0].position.y, 2000);
    assert_eq!(e.particles()[1].position.x, 9000);
    assert_eq!(e.particles()[1].position.y, 2000);
}

#[test]
fn verlet_step_is_reversible() {
    // Step a free particle forward, swap position and position_last, step
    // again: the swap of the original state comes back, exactly.
    let mut e = Engine::new();
    e.add_particle(Particle::new(
        Vec2::new(5000, 1000),
        Vec2::new(4000, 900),
        Vec2::new(0, 0),
        100,
        1000,
    ));
    assert_eq!(e.step(1000, 1), Ok(()));
    let moved = e.particles()[0];
    assert_eq!(moved.position.x, 6000);
    assert_eq!(moved.position.y, 1100);
    assert_eq!(moved.position_last.x, 5000);
    assert_eq!(moved.position_last.y, 1000);

    let mut back = Engine::new();
    back.add_particle(Particle::new(moved.position_last, moved.position, Vec2::new(0, 0), 100, 1000));
    assert_eq!(back.step(1000, 1), Ok(()));
    let reversed = back.particles()[0];
    assert_eq!(reversed.position.x, 4000);
    assert_eq!(reversed.position.y, 900);
    assert_eq!(reversed.position_last.x, 5000);
    assert_eq!(reversed.position_last.y, 1000);
}

#[test]
fn full_stiffness_spring_reaches_rest_length_in_one_pass() {
    let mut e = Engine::new();
    e.add_particle(resting_particle(0, 0, 100, 1000));
    e.add_particle(resting_particle(3000, 0, 100, 1000));
    assert_eq!(e.add_spring(0, 1, 1000, 1000), Ok(0));
    assert_eq!(e.step(1000, 1), Ok(()));
    let a = e.particles()[0].position;
    let b = e.particles()[1].position;
    // Equal masses: both ends move by half the error of 2.0 units.
    assert_eq!(a.x, 1000);
    assert_eq!(b.x, 2000);
    assert_eq!(b.x - a.x, 1000);
}

fn spring_error_after(iterations: usize) -> i64 {
    let mut e = Engine::new();
    e.add_particle(resting_particle(0, 0, 100, 1000));
    e.add_particle(resting_particle(9000, 0, 100, 1000));
    // Half stiffness: each pass removes part of the error.
    assert_eq!(e.add_spring(0, 1, 500, 2000), Ok(0));
    assert_eq!(e.step(1, iterations), Ok(()));
    let a = e.particles()[0].position;
    let b = e.particles()[1].position;
    let dx = b.x - a.x;
    let dy = b.y - a.y;
    assert_eq!(dy, 0);
    (dx - 2000).abs()
}

#[test]
fn spring_convergence_is_monotone_in_iterations() {
    let e1 = spring_error_after(1);
    let e10 = spring_error_after(10);
    let e100 = spring_error_after(100);
    assert!(e1 < 7000, "one pass must reduce the initial error");
    assert!(e10 <= e1);
    assert!(e100 <= e10);
    assert!(e100 <= 10, "a hundred passes must come within epsilon of rest length");
}

#[test]
fn equal_mass_collision_separates_to_radii_sum() {
    // Two particles of radius 1.0 and equal mass at distance 0.5: one pass
    // must separate them to exactly 2.0, each moving half the overlap.
    let mut e = Engine::new();
    e.add_particle(resting_particle(0, 0, 1000, 1000));
    e.add_particle(resting_particle(500, 0, 1000, 1000));
    assert_eq!(e.step(1000, 0), Ok(()));
    let a = e.particles()[0].position;
    let b = e.particles()[1].position;
    assert_eq!(a.x, -750);
    assert_eq!(b.x, 1250);
    assert_eq!(b.x - a.x, 2000);
    assert_eq!(a.y, 0);
    assert_eq!(b.y, 0);
}

#[test]
fn heavier_particle_moves_less_in_collision() {
    let mut e = Engine::new();
    e.add_particle(resting_particle(0, 0, 1000, 3000));
    e.add_particle(resting_particle(1000, 0, 1000, 1000));
    assert_eq!(e.step(1000, 0), Ok(()));
    let a = e.particles()[0].position;
    let b = e.particles()[1].position;
    // Overlap 1.0: the light particle takes 3/4 of it, the heavy one 1/4.
    assert_eq!(a.x, -250);
    assert_eq!(b.x, 1750);
    assert_eq!(b.x - a.x, 2000);
}

#[test]
fn separated_particles_do_not_collide() {
    let mut e = Engine::new();
    e.add_particle(resting_particle(0, 0, 1000, 1000));
    e.add_particle(resting_particle(2500, 0, 1000, 1000));
    assert_eq!(e.step(1000, 0), Ok(()));
    assert_eq!(e.particles()[0].position.x, 0);
    assert_eq!(e.particles()[1].position.x, 2500);
}

#[test]
fn coinciding_particles_are_left_in_place() {
    // A zero-length direction is the documented degenerate case: no push.
    let mut e = Engine::new();
    e.add_particle(resting_particle(100, 100, 1000, 1000));
    e.add_particle(resting_particle(100, 100, 1000, 1000));
    assert_eq!(e.step(1000, 0), Ok(()));
    assert_eq!(e.particles()[0].position.x, 100);
    assert_eq!(e.particles()[1].position.x, 100);
}

#[test]
fn initial_velocity_carries_over_steps() {
    // position_last = position - velocity * dt encodes an initial velocity of
    // 1.0 per second along x; two steps move the particle by 2.0.
    let mut e = Engine::new();
    e.add_particle(Particle::new(
        Vec2::new(0, 0),
        Vec2::new(-1000, 0),
        Vec2::new(0, 0),
        100,
        1000,
    ));
    assert_eq!(e.step(1000, 1), Ok(()));
    assert_eq!(e.particles()[0].position.x, 1000);
    assert_eq!(e.step(1000, 1), Ok(()));
    assert_eq!(e.particles()[0].position.x, 2000);
}

#[test]
fn spring_correction_splits_inversely_to_mass() {
    let mut e = Engine::new();
    e.add_particle(resting_particle(0, 0, 100, 3000));
    e.add_particle(resting_particle(3000, 0, 100, 1000));
    assert_eq!(e.add_spring(0, 1, 1000, 1000), Ok(0));
    assert_eq!(e.step(1000, 1), Ok(()));
    let a = e.particles()[0].position;
    let b = e.particles()[1].position;
    // Error 2.0: the heavy end takes a quarter of it, the light end the rest.
    assert_eq!(a.x, 500);
    assert_eq!(b.x, 1500);
    assert_eq!(b.x - a.x, 1000);
}

#[test]
fn diagonal_spring_contracts_along_its_own_line() {
    let mut e = Engine::new();
    e.add_particle(resting_particle(0, 0, 100, 1000));
    e.add_particle(resting_particle(3000, 4000, 100, 1000));
    // Distance 5.0, rest length 2.5, full stiffness: one pass lands on 2.5.
    assert_eq!(e.add_spring(0, 1, 1000, 2500), Ok(0));
    assert_eq!(e.step(1000, 1), Ok(()));
    let a = e.particles()[0].position;
    let b = e.particles()[1].position;
    assert_eq!((a.x, a.y), (750, 1000));
    assert_eq!((b.x, b.y), (2250, 3000));
}
