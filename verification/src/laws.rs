//! The global laws of the simulator: rest-state stability (a scene with no
//! net force does not move, over any number of steps), exact reversibility of
//! Verlet integration for a free particle, monotone spring convergence toward
//! the rest length without overshoot, and exact collision separation.

use vstd::prelude::*;

use crate::dynamics::spec_collide_all;
use crate::dynamics::spec_collide_from;
use crate::dynamics::spec_collide_pair;
use crate::dynamics::spec_collide_row;
use crate::dynamics::spec_integrate;
use crate::dynamics::spec_integrate_all;
use crate::dynamics::spec_relax;
use crate::dynamics::spec_relax_pass;
use crate::dynamics::spec_relax_spring;
use crate::dynamics::spec_reset;
use crate::dynamics::spec_step;
use crate::math::spec_div;
use crate::math::spec_isqrt;
use crate::math::DT_LIMIT;
use crate::math::SCALE;
use crate::particle::Particle;
use crate::spring::Spring;
use crate::vec2::Vec2;

verus! {

/// The distance between the two endpoints of a spring, as the dynamics
/// compute it: the integer square root of the squared separation.
pub open spec fn spring_distance(ps: Seq<Particle>, s: Spring) -> int {
    let pa = ps[s.particle_a as int];
    let pb = ps[s.particle_b as int];
    let dx = pb.position.x - pa.position.x;
    let dy = pb.position.y - pa.position.y;
    spec_isqrt(dx * dx + dy * dy)
}

/// The distance between two particles, as the dynamics compute it.
pub open spec fn pair_distance(ps: Seq<Particle>, a: int, b: int) -> int {
    let pa = ps[a];
    let pb = ps[b];
    let dx = pb.position.x - pa.position.x;
    let dy = pb.position.y - pa.position.y;
    spec_isqrt(dx * dx + dy * dy)
}

/// The pair `(a, b)` is clear of collision: the distance is at least the sum
/// of the radii.
pub open spec fn pair_clear(ps: Seq<Particle>, a: int, b: int) -> bool {
    pair_distance(ps, a, b) >= ps[a].radius + ps[b].radius
}

/// A scene at rest: no global force; every particle carries zero acceleration
/// and `position_last == position` (zero implicit velocity); every spring sits
/// exactly at its rest length (zero net spring force); and no two particles
/// overlap (zero net collision force).
pub open spec fn scene_at_rest(ps: Seq<Particle>, springs: Seq<Spring>, force: Vec2) -> bool {
    &&& force == (Vec2 { x: 0i64, y: 0i64 })
    &&& forall|i: int|
        0 <= i < ps.len() ==> (#[trigger] ps[i]).acceleration == (Vec2 { x: 0i64, y: 0i64 })
            && ps[i].position_last == ps[i].position
    &&& forall|k: int|
        0 <= k < springs.len() ==> spring_distance(ps, #[trigger] springs[k]) == springs[k].length
    &&& forall|a: int, b: int|
        0 <= a < ps.len() && 0 <= b < ps.len() && a != b ==> #[trigger] pair_clear(ps, a, b)
}

/// Integrating a particle with zero acceleration under zero force from
/// `position_last == position` leaves it unchanged.
proof fn lemma_integrate_static(p: Particle, dt: int)
    requires
        p.acceleration == (Vec2 { x: 0i64, y: 0i64 }),
        p.position_last == p.position,
    ensures
        spec_integrate(p, Vec2 { x: 0i64, y: 0i64 }, dt) == p,
{
    assert(0int * dt * dt == 0) by (nonlinear_arith);
    assert(SCALE * SCALE == 1_000_000) by (nonlinear_arith)
        requires
            SCALE == 1000i64,
    ;
    vstd::arithmetic::div_mod::lemma_div_of0(1_000_000);
}

/// Integrating a whole resting scene changes nothing.
proof fn lemma_integrate_all_static(ps: Seq<Particle>, dt: int)
    requires
        forall|i: int|
            0 <= i < ps.len() ==> (#[trigger] ps[i]).acceleration == (Vec2 { x: 0i64, y: 0i64 })
                && ps[i].position_last == ps[i].position,
    ensures
        spec_integrate_all(ps, Vec2 { x: 0i64, y: 0i64 }, dt) == ps,
{
    let zero = Vec2 { x: 0i64, y: 0i64 };
    assert forall|i: int| 0 <= i < ps.len() implies #[trigger] spec_integrate_all(ps, zero, dt)[i]
        == ps[i] by {
        lemma_integrate_static(ps[i], dt);
    }
    assert(spec_integrate_all(ps, zero, dt) =~= ps);
}

/// Relaxing a spring that sits exactly at its rest length changes nothing.
proof fn lemma_relax_spring_static(ps: Seq<Particle>, s: Spring)
    requires
        s.particle_a < ps.len() && s.particle_b < ps.len() && s.particle_a != s.particle_b
            ==> spring_distance(ps, s) == s.length,
    ensures
        spec_relax_spring(ps, s) == ps,
{
    let a = s.particle_a as int;
    let b = s.particle_b as int;
    if a < ps.len() && b < ps.len() && a != b {
        let pa = ps[a];
        let pb = ps[b];
        if crate::dynamics::pair_active(pa, pb) && 0 <= s.stiffness <= SCALE && 0 <= s.length
            <= crate::math::SIM_LIMIT {
            let dx = pb.position.x - pa.position.x;
            let dy = pb.position.y - pa.position.y;
            let dist = spec_isqrt(dx * dx + dy * dy);
            if dist > 0 {
                let diff = dist - s.length;
                assert(diff == 0);
                assert(dx * diff == 0 && dy * diff == 0) by (nonlinear_arith)
                    requires
                        diff == 0,
                ;
                vstd::arithmetic::div_mod::lemma_div_of0(dist);
                vstd::arithmetic::div_mod::lemma_div_of0(SCALE as int);
                vstd::arithmetic::div_mod::lemma_div_of0(pa.mass + pb.mass);
                assert(0int * s.stiffness == 0) by (nonlinear_arith);
                assert(0int * pb.mass == 0) by (nonlinear_arith);
                assert(spec_relax_spring(ps, s) =~= ps);
            }
        }
    }
}

/// A relaxation pass over a resting scene changes nothing.
proof fn lemma_relax_pass_static(ps: Seq<Particle>, springs: Seq<Spring>, k: int)
    requires
        forall|k2: int|
            0 <= k2 < springs.len() && springs[k2].particle_a < ps.len()
                && springs[k2].particle_b < ps.len() && springs[k2].particle_a
                != springs[k2].particle_b ==> spring_distance(ps, #[trigger] springs[k2])
                == springs[k2].length,
        k <= springs.len(),
    ensures
        spec_relax_pass(ps, springs, k) == ps,
    decreases k,
{
    if k > 0 {
        lemma_relax_pass_static(ps, springs, k - 1);
        lemma_relax_spring_static(ps, springs[k - 1]);
    }
}

/// Any number of relaxation passes over a resting scene changes nothing.
proof fn lemma_relax_static(ps: Seq<Particle>, springs: Seq<Spring>, iters: int)
    requires
        forall|k2: int|
            0 <= k2 < springs.len() && springs[k2].particle_a < ps.len()
                && springs[k2].particle_b < ps.len() && springs[k2].particle_a
                != springs[k2].particle_b ==> spring_distance(ps, #[trigger] springs[k2])
                == springs[k2].length,
    ensures
        spec_relax(ps, springs, iters) == ps,
    decreases iters,
{
    if iters > 0 {
        lemma_relax_static(ps, springs, iters - 1);
        lemma_relax_pass_static(ps, springs, springs.len() as int);
    }
}

/// Resolving a non-overlapping pair changes nothing.
proof fn lemma_collide_pair_static(ps: Seq<Particle>, a: int, b: int)
    requires
        0 <= a < ps.len() && 0 <= b < ps.len() && a != b ==> pair_clear(ps, a, b),
    ensures
        spec_collide_pair(ps, a, b) == ps,
{
}

/// Resolving a row of pairs in a non-overlapping scene changes nothing.
proof fn lemma_collide_row_static(ps: Seq<Particle>, a: int, b: int, n: nat)
    requires
        forall|a2: int, b2: int|
            0 <= a2 < ps.len() && 0 <= b2 < ps.len() && a2 != b2 ==> #[trigger] pair_clear(
                ps,
                a2,
                b2,
            ),
    ensures
        spec_collide_row(ps, a, b, n) == ps,
    decreases n,
{
    if n > 0 {
        lemma_collide_pair_static(ps, a, b);
        lemma_collide_row_static(ps, a, b + 1, (n - 1) as nat);
    }
}

/// Resolving any rows of a non-overlapping scene changes nothing.
proof fn lemma_collide_from_static(ps: Seq<Particle>, a: int, n: nat)
    requires
        forall|a2: int, b2: int|
            0 <= a2 < ps.len() && 0 <= b2 < ps.len() && a2 != b2 ==> #[trigger] pair_clear(
                ps,
                a2,
                b2,
            ),
    ensures
        spec_collide_from(ps, a, n) == ps,
    decreases n,
{
    if n > 0 {
        let rn: nat = if a + 1 <= ps.len() {
            (ps.len() - a - 1) as nat
        } else {
            0nat
        };
        lemma_collide_row_static(ps, a, a + 1, rn);
        lemma_collide_from_static(ps, a + 1, (n - 1) as nat);
    }
}

/// Resetting accelerations that are already zero changes nothing.
proof fn lemma_reset_static(ps: Seq<Particle>)
    requires
        forall|i: int| 0 <= i < ps.len() ==> (#[trigger] ps[i]).acceleration == (Vec2 { x: 0i64, y: 0i64 }),
    ensures
        spec_reset(ps) == ps,
{
    assert forall|i: int| 0 <= i < ps.len() implies #[trigger] spec_reset(ps)[i] == ps[i] by {
        assert(ps[i].acceleration == (Vec2 { x: 0i64, y: 0i64 }));
    }
    assert(spec_reset(ps) =~= ps);
}

/// Rest-state stability, one step: a scene at rest — zero acceleration, zero
/// implicit velocity, every spring at rest length, no overlap, no global
/// force — is left exactly unchanged by a step.
pub proof fn lemma_rest_state_step(
    ps: Seq<Particle>,
    springs: Seq<Spring>,
    force: Vec2,
    dt: int,
    iters: int,
)
    requires
        scene_at_rest(ps, springs, force),
    ensures
        spec_step(ps, springs, force, dt, iters) == ps,
{
    lemma_integrate_all_static(ps, dt);
    lemma_relax_static(ps, springs, iters);
    lemma_collide_from_static(ps, 0, ps.len());
    lemma_reset_static(ps);
}

/// The scene after `n` whole steps.
pub open spec fn spec_step_n(
    ps: Seq<Particle>,
    springs: Seq<Spring>,
    force: Vec2,
    dt: int,
    iters: int,
    n: nat,
) -> Seq<Particle>
    decreases n,
{
    if n == 0 {
        ps
    } else {
        spec_step_n(spec_step(ps, springs, force, dt, iters), springs, force, dt, iters, (n - 1) as nat)
    }
}

/// Rest-state stability: a scene at rest stays exactly where it is after any
/// number of steps.
pub proof fn lemma_rest_state_stable(
    ps: Seq<Particle>,
    springs: Seq<Spring>,
    force: Vec2,
    dt: int,
    iters: int,
    n: nat,
)
    requires
        scene_at_rest(ps, springs, force),
    ensures
        spec_step_n(ps, springs, force, dt, iters, n) == ps,
    decreases n,
{
    if n > 0 {
        lemma_rest_state_step(ps, springs, force, dt, iters);
        lemma_rest_state_stable(ps, springs, force, dt, iters, (n - 1) as nat);
    }
}

/// Spring relaxation converges without overshoot: for a spring lying along
/// the x axis (both endpoints on one horizontal line, `a` left of `b`) the
/// relaxed distance lies between the old distance and the rest length, so the
/// distance error never grows and repeated passes move the distance
/// monotonically toward the rest length; a spring of full stiffness reaches
/// its rest length exactly in a single relaxation. The distance changes by
/// exactly `(distance - length) * stiffness / SCALE`, whatever the masses:
/// only how the correction is split between the endpoints depends on them.
pub proof fn lemma_spring_relaxation_converges(ps: Seq<Particle>, s: Spring)
    requires
        s.particle_a < ps.len(),
        s.particle_b < ps.len(),
        s.particle_a != s.particle_b,
        crate::dynamics::pair_active(ps[s.particle_a as int], ps[s.particle_b as int]),
        0 <= s.stiffness <= SCALE,
        0 <= s.length <= crate::math::SIM_LIMIT,
        ps[s.particle_a as int].position.y == ps[s.particle_b as int].position.y,
        ps[s.particle_a as int].position.x < ps[s.particle_b as int].position.x,
    ensures
        ({
            let qs = spec_relax_spring(ps, s);
            let d0 = ps[s.particle_b as int].position.x - ps[s.particle_a as int].position.x;
            let d1 = qs[s.particle_b as int].position.x - qs[s.particle_a as int].position.x;
            &&& qs[s.particle_a as int].position.y == ps[s.particle_a as int].position.y
            &&& qs[s.particle_b as int].position.y == ps[s.particle_b as int].position.y
            &&& d1 == d0 - spec_div((d0 - s.length) * s.stiffness, SCALE as int)
            &&& d0 <= s.length ==> d0 <= d1 <= s.length
            &&& d0 >= s.length ==> s.length <= d1 <= d0
            &&& d0 >= s.length ==> ps[s.particle_a as int].position.x <= qs[s.particle_a as int].position.x
                && qs[s.particle_b as int].position.x <= ps[s.particle_b as int].position.x
            &&& s.stiffness == SCALE ==> d1 == s.length
        }),
{
    let a = s.particle_a as int;
    let b = s.particle_b as int;
    let pa = ps[a];
    let pb = ps[b];
    let dx = pb.position.x - pa.position.x;
    let dy = pb.position.y - pa.position.y;
    crate::math::lemma_isqrt_square(dx);
    assert(dx * dx + dy * dy == dx * dx) by (nonlinear_arith)
        requires
            dy == 0,
    ;
    let dist = spec_isqrt(dx * dx + dy * dy);
    assert(dist == dx);
    let diff = dist - s.length;
    let adiff = if diff >= 0 {
        diff
    } else {
        -diff
    };
    crate::math::lemma_div_exact(diff, dx);
    let tx = spec_div(dx * diff, dist);
    assert(tx == diff);
    assert(dy * diff == 0) by (nonlinear_arith)
        requires
            dy == 0,
    ;
    vstd::arithmetic::div_mod::lemma_div_of0(dx);
    let ty = spec_div(dy * diff, dist);
    assert(ty == 0);
    assert(-(SCALE * adiff) <= tx * s.stiffness <= SCALE * adiff && (diff >= 0 ==> tx * s.stiffness
        >= 0) && (diff <= 0 ==> tx * s.stiffness <= 0)) by (nonlinear_arith)
        requires
            tx == diff,
            adiff == if diff >= 0 {
                diff
            } else {
                -diff
            },
            0 <= s.stiffness <= SCALE,
            SCALE == 1000i64,
    ;
    crate::math::lemma_div_trunc_le(tx * s.stiffness, SCALE as int, adiff);
    crate::math::lemma_div_trunc_shrinks(tx * s.stiffness, SCALE as int);
    let sx = spec_div(tx * s.stiffness, SCALE as int);
    assert(0int * s.stiffness == 0) by (nonlinear_arith);
    vstd::arithmetic::div_mod::lemma_div_of0(SCALE as int);
    let sy = spec_div(ty * s.stiffness, SCALE as int);
    assert(sy == 0);
    let msum = pa.mass + pb.mass;
    let asx = if sx >= 0 {
        sx
    } else {
        -sx
    };
    assert(-(msum * asx) <= sx * pb.mass <= msum * asx) by (nonlinear_arith)
        requires
            asx == if sx >= 0 {
                sx
            } else {
                -sx
            },
            0 < pb.mass <= msum,
    ;
    crate::math::lemma_div_trunc_le(sx * pb.mass, msum, asx);
    assert(sx >= 0 ==> sx * pb.mass >= 0) by (nonlinear_arith)
        requires
            pb.mass > 0,
    ;
    crate::math::lemma_div_trunc_shrinks(sx * pb.mass, msum);
    let off_ax = spec_div(sx * pb.mass, msum);
    assert(0int * pb.mass == 0) by (nonlinear_arith);
    vstd::arithmetic::div_mod::lemma_div_of0(msum);
    let off_ay = spec_div(sy * pb.mass, msum);
    assert(off_ay == 0);
    let qs = spec_relax_spring(ps, s);
    assert(qs[a].position.x == pa.position.x + off_ax && qs[b].position.x == pb.position.x - (sx
        - off_ax) && qs[a].position.y == pa.position.y && qs[b].position.y == pb.position.y);
    if s.stiffness == SCALE {
        assert(tx * s.stiffness == SCALE * diff) by (nonlinear_arith)
            requires
                tx == diff,
                s.stiffness == SCALE,
        ;
        crate::math::lemma_div_exact(diff, SCALE as int);
    }
}

/// Iterated convergence: in a scene whose only spring is a taut spring lying
/// along the x axis, every relaxation pass keeps the inter-particle distance
/// between the rest length and the previous pass's distance. Over any number
/// of passes the distance descends monotonically toward the rest length,
/// never passing it, and with full stiffness it arrives after the first pass.
pub proof fn lemma_spring_convergence_iterated(ps: Seq<Particle>, s: Spring, iters: int)
    requires
        iters >= 0,
        s.particle_a < ps.len(),
        s.particle_b < ps.len(),
        s.particle_a != s.particle_b,
        crate::dynamics::pair_active(ps[s.particle_a as int], ps[s.particle_b as int]),
        0 <= s.stiffness <= SCALE,
        1 <= s.length <= crate::math::SIM_LIMIT,
        ps[s.particle_a as int].position.y == ps[s.particle_b as int].position.y,
        ps[s.particle_a as int].position.x < ps[s.particle_b as int].position.x,
        ps[s.particle_b as int].position.x - ps[s.particle_a as int].position.x >= s.length,
    ensures
        ({
            let qs = spec_relax(ps, seq![s], iters);
            let a = s.particle_a as int;
            let b = s.particle_b as int;
            let d0 = ps[b].position.x - ps[a].position.x;
            let di = qs[b].position.x - qs[a].position.x;
            &&& qs[a].position.y == ps[a].position.y
            &&& qs[b].position.y == ps[b].position.y
            &&& ps[a].position.x <= qs[a].position.x
            &&& qs[b].position.x <= ps[b].position.x
            &&& s.length <= di <= d0
            &&& iters >= 1 ==> di <= spec_relax(ps, seq![s], iters - 1)[b].position.x - spec_relax(
                ps,
                seq![s],
                iters - 1,
            )[a].position.x
            &&& iters >= 1 && s.stiffness == SCALE ==> di == s.length
        }),
    decreases iters,
{
    let a = s.particle_a as int;
    let b = s.particle_b as int;
    let springs = seq![s];
    if iters > 0 {
        lemma_spring_convergence_iterated(ps, s, iters - 1);
        let prev = spec_relax(ps, springs, iters - 1);
        crate::dynamics::lemma_relax_meta(ps, springs, iters - 1);
        assert(prev[a].mass == ps[a].mass && prev[b].mass == ps[b].mass);
        assert(crate::dynamics::pair_active(prev[a], prev[b]));
        lemma_spring_relaxation_converges(prev, s);
        assert(spec_relax_pass(prev, springs, 0) == prev);
        assert(spec_relax_pass(prev, springs, 1) == spec_relax_spring(prev, springs[0]));
        assert(springs[0] == s);
        assert(spec_relax(ps, springs, iters) == spec_relax_spring(prev, s));
    }
}

/// Collision resolution separates exactly: for an overlapping pair lying
/// along the x axis (`a` left of `b`, not coinciding), one resolution moves
/// the two particles to a distance of exactly the sum of their radii, whatever
/// the masses: only how the push is split between the two depends on them.
/// With equal masses each particle moves exactly half the overlap (the left
/// one by the truncated half).
pub proof fn lemma_collision_separates(ps: Seq<Particle>, a: int, b: int)
    requires
        0 <= a < ps.len(),
        0 <= b < ps.len(),
        a != b,
        crate::dynamics::pair_active(ps[a], ps[b]),
        0 <= ps[a].radius <= crate::math::SIM_LIMIT,
        0 <= ps[b].radius <= crate::math::SIM_LIMIT,
        ps[a].position.y == ps[b].position.y,
        ps[a].position.x < ps[b].position.x,
        ps[b].position.x - ps[a].position.x < ps[a].radius + ps[b].radius,
    ensures
        ({
            let qs = spec_collide_pair(ps, a, b);
            let overlap = ps[a].radius + ps[b].radius - (ps[b].position.x - ps[a].position.x);
            &&& qs[a].position.y == ps[a].position.y
            &&& qs[b].position.y == ps[b].position.y
            &&& qs[b].position.x - qs[a].position.x == ps[a].radius + ps[b].radius
            &&& ps[a].mass == ps[b].mass ==> ps[a].position.x - qs[a].position.x == spec_div(
                overlap,
                2,
            ) && qs[b].position.x - ps[b].position.x == overlap - spec_div(overlap, 2)
        }),
{
    let pa = ps[a];
    let pb = ps[b];
    let dx = pb.position.x - pa.position.x;
    let dy = pb.position.y - pa.position.y;
    crate::math::lemma_isqrt_square(dx);
    assert(dx * dx + dy * dy == dx * dx) by (nonlinear_arith)
        requires
            dy == 0,
    ;
    let dist = spec_isqrt(dx * dx + dy * dy);
    assert(dist == dx);
    let rsum = pa.radius + pb.radius;
    let overlap = rsum - dist;
    crate::math::lemma_div_exact(overlap, dx);
    let tx = spec_div(dx * overlap, dist);
    assert(tx == overlap);
    assert(dy * overlap == 0) by (nonlinear_arith)
        requires
            dy == 0,
    ;
    vstd::arithmetic::div_mod::lemma_div_of0(dx);
    let ty = spec_div(dy * overlap, dist);
    assert(ty == 0);
    let msum = pa.mass + pb.mass;
    assert(0 <= tx * pb.mass <= msum * tx) by (nonlinear_arith)
        requires
            tx >= 0,
            0 < pb.mass <= msum,
    ;
    crate::math::lemma_div_trunc_le(tx * pb.mass, msum, tx);
    crate::math::lemma_div_trunc_shrinks(tx * pb.mass, msum);
    let off_ax = spec_div(tx * pb.mass, msum);
    assert(0int * pb.mass == 0) by (nonlinear_arith);
    vstd::arithmetic::div_mod::lemma_div_of0(msum);
    let off_ay = spec_div(ty * pb.mass, msum);
    assert(off_ay == 0);
    let qs = spec_collide_pair(ps, a, b);
    assert(qs[a].position.x == pa.position.x - off_ax && qs[b].position.x == pb.position.x + (tx
        - off_ax) && qs[a].position.y == pa.position.y && qs[b].position.y == pb.position.y);
    if pa.mass == pb.mass {
        assert(tx * pb.mass == pb.mass * tx && msum == pb.mass * 2) by (nonlinear_arith)
            requires
                pa.mass == pb.mass,
                msum == pa.mass + pb.mass,
        ;
        assert(tx * pb.mass >= 0) by (nonlinear_arith)
            requires
                tx >= 0,
                pb.mass > 0,
        ;
        vstd::arithmetic::div_mod::lemma_div_denominator(pb.mass * tx, pb.mass as int, 2);
        crate::math::lemma_div_exact(tx, pa.mass as int);
        assert(spec_div(tx * pb.mass, msum) == spec_div(tx, 2));
    }
}

/// A scene of one single particle and no springs: a step is exactly one
/// Verlet integration followed by the acceleration reset — nothing else can
/// act on a lone particle.
pub proof fn lemma_single_particle_step(p: Particle, force: Vec2, dt: int, iters: int)
    ensures
        ({
            let q = spec_integrate(p, force, dt);
            spec_step(seq![p], Seq::<Spring>::empty(), force, dt, iters) == seq![
                Particle {
                    position: q.position,
                    position_last: q.position_last,
                    acceleration: Vec2 { x: 0i64, y: 0i64 },
                    radius: q.radius,
                    mass: q.mass,
                },
            ]
        }),
{
    let ps = seq![p];
    let q = spec_integrate(p, force, dt);
    let ps1 = spec_integrate_all(ps, force, dt);
    assert(ps1 =~= seq![q]);
    lemma_relax_no_springs(ps1, iters);
    assert(ps1.len() == 1);
    assert(spec_collide_row(ps1, 0, 1, 0) == ps1);
    assert(spec_collide_from(ps1, 0, 1) == spec_collide_from(spec_collide_row(ps1, 0, 1, 0), 1, 0));
    assert(spec_collide_from(ps1, 1, 0) == ps1);
    assert(spec_collide_all(ps1) == ps1);
    assert(spec_reset(ps1) =~= seq![
        Particle {
            position: q.position,
            position_last: q.position_last,
            acceleration: Vec2 { x: 0i64, y: 0i64 },
            radius: q.radius,
            mass: q.mass,
        },
    ]);
}

/// With no springs, relaxation passes change nothing.
proof fn lemma_relax_no_springs(ps: Seq<Particle>, iters: int)
    ensures
        spec_relax(ps, Seq::<Spring>::empty(), iters) == ps,
    decreases iters,
{
    if iters > 0 {
        lemma_relax_no_springs(ps, iters - 1);
    }
}

/// The same particle with the roles of current and previous position swapped:
/// the time-reversed state.
pub open spec fn spec_reverse(p: Particle) -> Particle {
    Particle {
        position: p.position_last,
        position_last: p.position,
        acceleration: p.acceleration,
        radius: p.radius,
        mass: p.mass,
    }
}

/// Verlet integration is exactly reversible for a free particle under zero
/// acceleration: integrating, reversing, and integrating again yields the
/// reversal of the original state — exactly, since the integer arithmetic of
/// the zero-acceleration step is exact.
pub proof fn lemma_verlet_reversible(p: Particle, dt: int)
    requires
        p.acceleration == (Vec2 { x: 0i64, y: 0i64 }),
        0 < dt <= DT_LIMIT,
        crate::vec2::vec2_within(p.position, crate::math::SIM_LIMIT as int),
        crate::vec2::vec2_within(p.position_last, crate::math::SIM_LIMIT as int),
    ensures
        spec_integrate(
            spec_reverse(spec_integrate(p, Vec2 { x: 0i64, y: 0i64 }, dt)),
            Vec2 { x: 0i64, y: 0i64 },
            dt,
        ) == spec_reverse(p),
{
    assert(0int * dt * dt == 0) by (nonlinear_arith);
    assert(SCALE * SCALE == 1_000_000) by (nonlinear_arith)
        requires
            SCALE == 1000i64,
    ;
    vstd::arithmetic::div_mod::lemma_div_of0(1_000_000);
    let zero = Vec2 { x: 0i64, y: 0i64 };
    let q = spec_integrate(p, zero, dt);
    assert(q.position.x == 2 * p.position.x - p.position_last.x);
    assert(q.position.y == 2 * p.position.y - p.position_last.y);
    assert(q.position_last == p.position);
}

} // verus!

