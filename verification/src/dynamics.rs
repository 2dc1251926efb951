//! The per-step dynamics passes: Verlet integration, Gauss-Seidel spring
//! relaxation, pairwise collision resolution and acceleration reset, each with
//! a spec-level definition that pins the exec pass down exactly.
//!
//! Every pass works inside fixed windows (`SIM_LIMIT`, `COORD_LIMIT`,
//! `MASS_LIMIT`, `DT_LIMIT`). A particle or pair outside its window is left
//! untouched by that pass: that documented guard makes every pass total and
//! keeps all intermediate arithmetic inside 128 bits, so the integer
//! computation is exact — no wrapping, no truncation besides the fixed-point
//! divisions that the spec states.

use vstd::prelude::*;

use crate::math::div_i128;
use crate::math::lemma_div_trunc_le;
use crate::math::lemma_div_trunc_shrinks;
use crate::math::isqrt_u128;
use crate::math::spec_div;
use crate::math::spec_isqrt;
use crate::math::COORD_LIMIT;
use crate::math::DT_LIMIT;
use crate::math::MASS_LIMIT;
use crate::math::SCALE;
use crate::math::SIM_LIMIT;
use crate::particle::Particle;
use crate::spring::Spring;
use crate::vec2::vec2_within;
use crate::vec2::Vec2;

verus! {

/// Both particles of a pair are inside the window in which constraint and
/// collision arithmetic is carried out.
pub open spec fn pair_active(pa: Particle, pb: Particle) -> bool {
    &&& vec2_within(pa.position, SIM_LIMIT as int)
    &&& vec2_within(pb.position, SIM_LIMIT as int)
    &&& 1 <= pa.mass <= MASS_LIMIT
    &&& 1 <= pb.mass <= MASS_LIMIT
}

/// One Verlet integration of a single particle: the global force joins the
/// accumulated acceleration, and the new position is
/// `position * 2 - position_last + acceleration * dt * dt`, in fixed point.
/// `position_last` becomes the old position, which is how velocity is encoded.
/// If the new position would leave `COORD_LIMIT` the particle is left
/// unchanged (the documented overflow guard).
pub open spec fn spec_integrate(p: Particle, force: Vec2, dt: int) -> Particle {
    let ax = p.acceleration.x + force.x;
    let ay = p.acceleration.y + force.y;
    let nx = 2 * p.position.x - p.position_last.x + spec_div(ax * dt * dt, SCALE * SCALE);
    let ny = 2 * p.position.y - p.position_last.y + spec_div(ay * dt * dt, SCALE * SCALE);
    if -COORD_LIMIT <= nx <= COORD_LIMIT && -COORD_LIMIT <= ny <= COORD_LIMIT {
        Particle {
            position: Vec2 { x: nx as i64, y: ny as i64 },
            position_last: p.position,
            acceleration: p.acceleration,
            radius: p.radius,
            mass: p.mass,
        }
    } else {
        p
    }
}

/// Verlet integration of the whole particle sequence.
pub open spec fn spec_integrate_all(ps: Seq<Particle>, force: Vec2, dt: int) -> Seq<Particle> {
    ps.map_values(|p: Particle| spec_integrate(p, force, dt))
}

/// One relaxation of one spring. The inter-particle distance is compared with
/// the rest length, and both endpoints move along the connecting line by the
/// error scaled with `stiffness / SCALE`, split inversely to mass (the heavier
/// particle moves less; the two moves add up to the full correction). The
/// spring is skipped when an endpoint index is invalid, an operand is outside
/// its window, or the two particles coincide (a zero-length direction is the
/// documented degenerate case).
pub open spec fn spec_relax_spring(ps: Seq<Particle>, s: Spring) -> Seq<Particle> {
    let a = s.particle_a as int;
    let b = s.particle_b as int;
    if !(a < ps.len() && b < ps.len() && a != b) {
        ps
    } else {
        let pa = ps[a];
        let pb = ps[b];
        if !(pair_active(pa, pb) && 0 <= s.stiffness <= SCALE && 0 <= s.length <= SIM_LIMIT) {
            ps
        } else {
            let dx = pb.position.x - pa.position.x;
            let dy = pb.position.y - pa.position.y;
            let dist = spec_isqrt(dx * dx + dy * dy);
            if dist <= 0 {
                ps
            } else {
                let diff = dist - s.length;
                let tx = spec_div(dx * diff, dist);
                let ty = spec_div(dy * diff, dist);
                let sx = spec_div(tx * s.stiffness, SCALE as int);
                let sy = spec_div(ty * s.stiffness, SCALE as int);
                let msum = pa.mass + pb.mass;
                let off_ax = spec_div(sx * pb.mass, msum);
                let off_ay = spec_div(sy * pb.mass, msum);
                let off_bx = sx - off_ax;
                let off_by = sy - off_ay;
                let nax = pa.position.x + off_ax;
                let nay = pa.position.y + off_ay;
                let nbx = pb.position.x - off_bx;
                let nby = pb.position.y - off_by;
                if -COORD_LIMIT <= nax <= COORD_LIMIT && -COORD_LIMIT <= nay <= COORD_LIMIT
                    && -COORD_LIMIT <= nbx <= COORD_LIMIT && -COORD_LIMIT <= nby <= COORD_LIMIT {
                    ps.update(
                        a,
                        Particle {
                            position: Vec2 { x: nax as i64, y: nay as i64 },
                            position_last: pa.position_last,
                            acceleration: pa.acceleration,
                            radius: pa.radius,
                            mass: pa.mass,
                        },
                    ).update(
                        b,
                        Particle {
                            position: Vec2 { x: nbx as i64, y: nby as i64 },
                            position_last: pb.position_last,
                            acceleration: pb.acceleration,
                            radius: pb.radius,
                            mass: pb.mass,
                        },
                    )
                } else {
                    ps
                }
            }
        }
    }
}

/// The first `k` springs relaxed once each, in order.
pub open spec fn spec_relax_pass(ps: Seq<Particle>, springs: Seq<Spring>, k: int) -> Seq<Particle>
    decreases k,
{
    if k <= 0 {
        ps
    } else {
        spec_relax_spring(spec_relax_pass(ps, springs, k - 1), springs[k - 1])
    }
}

/// `iters` full relaxation passes over all springs (Gauss-Seidel: every pass
/// sees the state the previous pass left).
pub open spec fn spec_relax(ps: Seq<Particle>, springs: Seq<Spring>, iters: int) -> Seq<Particle>
    decreases iters,
{
    if iters <= 0 {
        ps
    } else {
        spec_relax_pass(spec_relax(ps, springs, iters - 1), springs, springs.len() as int)
    }
}

/// One collision resolution of one unordered pair. If the two particles
/// overlap (distance below the sum of radii) they are pushed apart along the
/// connecting line by the overlap, split inversely to mass, so the two moves
/// add up to the full overlap. Coinciding particles have no direction to push
/// along and are skipped (the documented degenerate case), as is any operand
/// outside its window.
pub open spec fn spec_collide_pair(ps: Seq<Particle>, a: int, b: int) -> Seq<Particle> {
    if !(0 <= a < ps.len() && 0 <= b < ps.len() && a != b) {
        ps
    } else {
        let pa = ps[a];
        let pb = ps[b];
        if !(pair_active(pa, pb) && 0 <= pa.radius <= SIM_LIMIT && 0 <= pb.radius <= SIM_LIMIT) {
            ps
        } else {
            let dx = pb.position.x - pa.position.x;
            let dy = pb.position.y - pa.position.y;
            let dist = spec_isqrt(dx * dx + dy * dy);
            let rsum = pa.radius + pb.radius;
            if dist <= 0 || dist >= rsum {
                ps
            } else {
                let overlap = rsum - dist;
                let tx = spec_div(dx * overlap, dist);
                let ty = spec_div(dy * overlap, dist);
                let msum = pa.mass + pb.mass;
                let off_ax = spec_div(tx * pb.mass, msum);
                let off_ay = spec_div(ty * pb.mass, msum);
                let off_bx = tx - off_ax;
                let off_by = ty - off_ay;
                let nax = pa.position.x - off_ax;
                let nay = pa.position.y - off_ay;
                let nbx = pb.position.x + off_bx;
                let nby = pb.position.y + off_by;
                if -COORD_LIMIT <= nax <= COORD_LIMIT && -COORD_LIMIT <= nay <= COORD_LIMIT
                    && -COORD_LIMIT <= nbx <= COORD_LIMIT && -COORD_LIMIT <= nby <= COORD_LIMIT {
                    ps.update(
                        a,
                        Particle {
                            position: Vec2 { x: nax as i64, y: nay as i64 },
                            position_last: pa.position_last,
                            acceleration: pa.acceleration,
                            radius: pa.radius,
                            mass: pa.mass,
                        },
                    ).update(
                        b,
                        Particle {
                            position: Vec2 { x: nbx as i64, y: nby as i64 },
                            position_last: pb.position_last,
                            acceleration: pb.acceleration,
                            radius: pb.radius,
                            mass: pb.mass,
                        },
                    )
                } else {
                    ps
                }
            }
        }
    }
}

/// The `n` pairs `(a, b), (a, b + 1), ...` resolved in order.
pub open spec fn spec_collide_row(ps: Seq<Particle>, a: int, b: int, n: nat) -> Seq<Particle>
    decreases n,
{
    if n == 0 {
        ps
    } else {
        spec_collide_row(spec_collide_pair(ps, a, b), a, b + 1, (n - 1) as nat)
    }
}

/// The rows `a, a + 1, ...` (`n` of them) resolved in order; row `a` pairs
/// particle `a` with every later particle.
pub open spec fn spec_collide_from(ps: Seq<Particle>, a: int, n: nat) -> Seq<Particle>
    decreases n,
{
    if n == 0 {
        ps
    } else {
        let row = spec_collide_row(
            ps,
            a,
            a + 1,
            if a + 1 <= ps.len() {
                (ps.len() - a - 1) as nat
            } else {
                0nat
            },
        );
        spec_collide_from(row, a + 1, (n - 1) as nat)
    }
}

/// Every unordered pair resolved once, in index order.
pub open spec fn spec_collide_all(ps: Seq<Particle>) -> Seq<Particle> {
    spec_collide_from(ps, 0, ps.len())
}

/// Every particle's acceleration zeroed: forces are step-local, never carried
/// into the next step.
pub open spec fn spec_reset(ps: Seq<Particle>) -> Seq<Particle> {
    ps.map_values(
        |p: Particle|
            Particle {
                position: p.position,
                position_last: p.position_last,
                acceleration: Vec2 { x: 0i64, y: 0i64 },
                radius: p.radius,
                mass: p.mass,
            },
    )
}

/// One whole step: integration (with the global force), `iters` relaxation
/// passes, one collision pass, acceleration reset.
pub open spec fn spec_step(
    ps: Seq<Particle>,
    springs: Seq<Spring>,
    force: Vec2,
    dt: int,
    iters: int,
) -> Seq<Particle> {
    spec_reset(spec_collide_all(spec_relax(spec_integrate_all(ps, force, dt), springs, iters)))
}

/// Exec test for the simulation window on a position.
fn in_window(v: Vec2) -> (r: bool)
    ensures
        r == vec2_within(v, SIM_LIMIT as int),
{
    -SIM_LIMIT <= v.x && v.x <= SIM_LIMIT && -SIM_LIMIT <= v.y && v.y <= SIM_LIMIT
}

/// One Verlet integration, exactly as `spec_integrate` states it.
fn integrate_one(p: Particle, force: Vec2, dt: i64) -> (r: Particle)
    requires
        0 < dt <= DT_LIMIT,
    ensures
        r == spec_integrate(p, force, dt as int),
{
    let ax: i128 = p.acceleration.x as i128 + force.x as i128;
    let ay: i128 = p.acceleration.y as i128 + force.y as i128;
    let dtw: i128 = dt as i128;
    assert(-2_000_000_000_000_000_000_000_000 <= ax * dtw <= 2_000_000_000_000_000_000_000_000
        && -2_000_000_000_000_000_000_000_000 <= ay * dtw <= 2_000_000_000_000_000_000_000_000
        && -200_000_000_000_000_000_000_000_000_000 <= (ax * dtw) * dtw
        <= 200_000_000_000_000_000_000_000_000_000 && -200_000_000_000_000_000_000_000_000_000 <= (
    ay * dtw) * dtw <= 200_000_000_000_000_000_000_000_000_000) by (nonlinear_arith)
        requires
            -20_000_000_000_000_000_000 <= ax <= 20_000_000_000_000_000_000,
            -20_000_000_000_000_000_000 <= ay <= 20_000_000_000_000_000_000,
            0 < dtw <= 60_000,
    ;
    let scale2: i128 = 1_000_000;
    assert(scale2 as int == (SCALE as int) * (SCALE as int));
    let tx: i128 = div_i128(ax * dtw * dtw, scale2);
    let ty: i128 = div_i128(ay * dtw * dtw, scale2);
    proof {
        lemma_div_trunc_shrinks(ax * dtw * dtw, scale2 as int);
        lemma_div_trunc_shrinks(ay * dtw * dtw, scale2 as int);
    }
    let nx: i128 = 2 * (p.position.x as i128) - (p.position_last.x as i128) + tx;
    let ny: i128 = 2 * (p.position.y as i128) - (p.position_last.y as i128) + ty;
    if -(COORD_LIMIT as i128) <= nx && nx <= COORD_LIMIT as i128 && -(COORD_LIMIT as i128) <= ny
        && ny <= COORD_LIMIT as i128 {
        Particle {
            position: Vec2 { x: nx as i64, y: ny as i64 },
            position_last: p.position,
            acceleration: p.acceleration,
            radius: p.radius,
            mass: p.mass,
        }
    } else {
        p
    }
}

/// Verlet-integrates every particle in place.
pub fn integrate_all(particles: &mut Vec<Particle>, force: Vec2, dt: i64)
    requires
        0 < dt <= DT_LIMIT,
    ensures
        final(particles)@ == spec_integrate_all(old(particles)@, force, dt as int),
{
    let ghost orig = particles@;
    let n = particles.len();
    let mut i: usize = 0;
    while i < n
        invariant
            i <= n,
            n == particles@.len(),
            n == orig.len(),
            0 < dt <= DT_LIMIT,
            forall|j: int| 0 <= j < i ==> particles@[j] == spec_integrate(orig[j], force, dt as int),
            forall|j: int| i <= j < n ==> particles@[j] == orig[j],
        decreases n - i,
    {
        let p = particles[i];
        let np = integrate_one(p, force, dt);
        particles[i] = np;
        i += 1;
    }
    proof {
        assert(particles@ =~= spec_integrate_all(orig, force, dt as int));
    }
}

/// Relaxes one spring in place, exactly as `spec_relax_spring` states it.
fn relax_spring(particles: &mut Vec<Particle>, s: Spring)
    ensures
        final(particles)@ == spec_relax_spring(old(particles)@, s),
{
    let ghost orig = particles@;
    let n = particles.len();
    if !(s.particle_a < n && s.particle_b < n && s.particle_a != s.particle_b) {
        return ;
    }
    let pa = particles[s.particle_a];
    let pb = particles[s.particle_b];
    if !(in_window(pa.position) && in_window(pb.position) && 1 <= pa.mass && pa.mass <= MASS_LIMIT
        && 1 <= pb.mass && pb.mass <= MASS_LIMIT && 0 <= s.stiffness && s.stiffness <= SCALE && 0
        <= s.length && s.length <= SIM_LIMIT) {
        return ;
    }
    let dx: i128 = pb.position.x as i128 - pa.position.x as i128;
    let dy: i128 = pb.position.y as i128 - pa.position.y as i128;
    assert(0 <= dx * dx <= 4_000_000_000_000_000_000_000_000 && 0 <= dy * dy
        <= 4_000_000_000_000_000_000_000_000) by (nonlinear_arith)
        requires
            -2_000_000_000_000 <= dx <= 2_000_000_000_000,
            -2_000_000_000_000 <= dy <= 2_000_000_000_000,
    ;
    let d2: i128 = dx * dx + dy * dy;
    let dist_u = isqrt_u128(d2 as u128);
    proof {
        assert(d2 == (d2 as u128) as i128);
        assert(dist_u * dist_u <= d2);
        assert(dist_u <= 3_000_000_000_000u128) by (nonlinear_arith)
            requires
                dist_u * dist_u <= 8_000_000_000_000_000_000_000_000,
        ;
    }
    let dist: i128 = dist_u as i128;
    proof {
        assert(dist as int == spec_isqrt(d2 as int));
        assert(-dist <= dx <= dist && -dist <= dy <= dist) by (nonlinear_arith)
            requires
                dx * dx <= d2,
                dy * dy <= d2,
                d2 < (dist + 1) * (dist + 1),
                dist >= 0,
        ;
    }
    if dist <= 0 {
        return ;
    }
    let diff: i128 = dist - s.length as i128;
    assert(-(dist * 4_100_000_000_000) <= dx * diff <= dist * 4_100_000_000_000 && -(dist
        * 4_100_000_000_000) <= dy * diff <= dist * 4_100_000_000_000) by (nonlinear_arith)
        requires
            -dist <= dx <= dist,
            -dist <= dy <= dist,
            -4_100_000_000_000 <= diff <= 4_100_000_000_000,
            0 < dist <= 3_000_000_000_000,
    ;
    let tx: i128 = div_i128(dx * diff, dist);
    let ty: i128 = div_i128(dy * diff, dist);
    proof {
        lemma_div_trunc_le(dx * diff, dist as int, 4_100_000_000_000);
        lemma_div_trunc_le(dy * diff, dist as int, 4_100_000_000_000);
    }
    let stiff: i128 = s.stiffness as i128;
    assert(-(1000 * 4_100_000_000_000) <= tx * stiff <= 1000 * 4_100_000_000_000 && -(1000
        * 4_100_000_000_000) <= ty * stiff <= 1000 * 4_100_000_000_000) by (nonlinear_arith)
        requires
            -4_100_000_000_000 <= tx <= 4_100_000_000_000,
            -4_100_000_000_000 <= ty <= 4_100_000_000_000,
            0 <= stiff <= 1000,
    ;
    let sx: i128 = div_i128(tx * stiff, SCALE as i128);
    let sy: i128 = div_i128(ty * stiff, SCALE as i128);
    proof {
        lemma_div_trunc_le(tx * stiff, SCALE as int, 4_100_000_000_000);
        lemma_div_trunc_le(ty * stiff, SCALE as int, 4_100_000_000_000);
    }
    let mb: i128 = pb.mass as i128;
    let msum: i128 = pa.mass as i128 + mb;
    assert(-(msum * 4_100_000_000_000) <= sx * mb <= msum * 4_100_000_000_000 && -(msum
        * 4_100_000_000_000) <= sy * mb <= msum * 4_100_000_000_000) by (nonlinear_arith)
        requires
            -4_100_000_000_000 <= sx <= 4_100_000_000_000,
            -4_100_000_000_000 <= sy <= 4_100_000_000_000,
            0 < mb <= msum,
            msum <= 2_000_000_000_000,
    ;
    let off_ax: i128 = div_i128(sx * mb, msum);
    let off_ay: i128 = div_i128(sy * mb, msum);
    proof {
        lemma_div_trunc_le(sx * mb, msum as int, 4_100_000_000_000);
        lemma_div_trunc_le(sy * mb, msum as int, 4_100_000_000_000);
    }
    let off_bx: i128 = sx - off_ax;
    let off_by: i128 = sy - off_ay;
    let nax: i128 = pa.position.x as i128 + off_ax;
    let nay: i128 = pa.position.y as i128 + off_ay;
    let nbx: i128 = pb.position.x as i128 - off_bx;
    let nby: i128 = pb.position.y as i128 - off_by;
    let lim: i128 = COORD_LIMIT as i128;
    if -lim <= nax && nax <= lim && -lim <= nay && nay <= lim && -lim <= nbx && nbx <= lim && -lim
        <= nby && nby <= lim {
        let npa = Particle {
            position: Vec2 { x: nax as i64, y: nay as i64 },
            position_last: pa.position_last,
            acceleration: pa.acceleration,
            radius: pa.radius,
            mass: pa.mass,
        };
        let npb = Particle {
            position: Vec2 { x: nbx as i64, y: nby as i64 },
            position_last: pb.position_last,
            acceleration: pb.acceleration,
            radius: pb.radius,
            mass: pb.mass,
        };
        let ia = s.particle_a;
        let ib = s.particle_b;
        particles[ia] = npa;
        particles[ib] = npb;
        proof {
            assert(particles@ =~= spec_relax_spring(orig, s));
        }
    }
}

/// Runs `iterations` full relaxation passes over all springs, in place.
pub fn relax_all(particles: &mut Vec<Particle>, springs: &Vec<Spring>, iterations: usize)
    ensures
        final(particles)@ == spec_relax(old(particles)@, springs@, iterations as int),
{
    let ghost orig = particles@;
    let mut it: usize = 0;
    while it < iterations
        invariant
            it <= iterations,
            particles@ == spec_relax(orig, springs@, it as int),
        decreases iterations - it,
    {
        let ghost pass_start = particles@;
        let m = springs.len();
        let mut j: usize = 0;
        while j < m
            invariant
                j <= m,
                m == springs@.len(),
                particles@ == spec_relax_pass(pass_start, springs@, j as int),
            decreases m - j,
        {
            let s = springs[j];
            relax_spring(particles, s);
            j += 1;
        }
        proof {
            assert(particles@ == spec_relax(orig, springs@, it + 1));
        }
        it += 1;
    }
}

/// Resolves one unordered pair in place, exactly as `spec_collide_pair`
/// states it.
fn collide_pair(particles: &mut Vec<Particle>, a: usize, b: usize)
    ensures
        final(particles)@ == spec_collide_pair(old(particles)@, a as int, b as int),
{
    let ghost orig = particles@;
    let n = particles.len();
    if !(a < n && b < n && a != b) {
        return ;
    }
    let pa = particles[a];
    let pb = particles[b];
    if !(in_window(pa.position) && in_window(pb.position) && 1 <= pa.mass && pa.mass <= MASS_LIMIT
        && 1 <= pb.mass && pb.mass <= MASS_LIMIT && 0 <= pa.radius && pa.radius <= SIM_LIMIT && 0
        <= pb.radius && pb.radius <= SIM_LIMIT) {
        return ;
    }
    let dx: i128 = pb.position.x as i128 - pa.position.x as i128;
    let dy: i128 = pb.position.y as i128 - pa.position.y as i128;
    assert(0 <= dx * dx <= 4_000_000_000_000_000_000_000_000 && 0 <= dy * dy
        <= 4_000_000_000_000_000_000_000_000) by (nonlinear_arith)
        requires
            -2_000_000_000_000 <= dx <= 2_000_000_000_000,
            -2_000_000_000_000 <= dy <= 2_000_000_000_000,
    ;
    let d2: i128 = dx * dx + dy * dy;
    let dist_u = isqrt_u128(d2 as u128);
    proof {
        assert(d2 == (d2 as u128) as i128);
        assert(dist_u * dist_u <= d2);
        assert(dist_u <= 3_000_000_000_000u128) by (nonlinear_arith)
            requires
                dist_u * dist_u <= 8_000_000_000_000_000_000_000_000,
        ;
    }
    let dist: i128 = dist_u as i128;
    proof {
        assert(dist as int == spec_isqrt(d2 as int));
        assert(-dist <= dx <= dist && -dist <= dy <= dist) by (nonlinear_arith)
            requires
                dx * dx <= d2,
                dy * dy <= d2,
                d2 < (dist + 1) * (dist + 1),
                dist >= 0,
        ;
    }
    let rsum: i128 = pa.radius as i128 + pb.radius as i128;
    if dist <= 0 || dist >= rsum {
        return ;
    }
    let overlap: i128 = rsum - dist;
    assert(-(dist * 2_000_000_000_000) <= dx * overlap <= dist * 2_000_000_000_000 && -(dist
        * 2_000_000_000_000) <= dy * overlap <= dist * 2_000_000_000_000) by (nonlinear_arith)
        requires
            -dist <= dx <= dist,
            -dist <= dy <= dist,
            0 < overlap <= 2_000_000_000_000,
            dist > 0,
    ;
    let tx: i128 = div_i128(dx * overlap, dist);
    let ty: i128 = div_i128(dy * overlap, dist);
    proof {
        lemma_div_trunc_le(dx * overlap, dist as int, 2_000_000_000_000);
        lemma_div_trunc_le(dy * overlap, dist as int, 2_000_000_000_000);
    }
    let mb: i128 = pb.mass as i128;
    let msum: i128 = pa.mass as i128 + mb;
    assert(-(msum * 2_000_000_000_000) <= tx * mb <= msum * 2_000_000_000_000 && -(msum
        * 2_000_000_000_000) <= ty * mb <= msum * 2_000_000_000_000) by (nonlinear_arith)
        requires
            -2_000_000_000_000 <= tx <= 2_000_000_000_000,
            -2_000_000_000_000 <= ty <= 2_000_000_000_000,
            0 < mb <= msum,
            msum <= 2_000_000_000_000,
    ;
    let off_ax: i128 = div_i128(tx * mb, msum);
    let off_ay: i128 = div_i128(ty * mb, msum);
    proof {
        lemma_div_trunc_le(tx * mb, msum as int, 2_000_000_000_000);
        lemma_div_trunc_le(ty * mb, msum as int, 2_000_000_000_000);
    }
    let off_bx: i128 = tx - off_ax;
    let off_by: i128 = ty - off_ay;
    let nax: i128 = pa.position.x as i128 - off_ax;
    let nay: i128 = pa.position.y as i128 - off_ay;
    let nbx: i128 = pb.position.x as i128 + off_bx;
    let nby: i128 = pb.position.y as i128 + off_by;
    let lim: i128 = COORD_LIMIT as i128;
    if -lim <= nax && nax <= lim && -lim <= nay && nay <= lim && -lim <= nbx && nbx <= lim && -lim
        <= nby && nby <= lim {
        let npa = Particle {
            position: Vec2 { x: nax as i64, y: nay as i64 },
            position_last: pa.position_last,
            acceleration: pa.acceleration,
            radius: pa.radius,
            mass: pa.mass,
        };
        let npb = Particle {
            position: Vec2 { x: nbx as i64, y: nby as i64 },
            position_last: pb.position_last,
            acceleration: pb.acceleration,
            radius: pb.radius,
            mass: pb.mass,
        };
        particles[a] = npa;
        particles[b] = npb;
        proof {
            assert(particles@ =~= spec_collide_pair(orig, a as int, b as int));
        }
    }
}

/// Resolving a pair keeps the sequence length.
pub proof fn lemma_collide_pair_len(ps: Seq<Particle>, a: int, b: int)
    ensures
        spec_collide_pair(ps, a, b).len() == ps.len(),
{
}

/// Resolves every unordered pair once, in index order, in place.
pub fn collide_all(particles: &mut Vec<Particle>)
    ensures
        final(particles)@ == spec_collide_all(old(particles)@),
{
    let ghost orig = particles@;
    let n = particles.len();
    let mut i: usize = 0;
    while i < n
        invariant
            i <= n,
            particles@.len() == n,
            n == orig.len(),
            spec_collide_from(particles@, i as int, (n - i) as nat) == spec_collide_from(
                orig,
                0,
                n as nat,
            ),
        decreases n - i,
    {
        let ghost row_begin = particles@;
        let mut j: usize = i + 1;
        proof {
            assert(spec_collide_from(row_begin, i as int, (n - i) as nat) == spec_collide_from(
                spec_collide_row(row_begin, i as int, i + 1, (n - i - 1) as nat),
                i + 1,
                (n - i - 1) as nat,
            ));
        }
        while j < n
            invariant
                i < j <= n,
                i < n,
                particles@.len() == n,
                n == orig.len(),
                spec_collide_from(
                    spec_collide_row(particles@, i as int, j as int, (n - j) as nat),
                    i + 1,
                    (n - i - 1) as nat,
                ) == spec_collide_from(orig, 0, n as nat),
            decreases n - j,
        {
            let ghost before = particles@;
            collide_pair(particles, i, j);
            proof {
                lemma_collide_pair_len(before, i as int, j as int);
                assert(spec_collide_row(before, i as int, j as int, (n - j) as nat)
                    == spec_collide_row(particles@, i as int, j + 1, (n - j - 1) as nat));
            }
            j += 1;
        }
        i += 1;
    }
    proof {
        assert(particles@ == spec_collide_from(orig, 0, n as nat));
        assert(spec_collide_all(orig) == spec_collide_from(orig, 0, n as nat));
    }
}

/// Zeroes every particle's acceleration in place.
pub fn reset_all(particles: &mut Vec<Particle>)
    ensures
        final(particles)@ == spec_reset(old(particles)@),
{
    let ghost orig = particles@;
    let n = particles.len();
    let mut i: usize = 0;
    while i < n
        invariant
            i <= n,
            n == particles@.len(),
            n == orig.len(),
            forall|j: int| 0 <= j < i ==> particles@[j] == spec_reset(orig)[j],
            forall|j: int| i <= j < n ==> particles@[j] == orig[j],
        decreases n - i,
    {
        let p = particles[i];
        let np = Particle {
            position: p.position,
            position_last: p.position_last,
            acceleration: Vec2 { x: 0, y: 0 },
            radius: p.radius,
            mass: p.mass,
        };
        particles[i] = np;
        i += 1;
    }
    proof {
        assert(particles@ =~= spec_reset(orig));
    }
}

/// The second particle sequence has the same length as the first and agrees
/// with it on every particle's mass and radius: what the dynamics passes never
/// touch.
pub open spec fn same_meta(ps1: Seq<Particle>, ps2: Seq<Particle>) -> bool {
    &&& ps1.len() == ps2.len()
    &&& forall|i: int|
        0 <= i < ps1.len() ==> (#[trigger] ps2[i]).mass == ps1[i].mass && ps2[i].radius
            == ps1[i].radius
}

/// Integration keeps every mass and radius.
pub proof fn lemma_integrate_all_meta(ps: Seq<Particle>, force: Vec2, dt: int)
    ensures
        same_meta(ps, spec_integrate_all(ps, force, dt)),
{
    assert forall|i: int| 0 <= i < ps.len() implies (#[trigger] spec_integrate_all(ps, force, dt)[i]).mass
        == ps[i].mass && spec_integrate_all(ps, force, dt)[i].radius == ps[i].radius by {
        assert(spec_integrate_all(ps, force, dt)[i] == spec_integrate(ps[i], force, dt));
    }
}

/// Relaxing one spring keeps every mass and radius.
pub proof fn lemma_relax_spring_meta(ps: Seq<Particle>, s: Spring)
    ensures
        same_meta(ps, spec_relax_spring(ps, s)),
{
}

/// A relaxation pass keeps every mass and radius.
pub proof fn lemma_relax_pass_meta(ps: Seq<Particle>, springs: Seq<Spring>, k: int)
    ensures
        same_meta(ps, spec_relax_pass(ps, springs, k)),
    decreases k,
{
    if k > 0 {
        lemma_relax_pass_meta(ps, springs, k - 1);
        lemma_relax_spring_meta(spec_relax_pass(ps, springs, k - 1), springs[k - 1]);
    }
}

/// Any number of relaxation passes keeps every mass and radius.
pub proof fn lemma_relax_meta(ps: Seq<Particle>, springs: Seq<Spring>, iters: int)
    ensures
        same_meta(ps, spec_relax(ps, springs, iters)),
    decreases iters,
{
    if iters > 0 {
        lemma_relax_meta(ps, springs, iters - 1);
        lemma_relax_pass_meta(spec_relax(ps, springs, iters - 1), springs, springs.len() as int);
    }
}

/// Resolving one pair keeps every mass and radius.
pub proof fn lemma_collide_pair_meta(ps: Seq<Particle>, a: int, b: int)
    ensures
        same_meta(ps, spec_collide_pair(ps, a, b)),
{
}

/// Resolving a row of pairs keeps every mass and radius.
pub proof fn lemma_collide_row_meta(ps: Seq<Particle>, a: int, b: int, n: nat)
    ensures
        same_meta(ps, spec_collide_row(ps, a, b, n)),
    decreases n,
{
    if n > 0 {
        lemma_collide_pair_meta(ps, a, b);
        lemma_collide_row_meta(spec_collide_pair(ps, a, b), a, b + 1, (n - 1) as nat);
    }
}

/// Resolving any rows keeps every mass and radius.
pub proof fn lemma_collide_from_meta(ps: Seq<Particle>, a: int, n: nat)
    ensures
        same_meta(ps, spec_collide_from(ps, a, n)),
    decreases n,
{
    if n > 0 {
        let rn: nat = if a + 1 <= ps.len() {
            (ps.len() - a - 1) as nat
        } else {
            0nat
        };
        lemma_collide_row_meta(ps, a, a + 1, rn);
        lemma_collide_from_meta(spec_collide_row(ps, a, a + 1, rn), a + 1, (n - 1) as nat);
    }
}

/// The acceleration reset keeps every mass and radius.
pub proof fn lemma_reset_meta(ps: Seq<Particle>)
    ensures
        same_meta(ps, spec_reset(ps)),
{
    assert forall|i: int| 0 <= i < ps.len() implies (#[trigger] spec_reset(ps)[i]).mass == ps[i].mass
        && spec_reset(ps)[i].radius == ps[i].radius by {
        assert(spec_reset(ps)[i].mass == ps[i].mass);
    }
}

/// A whole step keeps every mass and radius.
pub proof fn lemma_step_meta(ps: Seq<Particle>, springs: Seq<Spring>, force: Vec2, dt: int, iters: int)
    ensures
        same_meta(ps, spec_step(ps, springs, force, dt, iters)),
{
    let ps1 = spec_integrate_all(ps, force, dt);
    let ps2 = spec_relax(ps1, springs, iters);
    let ps3 = spec_collide_all(ps2);
    lemma_integrate_all_meta(ps, force, dt);
    lemma_relax_meta(ps1, springs, iters);
    lemma_collide_from_meta(ps2, 0, ps2.len());
    lemma_reset_meta(ps3);
}

} // verus!
