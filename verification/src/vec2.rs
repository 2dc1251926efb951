//! A 2-D fixed-point vector with value semantics: every operation returns a
//! new vector and leaves its operands untouched.

use vstd::prelude::*;

use crate::math::lemma_div_trunc_shrinks;
use crate::math::spec_div;
use crate::math::spec_isqrt;
use crate::math::SCALE;

verus! {

/// A 2-D vector; both components are fixed-point `i64` values counting
/// `1/SCALE`-ths of a unit.
#[derive(Clone, Copy, Debug, PartialEq, Eq, Structural)]
pub struct Vec2 {
    pub x: i64,
    pub y: i64,
}

/// Both components lie within `limit` in magnitude.
pub open spec fn vec2_within(v: Vec2, limit: int) -> bool {
    -limit <= v.x <= limit && -limit <= v.y <= limit
}

/// The squared Euclidean length of `v`, exact.
pub open spec fn spec_norm2(v: Vec2) -> int {
    v.x * v.x + v.y * v.y
}

/// The fixed-point Euclidean length of `v`: the integer square root of the
/// squared length. Never negative, and zero exactly for the zero vector.
pub open spec fn spec_magnitude(v: Vec2) -> int {
    spec_isqrt(spec_norm2(v))
}

impl Vec2 {
    /// Builds the vector with the given components.
    pub fn new(x: i64, y: i64) -> (r: Vec2)
        ensures
            r == (Vec2 { x, y }),
    {
        Vec2 { x, y }
    }

    /// Componentwise sum.
    pub fn add(&self, other: &Vec2) -> (r: Vec2)
        requires
            i64::MIN <= self.x + other.x <= i64::MAX,
            i64::MIN <= self.y + other.y <= i64::MAX,
        ensures
            r.x == self.x + other.x,
            r.y == self.y + other.y,
    {
        Vec2 { x: self.x + other.x, y: self.y + other.y }
    }

    /// Componentwise difference.
    pub fn subtract(&self, other: &Vec2) -> (r: Vec2)
        requires
            i64::MIN <= self.x - other.x <= i64::MAX,
            i64::MIN <= self.y - other.y <= i64::MAX,
        ensures
            r.x == self.x - other.x,
            r.y == self.y - other.y,
    {
        Vec2 { x: self.x - other.x, y: self.y - other.y }
    }

    /// Scales by a fixed-point scalar: each component becomes
    /// `component * scalar / SCALE`, truncated toward zero.
    pub fn multiply(&self, scalar: i64) -> (r: Vec2)
        requires
            -0x7fff_ffff_ffff_ffff * (SCALE as int) <= self.x * scalar <= 0x7fff_ffff_ffff_ffff * (SCALE as int),
            -0x7fff_ffff_ffff_ffff * (SCALE as int) <= self.y * scalar <= 0x7fff_ffff_ffff_ffff * (SCALE as int),
        ensures
            r.x == spec_div(self.x * scalar, SCALE as int),
            r.y == spec_div(self.y * scalar, SCALE as int),
    {
        let px: i128 = self.x as i128 * scalar as i128;
        let py: i128 = self.y as i128 * scalar as i128;
        let qx = crate::math::div_i128(px, SCALE as i128);
        let qy = crate::math::div_i128(py, SCALE as i128);
        proof {
            lemma_div_trunc_shrinks(px as int, SCALE as int);
            lemma_div_trunc_shrinks(py as int, SCALE as int);
        }
        Vec2 { x: qx as i64, y: qy as i64 }
    }

    /// Divides by a fixed-point scalar: each component becomes
    /// `component * SCALE / scalar`, truncated toward zero. Dividing by zero
    /// is a defined degenerate case and returns the zero vector, so no NaN-like
    /// value can enter the simulation.
    pub fn divide(&self, scalar: i64) -> (r: Vec2)
        requires
            -9_000_000_000_000_000 <= self.x <= 9_000_000_000_000_000,
            -9_000_000_000_000_000 <= self.y <= 9_000_000_000_000_000,
        ensures
            scalar == 0 ==> r == (Vec2 { x: 0i64, y: 0i64 }),
            scalar > 0 ==> r.x == spec_div(self.x * SCALE, scalar as int) && r.y == spec_div(
                self.y * SCALE,
                scalar as int,
            ),
            scalar < 0 ==> r.x == -spec_div(self.x * SCALE, -scalar as int) && r.y == -spec_div(
                self.y * SCALE,
                -scalar as int,
            ),
    {
        if scalar == 0 {
            return Vec2 { x: 0, y: 0 };
        }
        let px: i128 = self.x as i128 * SCALE as i128;
        let py: i128 = self.y as i128 * SCALE as i128;
        let div: i128 = if scalar > 0 {
            scalar as i128
        } else {
            -(scalar as i128)
        };
        let qx = crate::math::div_i128(px, div);
        let qy = crate::math::div_i128(py, div);
        proof {
            lemma_div_trunc_shrinks(px as int, div as int);
            lemma_div_trunc_shrinks(py as int, div as int);
        }
        if scalar > 0 {
            Vec2 { x: qx as i64, y: qy as i64 }
        } else {
            Vec2 { x: (-qx) as i64, y: (-qy) as i64 }
        }
    }

    /// The fixed-point Euclidean length: the integer square root of
    /// `x * x + y * y`. Never negative, and zero only for the zero vector.
    pub fn magnitude(&self) -> (r: i64)
        requires
            -9_000_000_000_000_000 <= self.x <= 9_000_000_000_000_000,
            -9_000_000_000_000_000 <= self.y <= 9_000_000_000_000_000,
        ensures
            r == spec_magnitude(*self),
            r >= 0,
            r == 0 <==> *self == (Vec2 { x: 0i64, y: 0i64 }),
    {
        let dx: i128 = self.x as i128;
        let dy: i128 = self.y as i128;
        assert(0 <= dx * dx <= 81_000_000_000_000_000_000_000_000_000_000 && 0 <= dy * dy
            <= 81_000_000_000_000_000_000_000_000_000_000) by (nonlinear_arith)
            requires
                -9_000_000_000_000_000 <= dx <= 9_000_000_000_000_000,
                -9_000_000_000_000_000 <= dy <= 9_000_000_000_000_000,
        ;
        let n2: i128 = dx * dx + dy * dy;
        let r = crate::math::isqrt_u128(n2 as u128);
        proof {
            crate::math::lemma_isqrt_bounds(n2 as int);
            assert(r <= 13_000_000_000_000_000) by (nonlinear_arith)
                requires
                    r * r <= 162_000_000_000_000_000_000_000_000_000_000,
            ;
            if self.x != 0 || self.y != 0 {
                assert(n2 >= 1) by (nonlinear_arith)
                    requires
                        n2 == dx * dx + dy * dy,
                        dx != 0 || dy != 0,
                ;
            }
            if r == 0 {
                assert(0 <= n2);
                assert(n2 == (n2 as u128) as i128);
                assert((r + 1) * (r + 1) == 1) by (nonlinear_arith)
                    requires
                        r == 0u128,
                ;
                assert((n2 as u128) < (r + 1) * (r + 1));
                assert(n2 < 1);
                assert(dx == 0 && dy == 0) by (nonlinear_arith)
                    requires
                        dx * dx + dy * dy == 0,
                ;
            }
        }
        r as i64
    }

    /// The unit vector with the direction of `self`, in fixed point: each
    /// component becomes `component * SCALE / magnitude`. A zero-length vector
    /// has no direction; by the documented degenerate-case policy the zero
    /// vector is returned.
    pub fn normalize(&self) -> (r: Vec2)
        requires
            -9_000_000_000_000_000 <= self.x <= 9_000_000_000_000_000,
            -9_000_000_000_000_000 <= self.y <= 9_000_000_000_000_000,
        ensures
            spec_magnitude(*self) == 0 ==> r == (Vec2 { x: 0i64, y: 0i64 }),
            spec_magnitude(*self) > 0 ==> r.x == spec_div(
                self.x * SCALE,
                spec_magnitude(*self),
            ) && r.y == spec_div(self.y * SCALE, spec_magnitude(*self)),
    {
        let m = self.magnitude();
        if m == 0 {
            return Vec2 { x: 0, y: 0 };
        }
        let px: i128 = self.x as i128 * SCALE as i128;
        let py: i128 = self.y as i128 * SCALE as i128;
        let qx = crate::math::div_i128(px, m as i128);
        let qy = crate::math::div_i128(py, m as i128);
        proof {
            lemma_div_trunc_shrinks(px as int, m as int);
            lemma_div_trunc_shrinks(py as int, m as int);
        }
        Vec2 { x: qx as i64, y: qy as i64 }
    }
}

} // verus!
