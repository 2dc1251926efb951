//! Fixed-point scalar arithmetic: the global scale, truncating division and
//! an exact integer square root, with the lemmas that characterize them.

use vstd::prelude::*;

verus! {

/// Every physical quantity is stored as an `i64` counting `1/SCALE`-ths of a
/// unit, so `1500` is one and a half units.
pub const SCALE: i64 = 1000;

/// Coordinates, radii and rest lengths must stay within this window for a
/// particle to take part in constraint relaxation and collision resolution;
/// the window keeps every intermediate product inside 128 bits.
pub const SIM_LIMIT: i64 = 1_000_000_000_000;

/// Largest admissible particle mass.
pub const MASS_LIMIT: i64 = 1_000_000_000_000;

/// Largest admissible time step handed to the engine.
pub const DT_LIMIT: i64 = 60_000;

/// A freshly integrated or corrected coordinate is stored only if it lies
/// within this window; otherwise the update is skipped, so stored state can
/// never leave the representable range.
pub const COORD_LIMIT: i64 = 4_000_000_000_000_000_000;

/// Truncating (round-toward-zero) division, exactly as Rust's `/` computes it
/// for a positive divisor; defined as 0 for a non-positive divisor.
pub open spec fn spec_div(a: int, b: int) -> int {
    if b <= 0 {
        0
    } else if a >= 0 {
        a / b
    } else {
        -((-a) / b)
    }
}

/// Integer square root: the greatest `r >= 0` with `r * r <= n` (0 for `n <= 0`).
pub open spec fn spec_isqrt(n: int) -> int
    decreases n,
{
    if n <= 0 {
        0
    } else {
        let r = spec_isqrt(n - 1);
        if (r + 1) * (r + 1) <= n {
            r + 1
        } else {
            r
        }
    }
}

/// `spec_isqrt(n)` is the integer square root of `n`: it is non-negative,
/// its square is at most `n`, and the next square is beyond `n`.
pub proof fn lemma_isqrt_bounds(n: int)
    requires
        n >= 0,
    ensures
        spec_isqrt(n) >= 0,
        spec_isqrt(n) * spec_isqrt(n) <= n,
        n < (spec_isqrt(n) + 1) * (spec_isqrt(n) + 1),
    decreases n,
{
    if n == 0 {
    } else {
        lemma_isqrt_bounds(n - 1);
        let r = spec_isqrt(n - 1);
        if (r + 1) * (r + 1) <= n {
            assert(n - 1 < (r + 1) * (r + 1));
            assert(n < (r + 2) * (r + 2)) by (nonlinear_arith)
                requires
                    n <= (r + 1) * (r + 1),
                    r >= 0,
            ;
        }
    }
}

/// The integer square root is the only non-negative `r` squeezed between
/// `r * r <= n` and `n < (r + 1) * (r + 1)`.
pub proof fn lemma_isqrt_unique(n: int, r: int)
    requires
        n >= 0,
        r >= 0,
        r * r <= n,
        n < (r + 1) * (r + 1),
    ensures
        r == spec_isqrt(n),
{
    lemma_isqrt_bounds(n);
    let s = spec_isqrt(n);
    if r < s {
        assert((r + 1) * (r + 1) <= s * s) by (nonlinear_arith)
            requires
                0 <= r,
                r + 1 <= s,
        ;
    }
    if s < r {
        assert((s + 1) * (s + 1) <= r * r) by (nonlinear_arith)
            requires
                0 <= s,
                s + 1 <= r,
        ;
    }
}

/// The integer square root of a perfect square is exact.
pub proof fn lemma_isqrt_square(d: int)
    requires
        d >= 0,
    ensures
        spec_isqrt(d * d) == d,
{
    assert(0 <= d * d && d * d < (d + 1) * (d + 1)) by (nonlinear_arith)
        requires
            d >= 0,
    ;
    lemma_isqrt_unique(d * d, d);
}

/// Truncating division recovers an exact multiple.
pub proof fn lemma_div_exact(x: int, d: int)
    requires
        d >= 1,
    ensures
        spec_div(d * x, d) == x,
{
    if x >= 0 {
        assert(d * x >= 0) by (nonlinear_arith)
            requires
                d >= 1,
                x >= 0,
        ;
        vstd::arithmetic::div_mod::lemma_div_multiples_vanish(x, d);
    } else {
        assert(d * x < 0 && -(d * x) == d * (-x)) by (nonlinear_arith)
            requires
                d >= 1,
                x < 0,
        ;
        vstd::arithmetic::div_mod::lemma_div_multiples_vanish(-x, d);
    }
}

/// Truncating division by a positive divisor never grows the magnitude of the
/// dividend.
pub proof fn lemma_div_trunc_shrinks(a: int, b: int)
    requires
        b >= 1,
    ensures
        a >= 0 ==> 0 <= spec_div(a, b) <= a,
        a < 0 ==> a <= spec_div(a, b) <= 0,
{
    if a >= 0 {
        vstd::arithmetic::div_mod::lemma_div_pos_is_pos(a, b);
        vstd::arithmetic::div_mod::lemma_div_nonincreasing(a, b);
    } else {
        vstd::arithmetic::div_mod::lemma_div_pos_is_pos(-a, b);
        vstd::arithmetic::div_mod::lemma_div_nonincreasing(-a, b);
    }
}

/// A truncated quotient is bounded by any `c` with `|a| <= b * c`.
pub proof fn lemma_div_trunc_le(a: int, b: int, c: int)
    requires
        b >= 1,
        c >= 0,
        -(b * c) <= a <= b * c,
    ensures
        -c <= spec_div(a, b) <= c,
{
    if a >= 0 {
        vstd::arithmetic::div_mod::lemma_div_pos_is_pos(a, b);
        vstd::arithmetic::div_mod::lemma_multiply_divide_le(a, b, c);
    } else {
        vstd::arithmetic::div_mod::lemma_div_pos_is_pos(-a, b);
        vstd::arithmetic::div_mod::lemma_multiply_divide_le(-a, b, c);
    }
}

/// Truncating division on `i128`, for a positive divisor.
pub fn div_i128(a: i128, b: i128) -> (q: i128)
    requires
        b > 0,
        a != i128::MIN,
    ensures
        q == spec_div(a as int, b as int),
{
    let neg = a < 0;
    let na: u128 = if neg {
        (-a) as u128
    } else {
        a as u128
    };
    let nb: u128 = b as u128;
    let uq: u128 = na / nb;
    proof {
        vstd::arithmetic::div_mod::lemma_div_pos_is_pos(na as int, nb as int);
        vstd::arithmetic::div_mod::lemma_div_nonincreasing(na as int, nb as int);
    }
    if neg {
        -(uq as i128)
    } else {
        uq as i128
    }
}

/// Integer square root of a `u128`, by binary search on the answer.
pub fn isqrt_u128(n: u128) -> (r: u128)
    requires
        n < 0x4000_0000_0000_0000_0000_0000_0000_0000u128,
    ensures
        r as int == spec_isqrt(n as int),
        r * r <= n,
        n < (r + 1) * (r + 1),
{
    let mut lo: u128 = 0;
    let mut hi: u128 = 0x8000_0000_0000_0000;
    assert(n < (hi + 1) * (hi + 1)) by (nonlinear_arith)
        requires
            n < 0x4000_0000_0000_0000_0000_0000_0000_0000u128,
            hi == 0x8000_0000_0000_0000u128,
    ;
    while lo < hi
        invariant
            lo <= hi,
            hi <= 0x8000_0000_0000_0000u128,
            lo * lo <= n,
            n < (hi + 1) * (hi + 1),
        decreases hi - lo,
    {
        let mid = lo + (hi - lo + 1) / 2;
        assert(lo < mid <= hi);
        assert(mid * mid <= 0x4000_0000_0000_0000_0000_0000_0000_0000u128) by (nonlinear_arith)
            requires
                mid <= 0x8000_0000_0000_0000u128,
        ;
        let sq = mid * mid;
        if sq <= n {
            lo = mid;
        } else {
            hi = mid - 1;
        }
    }
    proof {
        lemma_isqrt_unique(n as int, lo as int);
    }
    lo
}

} // verus!
