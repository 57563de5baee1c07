//! Fixed-point arithmetic for the simulation.
//!
//! Every physical quantity in the library (coordinate, mass, radius, time
//! step) is an integer counted in quanta of `1 / SCALE` simulation units.
//! This module holds the shared constants, the clamping and truncating
//! division helpers the integrator uses, and an integer square root.

use vstd::prelude::*;

verus! {

/// Quanta per simulation unit: a coordinate of one unit is stored as `SCALE`.
pub const SCALE: i64 = 1_000_000;

/// Gravitational constant of the simulation (dimensionless tuning value).
pub const GRAV: i64 = 20;

/// Largest coordinate magnitude (scaled) a body may hold.
pub const COORD_LIMIT: i64 = 10_000_000_000;

/// Budget for the total of all body masses (scaled).
pub const MASS_LIMIT: i64 = 10_000_000_000;

/// Additive part of the radius law (scaled): two simulation units.
pub const RADIUS_PAD: i64 = 2_000_000;

/// Net-force accumulators saturate at this magnitude.
pub const FORCE_CLAMP: i128 = 1_000_000_000_000_000_000_000_000_000_000;

/// Accelerations saturate at this magnitude (scaled).
pub const ACCEL_LIMIT: i64 = 1_000_000_000_000_000_000;

/// Largest time step (scaled): one hundred simulation units.
pub const DT_LIMIT: i64 = 100_000_000;

/// Magnitude a single force component can never exceed:
/// `GRAV * MASS_LIMIT * MASS_LIMIT * SCALE * (2 * COORD_LIMIT)`.
pub const FORCE_PART_MAX: i128 = 40_000_000_000_000_000_000_000_000_000_000_000_000;

/// Domain bound of `isqrt`.
pub const ISQRT_MAX: u128 = 1_000_000_000_000_000_000_000;

/// Saturate `v` into the symmetric interval `[-bound, bound]`.
pub open spec fn clamped(v: int, bound: int) -> int {
    if v < -bound {
        -bound
    } else if v > bound {
        bound
    } else {
        v
    }
}

/// Saturating clamp into `[-bound, bound]`.
pub fn clamp_i128(v: i128, bound: i128) -> (r: i128)
    requires
        0 <= bound,
    ensures
        r == clamped(v as int, bound as int),
{
    if v < -bound {
        -bound
    } else if v > bound {
        bound
    } else {
        v
    }
}

/// Division that truncates toward zero, as the executable `/` of the
/// machine does; `/` on `int` rounds toward negative infinity instead.
pub open spec fn tdiv(n: int, d: int) -> int
    recommends
        d > 0,
{
    if n >= 0 {
        n / d
    } else {
        -((-n) / d)
    }
}

/// Truncating division is an odd function of the numerator.
pub proof fn lemma_tdiv_neg(n: int, d: int)
    requires
        d > 0,
    ensures
        tdiv(-n, d) == -tdiv(n, d),
{
    if n == 0 {
        vstd::arithmetic::div_mod::lemma_div_of0(d);
    }
}

/// `|tdiv(n, d)| <= c` whenever `|n| <= d * c`.
pub proof fn lemma_tdiv_bound(n: int, d: int, c: int)
    requires
        d > 0,
        0 <= c,
        -(d * c) <= n <= d * c,
    ensures
        -c <= tdiv(n, d) <= c,
{
    if n >= 0 {
        vstd::arithmetic::div_mod::lemma_div_is_ordered(n, d * c, d);
        vstd::arithmetic::div_mod::lemma_div_multiples_vanish(c, d);
        vstd::arithmetic::div_mod::lemma_div_pos_is_pos(n, d);
    } else {
        vstd::arithmetic::div_mod::lemma_div_is_ordered(-n, d * c, d);
        vstd::arithmetic::div_mod::lemma_div_multiples_vanish(c, d);
        vstd::arithmetic::div_mod::lemma_div_pos_is_pos(-n, d);
    }
}

/// Dividing by a positive integer never grows the magnitude.
pub proof fn lemma_tdiv_abs_le(n: int, d: int)
    requires
        d > 0,
    ensures
        n >= 0 ==> 0 <= tdiv(n, d) <= n,
        n < 0 ==> n <= tdiv(n, d) <= 0,
{
    let m = if n >= 0 { n } else { -n };
    assert(m <= d * m) by (nonlinear_arith)
        requires
            d >= 1,
            m >= 0,
    ;
    lemma_tdiv_bound(n, d, m);
    if n >= 0 {
        vstd::arithmetic::div_mod::lemma_div_pos_is_pos(n, d);
    } else {
        vstd::arithmetic::div_mod::lemma_div_pos_is_pos(-n, d);
    }
}

/// The numerator lies within `d` of `d * tdiv(n, d)`.
pub proof fn lemma_tdiv_remainder(n: int, d: int)
    requires
        d > 0,
    ensures
        d * tdiv(n, d) - d < n < d * tdiv(n, d) + d,
        n >= 0 ==> d * tdiv(n, d) <= n,
        n <= 0 ==> n <= d * tdiv(n, d),
{
    if n >= 0 {
        vstd::arithmetic::div_mod::lemma_fundamental_div_mod(n, d);
        vstd::arithmetic::div_mod::lemma_mod_bound(n, d);
    } else {
        vstd::arithmetic::div_mod::lemma_fundamental_div_mod(-n, d);
        vstd::arithmetic::div_mod::lemma_mod_bound(-n, d);
        assert(d * -((-n) / d) == -(d * ((-n) / d))) by (nonlinear_arith);
    }
}

/// Truncating division on machine integers.
pub fn div_trunc(n: i128, d: i128) -> (r: i128)
    requires
        d > 0,
        n > i128::MIN,
    ensures
        r == tdiv(n as int, d as int),
{
    proof {
        lemma_tdiv_abs_le(n as int, d as int);
    }
    if n >= 0 {
        let q: u128 = (n as u128) / (d as u128);
        q as i128
    } else {
        let m: u128 = (-n) as u128;
        let q: u128 = m / (d as u128);
        -(q as i128)
    }
}

/// Floor of the square root: the greatest `r` with `r * r <= n`.
pub open spec fn isqrt_spec(n: int) -> int
    decreases n,
{
    if n <= 0 {
        0
    } else {
        let r = isqrt_spec(n - 1);
        if (r + 1) * (r + 1) <= n {
            r + 1
        } else {
            r
        }
    }
}

/// The defining bracket of `isqrt_spec`.
pub proof fn lemma_isqrt_props(n: int)
    requires
        0 <= n,
    ensures
        0 <= isqrt_spec(n),
        isqrt_spec(n) * isqrt_spec(n) <= n,
        n < (isqrt_spec(n) + 1) * (isqrt_spec(n) + 1),
    decreases n,
{
    if n == 0 {
    } else {
        lemma_isqrt_props(n - 1);
        let p = isqrt_spec(n - 1);
        if (p + 1) * (p + 1) <= n {
            assert((p + 2) * (p + 2) > (p + 1) * (p + 1)) by (nonlinear_arith)
                requires
                    p >= 0,
            ;
        }
    }
}

/// Any value inside the bracket is the square root.
pub proof fn lemma_isqrt_unique(n: int, r: int)
    requires
        0 <= n,
        0 <= r,
        r * r <= n,
        n < (r + 1) * (r + 1),
    ensures
        r == isqrt_spec(n),
{
    lemma_isqrt_props(n);
    let s = isqrt_spec(n);
    if r < s {
        assert((r + 1) * (r + 1) <= s * s) by (nonlinear_arith)
            requires
                0 <= r + 1 <= s,
        ;
    }
    if s < r {
        assert((s + 1) * (s + 1) <= r * r) by (nonlinear_arith)
            requires
                0 <= s + 1 <= r,
        ;
    }
}

/// Integer square root by bisection.
pub fn isqrt(n: u128) -> (r: u128)
    requires
        n <= ISQRT_MAX,
    ensures
        r == isqrt_spec(n as int),
        r * r <= n < (r + 1) * (r + 1),
{
    let mut lo: u128 = 0;
    let mut hi: u128 = 40_000_000_000;
    while lo < hi
        invariant
            lo <= hi <= 40_000_000_000,
            lo * lo <= n,
            n < (hi + 1) * (hi + 1),
        decreases hi - lo,
    {
        let mid: u128 = lo + (hi - lo + 1) / 2;
        proof {
            assert(mid * mid <= 1_600_000_000_000_000_000_000) by (nonlinear_arith)
                requires
                    mid <= 40_000_000_000,
            ;
        }
        if mid * mid <= n {
            lo = mid;
        } else {
            hi = mid - 1;
        }
    }
    proof {
        lemma_isqrt_unique(n as int, lo as int);
    }
    lo
}

} // verus!
