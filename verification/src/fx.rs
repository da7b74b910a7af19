//! Fixed-point scalar arithmetic.
//!
//! A raw `i64` value `q` represents the real number `q / SCALE`. Multiplying
//! or dividing two fixed-point values therefore needs a rescaling step, which
//! truncates toward zero exactly as the spec functions here describe. The
//! integer square root gives square roots at the same scale: for a vector
//! whose components are scaled by `SCALE`, the raw dot product is scaled by
//! `SCALE * SCALE` and its integer square root is again scaled by `SCALE`.

use vstd::prelude::*;
use vstd::arithmetic::div_mod::{
    lemma_div_pos_is_pos, lemma_div_nonincreasing, lemma_fundamental_div_mod,
};

verus! {

/// Number of raw units per 1.0.
pub const SCALE: i64 = 65536;

/// Division truncating toward zero (the behaviour of machine division),
/// stated over mathematical integers. Only used with positive divisors.
pub open spec fn div_trunc(n: int, d: int) -> int
    recommends
        d > 0,
{
    if n >= 0 {
        n / d
    } else {
        -((-n) / d)
    }
}

/// Product of two fixed-point scalars: rescale by SCALE, truncating.
pub open spec fn mul_fx(a: int, b: int) -> int {
    div_trunc(a * b, SCALE as int)
}

/// Quotient of two fixed-point scalars with positive divisor.
pub open spec fn div_fx(a: int, b: int) -> int
    recommends
        b > 0,
{
    div_trunc(a * (SCALE as int), b)
}

/// `r` is the integer square root (floor) of `x`.
pub open spec fn is_sqrt_floor(x: int, r: int) -> bool {
    0 <= r && r * r <= x && x < (r + 1) * (r + 1)
}

/// The integer square root of a nonnegative integer.
pub open spec fn sqrt_floor(x: int) -> int {
    choose|r: int| is_sqrt_floor(x, r)
}

/// Every nonnegative integer has an integer square root.
pub proof fn lemma_sqrt_floor_exists(x: int)
    requires
        x >= 0,
    ensures
        is_sqrt_floor(x, sqrt_floor(x)),
    decreases x,
{
    if x == 0 {
        assert(is_sqrt_floor(0, 0));
        assert(exists|s: int| is_sqrt_floor(0, s));
    } else {
        lemma_sqrt_floor_exists(x - 1);
        let r = sqrt_floor(x - 1);
        if (r + 1) * (r + 1) <= x {
            assert(x - 1 < (r + 1) * (r + 1));
            assert(x < (r + 2) * (r + 2)) by (nonlinear_arith)
                requires
                    x <= (r + 1) * (r + 1),
                    r >= 0,
            ;
            assert(is_sqrt_floor(x, r + 1));
        } else {
            assert(is_sqrt_floor(x, r));
        }
        assert(exists|s: int| is_sqrt_floor(x, s));
    }
}

/// The integer square root is unique.
pub proof fn lemma_sqrt_floor_unique(x: int, r: int)
    requires
        is_sqrt_floor(x, r),
    ensures
        r == sqrt_floor(x),
{
    let s = sqrt_floor(x);
    assert(x >= 0) by (nonlinear_arith)
        requires
            is_sqrt_floor(x, r),
    ;
    lemma_sqrt_floor_exists(x);
    assert(r == s) by (nonlinear_arith)
        requires
            is_sqrt_floor(x, r),
            is_sqrt_floor(x, s),
    ;
}

/// Basic bounds of truncating division: the quotient times the divisor is
/// within one divisor of the dividend, and the magnitude shrinks.
pub proof fn lemma_div_trunc_bounds(n: int, d: int)
    requires
        d > 0,
    ensures
        n >= 0 ==> n - d < d * div_trunc(n, d) <= n,
        n <= 0 ==> n <= d * div_trunc(n, d) < n + d,
        n >= 0 ==> 0 <= div_trunc(n, d) <= n,
        n <= 0 ==> n <= div_trunc(n, d) <= 0,
{
    if n >= 0 {
        lemma_fundamental_div_mod(n, d);
        lemma_div_pos_is_pos(n, d);
        lemma_div_nonincreasing(n, d);
        assert(d * div_trunc(n, d) == n - n % d);
    } else {
        let m = -n;
        lemma_fundamental_div_mod(m, d);
        lemma_div_pos_is_pos(m, d);
        lemma_div_nonincreasing(m, d);
        vstd::arithmetic::div_mod::lemma_mod_bound(m, d);
        assert(d * (m / d) == m - m % d);
        let q = m / d;
        assert(d * (-q) == -(d * q)) by (nonlinear_arith);
        assert(div_trunc(n, d) == -q);
        assert(d * div_trunc(n, d) == n + m % d);
    }
}

/// Truncating division respects scaling of the dividend: a magnitude bound on
/// the dividend gives a magnitude bound on the quotient.
pub proof fn lemma_div_trunc_mag(n: int, d: int, bound: int)
    requires
        d > 0,
        -bound * d <= n <= bound * d,
        bound >= 0,
    ensures
        -bound <= div_trunc(n, d) <= bound,
{
    lemma_div_trunc_bounds(n, d);
    let q = div_trunc(n, d);
    if n >= 0 {
        assert(q <= bound) by (nonlinear_arith)
            requires
                d > 0,
                d * q <= n,
                n <= bound * d,
        ;
    } else {
        assert(-bound <= q) by (nonlinear_arith)
            requires
                d > 0,
                n <= d * q,
                -bound * d <= n,
        ;
    }
}

/// Dividing a multiple of the scale by the scale is exact.
pub proof fn lemma_div_scale_exact(x: int)
    ensures
        div_trunc(x * 65536, 65536) == x,
{
    if x >= 0 {
        vstd::arithmetic::div_mod::lemma_div_by_multiple(x, 65536);
    } else {
        vstd::arithmetic::div_mod::lemma_div_by_multiple(-x, 65536);
        assert((-(x * 65536)) == (-x) * 65536) by (nonlinear_arith);
    }
}

/// An integer square root of a perturbed square is near the root of the
/// square: if `|x - c^2| <= e` then `sqrt_floor(x)` is within
/// `sqrt_floor(e) + 1` of `c`.
pub proof fn lemma_sqrt_perturb(x: int, c: int, e: int)
    requires
        0 <= x,
        0 <= c,
        0 <= e,
        c * c - e <= x <= c * c + e,
    ensures
        c - (sqrt_floor(e) + 1) <= sqrt_floor(x) <= c + sqrt_floor(e) + 1,
{
    lemma_sqrt_floor_exists(x);
    lemma_sqrt_floor_exists(e);
    let s = sqrt_floor(x);
    let t = sqrt_floor(e);
    assert(s <= c + t + 1) by (nonlinear_arith)
        requires
            is_sqrt_floor(x, s),
            is_sqrt_floor(e, t),
            0 <= c,
            x <= c * c + e,
    ;
    assert(c - t - 1 <= s) by (nonlinear_arith)
        requires
            is_sqrt_floor(x, s),
            is_sqrt_floor(e, t),
            0 <= c,
            c * c - e <= x,
    ;
}

/// Truncating division is monotone in the dividend.
pub proof fn lemma_div_trunc_ordered(n1: int, n2: int, d: int)
    requires
        d > 0,
        n1 <= n2,
    ensures
        div_trunc(n1, d) <= div_trunc(n2, d),
{
    lemma_div_trunc_bounds(n1, d);
    lemma_div_trunc_bounds(n2, d);
    let q1 = div_trunc(n1, d);
    let q2 = div_trunc(n2, d);
    if n1 >= 0 {
        assert(q1 <= q2) by (nonlinear_arith)
            requires
                d > 0,
                d * q1 <= n1,
                n1 <= n2,
                n2 - d < d * q2,
        ;
    } else if n2 >= 0 {
        assert(q1 <= 0 <= q2);
    } else {
        assert(q1 <= q2) by (nonlinear_arith)
            requires
                d > 0,
                d * q1 < n1 + d,
                n1 <= n2,
                n2 <= d * q2,
        ;
    }
}

/// Truncating division of `i128` values, carried out on magnitudes so the
/// machine operation matches `div_trunc` exactly.
pub fn div_i128(n: i128, d: i128) -> (q: i128)
    requires
        d > 0,
        n > i128::MIN,
    ensures
        q == div_trunc(n as int, d as int),
{
    proof {
        lemma_div_trunc_bounds(n as int, d as int);
    }
    if n >= 0 {
        let q0: u128 = (n as u128) / (d as u128);
        q0 as i128
    } else {
        let m: i128 = -n;
        let q0: u128 = (m as u128) / (d as u128);
        -(q0 as i128)
    }
}

/// Integer square root of a `u128`, by binary search.
pub fn isqrt_u128(x: u128) -> (r: u128)
    ensures
        is_sqrt_floor(x as int, r as int),
        r as int == sqrt_floor(x as int),
        r <= 0x1_0000_0000_0000_0000u128,
{
    let mut lo: u128 = 0;
    let mut hi: u128 = 0x1_0000_0000_0000_0000u128;
    assert(hi * hi > x) by (nonlinear_arith)
        requires
            hi == 0x1_0000_0000_0000_0000u128,
            x <= u128::MAX,
    ;
    while lo + 1 < hi
        invariant
            lo < hi,
            hi <= 0x1_0000_0000_0000_0000u128,
            lo * lo <= x,
            hi * hi > x,
        decreases hi - lo,
    {
        let mid: u128 = lo + (hi - lo) / 2;
        assert(lo < mid < hi);
        assert(mid * mid <= u128::MAX) by (nonlinear_arith)
            requires
                mid < 0x1_0000_0000_0000_0000u128,
        ;
        if mid * mid <= x {
            lo = mid;
        } else {
            hi = mid;
        }
    }
    proof {
        lemma_sqrt_floor_unique(x as int, lo as int);
    }
    lo
}

/// Integer square root of a nonnegative `i128`.
pub fn isqrt_i128(x: i128) -> (r: i128)
    requires
        x >= 0,
    ensures
        is_sqrt_floor(x as int, r as int),
        r as int == sqrt_floor(x as int),
{
    let r = isqrt_u128(x as u128);
    r as i128
}

} // verus!
