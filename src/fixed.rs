//! Fixed-point helpers shared by both engines.
use vstd::prelude::*;

verus! {

/// Steps per unit of a coefficient or of a random fraction.
pub const UNIT: i128 = 65536;

/// `v` limited to `[lo, hi]`.
pub open spec fn clamp_int(v: int, lo: int, hi: int) -> int {
    if v < lo {
        lo
    } else if v > hi {
        hi
    } else {
        v
    }
}

/// Division that rounds toward zero, as Rust's integer division does.
pub open spec fn div_trunc(n: int, d: int) -> int {
    if n >= 0 {
        n / d
    } else {
        -((-n) / d)
    }
}

/// `n / d`, rounded toward zero, for a positive `d`.
pub fn div_toward_zero(n: i128, d: i128) -> (r: i128)
    requires
        d > 0,
        n > i128::MIN,
    ensures
        r == div_trunc(n as int, d as int),
{
    if n >= 0 {
        n / d
    } else {
        let m: i128 = -n;
        let q: i128 = m / d;
        -q
    }
}

/// `v` limited to `[lo, hi]`.
pub fn clamp_i128(v: i128, lo: i128, hi: i128) -> (r: i128)
    requires
        lo <= hi,
    ensures
        r == clamp_int(v as int, lo as int, hi as int),
        lo <= r <= hi,
{
    if v < lo {
        lo
    } else if v > hi {
        hi
    } else {
        v
    }
}

/// `r` is the integer square root of `x`: the largest `r` with `r * r <= x`.
pub open spec fn is_isqrt(x: int, r: int) -> bool {
    r >= 0 && r * r <= x < (r + 1) * (r + 1)
}

/// There is only one integer square root.
pub proof fn lemma_isqrt_unique(x: int, a: int, b: int)
    requires
        is_isqrt(x, a),
        is_isqrt(x, b),
    ensures
        a == b,
{
    if a < b {
        assert((a + 1) * (a + 1) <= b * b) by (nonlinear_arith)
            requires
                0 <= a < b,
        ;
    } else if b < a {
        assert((b + 1) * (b + 1) <= a * a) by (nonlinear_arith)
            requires
                0 <= b < a,
        ;
    }
}

/// The integer square root of `x`, by bisection.
pub fn isqrt(x: u128) -> (r: u64)
    requires
        x < 0x1000_0000_0000_0000_0000_0000_0000_0000,
    ensures
        is_isqrt(x as int, r as int),
{
    let mut lo: u128 = 0;
    let mut hi: u128 = 0x4000_0000_0000_0000;
    assert(hi * hi == 0x1000_0000_0000_0000_0000_0000_0000_0000u128);
    while hi - lo > 1
        invariant
            lo < hi <= 0x4000_0000_0000_0000,
            lo * lo <= x,
            x < hi * hi,
        decreases hi - lo,
    {
        let mid = lo + (hi - lo) / 2;
        assert(mid * mid <= 0x4000_0000_0000_0000 * 0x4000_0000_0000_0000) by (nonlinear_arith)
            requires
                mid <= 0x4000_0000_0000_0000,
        ;
        if mid * mid <= x {
            lo = mid;
        } else {
            hi = mid;
        }
    }
    assert(hi == lo + 1);
    lo as u64
}

/// Rounding toward zero never moves a quotient away from zero past `n`.
pub proof fn lemma_div_trunc_bound(n: int, d: int)
    requires
        d >= 1,
    ensures
        n >= 0 ==> 0 <= div_trunc(n, d) <= n,
        n < 0 ==> n <= div_trunc(n, d) <= 0,
{
    if n >= 0 {
        assert(0 <= n / d <= n) by (nonlinear_arith)
            requires
                n >= 0,
                d >= 1,
        ;
    } else {
        let m = -n;
        assert(0 <= m / d <= m) by (nonlinear_arith)
            requires
                m > 0,
                d >= 1,
        ;
    }
}

} // verus!
