//! Integer arithmetic shared by the unit conversions and the move planner.
//!
//! Lengths are fixed-point numbers counted in millionths of a millimetre,
//! rates in millionths of a millimetre per second and durations in
//! microseconds.
use vstd::arithmetic::div_mod::{lemma_div_pos_is_pos, lemma_fundamental_div_mod, lemma_mod_pos_bound};
use vstd::prelude::*;

verus! {

/// Number of fixed-point steps in one unit (one millimetre, one second, one degree).
pub const SCALE: i64 = 1_000_000;

/// `n / d` rounded to the nearest integer, halves away from zero.
pub open spec fn round_div(n: int, d: int) -> int {
    if n >= 0 {
        (2 * n + d) / (2 * d)
    } else {
        -((2 * (-n) + d) / (2 * d))
    }
}

/// The largest `r` with `r * r <= n`.
pub open spec fn is_isqrt(n: int, r: int) -> bool {
    0 <= r && r * r <= n < (r + 1) * (r + 1)
}

/// `round_div(n, d)` is an integer nearest to `n / d`: it is off by at most one half.
pub proof fn lemma_round_div_nearest(n: int, d: int)
    requires
        d > 0,
    ensures
        -d <= 2 * (round_div(n, d) * d - n) <= d,
        n == 0 ==> round_div(n, d) == 0,
{
    let m = if n >= 0 { n } else { -n };
    lemma_fundamental_div_mod(2 * m + d, 2 * d);
    lemma_mod_pos_bound(2 * m + d, 2 * d);
    let q = (2 * m + d) / (2 * d);
    let r = (2 * m + d) % (2 * d);
    assert(2 * m + d == (2 * d) * q + r);
    assert(q * d * 2 == (2 * d) * q) by (nonlinear_arith);
    if n >= 0 {
        assert(round_div(n, d) == q);
    } else {
        assert(round_div(n, d) == -q);
        assert((-q) * d == -(q * d)) by (nonlinear_arith);
    }
    if n == 0 {
        assert(q * (2 * d) <= d < (q + 1) * (2 * d)) by (nonlinear_arith)
            requires
                2 * d * q + r == d,
                0 <= r < 2 * d,
                d > 0,
        ;
        assert(q == 0) by (nonlinear_arith)
            requires
                q * (2 * d) <= d,
                d < (q + 1) * (2 * d),
                d > 0,
        ;
    }
}

/// `n / d` rounded to the nearest integer, halves away from zero.
pub fn round_div_exec(n: i128, d: i128) -> (r: i128)
    requires
        d > 0,
        -0x4000_0000_0000_0000_0000_0000_0000_0000 <= n <= 0x4000_0000_0000_0000_0000_0000_0000_0000,
        d <= 0x4000_0000_0000_0000_0000_0000_0000_0000,
    ensures
        r == round_div(n as int, d as int),
{
    let dd: u128 = d as u128;
    if n >= 0 {
        let m: u128 = n as u128;
        let q: u128 = (2 * m + dd) / (2 * dd);
        assert(q <= m + 1) by {
            lemma_fundamental_div_mod(2 * m + dd, 2 * dd);
            lemma_mod_pos_bound(2 * m + dd, 2 * dd);
            assert(q * (2 * dd) <= 2 * m + dd);
            assert(q <= m + 1) by (nonlinear_arith)
                requires
                    q >= 0,
                    m >= 0,
                    dd >= 1,
                    q * (2 * dd) <= 2 * m + dd,
            ;
        }
        q as i128
    } else {
        let m: u128 = (-n) as u128;
        let q: u128 = (2 * m + dd) / (2 * dd);
        assert(q <= m + 1) by {
            lemma_fundamental_div_mod(2 * m + dd, 2 * dd);
            lemma_mod_pos_bound(2 * m + dd, 2 * dd);
            assert(q * (2 * dd) <= 2 * m + dd);
            assert(q <= m + 1) by (nonlinear_arith)
                requires
                    q >= 0,
                    m >= 0,
                    dd >= 1,
                    q * (2 * dd) <= 2 * m + dd,
            ;
        }
        -(q as i128)
    }
}

/// Integer square root, rounded down.
pub fn isqrt(n: u128) -> (r: u64)
    ensures
        is_isqrt(n as int, r as int),
        r == isqrt_of(n as int),
{
    let mut lo: u128 = 0;
    let mut hi: u128 = 0x1_0000_0000_0000_0000;
    assert(n < hi * hi) by (nonlinear_arith)
        requires
            hi == 0x1_0000_0000_0000_0000,
            n <= 0xffff_ffff_ffff_ffff_ffff_ffff_ffff_ffff,
    ;
    while hi - lo > 1
        invariant
            lo < hi <= 0x1_0000_0000_0000_0000,
            lo * lo <= n,
            n < hi * hi,
        decreases hi - lo,
    {
        let mid: u128 = lo + (hi - lo) / 2;
        assert(mid * mid <= 0xffff_ffff_ffff_ffff * 0xffff_ffff_ffff_ffff) by (nonlinear_arith)
            requires
                0 <= mid <= 0xffff_ffff_ffff_ffff,
        ;
        if mid * mid <= n {
            lo = mid;
        } else {
            hi = mid;
        }
    }
    assert(hi == lo + 1);
    proof {
        lemma_isqrt_unique(n as int, lo as int, isqrt_of(n as int));
    }
    lo as u64
}

/// Rounding a quotient by a positive divisor never grows the magnitude.
pub proof fn lemma_round_div_bound(n: int, d: int)
    requires
        d >= 1,
    ensures
        n >= 0 ==> 0 <= round_div(n, d) <= n,
        n < 0 ==> n <= round_div(n, d) <= 0,
{
    lemma_round_div_nearest(n, d);
    let q = round_div(n, d);
    if n >= 0 {
        lemma_div_pos_is_pos(2 * n + d, 2 * d);
        assert(q <= n) by (nonlinear_arith)
            requires
                2 * (q * d - n) <= d,
                d >= 1,
                n >= 0,
        ;
    } else {
        lemma_div_pos_is_pos(2 * (-n) + d, 2 * d);
        assert(q >= n) by (nonlinear_arith)
            requires
                -d <= 2 * (q * d - n),
                d >= 1,
                n < 0,
        ;
    }
}

/// The floor square root, as a function.
pub open spec fn isqrt_of(n: int) -> int {
    choose|r: int| is_isqrt(n, r)
}

/// There is one floor square root.
pub proof fn lemma_isqrt_unique(n: int, r1: int, r2: int)
    requires
        is_isqrt(n, r1),
        is_isqrt(n, r2),
    ensures
        r1 == r2,
{
    if r1 < r2 {
        assert((r1 + 1) * (r1 + 1) <= r2 * r2) by (nonlinear_arith)
            requires
                0 <= r1 < r2,
        ;
    } else if r2 < r1 {
        assert((r2 + 1) * (r2 + 1) <= r1 * r1) by (nonlinear_arith)
            requires
                0 <= r2 < r1,
        ;
    }
}

} // verus!
