use vstd::prelude::*;

verus! {

/// Division rounded to the nearest integer, ties away from zero, for a
/// positive divisor. Both branches divide a non-negative dividend, so the
/// executable `/` agrees with the mathematical one.
pub open spec fn spec_round_div(n: int, d: int) -> int
    recommends
        d > 0,
{
    if n >= 0 {
        (2 * n + d) / (2 * d)
    } else {
        -((2 * -n + d) / (2 * d))
    }
}

/// The rounded quotient is no larger than any bound `k` on the exact
/// quotient.
pub proof fn lemma_round_div_bound(n: int, d: int, k: int)
    requires
        d > 0,
        k >= 0,
        -(k * d) <= n <= k * d,
    ensures
        -k <= spec_round_div(n, d) <= k,
{
    if n >= 0 {
        assert(0 <= (2 * n + d) / (2 * d) <= k) by (nonlinear_arith)
            requires d > 0 && k >= 0 && 0 <= n <= k * d;
    } else {
        assert(0 <= (2 * -n + d) / (2 * d) <= k) by (nonlinear_arith)
            requires d > 0 && k >= 0 && 0 < -n <= k * d;
    }
}

pub fn round_div(n: i32, d: i32) -> (r: i32)
    requires
        0 < d <= 100_000_000,
        -100_000_000 <= n <= 100_000_000,
    ensures
        r == spec_round_div(n as int, d as int),
{
    if n >= 0 {
        (2 * n + d) / (2 * d)
    } else {
        -((2 * -n + d) / (2 * d))
    }
}

/// `r` is the integer square root of `n`.
pub open spec fn is_isqrt(n: int, r: int) -> bool {
    &&& 0 <= r
    &&& r * r <= n
    &&& n < (r + 1) * (r + 1)
}

/// The integer square root, as the unique `r` with `r * r <= n < (r + 1)^2`.
pub open spec fn spec_isqrt(n: int) -> int {
    choose|r: int| is_isqrt(n, r)
}

/// The integer square root is unique.
pub proof fn lemma_isqrt_unique(n: int, a: int, b: int)
    requires
        is_isqrt(n, a),
        is_isqrt(n, b),
    ensures
        a == b,
{
    assert(a == b) by (nonlinear_arith)
        requires
            0 <= a && a * a <= n && n < (a + 1) * (a + 1),
            0 <= b && b * b <= n && n < (b + 1) * (b + 1);
}

/// Integer square root by upward search.
pub fn isqrt(n: u64) -> (r: u64)
    requires
        n <= 0x1_0000_0000,
    ensures
        is_isqrt(n as int, r as int),
        r as int == spec_isqrt(n as int),
        r <= 0x1_0000,
{
    let mut r: u64 = 0;
    while r < 0x1_0000 && r * r + 2 * r + 1 <= n
        invariant
            n <= 0x1_0000_0000,
            r * r <= n,
            r <= 0x1_0000,
        decreases 0x1_0001 - r,
    {
        proof {
            assert((r + 1) * (r + 1) == r * r + 2 * r + 1) by (nonlinear_arith);
        }
        r = r + 1;
    }
    proof {
        assert((r + 1) * (r + 1) == r * r + 2 * r + 1) by (nonlinear_arith);
        if r == 0x1_0000 {
            assert(n < (r + 1) * (r + 1)) by (nonlinear_arith)
                requires n <= 0x1_0000_0000 && r == 0x1_0000;
        }
        assert(is_isqrt(n as int, r as int));
        let s = spec_isqrt(n as int);
        assert(is_isqrt(n as int, s));
        lemma_isqrt_unique(n as int, r as int, s);
    }
    r
}

/// The remainder modulo ten, in 0 through 9 — the Euclidean remainder,
/// whatever the dividend's sign; both executable operations act on
/// non-negative values.
pub fn mod10(a: i32) -> (r: i32)
    requires
        -1_000_000_000 <= a <= 1_000_000_000,
    ensures
        r == a as int % 10,
        0 <= r <= 9,
{
    if a >= 0 {
        a % 10
    } else {
        let t = -a % 10;
        if t == 0 {
            0
        } else {
            10 - t
        }
    }
}

} // verus!
