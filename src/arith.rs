use vstd::prelude::*;

verus! {

/// Number of fixed-point units in one tile along an axis.
pub const UNITS_PER_TILE: i64 = 1000;

/// Largest magnitude that a fixed-point coordinate may take.
pub const MAX_COORD: i64 = 0x4_0000_0000_0000;

/// `a` divided by `d`, rounded toward negative infinity.
pub open spec fn floor_div(a: int, d: int) -> int {
    a / d
}

/// The largest `r` with `r * r <= n`.
pub open spec fn is_isqrt(n: nat, r: nat) -> bool {
    r * r <= n && n < (r + 1) * (r + 1)
}

/// The integer square root of `n`.
pub open spec fn isqrt_spec(n: nat) -> nat {
    choose|r: nat| is_isqrt(n, r)
}

/// `n` has exactly one integer square root.
pub proof fn lemma_isqrt_unique(n: nat, r: nat)
    requires
        is_isqrt(n, r),
    ensures
        isqrt_spec(n) == r,
{
    let s = isqrt_spec(n);
    assert(is_isqrt(n, s));
    if s < r {
        assert((s + 1) * (s + 1) <= r * r) by (nonlinear_arith)
            requires s + 1 <= r;
    } else if r < s {
        assert((r + 1) * (r + 1) <= s * s) by (nonlinear_arith)
            requires r + 1 <= s;
    }
}

/// Floor of `a / UNITS_PER_TILE` for any `a` (rounds toward negative infinity).
pub fn floor_div_tile(a: i64) -> (r: i64)
    ensures
        r == floor_div(a as int, UNITS_PER_TILE as int),
{
    let d: i64 = UNITS_PER_TILE;
    if a >= 0 {
        let q: i64 = a / d;
        q
    } else {
        let na: i64 = -(a + 1);
        let q: i64 = na / d;
        proof {
            assert(a as int == -(na as int) - 1);
            assert(na as int == q * 1000 + na as int % 1000) by (nonlinear_arith)
                requires q == na as int / 1000, na >= 0;
            assert(((-(na as int) - 1) / 1000) == -q - 1) by (nonlinear_arith)
                requires q == na as int / 1000, na >= 0;
        }
        -q - 1
    }
}

/// Integer square root: the largest `r` with `r * r <= n`.
pub fn isqrt(n: u128) -> (r: u128)
    requires
        n < 0x1_0000_0000_0000_0000_0000_0000_0000,
    ensures
        is_isqrt(n as nat, r as nat),
        r == isqrt_spec(n as nat),
{
    let mut lo: u128 = 0;
    let mut hi: u128 = 0x1_0000_0000_0000_0000;
    proof {
        assert(0x1_0000_0000_0000_0000u128 as nat * 0x1_0000_0000_0000_0000u128 as nat > n)
            by (nonlinear_arith) requires n < 0x1_0000_0000_0000_0000_0000_0000_0000;
    }
    while lo + 1 < hi
        invariant
            lo < hi <= 0x1_0000_0000_0000_0000,
            lo * lo <= n,
            n < hi * hi,
        decreases hi - lo,
    {
        let mid: u128 = lo + (hi - lo) / 2;
        assert(mid * mid <= u128::MAX) by (nonlinear_arith)
            requires mid <= 0xFFFF_FFFF_FFFF_FFFFu128;
        if mid * mid <= n {
            lo = mid;
        } else {
            hi = mid;
        }
    }
    proof {
        lemma_isqrt_unique(n as nat, lo as nat);
    }
    lo
}

} // verus!
