//! Integer square roots, rounded down and rounded up.

use vstd::prelude::*;

verus! {

/// `r` is the square root of `n` rounded down.
pub open spec fn is_floor_root(n: int, r: int) -> bool {
    0 <= r && r * r <= n < (r + 1) * (r + 1)
}

/// The square root of a non-negative `n`, rounded down.
pub open spec fn floor_sqrt(n: int) -> int {
    choose|r: int| is_floor_root(n, r)
}

/// The square root of a non-negative `n`, rounded up.
pub open spec fn ceil_sqrt(n: int) -> int {
    if floor_sqrt(n) * floor_sqrt(n) == n {
        floor_sqrt(n)
    } else {
        floor_sqrt(n) + 1
    }
}

/// At most one number is the rounded-down root of `n`.
pub proof fn lemma_floor_root_unique(n: int, r: int, s: int)
    requires
        is_floor_root(n, r),
        is_floor_root(n, s),
    ensures
        r == s,
{
    if r < s {
        assert((r + 1) * (r + 1) <= s * s) by (nonlinear_arith)
            requires
                0 <= r,
                r + 1 <= s,
        ;
    } else if s < r {
        assert((s + 1) * (s + 1) <= r * r) by (nonlinear_arith)
            requires
                0 <= s,
                s + 1 <= r,
        ;
    }
}

proof fn lemma_floor_root_exists(n: int) -> (r: int)
    requires
        n >= 0,
    ensures
        is_floor_root(n, r),
    decreases n,
{
    if n == 0 {
        assert(is_floor_root(0, 0));
        0
    } else {
        let p = lemma_floor_root_exists(n - 1);
        assert(p * p <= n - 1 < (p + 1) * (p + 1));
        let r = p + 1;
        if r * r <= n {
            assert((r + 1) * (r + 1) > r * r) by (nonlinear_arith)
                requires
                    0 <= r,
            ;
            assert(is_floor_root(n, r));
            r
        } else {
            assert(is_floor_root(n, p));
            p
        }
    }
}

/// Every non-negative number has its rounded-down root, and `floor_sqrt` is it.
pub proof fn lemma_floor_sqrt(n: int)
    requires
        n >= 0,
    ensures
        is_floor_root(n, floor_sqrt(n)),
{
    let r = lemma_floor_root_exists(n);
    assert(is_floor_root(n, r));
}

/// Whoever finds a rounded-down root has found `floor_sqrt`.
pub proof fn lemma_floor_sqrt_is(n: int, r: int)
    requires
        is_floor_root(n, r),
    ensures
        floor_sqrt(n) == r,
{
    lemma_floor_sqrt(n);
    lemma_floor_root_unique(n, r, floor_sqrt(n));
}

/// Comparing a rounded-down root with a bound is comparing the number with
/// the bound's square: nothing is lost by the rounding.
pub proof fn lemma_floor_sqrt_below(n: int, bound: int)
    requires
        n >= 0,
        bound >= 0,
    ensures
        floor_sqrt(n) < bound <==> n < bound * bound,
{
    lemma_floor_sqrt(n);
    let r = floor_sqrt(n);
    if r < bound {
        assert((r + 1) * (r + 1) <= bound * bound) by (nonlinear_arith)
            requires
                0 <= r,
                r + 1 <= bound,
        ;
    } else {
        assert(bound * bound <= r * r) by (nonlinear_arith)
            requires
                0 <= bound <= r,
        ;
    }
}

/// The rounded-up root is the least number whose square reaches `n`.
pub proof fn lemma_ceil_sqrt(n: int)
    requires
        n >= 0,
    ensures
        0 <= ceil_sqrt(n),
        n <= ceil_sqrt(n) * ceil_sqrt(n),
        n > 0 ==> ceil_sqrt(n) > 0 && (ceil_sqrt(n) - 1) * (ceil_sqrt(n) - 1) < n,
{
    lemma_floor_sqrt(n);
    let r = floor_sqrt(n);
    if r * r != n {
        assert((r + 1 - 1) * (r + 1 - 1) == r * r);
    } else if n > 0 {
        assert(r > 0) by (nonlinear_arith)
            requires
                r * r == n,
                n > 0,
                r >= 0,
        ;
        assert((r - 1) * (r - 1) < r * r) by (nonlinear_arith)
            requires
                r > 0,
        ;
    }
}

/// The square root of `n`, rounded down.
pub fn isqrt(n: u128) -> (r: u64)
    ensures
        r == floor_sqrt(n as int),
        is_floor_root(n as int, r as int),
{
    let mut lo: u128 = 0;
    let mut hi: u128 = 0x1_0000_0000_0000_0000;
    assert(0x1_0000_0000_0000_0000int * 0x1_0000_0000_0000_0000int > u128::MAX) by (nonlinear_arith);
    while hi - lo > 1
        invariant
            lo < hi <= 0x1_0000_0000_0000_0000,
            lo * lo <= n < hi * hi,
        decreases hi - lo,
    {
        let mid: u128 = lo + (hi - lo) / 2;
        assert(mid * mid <= 0xffff_ffff_ffff_ffff * 0xffff_ffff_ffff_ffff) by (nonlinear_arith)
            requires
                0 <= mid <= 0xffff_ffff_ffff_ffff,
        ;
        if mid * mid <= n {
            lo = mid;
        } else {
            hi = mid;
        }
    }
    proof {
        lemma_floor_sqrt_is(n as int, lo as int);
    }
    lo as u64
}

/// The square root of `n`, rounded up.
pub fn isqrt_up(n: u128) -> (r: u128)
    ensures
        r == ceil_sqrt(n as int),
        r <= 0x1_0000_0000_0000_0000,
{
    let r: u64 = isqrt(n);
    let wide: u128 = r as u128;
    assert(wide * wide <= n);
    if wide * wide == n {
        wide
    } else {
        wide + 1
    }
}

} // verus!
