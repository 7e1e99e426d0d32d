//! Fixed-point scalars: an `i64` counts millionths of a unit.

use vstd::prelude::*;

verus! {

/// The raw value of the scalar one.
pub const ONE: i64 = 1_000_000;

/// The edge of the plane: no coordinate of a position or of a velocity lies
/// farther from zero than this (a billion units).
pub const LIMIT: i64 = 1_000_000_000_000_000;

/// The quotient of `a` by a positive `b`, rounded toward zero.
pub open spec fn trunc_div(a: int, b: int) -> int {
    if a >= 0 {
        a / b
    } else {
        -((-a) / b)
    }
}

/// `v` moved to the nearest value between `-LIMIT` and `LIMIT`.
pub open spec fn saturated(v: int) -> int {
    if v > LIMIT {
        LIMIT as int
    } else if v < -LIMIT {
        -LIMIT
    } else {
        v
    }
}

/// A quotient rounded toward zero has the sign of the dividend; multiplied
/// back it never passes the dividend, and it falls short of it by less than
/// the divisor.
pub proof fn lemma_trunc_div_bounds(a: int, b: int)
    requires
        b > 0,
    ensures
        a >= 0 ==> trunc_div(a, b) >= 0 && 0 <= trunc_div(a, b) * b <= a && a - trunc_div(a, b)
            * b < b,
        a <= 0 ==> trunc_div(a, b) <= 0 && a <= trunc_div(a, b) * b <= 0 && a - trunc_div(a, b)
            * b > -b,
{
    if a >= 0 {
        vstd::arithmetic::div_mod::lemma_fundamental_div_mod(a, b);
        vstd::arithmetic::div_mod::lemma_div_pos_is_pos(a, b);
        let q = a / b;
        assert(q * b == b * q) by (nonlinear_arith);
        if a == 0 {
            assert(q == 0) by (nonlinear_arith)
                requires
                    q >= 0,
                    b > 0,
                    b * q <= 0,
            ;
        }
    } else {
        vstd::arithmetic::div_mod::lemma_fundamental_div_mod(-a, b);
        vstd::arithmetic::div_mod::lemma_div_pos_is_pos(-a, b);
        let q = (-a) / b;
        assert((-q) * b == -(b * q)) by (nonlinear_arith);
    }
}

/// The size of a quotient rounded toward zero: if `a` lies within `m * b` of
/// zero, the quotient lies within `m`.
pub proof fn lemma_trunc_div_within(a: int, b: int, m: int)
    requires
        b > 0,
        m >= 0,
        -(m * b) <= a <= m * b,
    ensures
        -m <= trunc_div(a, b) <= m,
{
    lemma_trunc_div_bounds(a, b);
    let q = trunc_div(a, b);
    if a >= 0 {
        assert(q <= m) by (nonlinear_arith)
            requires
                q * b <= a,
                a <= m * b,
                b > 0,
        ;
    } else {
        assert(-m <= q) by (nonlinear_arith)
            requires
                a <= q * b,
                -(m * b) <= a,
                b > 0,
        ;
    }
}

/// Divides rounding toward zero.
pub fn div_toward_zero(a: i128, b: i128) -> (q: i128)
    requires
        b > 0,
    ensures
        q == trunc_div(a as int, b as int),
{
    a / b
}

/// Brings a wide value back onto the plane.
pub fn saturate(v: i128) -> (r: i64)
    ensures
        r == saturated(v as int),
        -LIMIT <= r <= LIMIT,
{
    if v > LIMIT as i128 {
        LIMIT
    } else if v < -(LIMIT as i128) {
        -LIMIT
    } else {
        v as i64
    }
}

} // verus!
