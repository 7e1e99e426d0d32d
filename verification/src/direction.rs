//! The direction of a vector: what is proved of it, and how it is computed.

use vstd::prelude::*;
use crate::fixed::{ONE, trunc_div, div_toward_zero, lemma_trunc_div_bounds};
use crate::root::{ceil_sqrt, isqrt_up, lemma_ceil_sqrt};
use crate::vector::{Vec2, Vector, abs, cross, dot, magnitude, REACH, SHORT, WIDENING,
    lemma_norm_sq_positive, lemma_square_le, lemma_square_root_le};

verus! {

/// `d` millionths is the share that `c` has in the length of a vector whose
/// squared length is `n`, rounded down, and short of it by less than two
/// millionths: `|d| <= ONE * |c| / sqrt(n) < |d| + 2`.
pub open spec fn is_share(d: int, c: int, n: int) -> bool {
    (abs(d) * abs(d)) * n <= (c * c) * (ONE * ONE) < ((abs(d) + 2) * (abs(d) + 2)) * n
}

proof fn lemma_rounded_length(w: Vector)
    requires
        w.x != 0 || w.y != 0,
    ensures
        w.rounded().norm_sq() <= ONE * ONE,
        w.rounded().within(ONE as int),
{
    let d = w.rounded();
    lemma_norm_sq_positive(w);
    let n = w.norm_sq();
    let l = ceil_sqrt(n);
    lemma_ceil_sqrt(n);
    let one = ONE as int;
    lemma_trunc_div_bounds(w.x * one, l);
    lemma_trunc_div_bounds(w.y * one, l);
    lemma_square_le(d.x * l, w.x * one);
    lemma_square_le(d.y * l, w.y * one);
    assert((d.x * l) * (d.x * l) == (d.x * d.x) * (l * l)) by (nonlinear_arith);
    assert((d.y * l) * (d.y * l) == (d.y * d.y) * (l * l)) by (nonlinear_arith);
    assert((w.x * one) * (w.x * one) == (w.x * w.x) * (one * one)) by (nonlinear_arith);
    assert((w.y * one) * (w.y * one) == (w.y * w.y) * (one * one)) by (nonlinear_arith);
    let s = d.x * d.x + d.y * d.y;
    let ll = l * l;
    assert(s * ll == (d.x * d.x) * ll + (d.y * d.y) * ll) by (nonlinear_arith)
        requires
            s == d.x * d.x + d.y * d.y,
    ;
    assert(n * (one * one) == (w.x * w.x) * (one * one) + (w.y * w.y) * (one * one))
        by (nonlinear_arith)
        requires
            n == w.x * w.x + w.y * w.y,
    ;
    assert(n * (one * one) <= ll * (one * one)) by (nonlinear_arith)
        requires
            n <= ll,
    ;
    assert(s <= one * one) by (nonlinear_arith)
        requires
            s * ll <= ll * (one * one),
            ll > 0,
    ;
    assert(d.x * d.x >= 0 && d.y * d.y >= 0) by (nonlinear_arith);
    lemma_square_root_le(d.x, ONE as int);
    lemma_square_root_le(d.y, ONE as int);
}

proof fn lemma_rounded_heading(w: Vector)
    requires
        w.x != 0 || w.y != 0,
    ensures
        w.x >= 0 ==> w.rounded().x >= 0,
        w.x <= 0 ==> w.rounded().x <= 0,
        w.y >= 0 ==> w.rounded().y >= 0,
        w.y <= 0 ==> w.rounded().y <= 0,
        abs(cross(w.rounded(), w)) <= abs(w.x) + abs(w.y),
{
    let d = w.rounded();
    lemma_norm_sq_positive(w);
    let l = ceil_sqrt(w.norm_sq());
    lemma_ceil_sqrt(w.norm_sq());
    let one = ONE as int;
    lemma_trunc_div_bounds(w.x * one, l);
    lemma_trunc_div_bounds(w.y * one, l);
    let ex = w.x * one - d.x * l;
    let ey = w.y * one - d.y * l;
    assert(-l < ex < l);
    assert(-l < ey < l);
    let c = cross(d, w);
    assert(l * c == ey * w.x - ex * w.y) by (nonlinear_arith)
        requires
            c == d.x * w.y - d.y * w.x,
            ex == w.x * one - d.x * l,
            ey == w.y * one - d.y * l,
    ;
    let ax = abs(w.x);
    let ay = abs(w.y);
    assert(-(l * ax) <= ey * w.x <= l * ax) by (nonlinear_arith)
        requires
            -l < ey < l,
            ax == w.x || ax == -w.x,
            ax >= 0,
    ;
    assert(-(l * ay) <= ex * w.y <= l * ay) by (nonlinear_arith)
        requires
            -l < ex < l,
            ay == w.y || ay == -w.y,
            ay >= 0,
    ;
    assert(-(ax + ay) <= c <= ax + ay) by (nonlinear_arith)
        requires
            -(l * ax) - l * ay <= l * c <= l * ax + l * ay,
            l > 0,
    ;
}

proof fn lemma_rounded_square(whole: int, part: int, rest: int, size: int, l: int)
    requires
        (whole >= 0 && 0 <= rest < l) || (whole <= 0 && -l < rest <= 0),
        size == abs(whole),
        part == whole * 1_000_000 - rest,
    ensures
        part * part >= (whole * whole) * 1_000_000_000_000 - 2_000_000 * (size * l),
{
    let t = whole * rest;
    assert(0 <= t <= size * l) by (nonlinear_arith)
        requires
            t == whole * rest,
            (whole >= 0 && 0 <= rest < l && size == whole) || (whole <= 0 && -l < rest <= 0 && size
                == -whole),
    ;
    assert(part * part == (whole * whole) * 1_000_000_000_000 - 2_000_000 * t + rest * rest)
        by (nonlinear_arith)
        requires
            part == whole * 1_000_000 - rest,
            t == whole * rest,
    ;
    assert(rest * rest >= 0) by (nonlinear_arith);
}

proof fn lemma_rounded_long(w: Vector)
    requires
        w.norm_sq() >= 4 * (ONE * ONE),
    ensures
        w.rounded().norm_sq() >= ONE * ONE - 5 * ONE,
{
    let d = w.rounded();
    let n = w.norm_sq();
    let l = ceil_sqrt(n);
    lemma_norm_sq_positive(w);
    lemma_ceil_sqrt(n);
    assert(ONE * ONE == 1_000_000_000_000);
    assert(w.x != 0 || w.y != 0);
    lemma_trunc_div_bounds(w.x * ONE, l);
    lemma_trunc_div_bounds(w.y * ONE, l);
    let ll = l * l;
    assert(l >= 2_000_000) by (nonlinear_arith)
        requires
            l * l >= 4_000_000_000_000,
            l >= 0,
    ;
    assert(ll >= 2_000_000 * l) by (nonlinear_arith)
        requires
            ll == l * l,
            l >= 2_000_000,
    ;
    assert(n >= ll - 2 * l + 1) by (nonlinear_arith)
        requires
            (l - 1) * (l - 1) < n,
            ll == l * l,
    ;
    let ax = abs(w.x);
    let ay = abs(w.y);
    let wx = w.x;
    let wy = w.y;
    assert(wx * wx >= 0 && wy * wy >= 0) by (nonlinear_arith);
    assert(ax * ax == wx * wx) by (nonlinear_arith)
        requires
            ax == wx || ax == -wx,
    ;
    assert(ay * ay == wy * wy) by (nonlinear_arith)
        requires
            ay == wy || ay == -wy,
    ;
    assert(ax <= l) by (nonlinear_arith)
        requires
            ax * ax <= l * l,
            ax >= 0,
            l >= 0,
    ;
    assert(ay <= l) by (nonlinear_arith)
        requires
            ay * ay <= l * l,
            ay >= 0,
            l >= 0,
    ;
    assert(ax * l + ay * l <= 2 * ll) by (nonlinear_arith)
        requires
            0 <= ax <= l,
            0 <= ay <= l,
            ll == l * l,
    ;
    let px = d.x * l;
    let py = d.y * l;
    lemma_rounded_square(wx, px, wx * 1_000_000 - px, ax, l);
    lemma_rounded_square(wy, py, wy * 1_000_000 - py, ay, l);
    let s = d.norm_sq();
    assert(s * ll == px * px + py * py) by (nonlinear_arith)
        requires
            s == d.x * d.x + d.y * d.y,
            ll == l * l,
            px == d.x * l,
            py == d.y * l,
    ;
    assert(s * ll >= 999_995_000_000 * ll);
    assert(s >= 999_995_000_000) by (nonlinear_arith)
        requires
            s * ll >= 999_995_000_000 * ll,
            ll > 0,
    ;
}

proof fn lemma_share(c: int, d: int, l: int, n: int)
    requires
        (c >= 0 && d >= 0 && 0 <= c * 1_000_000 - d * l < l) || (c <= 0 && d <= 0 && -l < c
            * 1_000_000 - d * l <= 0),
        abs(d) + 2 <= l,
        (l - 1) * (l - 1) < n <= l * l,
    ensures
        is_share(d, c, n),
{
    let q = abs(d);
    let a = abs(c);
    let big = a * 1_000_000;
    let ql = q * l;
    assert(ql >= 0 && (q == d ==> ql == d * l) && (q == -d ==> ql == -(d * l)))
        by (nonlinear_arith)
        requires
            ql == q * l,
            q >= 0,
            l >= 2,
    ;
    assert(0 <= ql <= big < ql + l);
    assert(ql * ql <= big * big) by (nonlinear_arith)
        requires
            0 <= ql <= big,
    ;
    assert(ql * ql == (q * q) * (l * l)) by (nonlinear_arith)
        requires
            ql == q * l,
    ;
    assert((q * q) * n <= (q * q) * (l * l)) by (nonlinear_arith)
        requires
            n <= l * l,
    ;
    assert(big * big == (c * c) * 1_000_000_000_000) by (nonlinear_arith)
        requires
            big == a * 1_000_000,
            a == c || a == -c,
    ;
    let m = (q + 2) * (l - 1);
    assert(m >= ql + l) by (nonlinear_arith)
        requires
            m == (q + 2) * (l - 1),
            ql == q * l,
            q + 2 <= l,
    ;
    assert(m * m > big * big) by (nonlinear_arith)
        requires
            0 <= big < m,
    ;
    assert(m * m == ((q + 2) * (q + 2)) * ((l - 1) * (l - 1))) by (nonlinear_arith)
        requires
            m == (q + 2) * (l - 1),
    ;
    assert(((q + 2) * (q + 2)) * n >= ((q + 2) * (q + 2)) * ((l - 1) * (l - 1)))
        by (nonlinear_arith)
        requires
            n > (l - 1) * (l - 1),
    ;
    assert(ONE * ONE == 1_000_000_000_000);
}

proof fn lemma_rounded_accuracy(w: Vector)
    requires
        w.norm_sq() >= 0x4000_0000_0000_0000,
    ensures
        is_share(w.rounded().x, w.x, w.norm_sq()),
        is_share(w.rounded().y, w.y, w.norm_sq()),
{
    let d = w.rounded();
    let n = w.norm_sq();
    let l = ceil_sqrt(n);
    lemma_norm_sq_positive(w);
    lemma_ceil_sqrt(n);
    assert(w.x != 0 || w.y != 0);
    lemma_rounded_length(w);
    lemma_trunc_div_bounds(w.x * ONE, l);
    lemma_trunc_div_bounds(w.y * ONE, l);
    assert(l >= 0x8000_0000) by (nonlinear_arith)
        requires
            l * l >= 0x4000_0000_0000_0000,
            l >= 0,
    ;
    lemma_share(w.x, d.x, l, n);
    lemma_share(w.y, d.y, l, n);
}

/// What fitting does to a vector: it brings it within `REACH`, leaves a
/// vector within `REACH` as it is, turns no coordinate to the other side of
/// zero, and leaves something of every vector but the zero vector.
pub proof fn lemma_fitted(v: Vector)
    ensures
        v.fitted().within(REACH as int),
        v.within(REACH as int) ==> v.fitted() == v,
        v.x >= 0 ==> v.fitted().x >= 0,
        v.x <= 0 ==> v.fitted().x <= 0,
        v.y >= 0 ==> v.fitted().y >= 0,
        v.y <= 0 ==> v.fitted().y <= 0,
        (v.x != 0 || v.y != 0) ==> (v.fitted().x != 0 || v.fitted().y != 0),
    decreases abs(v.x) + abs(v.y),
{
    if !v.within(REACH as int) {
        lemma_fitted(Vector { x: trunc_div(v.x, 2), y: trunc_div(v.y, 2) });
    }
}

/// The vector whose rounded direction is the direction of `v`: it is not the
/// zero vector, it is within `REACH`, it is long enough for the rounding of
/// its length not to count, and it points where `v` points.
proof fn lemma_working(v: Vector)
    requires
        v.x != 0 || v.y != 0,
    ensures
        v.normalized() == v.fitted().widened().rounded(),
        v.fitted().widened().x != 0 || v.fitted().widened().y != 0,
        v.fitted().widened().within(REACH as int),
        v.fitted().widened().norm_sq() >= 0x4000_0000_0000_0000,
        v.x >= 0 ==> v.fitted().widened().x >= 0,
        v.x <= 0 ==> v.fitted().widened().x <= 0,
        v.y >= 0 ==> v.fitted().widened().y >= 0,
        v.y <= 0 ==> v.fitted().widened().y <= 0,
{
    lemma_fitted(v);
    let f = v.fitted();
    let w = f.widened();
    let wx = w.x;
    let wy = w.y;
    assert(wx * wx >= 0 && wy * wy >= 0) by (nonlinear_arith);
    if f.within(SHORT as int) {
        assert(wx == f.x * 0x1_0000_0000 && wy == f.y * 0x1_0000_0000);
        if f.x != 0 {
            assert(wx * wx >= 0x1_0000_0000_0000_0000) by (nonlinear_arith)
                requires
                    wx >= 0x1_0000_0000 || wx <= -0x1_0000_0000,
            ;
        } else {
            assert(wy * wy >= 0x1_0000_0000_0000_0000) by (nonlinear_arith)
                requires
                    wy >= 0x1_0000_0000 || wy <= -0x1_0000_0000,
            ;
        }
    } else {
        if wx > SHORT || wx < -SHORT {
            assert(wx * wx >= 0x4000_0000_0000_0000) by (nonlinear_arith)
                requires
                    wx >= 0x8000_0000 || wx <= -0x8000_0000,
            ;
        } else {
            assert(wy * wy >= 0x4000_0000_0000_0000) by (nonlinear_arith)
                requires
                    wy >= 0x8000_0000 || wy <= -0x8000_0000,
            ;
        }
    }
}

/// A direction is never longer than one.
pub proof fn lemma_normalized_length(v: Vector)
    ensures
        v.normalized().norm_sq() <= ONE * ONE,
        v.normalized().within(ONE as int),
{
    if v.x != 0 || v.y != 0 {
        lemma_working(v);
        lemma_rounded_length(v.fitted().widened());
    }
}

/// The direction of every vector but the zero vector is one long, up to
/// rounding: the square of its length falls short of one by less than five
/// millionths, however short or long the vector is.
pub proof fn lemma_normalized_unit(v: Vector)
    requires
        v != Vector::zero(),
    ensures
        ONE * ONE - 5 * ONE <= v.normalized().norm_sq() <= ONE * ONE,
{
    lemma_working(v);
    lemma_rounded_length(v.fitted().widened());
    lemma_rounded_long(v.fitted().widened());
}

/// A direction points where its vector points: no coordinate lies on the
/// other side of zero, and but for the zero vector the two make a sharp
/// angle. The direction of a vector within `REACH` is parallel to the vector
/// up to the rounding of its two coordinates.
pub proof fn lemma_normalized_direction(v: Vector)
    ensures
        v.x >= 0 ==> v.normalized().x >= 0,
        v.x <= 0 ==> v.normalized().x <= 0,
        v.y >= 0 ==> v.normalized().y >= 0,
        v.y <= 0 ==> v.normalized().y <= 0,
        v != Vector::zero() ==> dot(v.normalized(), v) > 0,
        v.within(REACH as int) ==> abs(cross(v.normalized(), v)) <= abs(v.x) + abs(v.y),
{
    let d = v.normalized();
    if v.x == 0 && v.y == 0 {
        assert(cross(d, v) == 0) by (nonlinear_arith)
            requires
                v.x == 0,
                v.y == 0,
        ;
    } else {
        lemma_working(v);
        let w = v.fitted().widened();
        lemma_rounded_heading(w);
        lemma_rounded_long(w);
        let dx = d.x;
        let dy = d.y;
        let vx = v.x;
        let vy = v.y;
        assert(dx * dx + dy * dy > 0);
        assert(dx != 0 || dy != 0) by (nonlinear_arith)
            requires
                dx * dx + dy * dy > 0,
        ;
        assert(dx * vx >= 0 && (dx != 0 ==> dx * vx > 0)) by (nonlinear_arith)
            requires
                (vx >= 0 && dx >= 0) || (vx <= 0 && dx <= 0),
                dx != 0 ==> vx != 0,
        ;
        assert(dy * vy >= 0 && (dy != 0 ==> dy * vy > 0)) by (nonlinear_arith)
            requires
                (vy >= 0 && dy >= 0) || (vy <= 0 && dy <= 0),
                dy != 0 ==> vy != 0,
        ;
        if v.within(REACH as int) {
            let k: int = if v.within(SHORT as int) {
                0x1_0000_0000
            } else {
                1
            };
            assert(w.x == k * vx && w.y == k * vy);
            let c = cross(d, v);
            assert(cross(d, w) == k * c) by (nonlinear_arith)
                requires
                    cross(d, w) == dx * w.y - dy * w.x,
                    c == dx * vy - dy * vx,
                    w.x == k * vx,
                    w.y == k * vy,
            ;
            assert(abs(w.x) + abs(w.y) == k * (abs(vx) + abs(vy)));
        }
    }
}

/// How near a direction comes to the true one: each of its coordinates is
/// the share that the vector's coordinate has in the vector's length,
/// rounded down, and short of it by less than two millionths.
pub proof fn lemma_normalized_accuracy(v: Vector)
    requires
        v != Vector::zero(),
        v.within(REACH as int),
    ensures
        is_share(v.normalized().x, v.x, v.norm_sq()),
        is_share(v.normalized().y, v.y, v.norm_sq()),
{
    lemma_working(v);
    let w = v.fitted().widened();
    lemma_rounded_accuracy(w);
    if v.within(SHORT as int) {
        let d = v.normalized();
        let n = v.norm_sq();
        assert(w.norm_sq() == 0x1_0000_0000_0000_0000 * n) by (nonlinear_arith)
            requires
                w.norm_sq() == w.x * w.x + w.y * w.y,
                n == v.x * v.x + v.y * v.y,
                w.x == v.x * 0x1_0000_0000,
                w.y == v.y * 0x1_0000_0000,
        ;
        lemma_share_widened(d.x, v.x, w.x, n, w.norm_sq());
        lemma_share_widened(d.y, v.y, w.y, n, w.norm_sq());
    }
}

proof fn lemma_share_widened(d: int, c: int, wide: int, n: int, wide_n: int)
    requires
        wide == c * 0x1_0000_0000,
        wide_n == 0x1_0000_0000_0000_0000 * n,
        is_share(d, wide, wide_n),
    ensures
        is_share(d, c, n),
{
    let q = abs(d);
    let low = (q * q) * n;
    let mid = (c * c) * (ONE * ONE);
    let high = ((q + 2) * (q + 2)) * n;
    assert((q * q) * wide_n == 0x1_0000_0000_0000_0000 * low) by (nonlinear_arith)
        requires
            wide_n == 0x1_0000_0000_0000_0000 * n,
            low == (q * q) * n,
    ;
    assert(((q + 2) * (q + 2)) * wide_n == 0x1_0000_0000_0000_0000 * high) by (nonlinear_arith)
        requires
            wide_n == 0x1_0000_0000_0000_0000 * n,
            high == ((q + 2) * (q + 2)) * n,
    ;
    assert((wide * wide) * (ONE * ONE) == 0x1_0000_0000_0000_0000 * mid) by (nonlinear_arith)
        requires
            wide == c * 0x1_0000_0000,
            mid == (c * c) * (ONE * ONE),
    ;
}

/// A direction depends on where the vector points and not on how long it
/// is: the direction of a vector taken `k` times differs from the direction
/// of the vector by at most one millionth in either coordinate.
pub proof fn lemma_normalized_ignores_length(v: Vector, k: int)
    requires
        k > 0,
        v != Vector::zero(),
        v.within(REACH as int),
        v.times(k).within(REACH as int),
    ensures
        -1 <= v.times(k).normalized().x - v.normalized().x <= 1,
        -1 <= v.times(k).normalized().y - v.normalized().y <= 1,
{
    let u = v.times(k);
    assert(u.x != 0 || u.y != 0) by (nonlinear_arith)
        requires
            u.x == v.x * k,
            u.y == v.y * k,
            k > 0,
            v.x != 0 || v.y != 0,
    ;
    lemma_normalized_accuracy(v);
    lemma_normalized_accuracy(u);
    lemma_normalized_direction(v);
    lemma_normalized_direction(u);
    lemma_norm_sq_positive(v);
    let n = v.norm_sq();
    assert(u.norm_sq() == (k * k) * n) by (nonlinear_arith)
        requires
            u.norm_sq() == u.x * u.x + u.y * u.y,
            n == v.x * v.x + v.y * v.y,
            u.x == v.x * k,
            u.y == v.y * k,
    ;
    let vx = v.x;
    let vy = v.y;
    assert((vx >= 0 ==> vx * k >= 0) && (vx <= 0 ==> vx * k <= 0)) by (nonlinear_arith)
        requires
            k > 0,
    ;
    assert((vy >= 0 ==> vy * k >= 0) && (vy <= 0 ==> vy * k <= 0)) by (nonlinear_arith)
        requires
            k > 0,
    ;
    lemma_same_share(v.normalized().x, u.normalized().x, v.x, u.x, n, u.norm_sq(), k);
    lemma_same_share(v.normalized().y, u.normalized().y, v.y, u.y, n, u.norm_sq(), k);
}

proof fn lemma_same_share(d: int, e: int, c: int, long: int, n: int, long_n: int, k: int)
    requires
        k > 0,
        n > 0,
        long == c * k,
        long_n == (k * k) * n,
        is_share(d, c, n),
        is_share(e, long, long_n),
        (c >= 0 && d >= 0 && e >= 0) || (c <= 0 && d <= 0 && e <= 0),
    ensures
        -1 <= e - d <= 1,
{
    let a = abs(d);
    let b = abs(e);
    let kk = k * k;
    let mid = (c * c) * (ONE * ONE);
    assert(kk > 0) by (nonlinear_arith)
        requires
            kk == k * k,
            k > 0,
    ;
    assert((long * long) * (ONE * ONE) == kk * mid) by (nonlinear_arith)
        requires
            long == c * k,
            kk == k * k,
            mid == (c * c) * (ONE * ONE),
    ;
    let low = (b * b) * n;
    let high = ((b + 2) * (b + 2)) * n;
    assert((b * b) * long_n == kk * low) by (nonlinear_arith)
        requires
            long_n == kk * n,
            low == (b * b) * n,
    ;
    assert(((b + 2) * (b + 2)) * long_n == kk * high) by (nonlinear_arith)
        requires
            long_n == kk * n,
            high == ((b + 2) * (b + 2)) * n,
    ;
    assert(low <= mid < high) by (nonlinear_arith)
        requires
            kk * low <= kk * mid,
            kk * mid < kk * high,
            kk > 0,
    ;
    assert(a < b + 2) by (nonlinear_arith)
        requires
            (a * a) * n <= mid,
            mid < ((b + 2) * (b + 2)) * n,
            n > 0,
            a >= 0,
            b >= 0,
    ;
    assert(b < a + 2) by (nonlinear_arith)
        requires
            (b * b) * n <= mid,
            mid < ((a + 2) * (a + 2)) * n,
            n > 0,
            a >= 0,
            b >= 0,
    ;
}

/// Tells whether neither coordinate lies farther than `REACH` from zero.
fn reaches(x: i128, y: i128) -> (b: bool)
    ensures
        b == (Vector { x: x as int, y: y as int }).within(REACH as int),
{
    -REACH <= x && x <= REACH && -REACH <= y && y <= REACH
}

/// The direction of the vector with the coordinates `x` and `y`; the zero
/// vector for the zero vector.
pub fn direction(x: i128, y: i128) -> (r: Vec2)
    ensures
        r@ == (Vector { x: x as int, y: y as int }).normalized(),
        r@.within(ONE as int),
        r@.norm_sq() <= ONE * ONE,
{
    let ghost v = Vector { x: x as int, y: y as int };
    proof {
        lemma_normalized_length(v);
    }
    if x == 0 && y == 0 {
        return Vec2 { x: 0, y: 0 };
    }
    let mut wx: i128 = x;
    let mut wy: i128 = y;
    while !reaches(wx, wy)
        invariant
            (Vector { x: wx as int, y: wy as int }).fitted() == v.fitted(),
        decreases abs(wx as int) + abs(wy as int),
    {
        wx = div_toward_zero(wx, 2);
        wy = div_toward_zero(wy, 2);
    }
    proof {
        lemma_working(v);
        lemma_fitted(Vector { x: wx as int, y: wy as int });
    }
    if -(SHORT as i128) <= wx && wx <= SHORT as i128 && -(SHORT as i128) <= wy && wy
        <= SHORT as i128 {
        wx = wx * WIDENING as i128;
        wy = wy * WIDENING as i128;
    }
    assert((Vector { x: wx as int, y: wy as int }) == v.fitted().widened());
    let ax: u128 = magnitude(wx);
    let ay: u128 = magnitude(wy);
    assert(ax * ax == wx * wx && ax * ax <= 0x4000_0000_0000_0000_0000_0000_0000_0000)
        by (nonlinear_arith)
        requires
            ax == wx || ax == -wx,
            0 <= ax <= 0x8000_0000_0000_0000,
    ;
    assert(ay * ay == wy * wy && ay * ay <= 0x4000_0000_0000_0000_0000_0000_0000_0000)
        by (nonlinear_arith)
        requires
            ay == wy || ay == -wy,
            0 <= ay <= 0x8000_0000_0000_0000,
    ;
    let n: u128 = ax * ax + ay * ay;
    let l: u128 = isqrt_up(n);
    proof {
        lemma_ceil_sqrt(n as int);
        lemma_rounded_length(v.fitted().widened());
    }
    let dx: i128 = div_toward_zero(wx * ONE as i128, l as i128);
    let dy: i128 = div_toward_zero(wy * ONE as i128, l as i128);
    Vec2 { x: dx as i64, y: dy as i64 }
}

impl Vec2 {
    /// The direction of the vector; the zero vector for the zero vector.
    pub fn normalized(self) -> (r: Vec2)
        ensures
            r@ == self@.normalized(),
            r@.within(ONE as int),
            r@.norm_sq() <= ONE * ONE,
    {
        direction(self.x as i128, self.y as i128)
    }
}

} // verus!
