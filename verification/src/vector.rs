//! Points and vectors of the plane, and the distance between two points.

use vstd::prelude::*;
use crate::fixed::{ONE, LIMIT, trunc_div, saturated, saturate};
use crate::root::{floor_sqrt, ceil_sqrt, isqrt, lemma_floor_sqrt, lemma_floor_sqrt_is,
    lemma_floor_sqrt_below, is_floor_root};

verus! {

/// The farthest from zero that a coordinate may lie for the squares of a
/// vector to be held: two to the power of 63.
pub const REACH: i128 = 0x8000_0000_0000_0000;

/// A vector with no coordinate farther from zero than this is widened before
/// its length is taken.
pub const SHORT: i64 = 0x7fff_ffff;

/// How many times a short vector is taken before its length is taken.
pub const WIDENING: i64 = 0x1_0000_0000;

/// A point or a vector with fixed-point coordinates.
#[derive(Clone, Copy, Debug, PartialEq, Eq, Structural)]
pub struct Vec2 {
    pub x: i64,
    pub y: i64,
}

/// What a `Vec2` stands for: a vector over the integers, which no sum or
/// product can overflow.
pub struct Vector {
    pub x: int,
    pub y: int,
}

impl Vector {
    pub open spec fn zero() -> Vector {
        Vector { x: 0, y: 0 }
    }

    pub open spec fn plus(self, other: Vector) -> Vector {
        Vector { x: self.x + other.x, y: self.y + other.y }
    }

    pub open spec fn minus(self, other: Vector) -> Vector {
        Vector { x: self.x - other.x, y: self.y - other.y }
    }

    /// The square of the length.
    pub open spec fn norm_sq(self) -> int {
        self.x * self.x + self.y * self.y
    }

    /// Neither coordinate lies farther than `m` from zero.
    pub open spec fn within(self, m: int) -> bool {
        -m <= self.x <= m && -m <= self.y <= m
    }

    /// The product with the fixed-point scalar `k`.
    pub open spec fn scaled(self, k: int) -> Vector {
        Vector { x: trunc_div(self.x * k, ONE as int), y: trunc_div(self.y * k, ONE as int) }
    }

    /// The quotient by the positive fixed-point scalar `d`.
    pub open spec fn divided(self, d: int) -> Vector {
        Vector { x: trunc_div(self.x * ONE, d), y: trunc_div(self.y * ONE, d) }
    }

    /// The quotient by the positive whole number `n`.
    pub open spec fn over(self, n: int) -> Vector {
        Vector { x: trunc_div(self.x, n), y: trunc_div(self.y, n) }
    }

    /// Each coordinate brought back onto the plane.
    pub open spec fn saturated(self) -> Vector {
        Vector { x: saturated(self.x), y: saturated(self.y) }
    }

    /// The product with the whole number `n`.
    pub open spec fn times(self, n: int) -> Vector {
        Vector { x: self.x * n, y: self.y * n }
    }

    /// The vector halved, coordinate by coordinate and rounding toward zero,
    /// as often as it takes to bring it within `REACH`: the squares of what
    /// is left can be held. A vector within `REACH` is left as it is.
    pub open spec fn fitted(self) -> Vector
        decreases abs(self.x) + abs(self.y),
    {
        if self.within(REACH as int) {
            self
        } else {
            (Vector { x: trunc_div(self.x, 2), y: trunc_div(self.y, 2) }).fitted()
        }
    }

    /// A vector within `SHORT` taken `WIDENING` times, so that the rounding
    /// of its length no longer counts; a longer one as it is.
    pub open spec fn widened(self) -> Vector {
        if self.within(SHORT as int) {
            self.times(WIDENING as int)
        } else {
            self
        }
    }

    /// The vector divided by its length rounded up.
    pub open spec fn rounded(self) -> Vector {
        self.divided(ceil_sqrt(self.norm_sq()))
    }

    /// The direction of the vector: the vector brought to length one. It is
    /// fitted and widened first, which leaves its direction as it is, and
    /// then divided by its length rounded up, so that a direction is never
    /// longer than one. The zero vector has the zero vector for direction.
    pub open spec fn normalized(self) -> Vector {
        if self.x == 0 && self.y == 0 {
            Vector::zero()
        } else {
            self.fitted().widened().rounded()
        }
    }

    /// The distance to `other`, rounded down.
    pub open spec fn distance(self, other: Vector) -> int {
        floor_sqrt(self.minus(other).norm_sq())
    }
}

impl View for Vec2 {
    type V = Vector;

    open spec fn view(&self) -> Vector {
        Vector { x: self.x as int, y: self.y as int }
    }
}

pub(crate) proof fn lemma_square_le(a: int, b: int)
    requires
        0 <= a <= b || b <= a <= 0,
    ensures
        a * a <= b * b,
{
    assert(a * a <= b * b) by (nonlinear_arith)
        requires
            0 <= a <= b || b <= a <= 0,
    ;
}

pub(crate) proof fn lemma_square_root_le(a: int, m: int)
    requires
        a * a <= m * m,
        m >= 0,
    ensures
        -m <= a <= m,
{
    assert(-m <= a <= m) by (nonlinear_arith)
        requires
            a * a <= m * m,
            m >= 0,
    ;
}

/// Only the zero vector has length zero.
pub proof fn lemma_norm_sq_positive(v: Vector)
    ensures
        v.norm_sq() >= 0,
        v.norm_sq() == 0 <==> v == Vector::zero(),
{
    assert(v.x * v.x >= 0 && (v.x != 0 ==> v.x * v.x > 0)) by (nonlinear_arith);
    assert(v.y * v.y >= 0 && (v.y != 0 ==> v.y * v.y > 0)) by (nonlinear_arith);
}

/// The cross product of two vectors: zero exactly when they are parallel.
pub open spec fn cross(a: Vector, b: Vector) -> int {
    a.x * b.y - a.y * b.x
}

/// The dot product of two vectors: positive when they point the same way.
pub open spec fn dot(a: Vector, b: Vector) -> int {
    a.x * b.x + a.y * b.y
}

/// `|v|`.
pub open spec fn abs(v: int) -> int {
    if v >= 0 {
        v
    } else {
        -v
    }
}

/// The distance from `a` to `b` is the distance from `b` to `a`.
pub proof fn lemma_distance_symmetric(a: Vector, b: Vector)
    ensures
        a.distance(b) == b.distance(a),
{
    assert((a.x - b.x) * (a.x - b.x) == (b.x - a.x) * (b.x - a.x)) by (nonlinear_arith);
    assert((a.y - b.y) * (a.y - b.y) == (b.y - a.y) * (b.y - a.y)) by (nonlinear_arith);
}

/// A distance is never negative, and it is zero between a point and itself.
pub proof fn lemma_distance_to_self(a: Vector, b: Vector)
    ensures
        a.distance(b) >= 0,
        a.distance(a) == 0,
        a != b ==> a.distance(b) >= 1,
{
    lemma_norm_sq_positive(a.minus(b));
    lemma_floor_sqrt(a.minus(b).norm_sq());
    assert(is_floor_root(0, 0));
    lemma_floor_sqrt_is(0, 0);
    if a != b {
        assert(a.minus(b) != Vector::zero());
        lemma_floor_sqrt_below(a.minus(b).norm_sq(), 1);
    }
}

/// A point lies nearer than `radius` exactly when the square of its distance
/// is less than the square of the radius: rounding the distance down loses
/// nothing in the comparison.
pub proof fn lemma_distance_below(a: Vector, b: Vector, radius: int)
    requires
        radius >= 0,
    ensures
        a.distance(b) < radius <==> a.minus(b).norm_sq() < radius * radius,
{
    lemma_norm_sq_positive(a.minus(b));
    lemma_floor_sqrt_below(a.minus(b).norm_sq(), radius);
}

impl Vec2 {
    /// Both coordinates lie on the plane.
    pub open spec fn on_plane(self) -> bool {
        self@.within(LIMIT as int)
    }

    pub fn new(x: i64, y: i64) -> (v: Vec2)
        ensures
            v.x == x,
            v.y == y,
    {
        Vec2 { x, y }
    }

    pub fn zero() -> (v: Vec2)
        ensures
            v@ == Vector::zero(),
    {
        Vec2 { x: 0, y: 0 }
    }

    /// The vector with each coordinate brought back onto the plane.
    pub fn clamped(x: i64, y: i64) -> (v: Vec2)
        ensures
            v@ == (Vector { x: x as int, y: y as int }).saturated(),
            v.on_plane(),
    {
        Vec2 { x: saturate(x as i128), y: saturate(y as i128) }
    }

    /// Tells whether both coordinates lie on the plane.
    pub fn is_on_plane(&self) -> (b: bool)
        ensures
            b == self.on_plane(),
    {
        -LIMIT <= self.x && self.x <= LIMIT && -LIMIT <= self.y && self.y <= LIMIT
    }

    /// The sum of two vectors, where it can be held.
    pub fn plus(self, other: Vec2) -> (r: Vec2)
        requires
            i64::MIN <= self.x + other.x <= i64::MAX,
            i64::MIN <= self.y + other.y <= i64::MAX,
        ensures
            r@ == self@.plus(other@),
    {
        Vec2 { x: self.x + other.x, y: self.y + other.y }
    }

    /// The difference of two vectors, where it can be held.
    pub fn minus(self, other: Vec2) -> (r: Vec2)
        requires
            i64::MIN <= self.x - other.x <= i64::MAX,
            i64::MIN <= self.y - other.y <= i64::MAX,
        ensures
            r@ == self@.minus(other@),
    {
        Vec2 { x: self.x - other.x, y: self.y - other.y }
    }

    /// The square of the length.
    pub fn norm_sq(self) -> (n: u128)
        ensures
            n == self@.norm_sq(),
            n <= 0x8000_0000_0000_0000_0000_0000_0000_0000,
    {
        let ax: u128 = magnitude(self.x as i128);
        let ay: u128 = magnitude(self.y as i128);
        assert(ax * ax == self.x * self.x && ax * ax <= 0x4000_0000_0000_0000_0000_0000_0000_0000)
            by (nonlinear_arith)
            requires
                ax == self.x || ax == -self.x,
                0 <= ax <= 0x8000_0000_0000_0000,
        ;
        assert(ay * ay == self.y * self.y && ay * ay <= 0x4000_0000_0000_0000_0000_0000_0000_0000)
            by (nonlinear_arith)
            requires
                ay == self.y || ay == -self.y,
                0 <= ay <= 0x8000_0000_0000_0000,
        ;
        ax * ax + ay * ay
    }
}

/// `|v|` as an unsigned number.
pub(crate) fn magnitude(v: i128) -> (m: u128)
    requires
        -REACH <= v <= REACH,
    ensures
        m == abs(v as int),
{
    if v >= 0 {
        v as u128
    } else {
        (-v) as u128
    }
}

/// The distance between two points of the plane, rounded down.
pub fn distance(a: Vec2, b: Vec2) -> (d: i64)
    requires
        a.on_plane(),
        b.on_plane(),
    ensures
        d == a@.distance(b@),
        0 <= d <= 3 * LIMIT,
        d == 0 <==> a == b,
{
    let diff: Vec2 = a.minus(b);
    let n: u128 = diff.norm_sq();
    let r: u64 = isqrt(n);
    proof {
        let bound: int = 2 * LIMIT;
        let dv = a@.minus(b@);
        assert(dv.x * dv.x <= bound * bound) by (nonlinear_arith)
            requires
                -bound <= dv.x <= bound,
        ;
        assert(dv.y * dv.y <= bound * bound) by (nonlinear_arith)
            requires
                -bound <= dv.y <= bound,
        ;
        lemma_floor_sqrt_below(n as int, 3 * LIMIT);
        lemma_distance_to_self(a@, b@);
    }
    r as i64
}

} // verus!
