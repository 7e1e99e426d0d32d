//! The three flocking rules: separation, alignment and cohesion.
//!
//! Each rule looks at the neighbours of a point: the units of the flock that
//! stand elsewhere than the point and nearer to it than the rule's radius.

use vstd::prelude::*;
use crate::fixed::{ONE, LIMIT, trunc_div, div_toward_zero, saturate, lemma_trunc_div_bounds,
    lemma_trunc_div_within};
use crate::vector::{Vec2, Vector, abs, dot, distance, lemma_norm_sq_positive};
use crate::direction::{direction, lemma_normalized_unit, lemma_normalized_direction};
use crate::unit::{Unit, UnitView, views, flock_wf};

verus! {

/// `q` stands elsewhere than `p` and nearer to it than `radius`.
pub open spec fn is_neighbor(p: Vector, q: Vector, radius: int) -> bool {
    q != p && p.distance(q) < radius
}

/// The test that picks the neighbours of `p` out of a flock.
pub open spec fn neighbor_test(p: Vector, radius: int) -> spec_fn(UnitView) -> bool {
    |u: UnitView| is_neighbor(p, u.position, radius)
}

/// The neighbours of `p` among `others`, in their order.
pub open spec fn neighbors(p: Vector, others: Seq<UnitView>, radius: int) -> Seq<UnitView> {
    others.filter(neighbor_test(p, radius))
}

/// The push that a neighbour at `q` gives to a unit at `p`: away from the
/// neighbour, and the stronger the nearer it stands. It is the direction
/// from `q` to `p` divided by the distance, which is the vector from `q` to
/// `p` divided by the square of its length; it is taken in this one
/// division, and so rounded once.
pub open spec fn repulsion(p: Vector, q: Vector) -> Vector {
    let d = p.minus(q);
    Vector {
        x: trunc_div(d.x * (ONE * ONE), d.norm_sq()),
        y: trunc_div(d.y * (ONE * ONE), d.norm_sq()),
    }
}

/// The sum of the pushes that the units of `near` give to a unit at `p`.
pub open spec fn repulsion_sum(p: Vector, near: Seq<UnitView>) -> Vector
    decreases near.len(),
{
    if near.len() == 0 {
        Vector::zero()
    } else {
        repulsion_sum(p, near.drop_last()).plus(repulsion(p, near.last().position))
    }
}

/// The sum of the velocities of the units of `near`.
pub open spec fn velocity_sum(near: Seq<UnitView>) -> Vector
    decreases near.len(),
{
    if near.len() == 0 {
        Vector::zero()
    } else {
        velocity_sum(near.drop_last()).plus(near.last().velocity)
    }
}

/// The sum of the positions of the units of `near`.
pub open spec fn position_sum(near: Seq<UnitView>) -> Vector
    decreases near.len(),
{
    if near.len() == 0 {
        Vector::zero()
    } else {
        position_sum(near.drop_last()).plus(near.last().position)
    }
}

/// Separation: the sum of the pushes of all neighbours, not averaged, and
/// brought back onto the plane where it would leave it.
pub open spec fn separation_force(p: Vector, others: Seq<UnitView>, radius: int) -> Vector {
    repulsion_sum(p, neighbors(p, others, radius)).saturated()
}

/// Alignment: the average velocity of the neighbours; zero without any.
pub open spec fn alignment_force(p: Vector, others: Seq<UnitView>, radius: int) -> Vector {
    let near = neighbors(p, others, radius);
    if near.len() == 0 {
        Vector::zero()
    } else {
        velocity_sum(near).over(near.len() as int)
    }
}

/// Cohesion: the direction from `p` to the average position of the
/// neighbours; zero without any. The direction is taken of the sum of the
/// neighbours' positions less `p` as many times, which points the same way
/// as the average less `p` and needs no rounding of the average.
pub open spec fn cohesion_force(p: Vector, others: Seq<UnitView>, radius: int) -> Vector {
    let near = neighbors(p, others, radius);
    if near.len() == 0 {
        Vector::zero()
    } else {
        position_sum(near).minus(p.times(near.len() as int)).normalized()
    }
}

/// The test that picks the units standing elsewhere than `p`.
pub open spec fn elsewhere(p: Vector) -> spec_fn(UnitView) -> bool {
    |u: UnitView| u.position != p
}

/// Every neighbour of `p` is a unit of the flock that stands elsewhere than
/// `p` and nearer to it than the radius.
pub proof fn lemma_neighbors_qualify(p: Vector, others: Seq<UnitView>, radius: int, k: int)
    requires
        0 <= k < neighbors(p, others, radius).len(),
    ensures
        others.contains(neighbors(p, others, radius)[k]),
        neighbors(p, others, radius)[k].position != p,
        p.distance(neighbors(p, others, radius)[k].position) < radius,
{
    let near = neighbors(p, others, radius);
    others.lemma_filter_pred(neighbor_test(p, radius), k);
    assert(near.contains(near[k]));
    others.lemma_filter_contains_rev(neighbor_test(p, radius), near[k]);
}

/// Where no unit of the flock stands elsewhere than `p` and nearer than the
/// radius, `p` has no neighbours, and all three rules give exactly the zero
/// vector.
pub proof fn lemma_no_neighbors(p: Vector, others: Seq<UnitView>, radius: int)
    requires
        forall|i: int|
            0 <= i < others.len() ==> !is_neighbor(p, (#[trigger] others[i]).position, radius),
    ensures
        neighbors(p, others, radius).len() == 0,
        separation_force(p, others, radius) == Vector::zero(),
        alignment_force(p, others, radius) == Vector::zero(),
        cohesion_force(p, others, radius) == Vector::zero(),
{
    let near = neighbors(p, others, radius);
    if near.len() > 0 {
        lemma_neighbors_qualify(p, others, radius, 0);
        let i = choose|i: int| 0 <= i < others.len() && others[i] == near[0];
        assert(!is_neighbor(p, others[i].position, radius));
    }
}

/// Units that stand exactly at `p` count for nothing, the unit itself among
/// them: with all of them taken out of the flock, `p` has the same
/// neighbours, and so each rule gives the same force.
pub proof fn lemma_coincident_units_ignored(p: Vector, others: Seq<UnitView>, radius: int)
    ensures
        neighbors(p, others.filter(elsewhere(p)), radius) == neighbors(p, others, radius),
        separation_force(p, others.filter(elsewhere(p)), radius) == separation_force(
            p,
            others,
            radius,
        ),
        alignment_force(p, others.filter(elsewhere(p)), radius) == alignment_force(
            p,
            others,
            radius,
        ),
        cohesion_force(p, others.filter(elsewhere(p)), radius) == cohesion_force(
            p,
            others,
            radius,
        ),
    decreases others.len(),
{
    if others.len() == 0 {
        reveal(Seq::filter);
    } else {
        let rest = others.drop_last();
        let last = others.last();
        assert(others =~= rest.push(last));
        lemma_coincident_units_ignored(p, rest, radius);
        rest.lemma_filter_push(last, elsewhere(p));
        rest.lemma_filter_push(last, neighbor_test(p, radius));
        rest.filter(elsewhere(p)).lemma_filter_push(last, neighbor_test(p, radius));
    }
}

/// A unit among units that all stand where it stands is pushed by none of
/// them: separation gives exactly the zero vector.
pub proof fn lemma_coincident_cluster(p: Vector, others: Seq<UnitView>, radius: int)
    requires
        forall|i: int| 0 <= i < others.len() ==> (#[trigger] others[i]).position == p,
    ensures
        separation_force(p, others, radius) == Vector::zero(),
{
    lemma_no_neighbors(p, others, radius);
}

/// A rule that has read the first `i` units reads the next one: it joins the
/// neighbours exactly when it passes the test.
proof fn lemma_neighbors_step(p: Vector, units: Seq<Unit>, i: int, radius: int)
    requires
        0 <= i < units.len(),
    ensures
        views(units).take(i + 1) == views(units).take(i).push(units[i]@),
        neighbors(p, views(units).take(i + 1), radius) == if is_neighbor(
            p,
            units[i]@.position,
            radius,
        ) {
            neighbors(p, views(units).take(i), radius).push(units[i]@)
        } else {
            neighbors(p, views(units).take(i), radius)
        },
{
    assert(views(units).take(i + 1) =~= views(units).take(i).push(units[i]@));
    views(units).take(i).lemma_filter_push(units[i]@, neighbor_test(p, radius));
}

proof fn lemma_sums_push(p: Vector, near: Seq<UnitView>, u: UnitView)
    ensures
        repulsion_sum(p, near.push(u)) == repulsion_sum(p, near).plus(repulsion(p, u.position)),
        velocity_sum(near.push(u)) == velocity_sum(near).plus(u.velocity),
        position_sum(near.push(u)) == position_sum(near).plus(u.position),
{
    assert(near.push(u).drop_last() =~= near);
}

/// The unit `u` with `t` added to its position.
pub open spec fn moved(u: UnitView, t: Vector) -> UnitView {
    UnitView { position: u.position.plus(t), velocity: u.velocity, color: u.color }
}

/// The flock with `t` added to the position of every unit.
pub open spec fn moved_flock(flock: Seq<UnitView>, t: Vector) -> Seq<UnitView> {
    flock.map_values(|u: UnitView| moved(u, t))
}

proof fn lemma_neighbors_moved(p: Vector, others: Seq<UnitView>, t: Vector, radius: int)
    ensures
        neighbors(p.plus(t), moved_flock(others, t), radius) == moved_flock(
            neighbors(p, others, radius),
            t,
        ),
    decreases others.len(),
{
    if others.len() == 0 {
        reveal(Seq::filter);
        assert(moved_flock(others, t) =~= others);
        assert(moved_flock(neighbors(p, others, radius), t) =~= others);
    } else {
        let rest = others.drop_last();
        let last = others.last();
        assert(others =~= rest.push(last));
        assert(moved_flock(others, t) =~= moved_flock(rest, t).push(moved(last, t)));
        lemma_neighbors_moved(p, rest, t, radius);
        rest.lemma_filter_push(last, neighbor_test(p, radius));
        moved_flock(rest, t).lemma_filter_push(moved(last, t), neighbor_test(p.plus(t), radius));
        assert(p.plus(t).minus(last.position.plus(t)) == p.minus(last.position));
        let near = neighbors(p, rest, radius);
        assert(moved_flock(near.push(last), t) =~= moved_flock(near, t).push(moved(last, t)));
    }
}

proof fn lemma_sums_moved(p: Vector, near: Seq<UnitView>, t: Vector)
    ensures
        repulsion_sum(p.plus(t), moved_flock(near, t)) == repulsion_sum(p, near),
        velocity_sum(moved_flock(near, t)) == velocity_sum(near),
        position_sum(moved_flock(near, t)) == position_sum(near).plus(t.times(near.len() as int)),
    decreases near.len(),
{
    if near.len() > 0 {
        let rest = near.drop_last();
        let last = near.last();
        assert(moved_flock(near, t).drop_last() =~= moved_flock(rest, t));
        assert(moved_flock(near, t).last() == moved(last, t));
        lemma_sums_moved(p, rest, t);
        assert(p.plus(t).minus(last.position.plus(t)) == p.minus(last.position));
        let n = rest.len() as int;
        let tx = t.x;
        let ty = t.y;
        assert(tx * (n + 1) == tx * n + tx && ty * (n + 1) == ty * n + ty) by (nonlinear_arith);
    }
}

/// The rules look at where the units stand with regard to each other, not
/// at where they stand on the plane: with the same vector added to the
/// position of the unit and of every unit of the flock, each rule gives
/// exactly the same force.
pub proof fn lemma_rules_ignore_shift(
    p: Vector,
    others: Seq<UnitView>,
    t: Vector,
    radius: int,
)
    ensures
        neighbors(p.plus(t), moved_flock(others, t), radius) == moved_flock(
            neighbors(p, others, radius),
            t,
        ),
        separation_force(p.plus(t), moved_flock(others, t), radius) == separation_force(
            p,
            others,
            radius,
        ),
        alignment_force(p.plus(t), moved_flock(others, t), radius) == alignment_force(
            p,
            others,
            radius,
        ),
        cohesion_force(p.plus(t), moved_flock(others, t), radius) == cohesion_force(
            p,
            others,
            radius,
        ),
{
    let near = neighbors(p, others, radius);
    lemma_neighbors_moved(p, others, t, radius);
    lemma_sums_moved(p, near, t);
    let n = near.len() as int;
    assert(moved_flock(near, t).len() == n);
    let px = p.x;
    let py = p.y;
    let tx = t.x;
    let ty = t.y;
    assert((px + tx) * n == px * n + tx * n && (py + ty) * n == py * n + ty * n)
        by (nonlinear_arith);
    assert(position_sum(moved_flock(near, t)).minus(p.plus(t).times(n)) == position_sum(
        near,
    ).minus(p.times(n)));
}

/// Where the neighbours' average position is not the unit's own, cohesion
/// is one long, up to rounding, however near or far the neighbours stand,
/// and it points toward the average.
pub proof fn lemma_cohesion_unit(p: Vector, others: Seq<UnitView>, radius: int)
    requires
        neighbors(p, others, radius).len() > 0,
        position_sum(neighbors(p, others, radius)) != p.times(
            neighbors(p, others, radius).len() as int,
        ),
    ensures
        ONE * ONE - 5 * ONE <= cohesion_force(p, others, radius).norm_sq() <= ONE * ONE,
        dot(
            cohesion_force(p, others, radius),
            position_sum(neighbors(p, others, radius)).minus(
                p.times(neighbors(p, others, radius).len() as int),
            ),
        ) > 0,
{
    let near = neighbors(p, others, radius);
    let pull = position_sum(near).minus(p.times(near.len() as int));
    lemma_normalized_unit(pull);
    lemma_normalized_direction(pull);
}

/// The sum of `term` over the neighbours of `p` among `others`, taken over
/// the whole flock: a unit that is no neighbour counts as the zero vector.
spec fn total(p: Vector, others: Seq<UnitView>, radius: int, term: spec_fn(UnitView) -> Vector)
    -> Vector
    decreases others.len(),
{
    if others.len() == 0 {
        Vector::zero()
    } else if is_neighbor(p, others.last().position, radius) {
        total(p, others.drop_last(), radius, term).plus(term(others.last()))
    } else {
        total(p, others.drop_last(), radius, term)
    }
}

spec fn pushing(p: Vector) -> spec_fn(UnitView) -> Vector {
    |u: UnitView| repulsion(p, u.position)
}

spec fn moving() -> spec_fn(UnitView) -> Vector {
    |u: UnitView| u.velocity
}

spec fn standing() -> spec_fn(UnitView) -> Vector {
    |u: UnitView| u.position
}

spec fn counting() -> spec_fn(UnitView) -> Vector {
    |u: UnitView| Vector { x: 1, y: 0 }
}

proof fn lemma_sums_are_totals(p: Vector, others: Seq<UnitView>, radius: int)
    ensures
        repulsion_sum(p, neighbors(p, others, radius)) == total(p, others, radius, pushing(p)),
        velocity_sum(neighbors(p, others, radius)) == total(p, others, radius, moving()),
        position_sum(neighbors(p, others, radius)) == total(p, others, radius, standing()),
        neighbors(p, others, radius).len() == total(p, others, radius, counting()).x,
    decreases others.len(),
{
    if others.len() == 0 {
        reveal(Seq::filter);
    } else {
        let rest = others.drop_last();
        let last = others.last();
        assert(others =~= rest.push(last));
        lemma_sums_are_totals(p, rest, radius);
        rest.lemma_filter_push(last, neighbor_test(p, radius));
        lemma_sums_push(p, neighbors(p, rest, radius), last);
    }
}

proof fn lemma_total_remove(
    p: Vector,
    others: Seq<UnitView>,
    radius: int,
    term: spec_fn(UnitView) -> Vector,
    i: int,
)
    requires
        0 <= i < others.len(),
    ensures
        total(p, others, radius, term) == total(p, others.remove(i), radius, term).plus(
            if is_neighbor(p, others[i].position, radius) {
                term(others[i])
            } else {
                Vector::zero()
            },
        ),
    decreases others.len(),
{
    if i == others.len() - 1 {
        assert(others.remove(i) =~= others.drop_last());
    } else {
        assert(others.remove(i).drop_last() =~= others.drop_last().remove(i));
        assert(others.remove(i).last() == others.last());
        lemma_total_remove(p, others.drop_last(), radius, term, i);
    }
}

proof fn lemma_total_reordered(
    p: Vector,
    a: Seq<UnitView>,
    b: Seq<UnitView>,
    radius: int,
    term: spec_fn(UnitView) -> Vector,
)
    requires
        a.to_multiset() == b.to_multiset(),
    ensures
        total(p, a, radius, term) == total(p, b, radius, term),
    decreases a.len(),
{
    vstd::seq_lib::to_multiset_len(a);
    vstd::seq_lib::to_multiset_len(b);
    if a.len() > 0 {
        let rest = a.drop_last();
        let last = a.last();
        assert(a =~= rest.push(last));
        vstd::seq_lib::to_multiset_build(rest, last);
        vstd::seq_lib::to_multiset_contains(b, last);
        assert(b.to_multiset().count(last) > 0);
        let i = choose|i: int| 0 <= i < b.len() && b[i] == last;
        vstd::seq_lib::to_multiset_remove(b, i);
        assert(rest.to_multiset() =~= b.remove(i).to_multiset());
        lemma_total_reordered(p, rest, b.remove(i), radius, term);
        lemma_total_remove(p, b, radius, term, i);
    }
}

/// The order of the flock is irrelevant: two flocks that hold the same
/// units, in whatever order, give the same neighbours to count and each rule
/// the same force.
pub proof fn lemma_order_is_irrelevant(
    p: Vector,
    a: Seq<UnitView>,
    b: Seq<UnitView>,
    radius: int,
)
    requires
        a.to_multiset() == b.to_multiset(),
    ensures
        neighbors(p, a, radius).len() == neighbors(p, b, radius).len(),
        separation_force(p, a, radius) == separation_force(p, b, radius),
        alignment_force(p, a, radius) == alignment_force(p, b, radius),
        cohesion_force(p, a, radius) == cohesion_force(p, b, radius),
{
    lemma_sums_are_totals(p, a, radius);
    lemma_sums_are_totals(p, b, radius);
    lemma_total_reordered(p, a, b, radius, pushing(p));
    lemma_total_reordered(p, a, b, radius, moving());
    lemma_total_reordered(p, a, b, radius, standing());
    lemma_total_reordered(p, a, b, radius, counting());
}

/// The push of a neighbour is exact up to one rounding: each coordinate is
/// the coordinate of the vector from `q` to `p`, divided by the square of
/// the vector's length, rounded toward zero, so that it is off by less than
/// a millionth. It points away from the neighbour and is at most a million
/// in either coordinate.
pub proof fn lemma_repulsion_accuracy(p: Vector, q: Vector)
    requires
        p != q,
    ensures
        abs(p.minus(q).x * (ONE * ONE) - repulsion(p, q).x * p.minus(q).norm_sq()) < p.minus(
            q,
        ).norm_sq(),
        abs(p.minus(q).y * (ONE * ONE) - repulsion(p, q).y * p.minus(q).norm_sq()) < p.minus(
            q,
        ).norm_sq(),
        p.x >= q.x ==> repulsion(p, q).x >= 0,
        p.x <= q.x ==> repulsion(p, q).x <= 0,
        p.y >= q.y ==> repulsion(p, q).y >= 0,
        p.y <= q.y ==> repulsion(p, q).y <= 0,
        repulsion(p, q).within(ONE * ONE),
{
    let d = p.minus(q);
    let n = d.norm_sq();
    lemma_norm_sq_positive(d);
    let m: int = ONE * ONE;
    let dx = d.x;
    let dy = d.y;
    assert(-n <= dx <= n && -n <= dy <= n) by (nonlinear_arith)
        requires
            n == dx * dx + dy * dy,
    ;
    assert(m * n == 1_000_000_000_000 * n);
    lemma_trunc_div_bounds(dx * m, n);
    lemma_trunc_div_bounds(dy * m, n);
    lemma_trunc_div_within(dx * m, n, m);
    lemma_trunc_div_within(dy * m, n, m);
}

/// The separation force on `unit` from the units of `units` that stand
/// nearer than `radius`.
pub fn separation(unit: &Unit, units: &Vec<Unit>, radius: i64) -> (force: Vec2)
    requires
        unit.wf(),
        flock_wf(views(units@)),
    ensures
        force@ == separation_force(unit@.position, views(units@), radius as int),
        force.on_plane(),
{
    let ghost p = unit@.position;
    let ghost flock = views(units@);
    let mut sx: i128 = 0;
    let mut sy: i128 = 0;
    let mut i: usize = 0;
    proof {
        reveal(Seq::filter);
        assert(flock.take(0) =~= Seq::<UnitView>::empty());
    }
    while i < units.len()
        invariant
            i <= units.len(),
            unit.wf(),
            flock_wf(views(units@)),
            p == unit@.position,
            flock == views(units@),
            (Vector { x: sx as int, y: sy as int }) == repulsion_sum(
                p,
                neighbors(p, flock.take(i as int), radius as int),
            ),
            -(i * 1_000_000_000_000) <= sx <= i * 1_000_000_000_000,
            -(i * 1_000_000_000_000) <= sy <= i * 1_000_000_000_000,
        decreases units.len() - i,
    {
        let other: Unit = units[i];
        proof {
            assert(flock[i as int] == other@);
            assert(flock[i as int].wf());
            lemma_neighbors_step(p, units@, i as int, radius as int);
            lemma_sums_push(p, neighbors(p, flock.take(i as int), radius as int), other@);
        }
        if other.position != unit.position {
            let d: i64 = distance(unit.position, other.position);
            if d < radius {
                let away: Vec2 = unit.position.minus(other.position);
                let n: u128 = away.norm_sq();
                proof {
                    assert(other@.position != p);
                    lemma_repulsion_accuracy(p, other@.position);
                    let reach: int = 2 * LIMIT;
                    let ax = away@.x;
                    let ay = away@.y;
                    assert(ax * ax + ay * ay <= 2 * (reach * reach)) by (nonlinear_arith)
                        requires
                            -reach <= ax <= reach,
                            -reach <= ay <= reach,
                    ;
                }
                let px: i128 = div_toward_zero(away.x as i128 * 1_000_000_000_000, n as i128);
                let py: i128 = div_toward_zero(away.y as i128 * 1_000_000_000_000, n as i128);
                sx = sx + px;
                sy = sy + py;
            }
        } else {
            assert(other@.position == p);
        }
        i += 1;
    }
    proof {
        assert(flock.take(units.len() as int) =~= flock);
    }
    Vec2 { x: saturate(sx), y: saturate(sy) }
}

/// The alignment force on `unit` from the units of `units` that stand
/// nearer than `radius`.
pub fn alignment(unit: &Unit, units: &Vec<Unit>, radius: i64) -> (force: Vec2)
    requires
        unit.wf(),
        flock_wf(views(units@)),
    ensures
        force@ == alignment_force(unit@.position, views(units@), radius as int),
        force.on_plane(),
{
    let ghost p = unit@.position;
    let ghost flock = views(units@);
    let mut sx: i128 = 0;
    let mut sy: i128 = 0;
    let mut total: usize = 0;
    let mut i: usize = 0;
    proof {
        reveal(Seq::filter);
        assert(flock.take(0) =~= Seq::<UnitView>::empty());
    }
    while i < units.len()
        invariant
            i <= units.len(),
            total <= i,
            unit.wf(),
            flock_wf(views(units@)),
            p == unit@.position,
            flock == views(units@),
            total == neighbors(p, flock.take(i as int), radius as int).len(),
            (Vector { x: sx as int, y: sy as int }) == velocity_sum(
                neighbors(p, flock.take(i as int), radius as int),
            ),
            -(total * LIMIT) <= sx <= total * LIMIT,
            -(total * LIMIT) <= sy <= total * LIMIT,
        decreases units.len() - i,
    {
        let other: Unit = units[i];
        proof {
            assert(flock[i as int] == other@);
            assert(flock[i as int].wf());
            lemma_neighbors_step(p, units@, i as int, radius as int);
            lemma_sums_push(p, neighbors(p, flock.take(i as int), radius as int), other@);
        }
        if other.position != unit.position {
            let d: i64 = distance(unit.position, other.position);
            if d < radius {
                assert(other@.position != p);
                sx = sx + other.velocity.x as i128;
                sy = sy + other.velocity.y as i128;
                total = total + 1;
            }
        } else {
            assert(other@.position == p);
        }
        i += 1;
    }
    proof {
        assert(flock.take(units.len() as int) =~= flock);
    }
    if total > 0 {
        proof {
            lemma_trunc_div_within(sx as int, total as int, LIMIT as int);
            lemma_trunc_div_within(sy as int, total as int, LIMIT as int);
        }
        let ax: i128 = div_toward_zero(sx, total as i128);
        let ay: i128 = div_toward_zero(sy, total as i128);
        Vec2 { x: ax as i64, y: ay as i64 }
    } else {
        Vec2 { x: 0, y: 0 }
    }
}

/// A coordinate of a position taken `count` times.
fn times(coordinate: i64, count: usize) -> (r: i128)
    requires
        -LIMIT <= coordinate <= LIMIT,
    ensures
        r == coordinate * count,
        -(count * LIMIT) <= r <= count * LIMIT,
{
    assert(-(count * LIMIT) <= coordinate * count <= count * LIMIT) by (nonlinear_arith)
        requires
            -LIMIT <= coordinate <= LIMIT,
            count >= 0,
    ;
    coordinate as i128 * count as i128
}

/// The cohesion force on `unit` from the units of `units` that stand
/// nearer than `radius`.
pub fn cohesion(unit: &Unit, units: &Vec<Unit>, radius: i64) -> (force: Vec2)
    requires
        unit.wf(),
        flock_wf(views(units@)),
    ensures
        force@ == cohesion_force(unit@.position, views(units@), radius as int),
        force@.within(ONE as int),
        force.on_plane(),
{
    let ghost p = unit@.position;
    let ghost flock = views(units@);
    let mut sx: i128 = 0;
    let mut sy: i128 = 0;
    let mut total: usize = 0;
    let mut i: usize = 0;
    proof {
        reveal(Seq::filter);
        assert(flock.take(0) =~= Seq::<UnitView>::empty());
    }
    while i < units.len()
        invariant
            i <= units.len(),
            total <= i,
            unit.wf(),
            flock_wf(views(units@)),
            p == unit@.position,
            flock == views(units@),
            total == neighbors(p, flock.take(i as int), radius as int).len(),
            (Vector { x: sx as int, y: sy as int }) == position_sum(
                neighbors(p, flock.take(i as int), radius as int),
            ),
            -(total * LIMIT) <= sx <= total * LIMIT,
            -(total * LIMIT) <= sy <= total * LIMIT,
        decreases units.len() - i,
    {
        let other: Unit = units[i];
        proof {
            assert(flock[i as int] == other@);
            assert(flock[i as int].wf());
            lemma_neighbors_step(p, units@, i as int, radius as int);
            lemma_sums_push(p, neighbors(p, flock.take(i as int), radius as int), other@);
        }
        if other.position != unit.position {
            let d: i64 = distance(unit.position, other.position);
            if d < radius {
                assert(other@.position != p);
                sx = sx + other.position.x as i128;
                sy = sy + other.position.y as i128;
                total = total + 1;
            }
        } else {
            assert(other@.position == p);
        }
        i += 1;
    }
    proof {
        assert(flock.take(units.len() as int) =~= flock);
    }
    if total > 0 {
        let px: i128 = times(unit.position.x, total);
        let py: i128 = times(unit.position.y, total);
        direction(sx - px, sy - py)
    } else {
        Vec2 { x: 0, y: 0 }
    }
}

} // verus!
