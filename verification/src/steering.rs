//! Steering: the pull of a unit toward a target.

use vstd::prelude::*;
use crate::fixed::{ONE, LIMIT};
use crate::vector::{Vec2, Vector, REACH};
use crate::direction::{lemma_normalized_ignores_length, lemma_normalized_unit};
use crate::unit::Unit;

verus! {

/// Seek: the direction from `position` to `target`, less the velocity that
/// the unit already has.
pub open spec fn steer_force(position: Vector, velocity: Vector, target: Vector) -> Vector {
    target.minus(position).normalized().minus(velocity)
}

/// Steering depends on where the target lies and not on how far it is: with
/// the target `k` times as far in the same direction, the force differs by
/// at most one millionth in either coordinate.
pub proof fn lemma_steer_ignores_distance(
    position: Vector,
    velocity: Vector,
    target: Vector,
    k: int,
)
    requires
        k > 0,
        target != position,
        target.minus(position).within(REACH as int),
        target.minus(position).times(k).within(REACH as int),
    ensures
        -1 <= steer_force(
            position,
            velocity,
            position.plus(target.minus(position).times(k)),
        ).x - steer_force(position, velocity, target).x <= 1,
        -1 <= steer_force(
            position,
            velocity,
            position.plus(target.minus(position).times(k)),
        ).y - steer_force(position, velocity, target).y <= 1,
{
    let way = target.minus(position);
    let far = position.plus(way.times(k));
    assert(far.minus(position) == way.times(k));
    lemma_normalized_ignores_length(way, k);
}

/// The pull toward a target that is not where the unit stands is one long,
/// up to rounding, before the velocity is taken off it.
pub proof fn lemma_steer_pull(position: Vector, velocity: Vector, target: Vector)
    requires
        target != position,
    ensures
        ONE * ONE - 5 * ONE <= steer_force(position, velocity, target).plus(velocity).norm_sq()
            <= ONE * ONE,
{
    let way = target.minus(position);
    lemma_normalized_unit(way);
    assert(steer_force(position, velocity, target).plus(velocity) == way.normalized());
}

/// The steering force that pulls `unit` toward `target`.
pub fn steer(unit: &Unit, target: Vec2) -> (force: Vec2)
    requires
        unit.wf(),
        target.on_plane(),
    ensures
        force@ == steer_force(unit@.position, unit@.velocity, target@),
        force@.within(LIMIT + ONE),
{
    let desired: Vec2 = target.minus(unit.position).normalized();
    desired.minus(unit.velocity)
}

} // verus!
