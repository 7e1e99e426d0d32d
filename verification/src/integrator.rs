//! The integrator: blends the four forces into the velocity, limits the
//! speed and moves the unit; and the tick, which does so for a whole flock.

use vstd::prelude::*;
use crate::fixed::{ONE, trunc_div, saturated, div_toward_zero, saturate,
    lemma_trunc_div_within};
use crate::vector::{Vec2, Vector, distance, cross, abs, REACH, lemma_distance_below};
use crate::direction::{lemma_normalized_length, lemma_normalized_direction, lemma_normalized_unit};
use crate::unit::{Unit, UnitView, views, flock_wf};
use crate::rules::{separation, alignment, cohesion, separation_force, alignment_force,
    cohesion_force, lemma_order_is_irrelevant};
use crate::steering::{steer, steer_force};

verus! {

/// The radius within which neighbours push a unit away.
pub const SEPARATION_RADIUS: i64 = 100_000_000;

/// The radius within which a unit takes up the velocity of its neighbours.
pub const ALIGNMENT_RADIUS: i64 = 50_000_000;

/// The radius within which a unit is drawn to its neighbours.
pub const COHESION_RADIUS: i64 = 40_000_000;

/// The distance to the target from which on a unit counts as far from it.
pub const THRESHOLD: i64 = 100_000_000;

/// The greatest speed of a unit.
pub const MAX_SPEED: i64 = 2_000_000;

/// How far a unit moves in one second at speed one.
pub const POSITION_SCALE: i64 = 50_000_000;

/// No coordinate of a force that the integrator takes lies farther from zero.
pub const FORCE_LIMIT: i64 = 2_000_000_000_000_000;

/// How much each of the four forces counts.
#[derive(Clone, Copy, Debug, PartialEq, Eq, Structural)]
pub struct Weights {
    pub separation: i64,
    pub alignment: i64,
    pub cohesion: i64,
    pub steer: i64,
}

/// Where a unit stands with regard to the target.
#[derive(Clone, Copy, Debug, PartialEq, Eq, Structural)]
pub enum Profile {
    Far,
    Near,
}

impl Profile {
    /// The weights of the profile: far from the target 1.5, 1.0, 0.5 and 1.0;
    /// near it 5.5, 0.8, 0.0 and 0.9.
    pub open spec fn spec_weights(self) -> Weights {
        match self {
            Profile::Far => Weights {
                separation: 1_500_000,
                alignment: 1_000_000,
                cohesion: 500_000,
                steer: 1_000_000,
            },
            Profile::Near => Weights {
                separation: 5_500_000,
                alignment: 800_000,
                cohesion: 0,
                steer: 900_000,
            },
        }
    }

    #[verifier::when_used_as_spec(spec_weights)]
    pub fn weights(self) -> (w: Weights)
        ensures
            w == self.spec_weights(),
    {
        match self {
            Profile::Far => Weights {
                separation: 1_500_000,
                alignment: 1_000_000,
                cohesion: 500_000,
                steer: 1_000_000,
            },
            Profile::Near => Weights {
                separation: 5_500_000,
                alignment: 800_000,
                cohesion: 0,
                steer: 900_000,
            },
        }
    }
}

/// The four forces on one unit.
#[derive(Clone, Copy, Debug, PartialEq, Eq, Structural)]
pub struct Forces {
    pub separation: Vec2,
    pub alignment: Vec2,
    pub cohesion: Vec2,
    pub steer: Vec2,
}

/// What `Forces` stands for.
pub struct ForcesView {
    pub separation: Vector,
    pub alignment: Vector,
    pub cohesion: Vector,
    pub steer: Vector,
}

impl View for Forces {
    type V = ForcesView;

    open spec fn view(&self) -> ForcesView {
        ForcesView {
            separation: self.separation@,
            alignment: self.alignment@,
            cohesion: self.cohesion@,
            steer: self.steer@,
        }
    }
}

impl Forces {
    /// Each force is one that the integrator can take.
    pub open spec fn wf(self) -> bool {
        &&& self.separation@.within(FORCE_LIMIT as int)
        &&& self.alignment@.within(FORCE_LIMIT as int)
        &&& self.cohesion@.within(FORCE_LIMIT as int)
        &&& self.steer@.within(FORCE_LIMIT as int)
    }

    pub fn new(separation: Vec2, alignment: Vec2, cohesion: Vec2, steer: Vec2) -> (f: Forces)
        ensures
            f == (Forces { separation, alignment, cohesion, steer }),
    {
        Forces { separation, alignment, cohesion, steer }
    }

    /// Tells whether each force is one that the integrator can take.
    pub fn is_wf(&self) -> (b: bool)
        ensures
            b == self.wf(),
    {
        within_force_limit(self.separation) && within_force_limit(self.alignment)
            && within_force_limit(self.cohesion) && within_force_limit(self.steer)
    }
}

/// Tells whether neither coordinate lies farther than `FORCE_LIMIT` from zero.
fn within_force_limit(v: Vec2) -> (b: bool)
    ensures
        b == v@.within(FORCE_LIMIT as int),
{
    -FORCE_LIMIT <= v.x && v.x <= FORCE_LIMIT && -FORCE_LIMIT <= v.y && v.y <= FORCE_LIMIT
}

/// A unit is far from the target from the threshold on, and near below it.
pub open spec fn profile_at(position: Vector, target: Vector) -> Profile {
    if position.distance(target) >= THRESHOLD {
        Profile::Far
    } else {
        Profile::Near
    }
}

/// One coordinate of the weighted sum of the forces, in the unit of a
/// coordinate.
pub open spec fn weighted(w: Weights, separation: int, alignment: int, cohesion: int, steer: int)
    -> int {
    trunc_div(
        w.separation * separation + w.alignment * alignment + w.cohesion * cohesion + w.steer
            * steer,
        ONE as int,
    )
}

/// The velocity with the weighted forces added to it.
pub open spec fn blended(velocity: Vector, w: Weights, f: ForcesView) -> Vector {
    Vector {
        x: velocity.x + weighted(w, f.separation.x, f.alignment.x, f.cohesion.x, f.steer.x),
        y: velocity.y + weighted(w, f.separation.y, f.alignment.y, f.cohesion.y, f.steer.y),
    }
}

/// The velocity held to the greatest speed: one that is faster keeps its
/// direction and gets exactly the greatest speed.
pub open spec fn limited(velocity: Vector) -> Vector {
    if velocity.norm_sq() > MAX_SPEED * MAX_SPEED {
        velocity.normalized().scaled(MAX_SPEED as int)
    } else {
        velocity
    }
}

/// The position after `elapsed` seconds at `velocity`, held on the plane.
pub open spec fn advanced(position: Vector, velocity: Vector, elapsed: int) -> Vector {
    Vector {
        x: saturated(position.x + trunc_div(velocity.x * elapsed * POSITION_SCALE, ONE * ONE)),
        y: saturated(position.y + trunc_div(velocity.y * elapsed * POSITION_SCALE, ONE * ONE)),
    }
}

/// The unit after one step under the given forces.
pub open spec fn integrated(u: UnitView, f: ForcesView, target: Vector, elapsed: int) -> UnitView {
    let velocity = limited(blended(u.velocity, profile_at(u.position, target).spec_weights(), f));
    UnitView { position: advanced(u.position, velocity, elapsed), velocity, color: u.color }
}

/// The four forces on a unit of the flock `snapshot`.
pub open spec fn forces_at(u: UnitView, snapshot: Seq<UnitView>, target: Vector) -> ForcesView {
    ForcesView {
        separation: separation_force(u.position, snapshot, SEPARATION_RADIUS as int),
        alignment: alignment_force(u.position, snapshot, ALIGNMENT_RADIUS as int),
        cohesion: cohesion_force(u.position, snapshot, COHESION_RADIUS as int),
        steer: steer_force(u.position, u.velocity, target),
    }
}

/// The unit after one tick of the flock `snapshot`.
pub open spec fn stepped(u: UnitView, snapshot: Seq<UnitView>, target: Vector, elapsed: int)
    -> UnitView {
    integrated(u, forces_at(u, snapshot, target), target, elapsed)
}

/// The flock after one tick: every unit steps, and each reads the flock as it
/// was before the tick.
pub open spec fn ticked(flock: Seq<UnitView>, target: Vector, elapsed: int) -> Seq<UnitView> {
    Seq::new(flock.len(), |i: int| stepped(flock[i], flock, target, elapsed))
}

/// No unit of the flock is faster than the greatest speed.
pub open spec fn within_speed_limit(flock: Seq<UnitView>) -> bool {
    forall|i: int|
        0 <= i < flock.len() ==> (#[trigger] flock[i]).velocity.norm_sq() <= MAX_SPEED * MAX_SPEED
}

/// A limited velocity is no faster than the greatest speed.
pub proof fn lemma_limited_speed(velocity: Vector)
    ensures
        limited(velocity).norm_sq() <= MAX_SPEED * MAX_SPEED,
        limited(velocity).within(MAX_SPEED as int),
{
    let r = limited(velocity);
    if velocity.norm_sq() > MAX_SPEED * MAX_SPEED {
        let d = velocity.normalized();
        lemma_normalized_length(velocity);
        assert(r.x == 2 * d.x);
        assert(r.y == 2 * d.y);
        assert(r.x * r.x + r.y * r.y == 4 * (d.x * d.x + d.y * d.y)) by (nonlinear_arith)
            requires
                r.x == 2 * d.x,
                r.y == 2 * d.y,
        ;
    }
    assert(r.x * r.x >= 0 && r.y * r.y >= 0) by (nonlinear_arith);
    assert(-MAX_SPEED <= r.x <= MAX_SPEED) by (nonlinear_arith)
        requires
            r.x * r.x <= MAX_SPEED * MAX_SPEED,
    ;
    assert(-MAX_SPEED <= r.y <= MAX_SPEED) by (nonlinear_arith)
        requires
            r.y * r.y <= MAX_SPEED * MAX_SPEED,
    ;
}

/// Limiting the speed leaves the direction as it is: no coordinate changes
/// its sign, and the limited velocity of a velocity within `REACH` is
/// parallel to it up to the rounding of its two coordinates.
pub proof fn lemma_limited_direction(velocity: Vector)
    ensures
        velocity.x >= 0 ==> limited(velocity).x >= 0,
        velocity.x <= 0 ==> limited(velocity).x <= 0,
        velocity.y >= 0 ==> limited(velocity).y >= 0,
        velocity.y <= 0 ==> limited(velocity).y <= 0,
        velocity.within(REACH as int) ==> abs(cross(limited(velocity), velocity)) <= 2 * (abs(
            velocity.x,
        ) + abs(velocity.y)),
{
    let r = limited(velocity);
    if velocity.norm_sq() > MAX_SPEED * MAX_SPEED {
        let d = velocity.normalized();
        lemma_normalized_direction(velocity);
        assert(r.x == 2 * d.x);
        assert(r.y == 2 * d.y);
        assert(cross(r, velocity) == 2 * cross(d, velocity)) by (nonlinear_arith)
            requires
                r.x == 2 * d.x,
                r.y == 2 * d.y,
        ;
    } else {
        assert(cross(velocity, velocity) == 0) by (nonlinear_arith);
    }
}

/// A velocity that was faster than the greatest speed has the greatest
/// speed once it is limited, up to rounding: it falls short of it by less
/// than six millionths.
pub proof fn lemma_limited_reaches_limit(velocity: Vector)
    requires
        velocity.norm_sq() > MAX_SPEED * MAX_SPEED,
    ensures
        limited(velocity).norm_sq() > (MAX_SPEED - 6) * (MAX_SPEED - 6),
{
    let r = limited(velocity);
    let d = velocity.normalized();
    crate::vector::lemma_norm_sq_positive(velocity);
    lemma_normalized_unit(velocity);
    assert(r.x == 2 * d.x);
    assert(r.y == 2 * d.y);
    assert(r.x * r.x + r.y * r.y == 4 * (d.x * d.x + d.y * d.y)) by (nonlinear_arith)
        requires
            r.x == 2 * d.x,
            r.y == 2 * d.y,
    ;
}

/// A unit is far from the target exactly when the square of its distance
/// reaches the square of the threshold: rounding the distance down loses
/// nothing in the comparison.
pub proof fn lemma_far_is_exact(position: Vector, target: Vector)
    ensures
        profile_at(position, target) == Profile::Far <==> position.minus(target).norm_sq()
            >= THRESHOLD * THRESHOLD,
{
    lemma_distance_below(position, target, THRESHOLD as int);
}

/// The order of the flock is irrelevant to a step: a unit steps alike in two
/// flocks that hold the same units.
pub proof fn lemma_step_ignores_order(
    u: UnitView,
    a: Seq<UnitView>,
    b: Seq<UnitView>,
    target: Vector,
    elapsed: int,
)
    requires
        a.to_multiset() == b.to_multiset(),
    ensures
        forces_at(u, a, target) == forces_at(u, b, target),
        stepped(u, a, target, elapsed) == stepped(u, b, target, elapsed),
{
    lemma_order_is_irrelevant(u.position, a, b, SEPARATION_RADIUS as int);
    lemma_order_is_irrelevant(u.position, a, b, ALIGNMENT_RADIUS as int);
    lemma_order_is_irrelevant(u.position, a, b, COHESION_RADIUS as int);
}

/// What one tick is given: where the target is and how much time has passed.
pub struct Frame {
    pub target: Vector,
    pub elapsed: int,
}

/// The flock after one tick for each frame, in their order.
pub open spec fn after_ticks(flock: Seq<UnitView>, frames: Seq<Frame>) -> Seq<UnitView>
    decreases frames.len(),
{
    if frames.len() == 0 {
        flock
    } else {
        ticked(
            after_ticks(flock, frames.drop_last()),
            frames.last().target,
            frames.last().elapsed,
        )
    }
}

/// A tick keeps the number of units and the colour of each, leaves every
/// unit on the plane, and leaves none faster than the greatest speed.
pub proof fn lemma_tick_keeps_flock(flock: Seq<UnitView>, target: Vector, elapsed: int)
    ensures
        ticked(flock, target, elapsed).len() == flock.len(),
        forall|i: int|
            0 <= i < flock.len() ==> (#[trigger] ticked(flock, target, elapsed)[i]).color
                == flock[i].color,
        flock_wf(ticked(flock, target, elapsed)),
        within_speed_limit(ticked(flock, target, elapsed)),
{
    let next = ticked(flock, target, elapsed);
    assert forall|i: int| 0 <= i < next.len() implies (#[trigger] next[i]).wf()
        && next[i].velocity.norm_sq() <= MAX_SPEED * MAX_SPEED by {
        let f = forces_at(flock[i], flock, target);
        let w = profile_at(flock[i].position, target).spec_weights();
        lemma_limited_speed(blended(flock[i].velocity, w, f));
    }
}

/// After any number of ticks no unit is faster than the greatest speed:
/// after one tick or more whatever the flock was, and after none if no unit
/// was faster to begin with.
pub proof fn lemma_speed_limit_after_ticks(flock: Seq<UnitView>, frames: Seq<Frame>)
    requires
        frames.len() > 0 || within_speed_limit(flock),
    ensures
        after_ticks(flock, frames).len() == flock.len(),
        within_speed_limit(after_ticks(flock, frames)),
    decreases frames.len(),
{
    if frames.len() > 0 {
        let before = after_ticks(flock, frames.drop_last());
        lemma_flock_size_after_ticks(flock, frames.drop_last());
        lemma_tick_keeps_flock(before, frames.last().target, frames.last().elapsed);
    }
}

/// Ticks neither add units to the flock nor take any away.
pub proof fn lemma_flock_size_after_ticks(flock: Seq<UnitView>, frames: Seq<Frame>)
    ensures
        after_ticks(flock, frames).len() == flock.len(),
    decreases frames.len(),
{
    if frames.len() > 0 {
        lemma_flock_size_after_ticks(flock, frames.drop_last());
    }
}

/// Tells whether a unit at `position` is far from `target` or near it.
pub fn profile_for(position: Vec2, target: Vec2) -> (profile: Profile)
    requires
        position.on_plane(),
        target.on_plane(),
    ensures
        profile == profile_at(position@, target@),
{
    if distance(position, target) >= THRESHOLD {
        Profile::Far
    } else {
        Profile::Near
    }
}

/// One coordinate of the weighted sum of the forces.
fn weigh(w: Weights, separation: i64, alignment: i64, cohesion: i64, steer: i64) -> (r: i128)
    requires
        0 <= w.separation <= 10_000_000,
        0 <= w.alignment <= 10_000_000,
        0 <= w.cohesion <= 10_000_000,
        0 <= w.steer <= 10_000_000,
        -FORCE_LIMIT <= separation <= FORCE_LIMIT,
        -FORCE_LIMIT <= alignment <= FORCE_LIMIT,
        -FORCE_LIMIT <= cohesion <= FORCE_LIMIT,
        -FORCE_LIMIT <= steer <= FORCE_LIMIT,
    ensures
        r == weighted(w, separation as int, alignment as int, cohesion as int, steer as int),
        -(w.separation + w.alignment + w.cohesion + w.steer) * 2_000_000_000 <= r <= (w.separation
            + w.alignment + w.cohesion + w.steer) * 2_000_000_000,
{
    let a: i128 = product(w.separation, separation);
    let b: i128 = product(w.alignment, alignment);
    let c: i128 = product(w.cohesion, cohesion);
    let d: i128 = product(w.steer, steer);
    let sum: i128 = a + b + c + d;
    proof {
        let total: int = (w.separation + w.alignment + w.cohesion + w.steer) * 2_000_000_000;
        assert(total * ONE == (w.separation + w.alignment + w.cohesion + w.steer) * FORCE_LIMIT);
        lemma_trunc_div_within(sum as int, ONE as int, total);
    }
    div_toward_zero(sum, ONE as i128)
}

/// A force's coordinate times its weight, before the rounding.
fn product(weight: i64, force: i64) -> (r: i128)
    requires
        0 <= weight <= 10_000_000,
        -FORCE_LIMIT <= force <= FORCE_LIMIT,
    ensures
        r == weight * force,
        -(weight * FORCE_LIMIT) <= r <= weight * FORCE_LIMIT,
{
    assert(-(weight * FORCE_LIMIT) <= weight * force <= weight * FORCE_LIMIT) by (nonlinear_arith)
        requires
            0 <= weight,
            -FORCE_LIMIT <= force <= FORCE_LIMIT,
    ;
    weight as i128 * force as i128
}

/// Adds the forces, each weighted as the profile says, to the velocity.
pub fn blend(velocity: Vec2, profile: Profile, forces: &Forces) -> (r: Vec2)
    requires
        velocity.on_plane(),
        forces.wf(),
    ensures
        r@ == blended(velocity@, profile.spec_weights(), forces@),
{
    let w: Weights = profile.weights();
    let dx: i128 = weigh(
        w,
        forces.separation.x,
        forces.alignment.x,
        forces.cohesion.x,
        forces.steer.x,
    );
    let dy: i128 = weigh(
        w,
        forces.separation.y,
        forces.alignment.y,
        forces.cohesion.y,
        forces.steer.y,
    );
    Vec2 { x: (velocity.x as i128 + dx) as i64, y: (velocity.y as i128 + dy) as i64 }
}

/// Holds the velocity to the greatest speed.
pub fn limit_speed(velocity: Vec2) -> (r: Vec2)
    ensures
        r@ == limited(velocity@),
        r@.norm_sq() <= MAX_SPEED * MAX_SPEED,
        r@.within(MAX_SPEED as int),
{
    proof {
        lemma_limited_speed(velocity@);
    }
    let n: u128 = velocity.norm_sq();
    if n > (MAX_SPEED as u128) * (MAX_SPEED as u128) {
        let d: Vec2 = velocity.normalized();
        let x: i128 = div_toward_zero(d.x as i128 * MAX_SPEED as i128, ONE as i128);
        let y: i128 = div_toward_zero(d.y as i128 * MAX_SPEED as i128, ONE as i128);
        Vec2 { x: x as i64, y: y as i64 }
    } else {
        velocity
    }
}

/// Moves a position by `elapsed` seconds of `velocity`.
pub fn advance(position: Vec2, velocity: Vec2, elapsed: i64) -> (r: Vec2)
    requires
        position.on_plane(),
        velocity@.within(MAX_SPEED as int),
    ensures
        r@ == advanced(position@, velocity@, elapsed as int),
        r.on_plane(),
{
    let dx: i128 = displacement(velocity.x, elapsed);
    let dy: i128 = displacement(velocity.y, elapsed);
    Vec2 { x: saturate(position.x as i128 + dx), y: saturate(position.y as i128 + dy) }
}

/// How far one coordinate moves in `elapsed` seconds at `speed`.
fn displacement(speed: i64, elapsed: i64) -> (r: i128)
    requires
        -MAX_SPEED <= speed <= MAX_SPEED,
    ensures
        r == trunc_div(speed * elapsed * POSITION_SCALE, ONE * ONE),
        -0x1_0000_0000_0000_0000_0000 <= r <= 0x1_0000_0000_0000_0000_0000,
{
    assert(-0x8000_0000_0000_0000 * MAX_SPEED <= speed * elapsed <= 0x8000_0000_0000_0000
        * MAX_SPEED) by (nonlinear_arith)
        requires
            -MAX_SPEED <= speed <= MAX_SPEED,
            -0x8000_0000_0000_0000 <= elapsed <= 0x8000_0000_0000_0000,
    ;
    let run: i128 = speed as i128 * elapsed as i128;
    let scaled: i128 = run * POSITION_SCALE as i128;
    proof {
        assert(speed * elapsed * POSITION_SCALE == scaled);
        lemma_trunc_div_within(scaled as int, ONE * ONE, 0x1_0000_0000_0000_0000_0000);
    }
    div_toward_zero(scaled, 1_000_000_000_000)
}

/// One step of a unit under the given forces: blend, limit, advance.
pub fn integrate(unit: &Unit, forces: &Forces, target: Vec2, elapsed: i64) -> (next: Unit)
    requires
        unit.wf(),
        forces.wf(),
        target.on_plane(),
    ensures
        next@ == integrated(unit@, forces@, target@, elapsed as int),
        next.wf(),
        next@.velocity.norm_sq() <= MAX_SPEED * MAX_SPEED,
{
    let profile: Profile = profile_for(unit.position, target);
    let velocity: Vec2 = limit_speed(blend(unit.velocity, profile, forces));
    let position: Vec2 = advance(unit.position, velocity, elapsed);
    Unit { position, velocity, color: unit.color }
}

/// The four forces on `unit` in the flock `units`.
pub fn forces_on(unit: &Unit, units: &Vec<Unit>, target: Vec2) -> (forces: Forces)
    requires
        unit.wf(),
        flock_wf(views(units@)),
        target.on_plane(),
    ensures
        forces@ == forces_at(unit@, views(units@), target@),
        forces.wf(),
{
    Forces {
        separation: separation(unit, units, SEPARATION_RADIUS),
        alignment: alignment(unit, units, ALIGNMENT_RADIUS),
        cohesion: cohesion(unit, units, COHESION_RADIUS),
        steer: steer(unit, target),
    }
}

/// One tick: the flock as it is after every unit has stepped once, each
/// reading the flock as it was before.
pub fn tick(units: &Vec<Unit>, target: Vec2, elapsed: i64) -> (next: Vec<Unit>)
    requires
        flock_wf(views(units@)),
        target.on_plane(),
    ensures
        views(next@) == ticked(views(units@), target@, elapsed as int),
        next.len() == units.len(),
        forall|i: int|
            0 <= i < units.len() ==> (#[trigger] next[i])@ == stepped(
                units[i]@,
                views(units@),
                target@,
                elapsed as int,
            ),
        flock_wf(views(next@)),
        within_speed_limit(views(next@)),
{
    let mut next: Vec<Unit> = Vec::new();
    let mut i: usize = 0;
    while i < units.len()
        invariant
            i <= units.len(),
            flock_wf(views(units@)),
            target.on_plane(),
            next.len() == i,
            forall|j: int|
                0 <= j < i ==> (#[trigger] next[j])@ == stepped(
                    views(units@)[j],
                    views(units@),
                    target@,
                    elapsed as int,
                ),
            forall|j: int| 0 <= j < i ==> (#[trigger] next[j]).wf(),
            forall|j: int|
                0 <= j < i ==> (#[trigger] next[j])@.velocity.norm_sq() <= MAX_SPEED * MAX_SPEED,
        decreases units.len() - i,
    {
        let unit: Unit = units[i];
        assert(views(units@)[i as int] == unit@);
        assert(views(units@)[i as int].wf());
        let forces: Forces = forces_on(&unit, units, target);
        let moved: Unit = integrate(&unit, &forces, target, elapsed);
        next.push(moved);
        i += 1;
    }
    assert(views(next@) =~= ticked(views(units@), target@, elapsed as int));
    next
}

} // verus!
