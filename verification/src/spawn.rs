//! The first flock: units set on a circle, each with a random velocity.

use vstd::prelude::*;
use rand::Rng;
use rand::rngs::StdRng;
use crate::fixed::{ONE, trunc_div, div_toward_zero, saturate};
use crate::vector::{Vec2, Vector};
use crate::unit::{Color, Unit, views, flock_wf};

verus! {

/// The generator that the velocities are drawn from.
#[verifier::external_type_specification]
#[verifier::external_body]
pub struct ExStdRng(StdRng);

/// `rand::Rng::gen_range` on the half-open range from `low` to `high`: the
/// number drawn is at least `low` and less than `high`. Nothing more is
/// known of it. The range must not be empty.
#[verifier::external_body]
fn draw(rng: &mut StdRng, low: i64, high: i64) -> (r: i64)
    requires
        low < high,
    ensures
        low <= r < high,
{
    rng.gen_range(low..high)
}

/// The point that lies `radius` away from `center` in the direction
/// `direction`, held on the plane.
pub open spec fn placed(center: Vector, radius: int, direction: Vector) -> Vector {
    center.plus(direction.scaled(radius)).saturated()
}

/// One coordinate of the direction scaled by the radius.
fn offset(direction: i64, radius: i64) -> (r: i128)
    ensures
        r == trunc_div(direction * radius, ONE as int),
        -0x4000_0000_0000_0000_0000_0000_0000_0000 <= r <= 0x4000_0000_0000_0000_0000_0000_0000_0000,
{
    assert(-0x4000_0000_0000_0000_0000_0000_0000_0000 <= direction * radius
        <= 0x4000_0000_0000_0000_0000_0000_0000_0000) by (nonlinear_arith)
        requires
            -0x8000_0000_0000_0000 <= direction <= 0x8000_0000_0000_0000,
            -0x8000_0000_0000_0000 <= radius <= 0x8000_0000_0000_0000,
    ;
    let wide: i128 = direction as i128 * radius as i128;
    proof {
        crate::fixed::lemma_trunc_div_bounds(wide as int, ONE as int);
    }
    div_toward_zero(wide, ONE as i128)
}

/// Sets one unit on the circle for each direction given: the unit stands
/// `radius` away from `center` in that direction, is red, and has a velocity
/// whose coordinates are drawn from `rng`, each at least minus one and less
/// than one.
pub fn generate_units_in_circle(
    center: Vec2,
    radius: i64,
    directions: &Vec<Vec2>,
    rng: &mut StdRng,
) -> (units: Vec<Unit>)
    ensures
        units.len() == directions.len(),
        forall|i: int|
            0 <= i < units.len() ==> (#[trigger] units[i])@.position == placed(
                center@,
                radius as int,
                directions[i]@,
            ),
        forall|i: int|
            0 <= i < units.len() ==> -ONE <= (#[trigger] units[i]).velocity.x < ONE && -ONE
                <= units[i].velocity.y < ONE,
        forall|i: int| 0 <= i < units.len() ==> (#[trigger] units[i]).color == Color::red(),
        flock_wf(views(units@)),
{
    let mut units: Vec<Unit> = Vec::new();
    let mut i: usize = 0;
    while i < directions.len()
        invariant
            i <= directions.len(),
            units.len() == i,
            forall|j: int|
                0 <= j < i ==> (#[trigger] units[j])@.position == placed(
                    center@,
                    radius as int,
                    directions[j]@,
                ),
            forall|j: int|
                0 <= j < i ==> -ONE <= (#[trigger] units[j]).velocity.x < ONE && -ONE
                    <= units[j].velocity.y < ONE,
            forall|j: int| 0 <= j < i ==> (#[trigger] units[j]).color == Color::red(),
            forall|j: int| 0 <= j < i ==> (#[trigger] units[j]).wf(),
        decreases directions.len() - i,
    {
        let direction: Vec2 = directions[i];
        let x: i64 = saturate(center.x as i128 + offset(direction.x, radius));
        let y: i64 = saturate(center.y as i128 + offset(direction.y, radius));
        let vx: i64 = draw(rng, -ONE, ONE);
        let vy: i64 = draw(rng, -ONE, ONE);
        units.push(
            Unit {
                position: Vec2 { x, y },
                velocity: Vec2 { x: vx, y: vy },
                color: Color::red(),
            },
        );
        i += 1;
    }
    assert forall|j: int| 0 <= j < units.len() implies (#[trigger] views(units@)[j]).wf() by {
        assert(units[j].wf());
    }
    units
}

} // verus!
