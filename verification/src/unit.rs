//! The agents of the simulation and the flock they form.

use vstd::prelude::*;
use crate::fixed::LIMIT;
use crate::vector::{Vec2, Vector};

verus! {

/// The colour in which a unit is drawn. The simulation carries it along and
/// never reads it.
#[derive(Clone, Copy, Debug, PartialEq, Eq, Structural)]
pub struct Color {
    pub r: u8,
    pub g: u8,
    pub b: u8,
    pub a: u8,
}

impl Color {
    pub fn new(r: u8, g: u8, b: u8, a: u8) -> (c: Color)
        ensures
            c == (Color { r, g, b, a }),
    {
        Color { r, g, b, a }
    }

    /// The red in which a new unit is drawn.
    pub open spec fn spec_red() -> Color {
        Color { r: 230, g: 41, b: 55, a: 255 }
    }

    #[verifier::when_used_as_spec(spec_red)]
    pub fn red() -> (c: Color)
        ensures
            c == Color::spec_red(),
    {
        Color { r: 230, g: 41, b: 55, a: 255 }
    }
}

/// One agent: where it is, how fast it moves, and its colour.
#[derive(Clone, Copy, Debug, PartialEq, Eq, Structural)]
pub struct Unit {
    pub position: Vec2,
    pub velocity: Vec2,
    pub color: Color,
}

/// What a `Unit` stands for.
pub struct UnitView {
    pub position: Vector,
    pub velocity: Vector,
    pub color: Color,
}

impl UnitView {
    /// Position and velocity lie on the plane.
    pub open spec fn wf(self) -> bool {
        self.position.within(LIMIT as int) && self.velocity.within(LIMIT as int)
    }
}

impl View for Unit {
    type V = UnitView;

    open spec fn view(&self) -> UnitView {
        UnitView { position: self.position@, velocity: self.velocity@, color: self.color }
    }
}

impl Unit {
    /// Position and velocity lie on the plane.
    pub open spec fn wf(self) -> bool {
        self@.wf()
    }

    pub fn new(position: Vec2, velocity: Vec2, color: Color) -> (u: Unit)
        ensures
            u == (Unit { position, velocity, color }),
            u.wf() <==> position.on_plane() && velocity.on_plane(),
    {
        Unit { position, velocity, color }
    }

    /// Tells whether position and velocity lie on the plane.
    pub fn is_wf(&self) -> (b: bool)
        ensures
            b == self.wf(),
    {
        self.position.is_on_plane() && self.velocity.is_on_plane()
    }
}

/// What a flock stands for: the views of its units, in their order.
pub open spec fn views(units: Seq<Unit>) -> Seq<UnitView> {
    units.map_values(|u: Unit| u@)
}

/// Every unit of the flock lies on the plane.
pub open spec fn flock_wf(flock: Seq<UnitView>) -> bool {
    forall|i: int| 0 <= i < flock.len() ==> (#[trigger] flock[i]).wf()
}

/// Tells whether every unit of the flock lies on the plane.
pub fn is_flock_wf(units: &Vec<Unit>) -> (b: bool)
    ensures
        b == flock_wf(views(units@)),
{
    let mut i: usize = 0;
    while i < units.len()
        invariant
            i <= units.len(),
            forall|j: int| 0 <= j < i ==> (#[trigger] views(units@)[j]).wf(),
        decreases units.len() - i,
    {
        if !units[i].is_wf() {
            assert(!views(units@)[i as int].wf());
            return false;
        }
        i += 1;
    }
    true
}

} // verus!
