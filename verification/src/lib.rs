//! Flocking on a fixed-point plane: separation, alignment, cohesion and
//! steering toward a target, with a speed-limited integrator.
//!
//! Every scalar is an `i64` that counts millionths of a unit, so that all
//! arithmetic is exact integer arithmetic with a stated rounding: quotients
//! round toward zero and a distance is rounded down. The direction of a
//! vector is one long up to a few millionths, whatever the length of the
//! vector, and never longer than one. The plane reaches a billion units from
//! zero in each direction; what would leave it stays on its edge.

pub mod fixed;
pub mod root;
pub mod vector;
pub mod direction;
pub mod unit;
pub mod rules;
pub mod steering;
pub mod integrator;
pub mod spawn;
