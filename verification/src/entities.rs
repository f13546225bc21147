//! The records kept for the two kinds of particle.

use crate::geometry::{Point, UNIT};
use vstd::prelude::*;

verus! {

/// The side of the square box around a cell, in grid steps.
pub const CELL_SIZE: i32 = 15 * UNIT;

/// The side of the square box around a seed, in grid steps.
pub const SEED_SIZE: i32 = 3 * UNIT;

/// A stationary particle that a cell consumes on contact.
#[derive(Clone, Copy, Debug, PartialEq, Eq, Structural)]
pub struct Seed {
    pub id: u64,
    pub position: Point,
}

/// A particle that walks toward the attractor, one unit per frame.
#[derive(Clone, Copy, Debug, PartialEq, Eq, Structural)]
pub struct Cell {
    pub id: u64,
    pub position: Point,
}

/// A cell that has just stepped off the board: its identifier and the place
/// it stepped to, which may lie beyond the grid.
#[derive(Clone, Copy, Debug, PartialEq, Eq, Structural)]
pub struct Departure {
    pub id: u64,
    pub x: i64,
    pub y: i64,
}

} // verus!
