//! What reaches the world from outside during a frame.

use crate::geometry::Point;
use vstd::prelude::*;

verus! {

/// Whether a pointer button went down or up.
#[derive(Clone, Copy, Debug, PartialEq, Eq, Structural)]
pub enum ButtonState {
    Pressed,
    Released,
}

/// A change of a pointer button, with the board position under the pointer;
/// `None` when the pointer is over no window or no camera maps it onto the board.
#[derive(Clone, Copy, Debug, PartialEq, Eq, Structural)]
pub struct PointerEvent {
    pub state: ButtonState,
    pub world_position: Option<Point>,
}

/// An identifier that no seed and no cell ever has. It stands for an entity
/// that a collision engine names but the world does not know.
pub const NO_ENTITY: u64 = u64::MAX;

/// A report of a collision engine about two entities, named by their identifiers.
#[derive(Clone, Copy, Debug, PartialEq, Eq, Structural)]
pub enum CollisionEvent {
    /// The two entities began to touch.
    Started(u64, u64),
    /// The two entities ceased to touch.
    Stopped(u64, u64),
}

/// Who finds out which seeds a cell touches.
#[derive(Clone, Copy, Debug, PartialEq, Eq, Structural)]
pub enum CollisionPolicy {
    /// The world compares the box of every cell with the box of every seed.
    BoxOverlap,
    /// A collision engine reports contacts as [`CollisionEvent`]s.
    ContactEvents,
}

} // verus!
