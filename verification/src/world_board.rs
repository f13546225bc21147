//! The board: the rectangle inside which cells live.

use crate::geometry::{Rect, UNIT};
use vstd::prelude::*;

verus! {

/// Half the side of the standard board, in grid steps.
pub const STANDARD_HALF_SIDE: i32 = 250 * UNIT;

/// What a board is configured with.
#[derive(Clone, Copy, Debug, PartialEq, Eq, Structural)]
pub struct BoardSettings {
    pub(crate) rect: Rect,
}

/// The playing field. Its rectangle never changes and has a positive width and height.
#[derive(Clone, Copy, Debug, PartialEq, Eq, Structural)]
pub struct WorldBoard {
    pub(crate) settings: BoardSettings,
}

impl BoardSettings {
    /// The rectangle these settings describe.
    pub closed spec fn spec_rect(&self) -> Rect {
        self.rect
    }

    #[verifier::when_used_as_spec(spec_rect)]
    pub fn rect(&self) -> (r: Rect)
        ensures
            r == self.spec_rect(),
    {
        self.rect
    }
}

impl WorldBoard {
    /// The rectangle of the board.
    pub closed spec fn spec_rect(&self) -> Rect {
        self.settings.rect
    }

    /// The lower corner lies strictly below and left of the upper corner.
    #[verifier::type_invariant]
    pub open spec fn wf(&self) -> bool {
        self.spec_rect().min.x < self.spec_rect().max.x && self.spec_rect().min.y
            < self.spec_rect().max.y
    }

    /// A board over `rect`; `None` when `rect` has no width or no height.
    pub fn new(rect: Rect) -> (r: Option<WorldBoard>)
        ensures
            r is Some <==> rect.min.x < rect.max.x && rect.min.y < rect.max.y,
            r is Some ==> r.unwrap().spec_rect() == rect && r.unwrap().wf(),
    {
        if rect.min.x < rect.max.x && rect.min.y < rect.max.y {
            Some(WorldBoard { settings: BoardSettings { rect } })
        } else {
            None
        }
    }

    /// The standard board: 500 world units square, centred on the origin.
    pub fn standard() -> (r: WorldBoard)
        ensures
            r.wf(),
            r.spec_rect().min.x == -STANDARD_HALF_SIDE,
            r.spec_rect().min.y == -STANDARD_HALF_SIDE,
            r.spec_rect().max.x == STANDARD_HALF_SIDE,
            r.spec_rect().max.y == STANDARD_HALF_SIDE,
    {
        let rect = Rect::new(
            -STANDARD_HALF_SIDE,
            -STANDARD_HALF_SIDE,
            STANDARD_HALF_SIDE,
            STANDARD_HALF_SIDE,
        );
        WorldBoard { settings: BoardSettings { rect } }
    }

    pub fn settings(&self) -> (r: BoardSettings)
        ensures
            r.spec_rect() == self.spec_rect(),
    {
        self.settings
    }

    #[verifier::when_used_as_spec(spec_rect)]
    pub fn rect(&self) -> (r: Rect)
        ensures
            r == self.spec_rect(),
    {
        self.settings.rect
    }
}

} // verus!
