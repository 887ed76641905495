use vstd::prelude::*;

use crate::tetromino::{Cell, Mino};

verus! {

/// One change to a player's board. Several may happen on one frame; they apply in the order
/// they are given.
#[derive(Clone, Copy, Debug, PartialEq, Eq)]
pub enum ActionKind {
    /// Garbage rows of the given height, with a hole at `column`, rise from the bottom.
    Garbage { column: u16, height: u16 },
    /// The active piece moves to `piece`.
    Reposition { piece: Mino },
    /// The row `row` is removed; the rows above it move down.
    LineClear { row: u8 },
    /// The cell at `position` (column, row) becomes `kind`.
    Cell { position: (u8, u8), kind: Cell },
    /// The active piece and the held piece trade places.
    Hold,
}

impl ActionKind {
    /// Stamps this action with the frame on which it happens.
    pub fn attach_frame(self, frame: u32) -> (r: Action)
        ensures
            r.kind == self,
            r.frame == frame,
    {
        Action { kind: self, frame }
    }
}

/// An action and the frame on which it happens.
#[derive(Clone, Copy, Debug, PartialEq, Eq)]
pub struct Action {
    pub kind: ActionKind,
    pub frame: u32,
}

} // verus!
