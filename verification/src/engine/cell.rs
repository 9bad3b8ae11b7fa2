//! The per-tile value type and its local state transitions.

use vstd::prelude::*;

verus! {

/// Identifier of a cell, unique across a whole battlefield.
pub type CellId = u16;

/// What a cell is: a mine, or an empty tile carrying the number of mines
/// among its up-to-eight neighbours (`0` when none is nearby).
#[derive(Copy, Clone, Debug, PartialEq, Eq, Structural)]
pub enum CellType {
    /// Cell is a mine.
    Mine,
    /// Cell is empty; the payload is the adjacency count (0 to 8).
    Empty(u8),
}

/// A grid coordinate: `x` is the column, `y` is the row. The fields are
/// signed so that neighbour arithmetic may step off the grid before the
/// bounds check rejects the position.
#[derive(Copy, Clone, Debug, PartialEq, Eq, Structural)]
pub struct CellPosition {
    pub x: i16,
    pub y: i16,
}

/// The player-visible state of a cell. Exactly one variant holds at any
/// time; the transitions of `reveal` and `flag` are the sole mutators.
#[derive(Copy, Clone, Debug, PartialEq, Eq, Structural)]
pub enum CellState {
    /// Default state: not yet uncovered.
    Hidden,
    /// The cell was uncovered.
    Revealed,
    /// The cell was marked as a potential mine.
    Flagged,
}

/// One tile on the board. `id` is immutable after creation, `ctype` is
/// immutable once grid generation finishes, and `state` is the only field
/// that changes during play.
#[derive(Copy, Clone, Debug, PartialEq, Eq, Structural)]
pub struct Cell {
    /// Cell identifier.
    pub id: CellId,
    /// Cell type.
    pub ctype: CellType,
    /// Player-visible state.
    pub state: CellState,
    /// Cell position: `position.x` is the column, `position.y` is the row.
    pub position: CellPosition,
}

impl Cell {
    /// Creates a new `Cell` in the default `Hidden` state.
    pub fn new(id: CellId, ctype: CellType, position: CellPosition) -> (c: Cell)
        ensures
            c == (Cell { id, ctype, state: CellState::Hidden, position }),
    {
        Cell { id, ctype, state: CellState::Hidden, position }
    }

    /// Reveals the cell: sets the state to `Revealed` unconditionally, so
    /// uncovering an already revealed cell changes nothing.
    pub fn uncover(&mut self)
        ensures
            final(self).state == CellState::Revealed,
            final(self).id == old(self).id,
            final(self).ctype == old(self).ctype,
            final(self).position == old(self).position,
    {
        self.state = CellState::Revealed;
    }

    /// Flags the cell if it is hidden (returns `true`), unflags it if it is
    /// flagged (returns `false`), and leaves a revealed cell untouched
    /// (returns `false`): a revealed cell can never become flagged.
    pub fn flag(&mut self) -> (flagged: bool)
        ensures
            old(self).state == CellState::Flagged ==> final(self).state == CellState::Hidden && !flagged,
            old(self).state == CellState::Hidden ==> final(self).state == CellState::Flagged && flagged,
            old(self).state == CellState::Revealed ==> final(self).state == CellState::Revealed && !flagged,
            final(self).id == old(self).id,
            final(self).ctype == old(self).ctype,
            final(self).position == old(self).position,
    {
        if self.state == CellState::Flagged {
            self.state = CellState::Hidden;
            false
        } else if self.state == CellState::Hidden {
            self.state = CellState::Flagged;
            true
        } else {
            false
        }
    }
}

} // verus!
