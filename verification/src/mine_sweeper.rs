//! The game session: a battlefield together with the win/lose status and
//! the counters that derive it.
//!
//! The status machine is `Play -> Lose` on any reveal that exposes a
//! mine, `Play -> Won` when the revealed count reaches the number of
//! non-mine cells, and `Won` and `Lose` are terminal. Once the game has
//! ended, further reveal and flag calls are accepted but change nothing:
//! the engine freezes all mutation rather than corrupting its counters.

use vstd::prelude::*;

use crate::engine::battlefield::flag_rel;
use crate::engine::battlefield::lemma_uncover_preserves_zero_closed;
use crate::engine::battlefield::uncover_rel;
use crate::engine::battlefield::BattleField;
use crate::engine::cell::Cell;
use crate::engine::cell::CellId;
use crate::engine::counting::count_mines;
use crate::engine::counting::count_revealed;
use crate::engine::counting::lemma_count_flagged_pos;
use crate::engine::counting::lemma_count_mines_bounds;

verus! {

/// The status of a game session.
#[derive(Copy, Clone, Debug, PartialEq, Eq, Structural)]
pub enum GameState {
    /// Signals to the player that the game is going.
    Play,
    /// Signals to the player that the game has ended and the user lost.
    Lose,
    /// Signals to the player that the game has ended and the user won.
    Won,
}

/// A snapshot of the observable session state: the status and the number
/// of flags still available.
#[derive(Copy, Clone, Debug, PartialEq, Eq, Structural)]
pub struct GameStateSnapshot {
    pub status: GameState,
    pub flags: u16,
}

/// The main Minesweeper engine: the battlefield together with the game
/// status, the number of cells that remain to be revealed for a win, and
/// the count of cells revealed so far.
pub struct MineSweeperEngine {
    /// The battlefield of the game.
    pub battlefield: BattleField,
    /// The current status of the game.
    pub game_state: GameState,
    /// How many cells have to be revealed in all to win the game.
    pub elements_to_win_the_game: u16,
    /// How many cells are revealed so far.
    pub revealed_elements: u16,
}

impl MineSweeperEngine {
    /// The session invariant: the battlefield is well formed and its
    /// books balance, and the session counters agree with it.
    pub open spec fn inv(self) -> bool {
        &&& self.battlefield.wf()
        &&& self.battlefield.placed()
        &&& self.battlefield.budget_ok()
        &&& self.battlefield.mines_ok()
        &&& self.battlefield.zero_closed()
        &&& self.battlefield.bombs as int <= self.battlefield.total()
        &&& self.elements_to_win_the_game as int == self.battlefield.total()
            - self.battlefield.bombs as int
        &&& self.revealed_elements as int == count_revealed(self.battlefield.cells@)
    }

    /// Creates the engine with a freshly generated battlefield of the
    /// given dimensions and mine count. The caller keeps
    /// `bombs <= rows * cols` and the dimensions within the id range.
    pub fn create(rows: u16, cols: u16, bombs: u16) -> (e: MineSweeperEngine)
        requires
            rows <= 0x7fff,
            cols <= 0x7fff,
            rows as int * cols as int <= 0xffff,
            bombs as int <= rows as int * cols as int,
        ensures
            e.inv(),
            e.game_state == GameState::Play,
            e.revealed_elements == 0,
            e.elements_to_win_the_game as int == rows as int * cols as int - bombs as int,
            e.battlefield.rows == rows,
            e.battlefield.cols == cols,
            e.battlefield.bombs == bombs,
            e.battlefield.flags_left == bombs,
            e.battlefield.counts_ok(),
            count_mines(e.battlefield.cells@) == bombs as int,
            forall|i: int|
                0 <= i < e.battlefield.total() ==> (#[trigger] e.battlefield.cells@[i]).state
                    is Hidden,
    {
        let battlefield = BattleField::new(rows as usize, cols as usize, bombs);
        proof {
            crate::engine::counting::lemma_count_all_hidden(battlefield.cells@);
        }
        let total: usize = (rows as usize) * (cols as usize);
        let target: u16 = (total - bombs as usize) as u16;
        Self {
            battlefield,
            game_state: GameState::Play,
            elements_to_win_the_game: target,
            revealed_elements: 0,
        }
    }

    /// Wraps an already built battlefield into a fresh session. This is
    /// the deterministic counterpart of `create`: together with
    /// `BattleField::with_map` it drives a game over a known layout.
    pub fn with_battlefield(battlefield: BattleField) -> (e: MineSweeperEngine)
        requires
            battlefield.wf(),
            battlefield.placed(),
            battlefield.budget_ok(),
            battlefield.mines_ok(),
            battlefield.zero_closed(),
        ensures
            e.inv(),
            e.game_state == GameState::Play,
            e.battlefield == battlefield,
            e.revealed_elements as int == count_revealed(battlefield.cells@),
    {
        proof {
            lemma_count_mines_bounds(battlefield.cells@);
        }
        let total: usize = (battlefield.cols as usize) * (battlefield.rows as usize);
        let target: u16 = (total - battlefield.bombs as usize) as u16;
        let revealed = battlefield.revealed_count();
        Self {
            battlefield,
            game_state: GameState::Play,
            elements_to_win_the_game: target,
            revealed_elements: revealed,
        }
    }

    /// Reveals the cell with the given id and returns the snapshots of
    /// every cell the move changed, the target first. A reveal that
    /// exposes a mine ends the game as lost, after disclosing the whole
    /// field; a reveal that brings the revealed count up to the number of
    /// non-mine cells ends it as won. Once the game has ended the call is
    /// accepted but changes nothing and returns no cells.
    pub fn uncover(&mut self, cell_id: CellId) -> (cells: Vec<Cell>)
        requires
            old(self).inv(),
            old(self).game_state is Play ==> (cell_id as int) < old(self).battlefield.total(),
        ensures
            final(self).inv(),
            !(old(self).game_state is Play) ==> *final(self) == *old(self) && cells@.len() == 0,
            old(self).game_state is Play ==> {
                &&& uncover_rel(
                    old(self).battlefield,
                    final(self).battlefield,
                    cells@,
                    old(self).battlefield.cells@[cell_id as int].ctype is Mine,
                    cell_id as int,
                )
                &&& final(self).game_state == (if old(self).battlefield.cells@[cell_id as int].ctype
                    is Mine {
                    GameState::Lose
                } else if count_revealed(final(self).battlefield.cells@) == final(self).battlefield.total()
                    - final(self).battlefield.bombs as int {
                    GameState::Won
                } else {
                    GameState::Play
                })
                &&& final(self).elements_to_win_the_game == old(self).elements_to_win_the_game
                &&& final(self).revealed_elements as int == count_revealed(
                    final(self).battlefield.cells@,
                )
            },
    {
        match self.game_state {
            GameState::Play => {},
            _ => { return Vec::new(); },
        }
        let r = self.battlefield.uncover(cell_id);
        proof {
            lemma_uncover_preserves_zero_closed(
                old(self).battlefield,
                self.battlefield,
                r.cells@,
                r.game_is_over,
                cell_id as int,
            );
        }
        let rv = self.battlefield.revealed_count();
        self.revealed_elements = rv;
        if r.game_is_over {
            self.game_state = GameState::Lose;
        } else if rv == self.elements_to_win_the_game {
            self.game_state = GameState::Won;
        }
        r.cells
    }

    /// Flags or unflags the cell with the given id and returns its
    /// snapshot. Once the game has ended the call is accepted but changes
    /// nothing and returns the cell as it stands.
    pub fn flag(&mut self, cell_id: CellId) -> (cell: Cell)
        requires
            old(self).inv(),
            (cell_id as int) < old(self).battlefield.total(),
        ensures
            final(self).inv(),
            !(old(self).game_state is Play) ==> *final(self) == *old(self) && cell == old(
                self,
            ).battlefield.cells@[cell_id as int],
            old(self).game_state is Play ==> {
                &&& flag_rel(
                    old(self).battlefield,
                    final(self).battlefield,
                    cell_id as int,
                    cell,
                )
                &&& final(self).game_state == old(self).game_state
                &&& final(self).elements_to_win_the_game == old(self).elements_to_win_the_game
                &&& final(self).revealed_elements == old(self).revealed_elements
            },
    {
        match self.game_state {
            GameState::Play => {},
            _ => { return self.battlefield.get(cell_id); },
        }
        proof {
            if old(self).battlefield.cells@[cell_id as int].state is Flagged {
                lemma_count_flagged_pos(self.battlefield.cells@, cell_id as int);
            }
        }
        let cell = self.battlefield.flag(cell_id);
        proof {
            crate::engine::counting::lemma_count_mines_pointwise(
                self.battlefield.cells@,
                old(self).battlefield.cells@,
            );
            assert forall|i: int, j: int|
                (0 <= i < self.battlefield.total() && self.battlefield.cells@[i].state is Revealed
                    && self.battlefield.cells@[i].ctype
                    == crate::engine::cell::CellType::Empty(0)
                    && #[trigger] self.battlefield.neighbors(i, j) && !self.battlefield.is_mine(
                    j,
                )) implies self.battlefield.cells@[j].state is Revealed by {
                assert(old(self).battlefield.neighbors(i, j));
                assert(old(self).battlefield.cells@[i].state is Revealed);
            }
        }
        cell
    }

    /// Returns the observable state of the game: the status and the
    /// remaining flag budget, read fresh from the battlefield.
    pub fn game_state(&self) -> (s: GameStateSnapshot)
        ensures
            s.status == self.game_state,
            s.flags == self.battlefield.flags_left,
    {
        GameStateSnapshot { status: self.game_state, flags: self.battlefield.flags_left }
    }

    /// Returns the whole field as a matrix of cell snapshots, one inner
    /// vector per column, in the ordering of construction.
    pub fn get_field(&self) -> (r: Vec<Vec<Cell>>)
        requires
            self.battlefield.wf(),
        ensures
            r@.len() == self.battlefield.cols as int,
            forall|x: int|
                0 <= x < self.battlefield.cols as int ==> (#[trigger] r@[x])@.len()
                    == self.battlefield.rows as int,
            forall|x: int, y: int|
                self.battlefield.in_bounds(x, y) ==> (#[trigger] r@[x]@[y])
                    == self.battlefield.cells@[self.battlefield.idx(x, y)],
    {
        self.battlefield.get_all()
    }
}

} // verus!
