//! A verified Minesweeper game-state engine.
//!
//! The crate is organised like the game itself: `engine` holds the per-tile
//! [`engine::cell::Cell`] value type and the [`engine::battlefield::BattleField`]
//! grid with mine placement, adjacency counts, flood-fill revealing and the
//! flag budget; `mine_sweeper` wraps a battlefield into a
//! [`MineSweeperEngine`] session that tracks the win/lose status.
//!
//! The contracts pin the rules of the game down: generated grids carry
//! exactly the requested number of mines and exact adjacency counts, a
//! reveal discloses exactly the flood-fill closure of its target (or the
//! whole field when a mine goes off), revealing is idempotent, the flag
//! budget always balances against the flagged cells, and the session
//! reaches `Won` exactly when every safe cell stands revealed.

pub mod engine;
pub mod mine_sweeper;

pub use crate::mine_sweeper::GameState;
pub use crate::mine_sweeper::GameStateSnapshot;
pub use crate::mine_sweeper::MineSweeperEngine;
