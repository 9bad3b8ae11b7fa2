//! The game engine proper: cells and the battlefield grid.

pub mod battlefield;
pub mod cell;
pub mod counting;

pub use crate::engine::battlefield::BattleField;
pub use crate::engine::battlefield::Reveal;
pub use crate::engine::cell::Cell;
pub use crate::engine::cell::CellId;
pub use crate::engine::cell::CellPosition;
pub use crate::engine::cell::CellState;
pub use crate::engine::cell::CellType;
