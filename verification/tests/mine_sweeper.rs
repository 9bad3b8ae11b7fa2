use minesweeper_engine::engine::BattleField;
use minesweeper_engine::engine::Cell;
use minesweeper_engine::engine::CellPosition;
use minesweeper_engine::engine::CellState;
use minesweeper_engine::engine::CellType;
use minesweeper_engine::GameState;
use minesweeper_engine::MineSweeperEngine;

#[test]
fn should_return_initial_flags_value() {
    let engine = MineSweeperEngine::create(10, 10, 10);
    let game_state = engine.game_state();

    assert_eq!(game_state.flags, 10);
}

/// A 3 by 3 layout with one mine in the bottom-right corner and exact
/// adjacency counts: the three cells around the mine carry 1, the rest 0.
fn corner_mine_field() -> BattleField {
    let cell = |id: u16, ctype: CellType, x: i16, y: i16| Cell {
        id,
        state: CellState::Hidden,
        ctype,
        position: CellPosition { x, y },
    };
    let map = vec![
        vec![
            cell(0, CellType::Empty(0), 0, 0),
            cell(1, CellType::Empty(0), 0, 1),
            cell(2, CellType::Empty(0), 0, 2),
        ],
        vec![
            cell(3, CellType::Empty(0), 1, 0),
            cell(4, CellType::Empty(1), 1, 1),
            cell(5, CellType::Empty(1), 1, 2),
        ],
        vec![
            cell(6, CellType::Empty(0), 2, 0),
            cell(7, CellType::Empty(1), 2, 1),
            cell(8, CellType::Mine, 2, 2),
        ],
    ];
    BattleField::with_map(map)
}

#[test]
fn revealing_all_safe_cells_wins_and_keeps_the_mine_hidden() {
    let mut engine = MineSweeperEngine::with_battlefield(corner_mine_field());

    let cells = engine.uncover(0);

    // Exactly the eight non-mine cells are disclosed; the mine stays
    // hidden.
    assert_eq!(cells.len(), 8);
    assert!(cells.iter().all(|c| c.state == CellState::Revealed));
    assert!(cells.iter().all(|c| c.id != 8));

    let field = engine.get_field();
    assert_eq!(field[2][2].state, CellState::Hidden);

    // Every safe cell is revealed, so the game is won.
    assert!(matches!(engine.game_state().status, GameState::Won));
}

#[test]
fn revealing_the_mine_loses_and_discloses_the_whole_field() {
    let mut engine = MineSweeperEngine::with_battlefield(corner_mine_field());

    let cells = engine.uncover(8);

    assert_eq!(cells.len(), 9);
    assert!(cells.iter().all(|c| c.state == CellState::Revealed));
    assert!(matches!(engine.game_state().status, GameState::Lose));

    let field = engine.get_field();
    for col in field.iter() {
        for c in col {
            assert_eq!(c.state, CellState::Revealed);
        }
    }
}

#[test]
fn ended_games_accept_calls_but_change_nothing() {
    let mut engine = MineSweeperEngine::with_battlefield(corner_mine_field());

    engine.uncover(8);
    assert!(matches!(engine.game_state().status, GameState::Lose));
    let field = engine.get_field();

    let cells = engine.uncover(0);
    assert!(cells.is_empty());
    let flagged = engine.flag(0);
    assert_eq!(flagged.state, CellState::Revealed);

    assert_eq!(engine.get_field(), field);
    assert!(matches!(engine.game_state().status, GameState::Lose));
}

#[test]
fn flag_budget_is_visible_through_the_session() {
    let cell = |id: u16, ctype: CellType, y: i16| Cell {
        id,
        state: CellState::Hidden,
        ctype,
        position: CellPosition { x: 0, y },
    };
    let map = vec![vec![
        cell(0, CellType::Empty(2), 0),
        cell(1, CellType::Mine, 1),
        cell(2, CellType::Mine, 2),
    ]];
    let mut engine = MineSweeperEngine::with_battlefield(BattleField::with_map(map));

    assert_eq!(engine.game_state().flags, 2);
    engine.flag(0);
    assert_eq!(engine.game_state().flags, 1);
    engine.flag(1);
    assert_eq!(engine.game_state().flags, 0);

    // The budget is spent: a third flag on a hidden cell is refused.
    let third = engine.flag(2);
    assert_eq!(third.state, CellState::Hidden);
    assert_eq!(engine.game_state().flags, 0);

    // Unflagging restores the budget.
    engine.flag(0);
    assert_eq!(engine.game_state().flags, 1);
}

#[test]
fn win_comes_exactly_when_the_last_safe_cell_is_revealed() {
    // One column of four cells, a mine at the bottom: the zero cells do
    // not flood into the cells carrying a count beyond the first ring, so
    // the win arrives only with the last safe reveal.
    let cell = |id: u16, ctype: CellType, y: i16| Cell {
        id,
        state: CellState::Hidden,
        ctype,
        position: CellPosition { x: 0, y },
    };
    let map = vec![vec![
        cell(0, CellType::Empty(0), 0),
        cell(1, CellType::Empty(0), 1),
        cell(2, CellType::Empty(1), 2),
        cell(3, CellType::Mine, 3),
    ]];
    let mut engine = MineSweeperEngine::with_battlefield(BattleField::with_map(map));

    // Revealing the informative cell alone does not win yet.
    let first = engine.uncover(2);
    assert_eq!(first.len(), 1);
    assert!(matches!(engine.game_state().status, GameState::Play));

    // Revealing the remaining safe cells floods and wins.
    let second = engine.uncover(0);
    assert_eq!(second.len(), 2);
    assert!(matches!(engine.game_state().status, GameState::Won));
}
