use minesweeper_engine::engine::BattleField;
use minesweeper_engine::engine::Cell;
use minesweeper_engine::engine::CellId;
use minesweeper_engine::engine::CellPosition;
use minesweeper_engine::engine::CellState;
use minesweeper_engine::engine::CellType;

#[test]
fn should_create_field_4_by_10() {
    let battlefield = BattleField::new(10, 4, 0);
    let field = battlefield.get_all();

    assert_eq!(field.len(), 4);
    assert_eq!(field[0].len(), 10);
}

#[test]
fn field_should_contains_10_bombs() {
    let battlefield = BattleField::new(10, 10, 10);
    let field = battlefield.get_all();

    let mut bombs_count = 0;
    for col in field.iter() {
        for cell in col {
            if cell.ctype == CellType::Mine {
                bombs_count += 1;
            }
        }
    }

    assert_eq!(bombs_count, 10);
}

#[test]
fn should_return_cell_by_specify_position() {
    let battlefield = BattleField::new(10, 10, 0);
    let cell = battlefield.get_by_position(CellPosition { x: 1, y: 5 });

    if let Some(c) = cell {
        assert_eq!(c, Cell::new(15, CellType::Empty(0), CellPosition { x: 1, y: 5 }),)
    }
}

#[test]
fn should_not_return_cell_by_specify_position_because_it_is_out_of_bounce() {
    let battlefield = BattleField::new(10, 10, 0);
    let cell = battlefield.get_by_position(CellPosition { x: -3, y: -1 });

    if cell.is_some() {
        panic!("Cell mustn't be Some in that particular scenario");
    } else {
        assert!(cell.is_none());
    }
}

#[test]
fn battlefield_should_return_cell_by_specify_position() {
    let battlefield = BattleField::new(10, 10, 0);
    let cell = battlefield.get_by_position(CellPosition { x: 5, y: 5 });

    if let Some(c) = cell {
        println!("Should be here!");
        assert_eq!(
            c,
            Cell {
                id: 55,
                position: CellPosition { x: 5, y: 5 },
                state: CellState::Hidden,
                ctype: CellType::Empty(0)
            }
        )
    }
}

#[test]
fn battlefield_should_not_return_cell_by_specify_position_because_it_is_out_of_bounce() {
    let battlefield = BattleField::new(10, 10, 0);
    let cell = battlefield.get_by_position(CellPosition { x: -1, y: -1 });

    if cell.is_some() {
        panic!("Cell mustn't be Some in that particular scenario");
    } else {
        assert_eq!(cell.is_none(), true);
    }
}

#[test]
fn should_reveal_all_cells_if_none_bombs_were_found() {
    // |0, 0, 0|
    // |0, 0, 0|
    // |0, 0, 0|
    let map = vec![
        vec![
            Cell::new(0, CellType::Empty(0), CellPosition { x: 0, y: 0 }),
            Cell::new(1, CellType::Empty(0), CellPosition { x: 0, y: 1 }),
            Cell::new(2, CellType::Empty(0), CellPosition { x: 0, y: 2 }),
        ],
        vec![
            Cell::new(3, CellType::Empty(0), CellPosition { x: 1, y: 0 }),
            Cell::new(4, CellType::Empty(0), CellPosition { x: 1, y: 1 }),
            Cell::new(5, CellType::Empty(0), CellPosition { x: 1, y: 2 }),
        ],
        vec![
            Cell::new(6, CellType::Empty(0), CellPosition { x: 2, y: 0 }),
            Cell::new(7, CellType::Empty(0), CellPosition { x: 2, y: 1 }),
            Cell::new(8, CellType::Empty(0), CellPosition { x: 2, y: 2 }),
        ],
    ];
    let mut battlefield = BattleField::with_map(map);

    // Start reveal from the top-left cell
    //  it should affect all cells and at
    //  the end all 9 cells must be revealed
    let revealed = battlefield.uncover(0);
    let revealed_cells_state = revealed
        .cells
        .iter()
        .map(|cell| cell.state)
        .collect::<Vec<CellState>>();

    assert_eq!(
        revealed_cells_state,
        vec![
            CellState::Revealed,
            CellState::Revealed,
            CellState::Revealed,
            CellState::Revealed,
            CellState::Revealed,
            CellState::Revealed,
            CellState::Revealed,
            CellState::Revealed,
            CellState::Revealed
        ]
    );
}

#[test]
fn should_reveal_and_return_only_unrevealed_elements() {
    // |0, 0, 1|
    // |0, 0, 1|
    // |1, 1, 1|
    let map = vec![
        vec![
            Cell::new(0, CellType::Empty(0), CellPosition { x: 0, y: 0 }),
            Cell::new(1, CellType::Empty(0), CellPosition { x: 0, y: 1 }),
            Cell {
                id: 2,
                state: CellState::Revealed,
                ctype: CellType::Empty(0),
                position: CellPosition { x: 0, y: 2 },
            },
        ],
        vec![
            Cell::new(3, CellType::Empty(0), CellPosition { x: 1, y: 0 }),
            Cell::new(4, CellType::Empty(0), CellPosition { x: 1, y: 1 }),
            Cell {
                id: 5,
                state: CellState::Revealed,
                ctype: CellType::Empty(0),
                position: CellPosition { x: 1, y: 2 },
            },
        ],
        vec![
            Cell {
                id: 6,
                state: CellState::Revealed,
                ctype: CellType::Empty(0),
                position: CellPosition { x: 2, y: 0 },
            },
            Cell {
                id: 7,
                state: CellState::Revealed,
                ctype: CellType::Empty(0),
                position: CellPosition { x: 2, y: 1 },
            },
            Cell {
                id: 8,
                state: CellState::Revealed,
                ctype: CellType::Empty(0),
                position: CellPosition { x: 2, y: 2 },
            },
        ],
    ];
    let mut battlefield = BattleField::with_map(map);

    let revealed = battlefield.uncover(0);
    let revealed_cells_state = revealed
        .cells
        .iter()
        .map(|cell| cell.state)
        .collect::<Vec<CellState>>();

    let revealed_cells_id = revealed
        .cells
        .iter()
        .map(|cell| cell.id)
        .collect::<Vec<CellId>>();

    // Only 4 should have `Revealed` state
    assert_eq!(
        revealed_cells_state,
        vec![
            CellState::Revealed,
            CellState::Revealed,
            CellState::Revealed,
            CellState::Revealed,
        ]
    );

    // Only specific 4 cell should be uncovered
    assert_eq!(revealed_cells_id, vec![0, 1, 3, 4]);
}

#[test]
fn should_reveal_cells_and_not_take_the_bomb() {
    // |0, 0, 0|
    // |0, 1, 1|
    // |0, 1, b|
    let map = vec![
        vec![
            Cell {
                id: 0,
                state: CellState::Hidden,
                ctype: CellType::Empty(0),
                position: CellPosition { x: 0, y: 0 },
            },
            Cell {
                id: 1,
                state: CellState::Hidden,
                ctype: CellType::Empty(0),
                position: CellPosition { x: 0, y: 1 },
            },
            Cell {
                id: 2,
                state: CellState::Hidden,
                ctype: CellType::Empty(1),
                position: CellPosition { x: 0, y: 2 },
            },
        ],
        vec![
            Cell {
                id: 3,
                state: CellState::Hidden,
                ctype: CellType::Empty(0),
                position: CellPosition { x: 1, y: 0 },
            },
            Cell {
                id: 4,
                state: CellState::Hidden,
                ctype: CellType::Empty(0),
                position: CellPosition { x: 1, y: 1 },
            },
            Cell {
                id: 5,
                state: CellState::Hidden,
                ctype: CellType::Empty(1),
                position: CellPosition { x: 1, y: 2 },
            },
        ],
        vec![
            Cell {
                id: 6,
                state: CellState::Hidden,
                ctype: CellType::Empty(0),
                position: CellPosition { x: 2, y: 0 },
            },
            Cell {
                id: 7,
                state: CellState::Hidden,
                ctype: CellType::Empty(0),
                position: CellPosition { x: 2, y: 1 },
            },
            Cell {
                id: 8,
                state: CellState::Hidden,
                ctype: CellType::Mine,
                position: CellPosition { x: 2, y: 2 },
            },
        ],
    ];
    let mut battlefield = BattleField::with_map(map);

    let revealed = battlefield.uncover(0);
    let revealed_cells_state = revealed
        .cells
        .iter()
        .map(|cell| cell.state)
        .collect::<Vec<CellState>>();

    let revealed_cells_id = revealed
        .cells
        .iter()
        .map(|cell| cell.id)
        .collect::<Vec<CellId>>();

    assert_eq!(
        revealed_cells_state,
        vec![
            CellState::Revealed,
            CellState::Revealed,
            CellState::Revealed,
            CellState::Revealed,
            CellState::Revealed,
            CellState::Revealed,
            CellState::Revealed,
            CellState::Revealed,
        ]
    );
    assert_eq!(revealed_cells_id, vec![0, 1, 2, 3, 4, 5, 6, 7]);
}

#[test]
fn should_reveal_all_elements_if_user_select_the_bomb() {
    // |0, 0, 0|
    // |0, 1, 1|
    // |0, 1, b|
    let map = vec![
        vec![
            Cell {
                id: 0,
                state: CellState::Hidden,
                ctype: CellType::Empty(0),
                position: CellPosition { x: 0, y: 0 },
            },
            Cell {
                id: 1,
                state: CellState::Hidden,
                ctype: CellType::Empty(0),
                position: CellPosition { x: 0, y: 1 },
            },
            Cell {
                id: 2,
                state: CellState::Hidden,
                ctype: CellType::Empty(1),
                position: CellPosition { x: 0, y: 2 },
            },
        ],
        vec![
            Cell {
                id: 3,
                state: CellState::Hidden,
                ctype: CellType::Empty(0),
                position: CellPosition { x: 1, y: 0 },
            },
            Cell {
                id: 4,
                state: CellState::Hidden,
                ctype: CellType::Empty(0),
                position: CellPosition { x: 1, y: 1 },
            },
            Cell {
                id: 5,
                state: CellState::Hidden,
                ctype: CellType::Empty(1),
                position: CellPosition { x: 1, y: 2 },
            },
        ],
        vec![
            Cell {
                id: 6,
                state: CellState::Hidden,
                ctype: CellType::Empty(0),
                position: CellPosition { x: 2, y: 0 },
            },
            Cell {
                id: 7,
                state: CellState::Hidden,
                ctype: CellType::Empty(0),
                position: CellPosition { x: 2, y: 1 },
            },
            Cell {
                id: 8,
                state: CellState::Hidden,
                ctype: CellType::Mine,
                position: CellPosition { x: 2, y: 2 },
            },
        ],
    ];
    let mut battlefield = BattleField::with_map(map);

    // Start reveal the bomb's id
    let revealed = battlefield.uncover(8);
    let revealed_cells_state = revealed
        .cells
        .iter()
        .map(|cell| cell.state)
        .collect::<Vec<CellState>>();

    let mut revealed_cells_id = revealed
        .cells
        .iter()
        .map(|cell| cell.id)
        .collect::<Vec<CellId>>();

    revealed_cells_id.sort_unstable();

    assert_eq!(
        revealed_cells_state,
        vec![
            CellState::Revealed,
            CellState::Revealed,
            CellState::Revealed,
            CellState::Revealed,
            CellState::Revealed,
            CellState::Revealed,
            CellState::Revealed,
            CellState::Revealed,
            CellState::Revealed,
        ]
    );
    assert_eq!(revealed_cells_id, vec![0, 1, 2, 3, 4, 5, 6, 7, 8]);
}

#[test]
fn battlefield_should_flag_the_cell() {
    let map = vec![vec![
        Cell {
            id: 0,
            state: CellState::Hidden,
            ctype: CellType::Empty(0),
            position: CellPosition { x: 0, y: 0 },
        },
        Cell {
            id: 1,
            state: CellState::Hidden,
            ctype: CellType::Mine,
            position: CellPosition { x: 0, y: 0 },
        },
    ]];
    let mut battlefield = BattleField::with_map(map);

    let cell = battlefield.flag(0);

    assert_eq!(
        cell,
        Cell {
            id: 0,
            ctype: CellType::Empty(0),
            state: CellState::Flagged,
            position: CellPosition { x: 0, y: 0 }
        }
    );
}

#[test]
fn battlefield_should_not_flag_the_cell_if_it_is_revealed() {
    let map = vec![vec![Cell {
        id: 0,
        state: CellState::Revealed,
        ctype: CellType::Empty(0),
        position: CellPosition { x: 0, y: 0 },
    }]];
    let mut battlefield = BattleField::with_map(map);

    let cell = battlefield.flag(0);

    assert_eq!(
        cell,
        Cell {
            id: 0,
            state: CellState::Revealed,
            ctype: CellType::Empty(0),
            position: CellPosition { x: 0, y: 0 }
        }
    );
}

#[test]
fn should_unflag_the_cell_if_it_is_flagged() {
    let map = vec![vec![Cell {
        id: 0,
        state: CellState::Flagged,
        ctype: CellType::Empty(0),
        position: CellPosition { x: 0, y: 0 },
    }]];
    let mut battlefield = BattleField::with_map(map);

    let cell = battlefield.flag(0);

    assert_eq!(
        cell,
        Cell {
            id: 0,
            state: CellState::Hidden,
            ctype: CellType::Empty(0),
            position: CellPosition { x: 0, y: 0 }
        }
    );
}

#[test]
fn should_build_correct_max_flag_values_counter() {
    let map = vec![vec![
        Cell {
            id: 0,
            state: CellState::Hidden,
            ctype: CellType::Empty(0),
            position: CellPosition { x: 0, y: 0 },
        },
        Cell {
            id: 1,
            state: CellState::Hidden,
            ctype: CellType::Mine,
            position: CellPosition { x: 0, y: 0 },
        },
        Cell {
            id: 2,
            state: CellState::Hidden,
            ctype: CellType::Mine,
            position: CellPosition { x: 0, y: 0 },
        },
    ]];
    let mut battlefield = BattleField::with_map(map);

    assert_eq!(battlefield.flags_left, 2);

    battlefield.flag(0);

    assert_eq!(battlefield.flags_left, 1);
}

#[test]
fn should_not_set_more_flags_that_is_possible() {
    let map = vec![vec![
        Cell {
            id: 0,
            state: CellState::Hidden,
            ctype: CellType::Empty(0),
            position: CellPosition { x: 0, y: 0 },
        },
        Cell {
            id: 1,
            state: CellState::Hidden,
            ctype: CellType::Mine,
            position: CellPosition { x: 0, y: 0 },
        },
        Cell {
            id: 2,
            state: CellState::Hidden,
            ctype: CellType::Mine,
            position: CellPosition { x: 0, y: 0 },
        },
    ]];
    let mut battlefield = BattleField::with_map(map);

    let cell0 = battlefield.flag(0);
    assert_eq!(cell0.state, CellState::Flagged);

    let cell1 = battlefield.flag(1);
    assert_eq!(cell1.state, CellState::Flagged);

    let cell2 = battlefield.flag(2);
    assert_eq!(cell2.state, CellState::Hidden);

    assert_eq!(battlefield.flags_left, 0);
}

#[test]
fn should_unflag_already_flagged_cells() {
    let map = vec![vec![
        Cell {
            id: 0,
            state: CellState::Hidden,
            ctype: CellType::Empty(0),
            position: CellPosition { x: 0, y: 0 },
        },
        Cell {
            id: 1,
            state: CellState::Hidden,
            ctype: CellType::Mine,
            position: CellPosition { x: 0, y: 0 },
        },
        Cell {
            id: 2,
            state: CellState::Hidden,
            ctype: CellType::Mine,
            position: CellPosition { x: 0, y: 0 },
        },
    ]];
    let mut battlefield = BattleField::with_map(map);

    assert_eq!(battlefield.flags_left, 2);
    let cell0 = battlefield.flag(0);
    assert_eq!(cell0.state, CellState::Flagged);
    assert_eq!(battlefield.flags_left, 1);

    let cell1 = battlefield.flag(1);
    assert_eq!(cell1.state, CellState::Flagged);
    assert_eq!(battlefield.flags_left, 0);

    // Should NOT flag the cell by `cell_id: 2`
    let cell2 = battlefield.flag(2);
    assert_eq!(cell2.state, CellState::Hidden);
    assert_eq!(battlefield.flags_left, 0);

    // Should unflag the cell by `cell_id: 0`
    let cell0 = battlefield.flag(0);
    assert_eq!(cell0.state, CellState::Hidden);
    assert_eq!(battlefield.flags_left, 1);

    // Should unflag the cell by `cell_id: 1`
    let cell1 = battlefield.flag(1);
    assert_eq!(cell1.state, CellState::Hidden);
    assert_eq!(battlefield.flags_left, 2);

    // Should flag the cell by `cell_id: 2`
    let cell2 = battlefield.flag(2);
    assert_eq!(cell2.state, CellState::Flagged);
    assert_eq!(battlefield.flags_left, 1);
}

#[test]
fn should_have_actual_state_value_when_reveal_flagged_cell() {
    let map = vec![vec![
        Cell {
            id: 0,
            state: CellState::Hidden,
            ctype: CellType::Empty(0),
            position: CellPosition { x: 0, y: 0 },
        },
        Cell {
            id: 1,
            state: CellState::Hidden,
            ctype: CellType::Mine,
            position: CellPosition { x: 0, y: 1 },
        },
        Cell {
            id: 2,
            state: CellState::Hidden,
            ctype: CellType::Mine,
            position: CellPosition { x: 0, y: 2 },
        },
        Cell {
            id: 3,
            state: CellState::Hidden,
            ctype: CellType::Mine,
            position: CellPosition { x: 0, y: 3 },
        },
    ]];

    let mut battlefield = BattleField::with_map(map);

    assert_eq!(battlefield.flags_left, 3);

    // Flag two cells
    battlefield.flag(0);
    battlefield.flag(1);

    assert_eq!(battlefield.flags_left, 1);

    battlefield.uncover(0);

    // After revealing we have to have one empty flag left
    assert_eq!(battlefield.flags_left, 2);
}

// The adjacency counts of a freshly generated field are exact: every
// empty cell carries the number of mines among its in-bounds neighbours,
// and exactly the requested number of mines is placed.
#[test]
fn generated_field_has_exact_adjacency_counts() {
    let battlefield = BattleField::new(3, 3, 2);
    let field = battlefield.get_all();

    let mut mines = 0;
    for col in field.iter() {
        for cell in col {
            if cell.ctype == CellType::Mine {
                mines += 1;
            }
        }
    }
    assert_eq!(mines, 2);

    for x in 0..3i16 {
        for y in 0..3i16 {
            let cell = field[x as usize][y as usize];
            if let CellType::Empty(n) = cell.ctype {
                let mut expected = 0;
                for dx in -1..2i16 {
                    for dy in -1..2i16 {
                        if dx == 0 && dy == 0 {
                            continue;
                        }
                        let nx = x + dx;
                        let ny = y + dy;
                        if nx >= 0 && nx < 3 && ny >= 0 && ny < 3 {
                            if field[nx as usize][ny as usize].ctype == CellType::Mine {
                                expected += 1;
                            }
                        }
                    }
                }
                assert_eq!(n as i32, expected);
            }
            assert_eq!(cell.state, CellState::Hidden);
            assert_eq!(cell.position, CellPosition { x, y });
        }
    }
}

// Lookups past the far edges are rejected just like negative ones.
#[test]
fn lookup_beyond_the_far_edges_returns_nothing() {
    let battlefield = BattleField::new(10, 10, 0);
    assert!(battlefield.get_by_position(CellPosition { x: 10, y: 0 }).is_none());
    assert!(battlefield.get_by_position(CellPosition { x: 0, y: 10 }).is_none());
    assert!(battlefield.get_by_position(CellPosition { x: 9, y: 9 }).is_some());
}

// Revealing the same non-mine cell twice leaves the grid exactly as the
// first reveal left it, and the second delta carries nothing new.
#[test]
fn second_reveal_of_same_cell_changes_nothing() {
    let mut battlefield = BattleField::new(4, 4, 0);

    battlefield.uncover(5);
    let field_after_first = battlefield.get_all();
    let flags_after_first = battlefield.flags_left;

    let second = battlefield.uncover(5);

    assert_eq!(battlefield.get_all(), field_after_first);
    assert_eq!(battlefield.flags_left, flags_after_first);
    assert_eq!(second.cells.len(), 1);
    assert_eq!(second.cells[0].id, 5);
    assert!(!second.game_is_over);
}
