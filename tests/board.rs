use tetrio_replay::board::Board;
use tetrio_replay::storage::BoardStorage;
use tetrio_replay::tetromino::{Cell, Direction, Mino, MinoVariant, Spin};

/// Reads a board written as rows of ten cells from the top: `_` empty, `#` garbage, a lower-case
/// piece letter for a piece.
fn board_from_string(s: &str) -> BoardStorage {
    let cells: Vec<Cell> = s
        .chars()
        .filter_map(|ch| match ch {
            '_' => Some(Cell::Empty),
            'z' => Some(Cell::Tetromino(MinoVariant::Z)),
            'l' => Some(Cell::Tetromino(MinoVariant::L)),
            'o' => Some(Cell::Tetromino(MinoVariant::O)),
            's' => Some(Cell::Tetromino(MinoVariant::S)),
            'i' => Some(Cell::Tetromino(MinoVariant::I)),
            'j' => Some(Cell::Tetromino(MinoVariant::J)),
            't' => Some(Cell::Tetromino(MinoVariant::T)),
            '#' => Some(Cell::Garbage),
            _ => None,
        })
        .collect();
    let mut rows: Vec<Vec<Cell>> = cells.chunks(10).map(|r| r.to_vec()).collect();
    rows.reverse();
    BoardStorage::new_from_rows_unchecked(rows)
}

#[test]
fn test_rotations() {
    let mut board = Board {
        active: Mino {
            variant: MinoVariant::T,
            direction: Direction::Down,
            coord: (5, 20),
        },
        ..Default::default()
    };

    board.rotate_active(Spin::CW);
}

#[test]
fn test_t_kicks() {
    let mut tki_board = Board {
        active: Mino {
            variant: MinoVariant::T,
            direction: Direction::Right,
            coord: (1, 2),
        },
        // the flat-top tki made with garbage cells built with tspin on the left
        matrix: board_from_string("___________________________________________________________________________________________________________________________________________________________________________________________________________________________________________________________________________________________________________________________________________________________________________###____#__####___#___########_#######"),
        ..Default::default()
    };

    tki_board.rotate_active(Spin::CW);
    assert_eq!(tki_board.active.coord, (2, 1));

    let mut tst_board = Board {
        matrix: board_from_string("__________________________________________________________________________________________________________________________________________________________________________________________________________________________________________________________________________________________________________________________________________________________________#_______________####_#########__########_#####"),
        active: Mino {
            variant: MinoVariant::T,
            direction: Direction::Up,
            coord: (5, 3),
        },
        ..Default::default()
    };

    tst_board.rotate_active(Spin::CW);
    assert_eq!(tst_board.active.coord, (4, 1))
}

#[test]
fn test_drops() {
    {
        // navigate through messy board
        let board_initial = board_from_string("________________________________________________________________________________________________________________________________________________________________________________________________________________________________________________________________________________________#__########___#########__#____###___#__####______###_____#_##_#_____#_#_#_#_____#_###_#####___######____#####_###_####_#");
        let board_final = board_from_string("________________________________________________________________________________________________________________________________________________________________________________________________________________________________________________________________________________________#__########___#########__#____###___#__####______###_____#_##_#jjj__#_#_#_#j____#_###_#####___######____#####_###_####_#");

        let mut b = Board {
            matrix: board_initial,
            active: Mino {
                variant: MinoVariant::J,
                direction: Direction::Down,
                coord: (4, 7),
            },
            ..Default::default()
        };

        b.drop_active();

        assert_eq!(b.matrix.storage, board_final.storage, "messy board");

        // drop that clears lines
        let board_initial = board_from_string("______________________________________________________________________________________________________________________________________________________________________________________________________________________________________________________________________________________________________________________________________________________________####_#####__________####_#####____________________");
        let board_final = board_from_string("______________________________________________________________________________________________________________________________________________________________________________________________________________________________________________________________________________________________________________________________________________________________________________________tt________________________");

        let mut b = Board {
            matrix: board_initial,
            active: Mino {
                variant: MinoVariant::T,
                direction: Direction::Right,
                coord: (4, 3),
            },
            ..Default::default()
        };

        println!("{:?}", b.drop_active());
        assert_eq!(b.matrix.storage, board_final.storage, "unnatural t skim")
    }
}

#[test]
fn t_skim_reports_its_line_clears() {
    let mut b = Board {
        matrix: board_from_string("______________________________________________________________________________________________________________________________________________________________________________________________________________________________________________________________________________________________________________________________________________________________####_#####__________####_#####____________________"),
        active: Mino {
            variant: MinoVariant::T,
            direction: Direction::Right,
            coord: (4, 3),
        },
        ..Default::default()
    };
    let actions = b.drop_active();
    let clears: Vec<String> = actions
        .iter()
        .filter(|a| matches!(a, tetrio_replay::action::ActionKind::LineClear { .. }))
        .map(|a| format!("{:?}", a))
        .collect();
    assert_eq!(clears, vec!["LineClear { row: 2 }", "LineClear { row: 3 }"]);
    // no row is left full
    for row in &b.matrix.storage {
        assert!(row.iter().any(|c| c.is_empty()));
    }
}
