use tetrio_replay::action::{Action, ActionKind};
use tetrio_replay::board::{Board, Hold};
use tetrio_replay::event::{
    Event, EventData, EventFull, GameType, InteractionData, Key, KeyEvent,
};
use tetrio_replay::reconstruct::{reconstruct, ReplayError, State};
use tetrio_replay::settings::Settings;
use tetrio_replay::storage::BoardStorage;
use tetrio_replay::tetromino::{Cell, Direction, Mino, MinoVariant, Spin};

fn empty_matrix(rows: usize, columns: usize) -> BoardStorage {
    BoardStorage::new_from_rows_unchecked(vec![vec![Cell::Empty; columns]; rows])
}

fn key(frame: u32, key: Key, down: bool) -> Event {
    let key_event = KeyEvent { key, subframe: 0, hoisted: None };
    Event {
        frame,
        data: if down {
            EventData::KeyDown { key_event }
        } else {
            EventData::KeyUp { key_event }
        },
    }
}

fn full(frame: u32, seed: u64, board: Vec<Vec<Option<String>>>) -> Event {
    Event {
        frame,
        data: EventData::Full {
            data: EventFull { seed, settings: Settings::default(), board },
        },
    }
}

fn sample_events() -> Vec<Event> {
    vec![
        Event { frame: 0, data: EventData::Start },
        full(0, 1742887628, vec![vec![None; 10]; 40]),
        key(5, Key::Left, true),
        key(6, Key::Left, false),
        key(10, Key::HardDrop, true),
        key(12, Key::Clockwise, true),
        key(13, Key::SoftDrop, true),
        key(18, Key::SoftDrop, false),
        key(20, Key::HardDrop, true),
        Event {
            frame: 21,
            data: EventData::InGameEvent {
                event: InteractionData::InteractionConfirm { amt: 2, column: 4 },
            },
        },
        key(30, Key::Hold, true),
        key(60, Key::HardDrop, true),
        Event { frame: 61, data: EventData::End },
    ]
}

#[test]
fn replaying_twice_gives_the_same_stream() {
    let events = sample_events();
    let first = reconstruct(GameType::Custom, &events).unwrap();
    let second = reconstruct(GameType::Custom, &events).unwrap();
    assert_eq!(first, second);
    assert_eq!(format!("{:?}", first), format!("{:?}", second));
    assert_eq!(
        first[0],
        Action {
            kind: ActionKind::Reposition {
                piece: Mino { variant: MinoVariant::Z, direction: Direction::Up, coord: (5, 22) }
            },
            frame: 0
        }
    );
    // the garbage confirmed on frame 21 rises on the drop of frame 60
    assert!(first
        .iter()
        .any(|a| a.kind == ActionKind::Garbage { column: 4, height: 2 } && a.frame == 60));
    // frames never go backwards
    for w in first.windows(2) {
        assert!(w[0].frame <= w[1].frame);
    }
}

#[test]
fn missing_full_state_is_an_error() {
    let events = vec![Event { frame: 0, data: EventData::Start }, key(3, Key::HardDrop, true)];
    assert_eq!(reconstruct(GameType::Custom, &events), Err(ReplayError::MissingFullState));
    assert_eq!(
        ReplayError::MissingFullState.message(),
        "could not find full data to extract initial game state from"
    );
}

#[test]
fn unknown_cell_is_an_error() {
    let mut board = vec![vec![None; 10]; 20];
    board[3][2] = Some("x".to_string());
    let events = vec![full(0, 5, board)];
    assert_eq!(reconstruct(GameType::League, &events), Err(ReplayError::UnknownCell));
}

#[test]
fn ragged_matrix_is_an_error() {
    let mut board = vec![vec![None; 10]; 20];
    board[7].push(None);
    let events = vec![full(0, 5, board)];
    assert_eq!(reconstruct(GameType::League, &events), Err(ReplayError::IrregularMatrix));
}

#[test]
fn oversized_matrix_is_an_error() {
    let events = vec![full(0, 5, vec![vec![None; 10]; 256])];
    assert_eq!(reconstruct(GameType::League, &events), Err(ReplayError::MatrixTooLarge));
    let events = vec![full(0, 5, vec![vec![None; 128]; 20])];
    assert_eq!(reconstruct(GameType::League, &events), Err(ReplayError::MatrixTooLarge));
}

#[test]
fn stalled_seed_is_an_error() {
    let events = vec![full(0, 2147483647 * 3, vec![vec![None; 10]; 20])];
    assert_eq!(reconstruct(GameType::League, &events), Err(ReplayError::UnusableSeed));
}

#[test]
fn blitz_is_not_supported() {
    let events = vec![full(0, 5, vec![vec![None; 10]; 20])];
    assert_eq!(reconstruct(GameType::Blitz, &events), Err(ReplayError::UnsupportedGameType));
}

#[test]
fn huge_frame_is_an_error() {
    let events = vec![full(0, 5, vec![vec![None; 10]; 40]), key(u32::MAX, Key::Left, true)];
    assert_eq!(reconstruct(GameType::League, &events), Err(ReplayError::FrameOutOfRange));
}

#[test]
fn initial_matrix_is_read_bottom_up() {
    let mut board = vec![vec![None; 3]; 2];
    board[0][0] = Some("gb".to_string());
    board[1][2] = Some("T".to_string());
    let (b, actions) = Board::new(9, GameType::Custom, Settings::default(), &board).unwrap();
    assert_eq!(b.matrix.storage[1][0], Cell::Garbage);
    assert_eq!(b.matrix.storage[0][2], Cell::Tetromino(MinoVariant::T));
    assert_eq!(actions.len(), 1);
    assert_eq!(actions[0].frame, 0);
}

#[test]
fn drop_lands_on_the_floor_of_an_empty_matrix() {
    let mut b = Board {
        matrix: empty_matrix(20, 10),
        active: Mino { variant: MinoVariant::O, direction: Direction::Up, coord: (4, 10) },
        ..Default::default()
    };
    let actions = b.drop_active();
    for (x, y) in [(4, 0), (4, 1), (5, 0), (5, 1)] {
        assert_eq!(b.matrix.storage[y][x], Cell::Tetromino(MinoVariant::O));
    }
    assert_eq!(
        actions[0],
        ActionKind::Cell { position: (4, 0), kind: Cell::Tetromino(MinoVariant::O) }
    );
    assert_eq!(actions.len(), 5);
}

#[test]
fn drop_lands_on_the_highest_support() {
    let mut m = empty_matrix(20, 10);
    m.set(5, 6, Cell::Garbage);
    let mut b = Board {
        matrix: m,
        active: Mino { variant: MinoVariant::I, direction: Direction::Up, coord: (4, 15) },
        ..Default::default()
    };
    let resting = b.will_lock_at(&b.active);
    assert_eq!(resting.coord, (4, 7));
    b.drop_active();
    for x in 3..7 {
        assert_eq!(b.matrix.storage[7][x], Cell::Tetromino(MinoVariant::I));
    }
}

#[test]
fn garbage_is_capped_per_drop_and_conserved() {
    let mut b = Board {
        matrix: empty_matrix(20, 10),
        settings: Settings { garbage_speed: 1, ..Settings::default() },
        ..Default::default()
    };
    for _ in 0..3 {
        b.acknowledge_garbage(&InteractionData::InteractionConfirm { amt: 5, column: 3 }, 0);
    }
    b.acknowledge_garbage(&InteractionData::InteractionDo { amt: 9, column: 1 }, 0);
    assert_eq!(b.acknowledged_garbage.len(), 3);
    b.passive_effects(10, &State::default());
    assert_eq!(b.acknowledged_garbage.len(), 0);
    assert_eq!(b.queued_garbage.len(), 3);

    let heights = |acts: &[ActionKind]| -> Vec<u16> {
        acts.iter()
            .filter_map(|a| match a {
                ActionKind::Garbage { height, .. } => Some(*height),
                _ => None,
            })
            .collect()
    };
    let first = b.drop_active();
    assert_eq!(heights(&first), vec![5, 3]);
    let second = b.drop_active();
    assert_eq!(heights(&second), vec![2, 5]);
    assert_eq!(b.queued_garbage.len(), 0);
    let third = b.drop_active();
    assert_eq!(heights(&third), Vec::<u16>::new());
    // fifteen garbage rows with the hole in column 3
    for y in 0..15 {
        assert_eq!(b.matrix.storage[y][3], Cell::Empty);
        assert_eq!(b.matrix.storage[y][0], Cell::Garbage);
    }
}

#[test]
fn garbage_waits_for_its_delay() {
    let mut b = Board { matrix: empty_matrix(20, 10), ..Default::default() };
    b.acknowledge_garbage(&InteractionData::InteractionConfirm { amt: 1, column: 0 }, 4);
    // garbage speed 20: ready on frame 23
    b.passive_effects(230, &State::default());
    assert_eq!(b.queued_garbage.len(), 0);
    let state = State { last_subframe: 230, ..State::default() };
    b.passive_effects(231, &state);
    assert_eq!(b.queued_garbage.len(), 1);
}

#[test]
fn second_hold_does_nothing() {
    let mut b = Board { matrix: empty_matrix(40, 10), ..Default::default() };
    let first = b.hold();
    assert_eq!(first.len(), 2);
    assert_eq!(first[0], ActionKind::Hold);
    assert_eq!(b.hold, Hold::NotActive(MinoVariant::T));
    let active = b.active;
    let second = b.hold();
    assert!(second.is_empty());
    assert_eq!(b.active, active);
    assert_eq!(b.hold, Hold::NotActive(MinoVariant::T));
}

#[test]
fn held_piece_comes_back_after_a_drop() {
    let mut b = Board { matrix: empty_matrix(40, 10), ..Default::default() };
    b.hold();
    b.drop_active();
    assert_eq!(b.hold, Hold::Active(MinoVariant::T));
    let acts = b.hold();
    assert_eq!(b.active, Mino { variant: MinoVariant::T, direction: Direction::Up, coord: (5, 22) });
    assert_eq!(acts[1], ActionKind::Reposition { piece: b.active });
}

#[test]
fn shift_slides_until_the_wall() {
    let mut b = Board {
        matrix: empty_matrix(20, 10),
        active: Mino { variant: MinoVariant::O, direction: Direction::Up, coord: (4, 5) },
        ..Default::default()
    };
    let acts = b.shift(10);
    assert_eq!(b.active.coord, (8, 5));
    assert_eq!(acts, vec![ActionKind::Reposition { piece: b.active }]);
    let acts = b.shift(-3);
    assert_eq!(b.active.coord, (5, 5));
    assert_eq!(acts.len(), 1);
    // against the wall a shift does nothing
    let mut c = Board {
        matrix: empty_matrix(20, 10),
        active: Mino { variant: MinoVariant::O, direction: Direction::Up, coord: (0, 5) },
        ..Default::default()
    };
    assert!(c.shift(-1).is_empty());
    assert_eq!(c.active.coord, (0, 5));
}

#[test]
fn blocked_rotation_does_nothing() {
    let mut b = Board {
        matrix: BoardStorage::new_from_rows_unchecked(vec![vec![Cell::Garbage; 10]; 20]),
        active: Mino { variant: MinoVariant::T, direction: Direction::Up, coord: (4, 5) },
        ..Default::default()
    };
    assert!(b.rotate_active(Spin::CW).is_empty());
    assert_eq!(b.active.direction, Direction::Up);
}

#[test]
fn free_rotation_turns_in_place() {
    let mut b = Board {
        matrix: empty_matrix(20, 10),
        active: Mino { variant: MinoVariant::T, direction: Direction::Up, coord: (4, 5) },
        gravity_state: 123,
        ..Default::default()
    };
    let acts = b.rotate_active(Spin::Flip);
    assert_eq!(b.active, Mino { variant: MinoVariant::T, direction: Direction::Down, coord: (4, 5) });
    assert_eq!(b.gravity_state, 0);
    assert_eq!(acts.len(), 1);
}

#[test]
fn gravity_lowers_the_piece_one_row_per_cell_of_progress() {
    let mut b = Board {
        matrix: empty_matrix(20, 10),
        active: Mino { variant: MinoVariant::O, direction: Direction::Up, coord: (4, 10) },
        settings: Settings { gravity: 1000000, ..Settings::default() },
        ..Default::default()
    };
    // one cell a frame: ten subframes make one row
    let acts = b.passive_effects(10, &State::default());
    assert_eq!(b.active.coord, (4, 9));
    assert_eq!(acts.len(), 1);
    assert_eq!(acts[0].frame, 0);
    assert_eq!(b.gravity_state, 0);
}

#[test]
fn lock_delay_forces_a_drop() {
    let mut b = Board {
        matrix: empty_matrix(20, 10),
        active: Mino { variant: MinoVariant::O, direction: Direction::Up, coord: (4, 0) },
        settings: Settings { gravity: 0, lock_delay: 5, ..Settings::default() },
        ..Default::default()
    };
    let acts = b.passive_effects(5, &State::default());
    assert_eq!(b.matrix.storage[0][4], Cell::Tetromino(MinoVariant::O));
    assert_eq!(acts.last().unwrap().frame, 0);
}

#[test]
fn lock_resets_run_out() {
    let mut b = Board {
        matrix: empty_matrix(20, 10),
        active: Mino { variant: MinoVariant::O, direction: Direction::Up, coord: (0, 0) },
        ..Default::default()
    };
    let mut dropped = false;
    for i in 0..16 {
        let acts = b.shift(if i % 2 == 0 { 1 } else { -1 });
        if acts.iter().any(|a| matches!(a, ActionKind::Cell { .. })) {
            dropped = true;
            assert_eq!(i, 15);
        }
    }
    assert!(dropped);
}

#[test]
fn auto_shift_repeats_after_das() {
    let mut b = Board {
        matrix: empty_matrix(20, 10),
        active: Mino { variant: MinoVariant::O, direction: Direction::Up, coord: (4, 10) },
        settings: Settings { gravity: 0, das: 10, arr: 5, ..Settings::default() },
        ..Default::default()
    };
    let state = State {
        shifting: tetrio_replay::reconstruct::ShiftDirection::Right,
        ..State::default()
    };
    // shifts on subframes 10 and 15
    b.passive_effects(16, &state);
    assert_eq!(b.active.coord, (6, 10));
}

#[test]
fn lock_reset_is_spent_only_when_the_new_position_rests() {
    let mut m = empty_matrix(20, 10);
    m.set(5, 0, Cell::Garbage);
    // resting on the garbage, moving off it to a free spot
    let mut b = Board {
        matrix: m,
        active: Mino { variant: MinoVariant::O, direction: Direction::Up, coord: (4, 1) },
        ..Default::default()
    };
    assert!(b.will_lock(b.active));
    b.shift(-1);
    assert_eq!(b.active.coord, (3, 1));
    assert!(!b.will_lock(b.active));
    assert_eq!(b.lock_count, 16);
    // moving along the floor into a resting position
    let mut c = Board {
        matrix: empty_matrix(20, 10),
        active: Mino { variant: MinoVariant::O, direction: Direction::Up, coord: (2, 0) },
        ..Default::default()
    };
    c.shift(1);
    assert_eq!(c.active.coord, (3, 0));
    assert_eq!(c.lock_count, 15);
}

#[test]
fn key_event_subframe_is_processed_once() {
    let mut b = Board { matrix: empty_matrix(40, 10), ..Default::default() };
    let mut state = State::default();
    let mut stream = Vec::new();
    let ev = KeyEvent { key: Key::SoftDrop, subframe: 3, hoisted: None };
    state.handle_keys(&mut b, &mut stream, &ev, true, 2);
    assert_eq!(state.last_subframe, 24);
    assert!(state.soft_dropping);
}
