use tetrio_replay::action::ActionKind;
use tetrio_replay::damage_table::{Attack, AttackKey, DamageTable};
use tetrio_replay::storage::BoardStorage;
use tetrio_replay::tetromino::{
    kick_offsets, shape_offsets, Cell, Direction, Mino, MinoVariant, Positions, Rotation, Spin,
};

#[test]
fn orientation_is_reduced_mod_four() {
    assert_eq!(Direction::from_i8(-1), Direction::Left);
    assert_eq!(Direction::from_i8(5), Direction::Right);
    assert_eq!(Direction::from_i8(-128), Direction::Up);
    assert_eq!(Direction::Left.turned(Spin::CW), Direction::Up);
    assert_eq!(Direction::Up.turned(Spin::CCW), Direction::Left);
    assert_eq!(Direction::Right.turned(Spin::Flip), Direction::Left);
}

#[test]
fn shapes_turn_about_the_reference() {
    assert_eq!(shape_offsets(MinoVariant::T, Direction::Right), [(0, 1), (0, 0), (0, -1), (1, 0)]);
    assert_eq!(shape_offsets(MinoVariant::O, Direction::Left), [(0, 0), (0, 1), (1, 0), (1, 1)]);
    assert_eq!(shape_offsets(MinoVariant::I, Direction::Right), [(1, 1), (1, 0), (1, -1), (1, -2)]);
    assert_eq!(shape_offsets(MinoVariant::J, Direction::Down), [(1, -1), (1, 0), (0, 0), (-1, 0)]);
}

#[test]
fn position_adds_the_reference() {
    let m = Mino { variant: MinoVariant::S, direction: Direction::Up, coord: (3, 7) };
    let p = m.position();
    assert_eq!(p.0, [(3, 7), (2, 7), (3, 8), (4, 8)]);
    let q = Positions::tetromino(m);
    assert_eq!(q.iter().copied().collect::<Vec<_>>(), vec![(3, 7), (2, 7), (3, 8), (4, 8)]);
}

#[test]
fn kicks_follow_the_table() {
    let t = Mino { variant: MinoVariant::T, direction: Direction::Up, coord: (4, 4) };
    assert_eq!(t.kick(Spin::CW), Some(vec![(-1, 0), (-1, 1), (0, -2), (-1, -2)]));
    assert_eq!(t.kick(Spin::Flip), Some(vec![(0, 1), (1, 1), (-1, 1), (1, 0), (-1, 0)]));
    let j = Mino { variant: MinoVariant::J, ..t };
    assert_eq!(j.kick(Spin::Flip), None);
    let o = Mino { variant: MinoVariant::O, ..t };
    assert_eq!(o.kick(Spin::CW), None);
    let i = Rotation { piece: MinoVariant::I, from: Direction::Left, to: Direction::Up };
    assert_eq!(kick_offsets(i), Some(vec![(1, 0), (-2, 0), (1, 2), (-2, -1)]));
    assert_eq!(
        t.rotation(Spin::CCW),
        Rotation { piece: MinoVariant::T, from: Direction::Up, to: Direction::Left }
    );
    assert_eq!(t.rotate(Spin::CCW).direction, Direction::Left);
}

#[test]
fn cell_names() {
    assert_eq!(Cell::from_name("gb"), Some(Cell::Garbage));
    assert_eq!(Cell::from_name("T"), Some(Cell::Tetromino(MinoVariant::T)));
    assert_eq!(Cell::from_name("l"), Some(Cell::Tetromino(MinoVariant::L)));
    assert_eq!(Cell::from_name("x"), None);
    assert_eq!(Cell::from_name("GB"), None);
    assert_eq!(Cell::from_optional_name(&None), Some(Cell::Empty));
    assert!(Cell::Empty.is_empty());
    assert!(!Cell::Garbage.is_empty());
}

#[test]
fn clear_line_moves_rows_down() {
    let mut m = BoardStorage::new_from_rows_unchecked(vec![
        vec![Cell::Garbage, Cell::Garbage],
        vec![Cell::Empty, Cell::Garbage],
        vec![Cell::Garbage, Cell::Empty],
    ]);
    m.clear_line(0);
    assert_eq!(
        m.storage,
        vec![
            vec![Cell::Empty, Cell::Garbage],
            vec![Cell::Garbage, Cell::Empty],
            vec![Cell::Empty, Cell::Empty],
        ]
    );
    assert_eq!(m.get(1, 0), Some(Cell::Garbage));
    assert_eq!(m.get(2, 0), None);
    assert_eq!(m.get(-1, 0), None);
}

#[test]
fn garbage_rises_from_the_bottom() {
    let mut m = BoardStorage::new_from_rows_unchecked(vec![
        vec![Cell::Tetromino(MinoVariant::Z), Cell::Empty, Cell::Empty],
        vec![Cell::Empty; 3],
        vec![Cell::Empty; 3],
    ]);
    m.apply_garbage(1, 2);
    assert_eq!(
        m.storage,
        vec![
            vec![Cell::Garbage, Cell::Empty, Cell::Garbage],
            vec![Cell::Garbage, Cell::Empty, Cell::Garbage],
            vec![Cell::Tetromino(MinoVariant::Z), Cell::Empty, Cell::Empty],
        ]
    );
}

#[test]
fn frames_are_attached() {
    let a = ActionKind::Hold.attach_frame(42);
    assert_eq!(a.frame, 42);
    assert_eq!(a.kind, ActionKind::Hold);
}

#[test]
fn damage_table_prefers_exact_entries_then_groups_in_order() {
    let key = AttackKey { combo: 0, b2b: 0, piece: MinoVariant::T, lines: 2, spin: true };
    let other = AttackKey { combo: 3, b2b: 0, piece: MinoVariant::I, lines: 1, spin: false };
    let table = DamageTable {
        general: vec![
            (Attack { combo: None, b2b: None, piece: Some(MinoVariant::T), lines: None, spin: Some(true) }, 4),
            (Attack { combo: None, b2b: None, piece: None, lines: Some(1), spin: None }, 1),
        ],
        specific: vec![(key, 7)],
    };
    assert_eq!(table.get(&key), Some(7));
    assert_eq!(table.get(&other), Some(1));
    let spin = AttackKey { lines: 3, ..key };
    assert_eq!(table.get(&spin), Some(4));
    let none = AttackKey { combo: 1, b2b: 1, piece: MinoVariant::O, lines: 4, spin: false };
    assert_eq!(table.get(&none), None);
    assert!(table.general[0].0.matches(&spin));
    assert!(!table.general[0].0.matches(&none));
}

#[test]
fn lowest_first_is_a_stable_sort_by_row() {
    let p = Positions([(0, 3), (1, 1), (2, 3), (3, 0)]);
    assert_eq!(p.lowest_first().0, [(3, 0), (1, 1), (0, 3), (2, 3)]);
}

#[test]
fn far_pieces_fail_closed() {
    let b = tetrio_replay::board::Board { matrix: BoardStorage::new_from_rows_unchecked(vec![vec![Cell::Empty; 10]; 20]), ..Default::default() };
    let far = Mino { variant: MinoVariant::T, direction: Direction::Up, coord: (i16::MAX, i16::MIN) };
    assert!(b.intersects(&far));
    assert!(b.will_lock(far));
}
