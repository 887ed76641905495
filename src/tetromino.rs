use vstd::prelude::*;

verus! {

/// The seven tetromino shapes.
#[derive(Clone, Copy, Debug, PartialEq, Eq, Structural, Hash)]
pub enum MinoVariant {
    L,
    J,
    T,
    Z,
    S,
    O,
    I,
}

/// The state of one cell of the matrix. A `Tetromino` cell is filled with the colour of that
/// piece.
#[derive(Clone, Copy, Debug, PartialEq, Eq, Structural)]
pub enum Cell {
    Tetromino(MinoVariant),
    Garbage,
    Empty,
}

/// The piece that a letter names, in either case.
pub open spec fn letter_variant(c: char) -> Option<MinoVariant> {
    if c == 'l' || c == 'L' {
        Some(MinoVariant::L)
    } else if c == 'j' || c == 'J' {
        Some(MinoVariant::J)
    } else if c == 't' || c == 'T' {
        Some(MinoVariant::T)
    } else if c == 'z' || c == 'Z' {
        Some(MinoVariant::Z)
    } else if c == 's' || c == 'S' {
        Some(MinoVariant::S)
    } else if c == 'o' || c == 'O' {
        Some(MinoVariant::O)
    } else if c == 'i' || c == 'I' {
        Some(MinoVariant::I)
    } else {
        None
    }
}

/// The cell that a stored name stands for: "gb" is garbage, a piece letter is that piece;
/// other names stand for nothing.
pub open spec fn named_cell(name: Seq<char>) -> Option<Cell> {
    if name.len() == 2 && name[0] == 'g' && name[1] == 'b' {
        Some(Cell::Garbage)
    } else if name.len() == 1 {
        match letter_variant(name[0]) {
            Some(v) => Some(Cell::Tetromino(v)),
            None => None,
        }
    } else {
        None
    }
}

/// The cell that an optional stored name stands for; no name is an empty cell.
pub open spec fn cell_of_name(name: Option<String>) -> Option<Cell> {
    match name {
        Some(n) => named_cell(n@),
        None => Some(Cell::Empty),
    }
}

impl Cell {
    /// Reads a cell from its stored name: "gb" for garbage, a piece letter (either case) for
    /// a piece. `None` when the name is unknown.
    pub fn from_name(name: &str) -> (r: Option<Cell>)
        ensures
            r == named_cell(name@),
    {
        let n = name.unicode_len();
        if n == 2 {
            if name.get_char(0) == 'g' && name.get_char(1) == 'b' {
                return Some(Cell::Garbage);
            }
            None
        } else if n == 1 {
            let c = name.get_char(0);
            let v = if c == 'l' || c == 'L' {
                Some(MinoVariant::L)
            } else if c == 'j' || c == 'J' {
                Some(MinoVariant::J)
            } else if c == 't' || c == 'T' {
                Some(MinoVariant::T)
            } else if c == 'z' || c == 'Z' {
                Some(MinoVariant::Z)
            } else if c == 's' || c == 'S' {
                Some(MinoVariant::S)
            } else if c == 'o' || c == 'O' {
                Some(MinoVariant::O)
            } else if c == 'i' || c == 'I' {
                Some(MinoVariant::I)
            } else {
                None
            };
            match v {
                Some(v) => Some(Cell::Tetromino(v)),
                None => None,
            }
        } else {
            None
        }
    }

    /// Reads an optional stored name; no name is an empty cell.
    pub fn from_optional_name(name: &Option<String>) -> (r: Option<Cell>)
        ensures
            r == cell_of_name(*name),
    {
        match name {
            Some(n) => Cell::from_name(n.as_str()),
            None => Some(Cell::Empty),
        }
    }

    pub fn is_empty(&self) -> (r: bool)
        ensures
            r == (*self is Empty),
    {
        match self {
            Cell::Empty => true,
            _ => false,
        }
    }
}

/// A rotation command: clockwise is a quarter turn, counter-clockwise three quarter turns, and a
/// flip two.
#[derive(Clone, Copy, Debug, PartialEq, Eq, Structural)]
pub enum Spin {
    CW,
    CCW,
    Flip,
}

impl Spin {
    pub open spec fn quarter_turns(self) -> int {
        match self {
            Spin::CW => 1,
            Spin::CCW => 3,
            Spin::Flip => 2,
        }
    }
}

/// The orientation of a piece. For a T piece, `Up` is the orientation whose lone cell points up.
#[derive(Clone, Copy, Debug, PartialEq, Eq, Structural, Hash)]
pub enum Direction {
    Up,
    Right,
    Down,
    Left,
}

impl Direction {
    /// Number of clockwise quarter turns from `Up`.
    pub open spec fn index(self) -> int {
        match self {
            Direction::Up => 0,
            Direction::Right => 1,
            Direction::Down => 2,
            Direction::Left => 3,
        }
    }

    /// The orientation reached after `n` clockwise quarter turns from `Up` (reduced mod 4).
    pub open spec fn of_index(n: int) -> Direction {
        let k = n % 4;
        if k == 0 {
            Direction::Up
        } else if k == 1 {
            Direction::Right
        } else if k == 2 {
            Direction::Down
        } else {
            Direction::Left
        }
    }

    /// Converts a turn count to an orientation, reducing it mod 4 first.
    pub fn from_i8(n: i8) -> (r: Direction)
        ensures
            r == Direction::of_index(n as int),
    {
        // 128 is a multiple of 4, so the shift keeps the residue and makes the operand non-negative
        let k: i16 = (n as i16 + 128) % 4;
        assert((n as int + 128) % 4 == (n as int) % 4) by (nonlinear_arith);
        if k == 0 {
            Direction::Up
        } else if k == 1 {
            Direction::Right
        } else if k == 2 {
            Direction::Down
        } else {
            Direction::Left
        }
    }

    /// The orientation after applying `spin`.
    pub fn turned(self, spin: Spin) -> (r: Direction)
        ensures
            r == Direction::of_index(self.index() + spin.quarter_turns()),
    {
        let a: i8 = match self {
            Direction::Up => 0,
            Direction::Right => 1,
            Direction::Down => 2,
            Direction::Left => 3,
        };
        let b: i8 = match spin {
            Spin::CW => 1,
            Spin::CCW => 3,
            Spin::Flip => 2,
        };
        Direction::from_i8(a + b)
    }
}

/// A rotation of one piece from one orientation to another; keys the kick table.
#[derive(Clone, Copy, Debug, PartialEq, Eq, Structural, Hash)]
pub struct Rotation {
    pub piece: MinoVariant,
    pub from: Direction,
    pub to: Direction,
}

/// A piece: its shape, its orientation and its reference coordinate (column, row).
#[derive(Clone, Copy, Debug, Eq)]
pub struct Mino {
    pub variant: MinoVariant,
    pub direction: Direction,
    pub coord: (i16, i16),
}

impl PartialEq for Mino {
    fn eq(&self, o: &Mino) -> (r: bool) {
        self.variant == o.variant && self.direction == o.direction && self.coord.0 == o.coord.0
            && self.coord.1 == o.coord.1
    }
}

impl vstd::std_specs::cmp::PartialEqSpecImpl for Mino {
    open spec fn obeys_eq_spec() -> bool {
        true
    }

    open spec fn eq_spec(&self, o: &Mino) -> bool {
        *self == *o
    }
}

/// The four absolute cells of a piece, as (column, row).
#[derive(Clone, Copy, Debug)]
pub struct Positions(pub [(isize, isize); 4]);

impl Positions {
    /// The cells of `mino`.
    pub fn tetromino(mino: Mino) -> (r: Positions)
        ensures
            int_pairs(r.0@) == mino_cells(mino),
    {
        mino.position()
    }

    /// The same cells, sorted by row from the lowest up; cells in one row keep their order.
    pub fn lowest_first(self) -> (r: Positions)
        ensures
            r.0@ == sorted_by_row(self.0@),
    {
        let mut a = self.0;
        let ghost orig = self.0@;
        proof {
            assert(orig.take(1).drop_last() =~= orig.take(0));
            assert(sorted_by_row(orig.take(0)) =~= Seq::<(isize, isize)>::empty());
            assert(a@.take(1) =~= sorted_by_row(orig.take(1)));
        }
        let mut i: usize = 1;
        while i < 4
            invariant
                1 <= i <= 4,
                orig.len() == 4,
                a@.len() == 4,
                a@.take(i as int) == sorted_by_row(orig.take(i as int)),
                a@.skip(i as int) == orig.skip(i as int),
            decreases 4 - i,
        {
            let ghost srt = sorted_by_row(orig.take(i as int));
            let ghost p = orig[i as int];
            proof {
                lemma_sorted_len(orig.take(i as int));
                assert(srt.take(i as int) =~= srt);
                assert(srt.skip(i as int) =~= Seq::<(isize, isize)>::empty());
                assert(orig.skip(i as int) =~= seq![p] + orig.skip(i + 1));
                assert(a@ =~= a@.take(i as int) + a@.skip(i as int));
                assert(a@ =~= srt.take(i as int) + seq![p] + srt.skip(i as int) + orig.skip(i + 1));
                assert(insert_by_row(srt, p) + srt.skip(i as int) =~= insert_by_row(srt, p));
            }
            let mut j: usize = i;
            while j > 0 && a[j - 1].1 > a[j].1
                invariant
                    0 <= j <= i < 4,
                    a@.len() == 4,
                    srt.len() == i,
                    a@ == srt.take(j as int) + seq![p] + srt.skip(j as int) + orig.skip(i + 1),
                    insert_by_row(srt, p) == insert_by_row(srt.take(j as int), p) + srt.skip(j as int),
                decreases j,
            {
                proof {
                    assert(a@[j - 1] == srt[j - 1]);
                    assert(a@[j as int] == p);
                    assert(srt.take(j as int).drop_last() =~= srt.take(j - 1));
                    assert(srt.take(j as int).last() == srt[j - 1]);
                    assert(srt.skip(j - 1) =~= seq![srt[j - 1]] + srt.skip(j as int));
                }
                let lo = a[j - 1];
                let hi = a[j];
                a[j - 1] = hi;
                a[j] = lo;
                j = j - 1;
                proof {
                    assert(a@ =~= srt.take(j as int) + seq![p] + srt.skip(j as int) + orig.skip(i + 1));
                }
            }
            proof {
                if j > 0 {
                    assert(a@[j - 1] == srt[j - 1]);
                    assert(a@[j as int] == p);
                    assert(srt.take(j as int).last() == srt[j - 1]);
                }
                assert(insert_by_row(srt.take(j as int), p) =~= srt.take(j as int).push(p));
                assert(orig.take(i + 1).drop_last() =~= orig.take(i as int));
                assert(orig.take(i + 1).last() == p);
                assert(a@.take(i + 1) =~= insert_by_row(srt, p));
                assert(a@.skip(i + 1) =~= orig.skip(i + 1));
            }
            i = i + 1;
        }
        proof {
            assert(orig.take(4) =~= orig);
            assert(a@.take(4) =~= a@);
        }
        Positions(a)
    }

    /// The cells, in order.
    pub fn iter(&self) -> (r: std::slice::Iter<'_, (isize, isize)>)
        ensures
            r == vstd::std_specs::slice::spec_slice_iter(vstd::array::spec_array_as_slice(&self.0)),
    {
        vstd::array::array_as_slice(&self.0).iter()
    }
}

/// `sorted` with `p` placed after every cell whose row is at most `p`'s.
pub open spec fn insert_by_row(sorted: Seq<(isize, isize)>, p: (isize, isize)) -> Seq<(isize, isize)>
    decreases sorted.len(),
{
    if sorted.len() == 0 {
        seq![p]
    } else if sorted.last().1 <= p.1 {
        sorted.push(p)
    } else {
        insert_by_row(sorted.drop_last(), p).push(sorted.last())
    }
}

/// `s` sorted by row, lowest first, keeping the order of cells within a row.
pub open spec fn sorted_by_row(s: Seq<(isize, isize)>) -> Seq<(isize, isize)>
    decreases s.len(),
{
    if s.len() == 0 {
        s
    } else {
        insert_by_row(sorted_by_row(s.drop_last()), s.last())
    }
}

pub proof fn lemma_insert_len(sorted: Seq<(isize, isize)>, p: (isize, isize))
    ensures
        insert_by_row(sorted, p).len() == sorted.len() + 1,
    decreases sorted.len(),
{
    if sorted.len() > 0 && sorted.last().1 > p.1 {
        lemma_insert_len(sorted.drop_last(), p);
    }
}

pub proof fn lemma_sorted_len(s: Seq<(isize, isize)>)
    ensures
        sorted_by_row(s).len() == s.len(),
    decreases s.len(),
{
    if s.len() > 0 {
        lemma_sorted_len(s.drop_last());
        lemma_insert_len(sorted_by_row(s.drop_last()), s.last());
    }
}

/// Cell offsets of each piece in its `Up` orientation.
pub open spec fn up_shape(v: MinoVariant) -> Seq<(int, int)> {
    match v {
        MinoVariant::T => seq![(-1, 0), (0, 0), (1, 0), (0, 1)],
        MinoVariant::L => seq![(1, 1), (-1, 0), (0, 0), (1, 0)],
        MinoVariant::J => seq![(-1, 1), (-1, 0), (0, 0), (1, 0)],
        MinoVariant::O => seq![(0, 0), (0, 1), (1, 0), (1, 1)],
        MinoVariant::S => seq![(0, 0), (-1, 0), (0, 1), (1, 1)],
        MinoVariant::Z => seq![(0, 0), (1, 0), (0, 1), (-1, 1)],
        MinoVariant::I => seq![(2, 0), (-1, 0), (0, 0), (1, 0)],
    }
}

/// The I piece does not turn about a cell, so each of its orientations is given outright.
pub open spec fn i_shape(d: Direction) -> Seq<(int, int)> {
    match d {
        Direction::Up => seq![(2, 0), (-1, 0), (0, 0), (1, 0)],
        Direction::Left => seq![(0, 1), (0, 0), (0, -1), (0, -2)],
        Direction::Down => seq![(2, -1), (-1, -1), (0, -1), (1, -1)],
        Direction::Right => seq![(1, 1), (1, 0), (1, -1), (1, -2)],
    }
}

/// An offset turned clockwise about the reference cell as many quarter turns as `d` is from `Up`.
pub open spec fn turn_offset(p: (int, int), d: Direction) -> (int, int) {
    match d {
        Direction::Up => p,
        Direction::Right => (p.1, -p.0),
        Direction::Down => (-p.0, -p.1),
        Direction::Left => (-p.1, p.0),
    }
}

/// Cell offsets of a piece in a given orientation.
pub open spec fn shape(v: MinoVariant, d: Direction) -> Seq<(int, int)> {
    match v {
        MinoVariant::O => up_shape(v),
        MinoVariant::I => i_shape(d),
        _ => up_shape(v).map_values(|p: (int, int)| turn_offset(p, d)),
    }
}

/// The absolute cells of a piece.
pub open spec fn mino_cells(m: Mino) -> Seq<(int, int)> {
    shape(m.variant, m.direction).map_values(
        |p: (int, int)| (p.0 + m.coord.0 as int, p.1 + m.coord.1 as int),
    )
}

pub open spec fn int_pairs(s: Seq<(isize, isize)>) -> Seq<(int, int)> {
    s.map_values(|p: (isize, isize)| (p.0 as int, p.1 as int))
}

pub open spec fn small_pairs(s: Seq<(i8, i8)>) -> Seq<(int, int)> {
    s.map_values(|p: (i8, i8)| (p.0 as int, p.1 as int))
}

fn up_offsets(v: MinoVariant) -> (r: [(i8, i8); 4])
    ensures
        small_pairs(r@) == up_shape(v),
{
    let r: [(i8, i8); 4] = match v {
        MinoVariant::T => [(-1, 0), (0, 0), (1, 0), (0, 1)],
        MinoVariant::L => [(1, 1), (-1, 0), (0, 0), (1, 0)],
        MinoVariant::J => [(-1, 1), (-1, 0), (0, 0), (1, 0)],
        MinoVariant::O => [(0, 0), (0, 1), (1, 0), (1, 1)],
        MinoVariant::S => [(0, 0), (-1, 0), (0, 1), (1, 1)],
        MinoVariant::Z => [(0, 0), (1, 0), (0, 1), (-1, 1)],
        MinoVariant::I => [(2, 0), (-1, 0), (0, 0), (1, 0)],
    };
    assert(small_pairs(r@) =~= up_shape(v));
    r
}

fn turn(p: (i8, i8), d: Direction) -> (r: (i8, i8))
    requires
        -8 <= p.0 <= 8,
        -8 <= p.1 <= 8,
    ensures
        (r.0 as int, r.1 as int) == turn_offset((p.0 as int, p.1 as int), d),
        -8 <= r.0 <= 8,
        -8 <= r.1 <= 8,
{
    match d {
        Direction::Up => p,
        Direction::Right => (p.1, -p.0),
        Direction::Down => (-p.0, -p.1),
        Direction::Left => (-p.1, p.0),
    }
}

/// Cell offsets of a piece in the given orientation, as the rotation table gives them.
pub fn shape_offsets(v: MinoVariant, d: Direction) -> (r: [(i8, i8); 4])
    ensures
        small_pairs(r@) == shape(v, d),
{
    match v {
        MinoVariant::O => up_offsets(v),
        MinoVariant::I => {
            let r: [(i8, i8); 4] = match d {
                Direction::Up => [(2, 0), (-1, 0), (0, 0), (1, 0)],
                Direction::Left => [(0, 1), (0, 0), (0, -1), (0, -2)],
                Direction::Down => [(2, -1), (-1, -1), (0, -1), (1, -1)],
                Direction::Right => [(1, 1), (1, 0), (1, -1), (1, -2)],
            };
            assert(small_pairs(r@) =~= i_shape(d));
            r
        },
        _ => {
            let u = up_offsets(v);
            assert(small_pairs(u@)[0] == up_shape(v)[0]);
            assert(small_pairs(u@)[1] == up_shape(v)[1]);
            assert(small_pairs(u@)[2] == up_shape(v)[2]);
            assert(small_pairs(u@)[3] == up_shape(v)[3]);
            let r = [turn(u[0], d), turn(u[1], d), turn(u[2], d), turn(u[3], d)];
            assert(small_pairs(r@) =~= shape(v, d));
            r
        },
    }
}

impl Mino {
    /// A fresh piece of the given shape, in its spawn orientation and position.
    pub fn spawn(variant: MinoVariant) -> (r: Mino)
        ensures
            r == spawned(variant),
    {
        Mino { variant, direction: Direction::Up, coord: (5, 22) }
    }

    /// The four cells this piece occupies.
    pub fn position(&self) -> (r: Positions)
        ensures
            int_pairs(r.0@) == mino_cells(*self),
    {
        let o = shape_offsets(self.variant, self.direction);
        assert(small_pairs(o@)[0] == shape(self.variant, self.direction)[0]);
        assert(small_pairs(o@)[1] == shape(self.variant, self.direction)[1]);
        assert(small_pairs(o@)[2] == shape(self.variant, self.direction)[2]);
        assert(small_pairs(o@)[3] == shape(self.variant, self.direction)[3]);
        let x = self.coord.0 as isize;
        let y = self.coord.1 as isize;
        let r = Positions(
            [
                (o[0].0 as isize + x, o[0].1 as isize + y),
                (o[1].0 as isize + x, o[1].1 as isize + y),
                (o[2].0 as isize + x, o[2].1 as isize + y),
                (o[3].0 as isize + x, o[3].1 as isize + y),
            ],
        );
        assert(int_pairs(r.0@) =~= mino_cells(*self));
        r
    }

    /// The rotation that `at` would perform on this piece.
    pub fn rotation(&self, at: Spin) -> (r: Rotation)
        ensures
            r == (Rotation {
                piece: self.variant,
                from: self.direction,
                to: Direction::of_index(self.direction.index() + at.quarter_turns()),
            }),
    {
        Rotation { piece: self.variant, from: self.direction, to: self.direction.turned(at) }
    }

    /// This piece turned by `at`, about its reference coordinate and without kicks.
    pub fn rotate(&self, at: Spin) -> (r: Mino)
        ensures
            r == rotated(*self, at),
    {
        Mino { variant: self.variant, direction: self.direction.turned(at), coord: self.coord }
    }

    /// The kick offsets that a rotation by `at` tries after the unkicked position, in order.
    pub fn kick(&self, at: Spin) -> (r: Option<Vec<(i8, i8)>>)
        ensures
            r matches Some(v) ==> kicks(self.rotation_spec(at)) == Some(small_pairs(v@)),
            r is None ==> kicks(self.rotation_spec(at)) is None,
    {
        kick_offsets(self.rotation(at))
    }

    pub open spec fn rotation_spec(self, at: Spin) -> Rotation {
        Rotation {
            piece: self.variant,
            from: self.direction,
            to: Direction::of_index(self.direction.index() + at.quarter_turns()),
        }
    }
}

pub open spec fn spawned(variant: MinoVariant) -> Mino {
    Mino { variant, direction: Direction::Up, coord: (5, 22) }
}

pub open spec fn rotated(m: Mino, at: Spin) -> Mino {
    Mino {
        variant: m.variant,
        direction: Direction::of_index(m.direction.index() + at.quarter_turns()),
        coord: m.coord,
    }
}

/// The standard kicks shared by J, L, T, S and Z, for quarter turns.
pub open spec fn jltsz_kicks(from: Direction, to: Direction) -> Option<Seq<(int, int)>> {
    match (from, to) {
        (Direction::Up, Direction::Right) => Some(seq![(-1, 0), (-1, 1), (0, -2), (-1, -2)]),
        (Direction::Right, Direction::Up) => Some(seq![(1, 0), (1, -1), (0, 2), (1, 2)]),
        (Direction::Right, Direction::Down) => Some(seq![(1, 0), (1, -1), (0, 2), (1, 2)]),
        (Direction::Down, Direction::Right) => Some(seq![(-1, 0), (-1, 1), (0, 2), (-1, -2)]),
        (Direction::Down, Direction::Left) => Some(seq![(1, 0), (1, 1), (0, -2), (1, -2)]),
        (Direction::Left, Direction::Down) => Some(seq![(-1, 0), (-1, -1), (0, 2), (-1, 2)]),
        (Direction::Left, Direction::Up) => Some(seq![(-1, 0), (-1, -1), (0, 2), (-1, 2)]),
        (Direction::Up, Direction::Left) => Some(seq![(1, 0), (1, 1), (0, -2), (1, -2)]),
        _ => None,
    }
}

/// The I piece's kicks, for quarter turns and half turns.
pub open spec fn i_kicks(from: Direction, to: Direction) -> Option<Seq<(int, int)>> {
    match (from, to) {
        (Direction::Up, Direction::Right) => Some(seq![(1, 0), (-2, 0), (1, -2), (-2, 1)]),
        (Direction::Right, Direction::Up) => Some(seq![(-1, 0), (2, 0), (-1, 2), (2, -1)]),
        (Direction::Right, Direction::Down) => Some(seq![(-1, 0), (2, 0), (-1, -2), (2, 1)]),
        (Direction::Down, Direction::Right) => Some(seq![(-2, 0), (1, 0), (-2, -1), (1, 2)]),
        (Direction::Down, Direction::Left) => Some(seq![(2, 0), (-1, 0), (2, -1), (-1, 2)]),
        (Direction::Left, Direction::Down) => Some(seq![(1, 0), (-2, 0), (1, -2), (-2, 1)]),
        (Direction::Left, Direction::Up) => Some(seq![(1, 0), (-2, 0), (1, 2), (-2, -1)]),
        (Direction::Up, Direction::Left) => Some(seq![(-1, 0), (2, 0), (-1, -2), (2, 1)]),
        (Direction::Up, Direction::Down) => Some(seq![(0, -1)]),
        (Direction::Right, Direction::Left) => Some(seq![(1, 0)]),
        (Direction::Down, Direction::Up) => Some(seq![(0, 1)]),
        (Direction::Left, Direction::Right) => Some(seq![(-1, 0)]),
        _ => None,
    }
}

/// The T piece's half-turn kicks.
pub open spec fn t_flip_kicks(from: Direction, to: Direction) -> Option<Seq<(int, int)>> {
    match (from, to) {
        (Direction::Up, Direction::Down) => Some(seq![(0, 1), (1, 1), (-1, 1), (1, 0), (-1, 0)]),
        (Direction::Down, Direction::Up) => Some(
            seq![(0, -1), (-1, -1), (1, -1), (-1, 0), (1, 0)],
        ),
        (Direction::Right, Direction::Left) => Some(seq![(1, 0), (1, 2), (1, 1), (0, 2), (0, 1)]),
        (Direction::Left, Direction::Right) => Some(
            seq![(-1, 0), (-1, 2), (-1, 1), (0, 2), (0, 1)],
        ),
        _ => None,
    }
}

/// The SRS+ kick table: the offsets tried, in order, after the unkicked position. A rotation
/// that is not in the table tries the unkicked position only.
pub open spec fn kicks(r: Rotation) -> Option<Seq<(int, int)>> {
    match r.piece {
        MinoVariant::O => None,
        MinoVariant::I => i_kicks(r.from, r.to),
        MinoVariant::T => if jltsz_kicks(r.from, r.to) is Some {
            jltsz_kicks(r.from, r.to)
        } else {
            t_flip_kicks(r.from, r.to)
        },
        _ => jltsz_kicks(r.from, r.to),
    }
}

fn jltsz_kick_offsets(from: Direction, to: Direction) -> (r: Option<Vec<(i8, i8)>>)
    ensures
        r matches Some(v) ==> jltsz_kicks(from, to) == Some(small_pairs(v@)),
        r is None ==> jltsz_kicks(from, to) is None,
{
    let r = match (from, to) {
        (Direction::Up, Direction::Right) => Some(vec![(-1, 0), (-1, 1), (0, -2), (-1, -2)]),
        (Direction::Right, Direction::Up) => Some(vec![(1, 0), (1, -1), (0, 2), (1, 2)]),
        (Direction::Right, Direction::Down) => Some(vec![(1, 0), (1, -1), (0, 2), (1, 2)]),
        (Direction::Down, Direction::Right) => Some(vec![(-1, 0), (-1, 1), (0, 2), (-1, -2)]),
        (Direction::Down, Direction::Left) => Some(vec![(1, 0), (1, 1), (0, -2), (1, -2)]),
        (Direction::Left, Direction::Down) => Some(vec![(-1, 0), (-1, -1), (0, 2), (-1, 2)]),
        (Direction::Left, Direction::Up) => Some(vec![(-1, 0), (-1, -1), (0, 2), (-1, 2)]),
        (Direction::Up, Direction::Left) => Some(vec![(1, 0), (1, 1), (0, -2), (1, -2)]),
        _ => None,
    };
    proof {
        if let Some(v) = &r {
            assert(jltsz_kicks(from, to)->0 =~= small_pairs(v@));
        }
    }
    r
}

fn i_kick_offsets(from: Direction, to: Direction) -> (r: Option<Vec<(i8, i8)>>)
    ensures
        r matches Some(v) ==> i_kicks(from, to) == Some(small_pairs(v@)),
        r is None ==> i_kicks(from, to) is None,
{
    let r = match (from, to) {
        (Direction::Up, Direction::Right) => Some(vec![(1, 0), (-2, 0), (1, -2), (-2, 1)]),
        (Direction::Right, Direction::Up) => Some(vec![(-1, 0), (2, 0), (-1, 2), (2, -1)]),
        (Direction::Right, Direction::Down) => Some(vec![(-1, 0), (2, 0), (-1, -2), (2, 1)]),
        (Direction::Down, Direction::Right) => Some(vec![(-2, 0), (1, 0), (-2, -1), (1, 2)]),
        (Direction::Down, Direction::Left) => Some(vec![(2, 0), (-1, 0), (2, -1), (-1, 2)]),
        (Direction::Left, Direction::Down) => Some(vec![(1, 0), (-2, 0), (1, -2), (-2, 1)]),
        (Direction::Left, Direction::Up) => Some(vec![(1, 0), (-2, 0), (1, 2), (-2, -1)]),
        (Direction::Up, Direction::Left) => Some(vec![(-1, 0), (2, 0), (-1, -2), (2, 1)]),
        (Direction::Up, Direction::Down) => Some(vec![(0, -1)]),
        (Direction::Right, Direction::Left) => Some(vec![(1, 0)]),
        (Direction::Down, Direction::Up) => Some(vec![(0, 1)]),
        (Direction::Left, Direction::Right) => Some(vec![(-1, 0)]),
        _ => None,
    };
    proof {
        if let Some(v) = &r {
            assert(i_kicks(from, to)->0 =~= small_pairs(v@));
        }
    }
    r
}

fn t_flip_kick_offsets(from: Direction, to: Direction) -> (r: Option<Vec<(i8, i8)>>)
    ensures
        r matches Some(v) ==> t_flip_kicks(from, to) == Some(small_pairs(v@)),
        r is None ==> t_flip_kicks(from, to) is None,
{
    let r = match (from, to) {
        (Direction::Up, Direction::Down) => Some(vec![(0, 1), (1, 1), (-1, 1), (1, 0), (-1, 0)]),
        (Direction::Down, Direction::Up) => Some(
            vec![(0, -1), (-1, -1), (1, -1), (-1, 0), (1, 0)],
        ),
        (Direction::Right, Direction::Left) => Some(vec![(1, 0), (1, 2), (1, 1), (0, 2), (0, 1)]),
        (Direction::Left, Direction::Right) => Some(
            vec![(-1, 0), (-1, 2), (-1, 1), (0, 2), (0, 1)],
        ),
        _ => None,
    };
    proof {
        if let Some(v) = &r {
            assert(t_flip_kicks(from, to)->0 =~= small_pairs(v@));
        }
    }
    r
}

/// Looks a rotation up in the SRS+ kick table.
pub fn kick_offsets(r: Rotation) -> (k: Option<Vec<(i8, i8)>>)
    ensures
        k matches Some(v) ==> kicks(r) == Some(small_pairs(v@)),
        k is None ==> kicks(r) is None,
{
    match r.piece {
        MinoVariant::O => None,
        MinoVariant::I => i_kick_offsets(r.from, r.to),
        MinoVariant::T => {
            let k = jltsz_kick_offsets(r.from, r.to);
            if k.is_some() {
                k
            } else {
                t_flip_kick_offsets(r.from, r.to)
            }
        },
        _ => jltsz_kick_offsets(r.from, r.to),
    }
}

} // verus!
