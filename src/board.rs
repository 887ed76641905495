use vstd::prelude::*;

use crate::action::{Action, ActionKind};
use crate::event::{GameType, InteractionData};
use crate::reconstruct::{ReplayError, ShiftDirection, State};
use crate::rng::{forty_line_base, shuffled, standard_base, valid_seed, PieceQueue, MODULUS};
use crate::settings::Settings;
use crate::storage::{cell_at, BoardStorage};
use crate::tetromino::{cell_of_name, int_pairs, mino_cells, shape, spawned, Cell, Mino, MinoVariant, Positions};

use std::collections::VecDeque;

verus! {

/// Rows a matrix may have: a cell's row is a byte in [ActionKind::Cell].
pub const MAX_ROWS: usize = 255;

/// Columns a matrix may have: a shift across the whole matrix is a signed byte.
pub const MAX_COLUMNS: usize = 127;

/// The furthest a piece's reference coordinate may lie from the origin.
pub const COORD_LIMIT: i16 = 1000;

/// Lock resets a piece gets before it is forced down.
pub const LOCK_RESETS: i32 = 16;

/// Gravity units in one cell: a tenth of a frame at one millionth of a cell per frame.
pub const GRAVITY_UNIT: u64 = 10000000;

/// The hold slot.
#[derive(Clone, Copy, Debug, PartialEq, Eq, Structural)]
pub enum Hold {
    Empty,
    /// A piece that may be swapped in.
    Active(MinoVariant),
    /// A piece that was held during the current piece's turn; it may not be swapped back yet.
    NotActive(MinoVariant),
}

impl Hold {
    /// Makes a held piece available again, as happens after each drop.
    pub fn activate(&mut self)
        ensures
            *final(self) == activated(*old(self)),
    {
        if let Hold::NotActive(x) = *self {
            *self = Hold::Active(x);
        }
    }
}

pub open spec fn activated(h: Hold) -> Hold {
    match h {
        Hold::NotActive(x) => Hold::Active(x),
        _ => h,
    }
}

/// A block of garbage: `amt` rows with a hole at `column`, confirmed on `received_frame`.
#[derive(Clone, Copy, Debug, PartialEq, Eq, Structural)]
pub struct Garbage {
    pub amt: u16,
    pub column: u16,
    pub received_frame: u32,
}

/// Whether the cell at (`x`, `y`) blocks a piece: it is filled or outside the matrix.
pub open spec fn occupied(m: Seq<Seq<Cell>>, x: int, y: int) -> bool {
    match cell_at(m, x, y) {
        Some(c) => !(c is Empty),
        None => true,
    }
}

/// Whether any of the four cells `c` is blocked.
pub open spec fn hits(m: Seq<Seq<Cell>>, c: Seq<(int, int)>) -> bool {
    occupied(m, c[0].0, c[0].1) || occupied(m, c[1].0, c[1].1) || occupied(m, c[2].0, c[2].1)
        || occupied(m, c[3].0, c[3].1)
}

/// The cells of a piece of shape `v` in orientation `d` with its reference at (`x`, `y`).
pub open spec fn cells_at(v: MinoVariant, d: crate::tetromino::Direction, x: int, y: int) -> Seq<
    (int, int),
> {
    shape(v, d).map_values(|p: (int, int)| (p.0 + x, p.1 + y))
}

/// Whether `mino` overlaps a filled cell or the outside of the matrix.
pub open spec fn collides(m: Seq<Seq<Cell>>, mino: Mino) -> bool {
    hits(m, mino_cells(mino))
}

/// Whether a piece with its reference at row `y` rests on something: a filled cell or the
/// floor lies directly under one of its cells.
pub open spec fn rests_at(m: Seq<Seq<Cell>>, mino: Mino, y: int) -> bool {
    hits(m, cells_at(mino.variant, mino.direction, mino.coord.0 as int, y - 1))
}

/// Whether `mino` is in a locking position.
pub open spec fn rests(m: Seq<Seq<Cell>>, mino: Mino) -> bool {
    rests_at(m, mino, mino.coord.1 as int)
}

/// The row to which `mino` falls from reference row `y`: the first row, going down, at which
/// it rests.
pub open spec fn drop_row(m: Seq<Seq<Cell>>, mino: Mino, y: int) -> int
    decreases y,
{
    if y <= 0 || rests_at(m, mino, y) {
        y
    } else {
        drop_row(m, mino, y - 1)
    }
}

/// `mino` moved to reference row `y`.
pub open spec fn at_row(mino: Mino, y: int) -> Mino {
    Mino { variant: mino.variant, direction: mino.direction, coord: (mino.coord.0, y as i16) }
}

/// `mino` moved to reference column `x`.
pub open spec fn at_column(mino: Mino, x: int) -> Mino {
    Mino { variant: mino.variant, direction: mino.direction, coord: (x as i16, mino.coord.1) }
}

pub open spec fn coord_ok(mino: Mino) -> bool {
    -COORD_LIMIT <= mino.coord.0 <= COORD_LIMIT && -COORD_LIMIT <= mino.coord.1 <= COORD_LIMIT
}

/// Every offset of every shape lies within two cells of the reference.
pub proof fn lemma_shape_small(v: MinoVariant, d: crate::tetromino::Direction)
    ensures
        shape(v, d).len() == 4,
        forall|i: int|
            0 <= i < 4 ==> -2 <= (#[trigger] shape(v, d)[i]).0 <= 2 && -2 <= shape(v, d)[i].1 <= 2,
{
}

/// The cells of a piece lie within two cells of its reference.
pub proof fn lemma_cells_small(mino: Mino)
    ensures
        mino_cells(mino).len() == 4,
        forall|i: int|
            0 <= i < 4 ==> {
                &&& mino.coord.0 - 2 <= (#[trigger] mino_cells(mino)[i]).0 <= mino.coord.0 + 2
                &&& mino.coord.1 - 2 <= mino_cells(mino)[i].1 <= mino.coord.1 + 2
            },
{
    lemma_shape_small(mino.variant, mino.direction);
}

/// Every piece has a cell at or below its reference row, so it rests wherever that row is at
/// or below the floor.
pub proof fn lemma_rests_at_floor(m: Seq<Seq<Cell>>, mino: Mino, y: int)
    requires
        y <= 0,
    ensures
        rests_at(m, mino, y),
{
    let c = cells_at(mino.variant, mino.direction, mino.coord.0 as int, y - 1);
    assert(c.len() == 4);
    assert(c[0].1 <= y - 1 || c[1].1 <= y - 1 || c[2].1 <= y - 1);
}

/// The lock row of a piece is the highest row at or below its own at which it rests.
pub proof fn lemma_drop_row_is_highest_rest(m: Seq<Seq<Cell>>, mino: Mino, y: int)
    ensures
        drop_row(m, mino, y) <= y,
        rests_at(m, mino, drop_row(m, mino, y)),
        forall|z: int| drop_row(m, mino, y) < z <= y ==> !rests_at(m, mino, z),
        y <= 0 ==> drop_row(m, mino, y) == y,
        y > 0 ==> drop_row(m, mino, y) >= 0,
    decreases y,
{
    if y <= 0 {
        lemma_rests_at_floor(m, mino, y);
    } else if !rests_at(m, mino, y) {
        lemma_drop_row_is_highest_rest(m, mino, y - 1);
    }
}

/// Whether every cell of `row` is filled.
pub open spec fn full(row: Seq<Cell>) -> bool {
    forall|x: int| 0 <= x < row.len() ==> !(#[trigger] row[x] is Empty)
}

/// The rows of `o` that are not full, in order.
pub open spec fn kept_rows(o: Seq<Seq<Cell>>) -> Seq<Seq<Cell>>
    decreases o.len(),
{
    if o.len() == 0 {
        o
    } else {
        kept_rows(o.drop_last()) + if full(o.last()) {
            Seq::<Seq<Cell>>::empty()
        } else {
            seq![o.last()]
        }
    }
}

/// `n` empty rows of width `w`.
pub open spec fn empty_rows(n: int, w: int) -> Seq<Seq<Cell>> {
    Seq::new(n as nat, |i: int| crate::storage::empty_row(w))
}

/// `o` with every full row removed, and as many empty rows put on top.
pub open spec fn cleared(o: Seq<Seq<Cell>>, w: int) -> Seq<Seq<Cell>> {
    kept_rows(o) + empty_rows(o.len() - kept_rows(o).len(), w)
}

/// The line clears that removing the full rows of `o` from the bottom up reports: each names
/// the row index that the full row has at the moment it is removed.
pub open spec fn clear_actions(o: Seq<Seq<Cell>>) -> Seq<ActionKind>
    decreases o.len(),
{
    if o.len() == 0 {
        Seq::<ActionKind>::empty()
    } else {
        clear_actions(o.drop_last()) + if full(o.last()) {
            seq![ActionKind::LineClear { row: kept_rows(o.drop_last()).len() as u8 }]
        } else {
            Seq::<ActionKind>::empty()
        }
    }
}

/// Whether the cell `c` lies in the matrix `m`.
pub open spec fn in_matrix(m: Seq<Seq<Cell>>, c: (int, int)) -> bool {
    0 <= c.1 < m.len() && 0 <= c.0 < m[c.1].len()
}

/// `m` with `k` written at `c`, if `c` lies in it.
pub open spec fn write_cell(m: Seq<Seq<Cell>>, c: (int, int), k: Cell) -> Seq<Seq<Cell>> {
    if in_matrix(m, c) {
        m.update(c.1, m[c.1].update(c.0, k))
    } else {
        m
    }
}

/// `m` with `k` written at each of the four cells `c` that lie in it.
pub open spec fn write_cells(m: Seq<Seq<Cell>>, c: Seq<(int, int)>, k: Cell) -> Seq<Seq<Cell>> {
    write_cell(write_cell(write_cell(write_cell(m, c[0], k), c[1], k), c[2], k), c[3], k)
}

/// The action that writing `k` at `c` reports, if `c` lies in `m`.
pub open spec fn cell_action(m: Seq<Seq<Cell>>, c: (int, int), k: Cell) -> Seq<ActionKind> {
    if in_matrix(m, c) {
        seq![ActionKind::Cell { position: (c.0 as u8, c.1 as u8), kind: k }]
    } else {
        Seq::<ActionKind>::empty()
    }
}

pub open spec fn cell_actions(m: Seq<Seq<Cell>>, c: Seq<(int, int)>, k: Cell) -> Seq<ActionKind> {
    cell_action(m, c[0], k) + cell_action(m, c[1], k) + cell_action(m, c[2], k) + cell_action(
        m,
        c[3],
        k,
    )
}

/// The garbage that one drop applies with a budget of `budget` rows, and what stays queued:
/// blocks leave the front of the queue whole while they fit; the first that does not fit is
/// split, and its remainder stays at the front.
pub open spec fn garbage_take(q: Seq<Garbage>, budget: int) -> (Seq<Garbage>, Seq<Garbage>)
    decreases q.len(),
{
    if q.len() == 0 || budget <= 0 {
        (Seq::<Garbage>::empty(), q)
    } else if q[0].amt > budget {
        (
            seq![Garbage { amt: budget as u16, ..q[0] }],
            q.update(0, Garbage { amt: (q[0].amt - budget) as u16, ..q[0] }),
        )
    } else {
        let (a, r) = garbage_take(q.drop_first(), budget - q[0].amt);
        (seq![q[0]] + a, r)
    }
}

/// `m` after each block of `gs`, in order, rises from the bottom.
pub open spec fn garbage_matrix(m: Seq<Seq<Cell>>, w: int, gs: Seq<Garbage>) -> Seq<Seq<Cell>>
    decreases gs.len(),
{
    if gs.len() == 0 {
        m
    } else {
        let h = if gs[0].amt <= m.len() {
            gs[0].amt as int
        } else {
            m.len() as int
        };
        garbage_matrix(
            crate::storage::with_garbage(m, w, gs[0].column as int, h),
            w,
            gs.drop_first(),
        )
    }
}

pub open spec fn garbage_actions(gs: Seq<Garbage>) -> Seq<ActionKind> {
    gs.map_values(|g: Garbage| ActionKind::Garbage { column: g.column, height: g.amt })
}

/// The total height of a sequence of garbage blocks.
pub open spec fn garbage_total(q: Seq<Garbage>) -> int
    decreases q.len(),
{
    if q.len() == 0 {
        0
    } else {
        q[0].amt + garbage_total(q.drop_first())
    }
}

/// The piece that a drop locks: the active piece lowered to its lock row.
pub open spec fn landing(b: Board) -> Mino {
    at_row(b.active, drop_row(b.matrix@, b.active, b.active.coord.1 as int))
}

/// What a drop does: the active piece locks at its lock row; full rows are cleared, or, when
/// none is, queued garbage up to the cap rises; the next piece comes in; the hold slot is
/// freed; the lock counters are reset.
#[verifier::opaque]
pub open spec fn drop_post(pre: Board, post: Board, acts: Seq<ActionKind>) -> bool {
    let kind = Cell::Tetromino(pre.active.variant);
    let cells = mino_cells(landing(pre));
    let placed = write_cells(pre.matrix@, cells, kind);
    let clears = clear_actions(placed);
    let taken = garbage_take(pre.queued_garbage@, pre.settings.garbage_cap as int);
    let next = spawned(pre.queue.topped_up().0[0]);
    let w = pre.matrix.width();
    &&& post.matrix.width() == w
    &&& post.matrix@ == if clears.len() == 0 {
        garbage_matrix(placed, w, taken.0)
    } else {
        cleared(placed, w)
    }
    &&& post.queued_garbage@ == if clears.len() == 0 {
        taken.1
    } else {
        pre.queued_garbage@
    }
    &&& acts == cell_actions(pre.matrix@, cells, kind) + (if clears.len() == 0 {
        garbage_actions(taken.0)
    } else {
        clears
    }) + seq![ActionKind::Reposition { piece: next }]
    &&& post.active == next
    &&& post.queue.window@ == pre.queue.topped_up().0.drop_first()
    &&& post.queue.rng.state == pre.queue.topped_up().1
    &&& post.queue.base == pre.queue.base
    &&& post.acknowledged_garbage@ == pre.acknowledged_garbage@
    &&& post.hold == activated(pre.hold)
    &&& post.lock_count == LOCK_RESETS
    &&& post.lock_timer == 0
    &&& post.last_drop == pre.last_drop
    &&& post.last_drop_needs_update
    &&& post.gravity_state == pre.gravity_state
    &&& post.settings == pre.settings
}

/// The board after a move to `to` and before any forced drop: a real move resets the lock
/// timer and, if the piece rests at `to`, spends a lock reset.
pub open spec fn moved_to(pre: Board, to: Mino) -> Board {
    if to != pre.active {
        Board {
            lock_timer: 0,
            lock_count: (pre.lock_count - if rests(pre.matrix@, to) {
                1int
            } else {
                0int
            }) as i32,
            active: to,
            ..pre
        }
    } else {
        pre
    }
}

/// What moving the active piece to `to` does: a real move is reported; when no lock reset is
/// left the piece is dropped at once.
pub open spec fn reposition_post(pre: Board, post: Board, to: Mino, acts: Seq<ActionKind>) -> bool {
    let mid = moved_to(pre, to);
    let head = if to != pre.active {
        seq![ActionKind::Reposition { piece: to }]
    } else {
        Seq::<ActionKind>::empty()
    };
    if mid.lock_count <= 0 {
        acts.len() >= head.len() && acts.take(head.len() as int) == head && drop_post(
            mid,
            post,
            acts.skip(head.len() as int),
        )
    } else {
        post == mid && acts == head
    }
}

/// Where a piece sliding `left` more columns in direction `step` stops, and how many lock
/// resets it spends on the way: it stops before the first column at which it would collide,
/// and spends one for every column it passes through (not its start) in which it rests.
pub open spec fn slide(m: Seq<Seq<Cell>>, mino: Mino, step: int, left: int, first: bool) -> (
    int,
    int,
)
    decreases left,
{
    if left <= 0 {
        (mino.coord.0 as int, 0)
    } else {
        let nxt = at_column(mino, mino.coord.0 + step);
        if collides(m, nxt) {
            (mino.coord.0 as int, 0)
        } else {
            let (x, n) = slide(m, nxt, step, left - 1, false);
            (x, n + if !first && rests(m, mino) {
                1int
            } else {
                0int
            })
        }
    }
}

/// `mino` moved by the offset `o`.
pub open spec fn offset_by(mino: Mino, o: (int, int)) -> Mino {
    Mino {
        variant: mino.variant,
        direction: mino.direction,
        coord: ((mino.coord.0 + o.0) as i16, (mino.coord.1 + o.1) as i16),
    }
}

/// The positions a rotation tries, in order: unkicked, then the kick table's offsets.
pub open spec fn kick_candidates(r: crate::tetromino::Rotation) -> Seq<(int, int)> {
    seq![(0int, 0int)] + match crate::tetromino::kicks(r) {
        Some(k) => k,
        None => Seq::<(int, int)>::empty(),
    }
}

/// The first candidate, from index `i` on, at which `piece` is free.
pub open spec fn first_free(m: Seq<Seq<Cell>>, piece: Mino, c: Seq<(int, int)>, i: int) -> Option<
    int,
>
    decreases c.len() - i,
{
    if i < 0 || i >= c.len() {
        None
    } else if !collides(m, offset_by(piece, c[i])) {
        Some(i)
    } else {
        first_free(m, piece, c, i + 1)
    }
}

/// What a hold does: with an empty slot the active piece goes in and the next piece comes
/// out of the queue; with an available held piece the two trade; a piece held during this
/// turn blocks the hold, which then does nothing.
pub open spec fn hold_post(pre: Board, post: Board, acts: Seq<ActionKind>) -> bool {
    match pre.hold {
        Hold::NotActive(_) => post == pre && acts == Seq::<ActionKind>::empty(),
        Hold::Empty => {
            &&& post == Board { active: post.active, queue: post.queue, hold: post.hold, ..pre }
            &&& post.hold == Hold::NotActive(pre.active.variant)
            &&& post.active == spawned(pre.queue.topped_up().0[0])
            &&& post.queue.window@ == pre.queue.topped_up().0.drop_first()
            &&& post.queue.rng.state == pre.queue.topped_up().1
            &&& post.queue.base == pre.queue.base
            &&& acts == seq![ActionKind::Hold, ActionKind::Reposition { piece: post.active }]
        },
        Hold::Active(h) => {
            &&& post == Board {
                active: spawned(h),
                hold: Hold::NotActive(pre.active.variant),
                ..pre
            }
            &&& acts == seq![ActionKind::Hold, ActionKind::Reposition { piece: spawned(h) }]
        },
    }
}

/// What a shift by `cells` columns does: the piece slides as [slide] says, spending lock
/// resets on the way, and then moves there.
pub open spec fn shift_post(pre: Board, post: Board, cells: int, acts: Seq<ActionKind>) -> bool {
    let step = if cells < 0 {
        -1int
    } else {
        1int
    };
    let left = if cells < 0 {
        -cells
    } else {
        cells
    };
    let s = slide(pre.matrix@, pre.active, step, left, true);
    reposition_post(
        Board { lock_count: (pre.lock_count - s.1) as i32, ..pre },
        post,
        at_column(pre.active, s.0),
        acts,
    )
}

/// Whether garbage confirmed on `g.received_frame` is ready on `frame`.
pub open spec fn ready(g: Garbage, speed: int, frame: int) -> bool {
    g.received_frame + speed <= frame + 1
}

/// How many blocks at the front of `q` are ready on `frame`.
pub open spec fn ready_prefix(q: Seq<Garbage>, speed: int, frame: int) -> int
    decreases q.len(),
{
    if q.len() > 0 && ready(q[0], speed, frame) {
        1 + ready_prefix(q.drop_first(), speed, frame)
    } else {
        0
    }
}

/// What readying garbage on `frame` does: the ready blocks at the front of the acknowledged
/// queue move, in order, to the back of the queue of garbage to apply.
pub open spec fn garbage_post(pre: Board, post: Board, frame: int) -> bool {
    let n = ready_prefix(pre.acknowledged_garbage@, pre.settings.garbage_speed as int, frame);
    &&& post == Board {
        acknowledged_garbage: post.acknowledged_garbage,
        queued_garbage: post.queued_garbage,
        ..pre
    }
    &&& post.acknowledged_garbage@ == pre.acknowledged_garbage@.skip(n)
    &&& post.queued_garbage@ == pre.queued_garbage@ + pre.acknowledged_garbage@.take(n)
}

/// The subframe from which auto-shift repeats: the end of the shift key's delay, or, when a
/// piece was dropped after that, the end of the cut delay that follows the drop.
pub open spec fn das_inertia(last_drop: Option<u32>, ks: State, s: Settings) -> int {
    match last_drop {
        Some(ld) => if ld >= ks.shift_began + s.das {
            ld + s.dcd
        } else {
            ks.shift_began + s.das
        },
        None => ks.shift_began + s.das,
    }
}

/// The size of the auto-shift due on `subframe`, if one is: one column every `arr` subframes
/// from the inertia point on, or the whole width at once when `arr` is 0.
pub open spec fn shift_charge(b: Board, subframe: int, ks: State) -> Option<int> {
    let arr = if b.settings.arr == 0 {
        1int
    } else {
        b.settings.arr as int
    };
    let size = if b.settings.arr == 0 {
        b.matrix.width()
    } else {
        1int
    };
    let t = das_inertia(b.last_drop, ks, b.settings);
    if subframe >= t && (subframe - t) % arr == 0 {
        Some(size)
    } else {
        None
    }
}

/// What the auto-shift stage does on `subframe`.
pub open spec fn auto_shift_post(
    pre: Board,
    post: Board,
    subframe: int,
    ks: State,
    acts: Seq<ActionKind>,
) -> bool {
    match shift_charge(pre, subframe, ks) {
        Some(size) => match ks.shifting {
            ShiftDirection::Left => shift_post(pre, post, -size, acts),
            ShiftDirection::Right => shift_post(pre, post, size, acts),
            ShiftDirection::Neither => post == pre && acts == Seq::<ActionKind>::empty(),
        },
        None => post == pre && acts == Seq::<ActionKind>::empty(),
    }
}

/// Gravity's progress in one subframe, in [GRAVITY_UNIT]s: the gravity, or under soft drop the
/// soft-drop factor times the gravity (at least 0.05 cells a frame), or the whole height of the
/// matrix when that factor is over 40.
pub open spec fn gravity_step(b: Board, soft: bool) -> int {
    if soft {
        if b.settings.sdf > 40 {
            b.matrix@.len() * GRAVITY_UNIT
        } else {
            b.settings.sdf * if b.settings.gravity >= 50000 {
                b.settings.gravity as int
            } else {
                50000int
            }
        }
    } else {
        b.settings.gravity as int
    }
}

/// What the gravity stage does: progress accumulates; each whole cell of it lowers the piece
/// one row, but never below its lock row; the fraction is kept.
pub open spec fn gravity_post(pre: Board, post: Board, soft: bool, acts: Seq<ActionKind>) -> bool {
    let total = pre.gravity_state + gravity_step(pre, soft);
    if total >= GRAVITY_UNIT {
        let lock = drop_row(pre.matrix@, pre.active, pre.active.coord.1 as int);
        let fall = pre.active.coord.1 - total / (GRAVITY_UNIT as int);
        let y = if fall >= lock {
            fall
        } else {
            lock
        };
        reposition_post(
            Board { gravity_state: (total % (GRAVITY_UNIT as int)) as u64, ..pre },
            post,
            at_row(pre.active, y),
            acts,
        )
    } else {
        post == Board { gravity_state: total as u64, ..pre } && acts == Seq::<ActionKind>::empty()
    }
}

/// What the lock stage does: a resting piece's lock timer runs, and the piece drops when it
/// reaches the lock delay.
pub open spec fn lock_post(pre: Board, post: Board, acts: Seq<ActionKind>) -> bool {
    if rests(pre.matrix@, pre.active) {
        let t = if pre.lock_timer < pre.settings.lock_delay {
            pre.lock_timer + 1
        } else {
            pre.lock_timer as int
        };
        let mid = Board { lock_timer: t as u64, ..pre };
        if t >= pre.settings.lock_delay {
            drop_post(mid, post, acts)
        } else {
            post == mid && acts == Seq::<ActionKind>::empty()
        }
    } else {
        post == pre && acts == Seq::<ActionKind>::empty()
    }
}

/// The board at the start of `subframe`: a drop made earlier is dated to it.
pub open spec fn refreshed(b: Board, subframe: int) -> Board {
    if b.last_drop_needs_update {
        Board { last_drop: Some(subframe as u32), last_drop_needs_update: false, ..b }
    } else {
        b
    }
}

/// What one subframe of passive effects does, in order: garbage readies, auto-shift, gravity,
/// lock delay.
#[verifier::opaque]
pub open spec fn tick_post(
    pre: Board,
    post: Board,
    subframe: int,
    ks: State,
    acts: Seq<ActionKind>,
) -> bool {
    exists|b1: Board, b2: Board, b3: Board, a1: Seq<ActionKind>, a2: Seq<ActionKind>, a3: Seq<ActionKind>|
        #![trigger garbage_post(refreshed(pre, subframe), b1, subframe / 10), auto_shift_post(b1, b2, subframe, ks, a1), gravity_post(b2, b3, ks.soft_dropping, a2), lock_post(b3, post, a3)]
        {
            &&& garbage_post(refreshed(pre, subframe), b1, subframe / 10)
            &&& auto_shift_post(b1, b2, subframe, ks, a1)
            &&& gravity_post(b2, b3, ks.soft_dropping, a2)
            &&& lock_post(b3, post, a3)
            &&& acts == a1 + a2 + a3
        }
}

/// The actions of consecutive subframes, from subframe `from` on, each stamped with the frame
/// of its subframe.
pub open spec fn stamped(steps: Seq<Seq<ActionKind>>, from: int) -> Seq<Action>
    decreases steps.len(),
{
    if steps.len() == 0 {
        Seq::<Action>::empty()
    } else {
        let k = steps.len() - 1;
        stamped(steps.drop_last(), from) + steps.last().map_values(
            |a: ActionKind| Action { kind: a, frame: ((from + k) / 10) as u32 },
        )
    }
}

/// A run of ticks over the subframes `from` to `to` (exclusive): `bs` holds the board before
/// each subframe and after the last, `steps` the actions of each.
pub open spec fn tick_chain(
    pre: Board,
    post: Board,
    from: int,
    to: int,
    ks: State,
    acts: Seq<Action>,
    bs: Seq<Board>,
    steps: Seq<Seq<ActionKind>>,
) -> bool {
    let n = if to > from {
        to - from
    } else {
        0
    };
    &&& bs.len() == n + 1
    &&& steps.len() == n
    &&& bs[0] == pre
    &&& bs[n] == post
    &&& forall|k: int| 0 <= k < n ==> tick_post(#[trigger] bs[k], bs[k + 1], from + k, ks, steps[k])
    &&& acts == stamped(steps, from)
}

/// What the passive effects between two subframes do: one tick for each subframe in turn.
pub open spec fn passive_post(
    pre: Board,
    post: Board,
    from: int,
    to: int,
    ks: State,
    acts: Seq<Action>,
) -> bool {
    exists|bs: Seq<Board>, steps: Seq<Seq<ActionKind>>|
        #[trigger] tick_chain(pre, post, from, to, ks, acts, bs, steps)
}

/// Whether the initial matrix is larger than a board can be.
pub open spec fn too_large(game: Seq<Vec<Option<String>>>) -> bool {
    game.len() > MAX_ROWS || (game.len() > 0 && game[0]@.len() > MAX_COLUMNS)
}

/// Whether the rows of the initial matrix differ in length.
pub open spec fn ragged(game: Seq<Vec<Option<String>>>) -> bool {
    exists|y: int| 0 <= y < game.len() && #[trigger] game[y]@.len() != game[0]@.len()
}

/// Whether the initial matrix names an unknown cell.
pub open spec fn has_unknown(game: Seq<Vec<Option<String>>>) -> bool {
    exists|y: int, x: int|
        0 <= y < game.len() && 0 <= x < game[y]@.len() && (#[trigger] cell_of_name(game[y]@[x])) is None
}

/// The matrix that the rows of `game`, given from the top, stand for; row 0 is the bottom.
pub open spec fn parsed_matrix(game: Seq<Vec<Option<String>>>) -> Seq<Seq<Cell>> {
    Seq::new(
        game.len(),
        |i: int|
            Seq::new(
                game[game.len() - 1 - i]@.len(),
                |x: int| cell_of_name(game[game.len() - 1 - i]@[x])->0,
            ),
    )
}

/// The bag order of a game type.
pub open spec fn base_of(game_type: GameType) -> Seq<MinoVariant> {
    if game_type is FortyLine {
        forty_line_base()
    } else {
        standard_base()
    }
}

/// The error, if any, with which a game cannot start.
pub open spec fn new_error(piece_seed: u64, game_type: GameType, game: Seq<Vec<Option<String>>>) -> Option<
    ReplayError,
> {
    if !valid_seed(piece_seed) {
        Some(ReplayError::UnusableSeed)
    } else if game_type is Blitz {
        Some(ReplayError::UnsupportedGameType)
    } else if too_large(game) {
        Some(ReplayError::MatrixTooLarge)
    } else if ragged(game) {
        Some(ReplayError::IrregularMatrix)
    } else if has_unknown(game) {
        Some(ReplayError::UnknownCell)
    } else {
        None
    }
}

/// The board that a game starts with, and its first action: the first piece comes in.
pub open spec fn new_post(
    piece_seed: u64,
    game_type: GameType,
    settings: Settings,
    game: Seq<Vec<Option<String>>>,
    b: Board,
    acts: Seq<Action>,
) -> bool {
    let bag = shuffled(base_of(game_type), (piece_seed % MODULUS) as int);
    &&& b.wf()
    &&& b.matrix@ == parsed_matrix(game)
    &&& b.matrix.width() == if game.len() == 0 { 0 } else { game[0]@.len() as int }
    &&& b.active == spawned(bag.0[0])
    &&& b.queue.window@ == bag.0.drop_first()
    &&& b.queue.rng.state == bag.1
    &&& b.queue.base@ == base_of(game_type)
    &&& b.settings == settings
    &&& b.gravity_state == 0
    &&& b.lock_count == LOCK_RESETS
    &&& b.lock_timer == 0
    &&& b.last_drop is None
    &&& !b.last_drop_needs_update
    &&& b.hold == Hold::Empty
    &&& b.acknowledged_garbage@.len() == 0
    &&& b.queued_garbage@.len() == 0
    &&& acts == seq![Action { kind: ActionKind::Reposition { piece: b.active }, frame: 0 }]
}

/// What a rotation by `spin` does: the piece takes the first free candidate position, and
/// gravity's progress is reset; when none is free nothing happens.
pub open spec fn rotate_post(
    pre: Board,
    post: Board,
    spin: crate::tetromino::Spin,
    acts: Seq<ActionKind>,
) -> bool {
    let rot = crate::tetromino::rotated(pre.active, spin);
    let c = kick_candidates(pre.active.rotation_spec(spin));
    match first_free(pre.matrix@, rot, c, 0) {
        None => post == pre && acts == Seq::<ActionKind>::empty(),
        Some(i) => reposition_post(Board { gravity_state: 0, ..pre }, post, offset_by(rot, c[i]), acts),
    }
}

/// What acknowledging garbage on `frame` does.
pub open spec fn ack_post(pre: Board, post: Board, g: InteractionData, frame: int) -> bool {
    match g {
        InteractionData::InteractionDo { .. } => post == pre,
        InteractionData::InteractionConfirm { amt, column } => {
            &&& post == Board { acknowledged_garbage: post.acknowledged_garbage, ..pre }
            &&& post.acknowledged_garbage@ == pre.acknowledged_garbage@.push(
                Garbage { amt, column, received_frame: frame as u32 },
            )
        },
    }
}

/// The state of a board: the matrix of locked cells, the piece queue, the active piece, the
/// hold slot, the timers that decide when the piece falls and locks, and the garbage pipeline.
/// Each command returns the actions that it caused.
pub struct Board {
    pub matrix: BoardStorage,
    pub queue: PieceQueue,
    pub active: Mino,
    /// Fall owed to gravity, in [GRAVITY_UNIT]s of a cell; always under one cell.
    pub gravity_state: u64,
    pub settings: Settings,
    /// Lock resets left before the piece is forced down.
    pub lock_count: i32,
    /// Subframes the piece has spent in a locking position.
    pub lock_timer: u64,
    /// The subframe of the latest drop.
    pub last_drop: Option<u32>,
    /// Set by a drop; the next subframe processed becomes [Board::last_drop].
    pub last_drop_needs_update: bool,
    pub hold: Hold,
    pub acknowledged_garbage: VecDeque<Garbage>,
    pub queued_garbage: VecDeque<Garbage>,
}

impl Board {
    /// Well-formed apart from the lock count, which a move may have run down.
    pub open spec fn wf_core(&self) -> bool {
        &&& self.matrix.wf()
        &&& self.matrix@.len() <= MAX_ROWS
        &&& self.matrix.width() <= MAX_COLUMNS
        &&& self.queue.wf()
        &&& coord_ok(self.active)
        &&& self.gravity_state < GRAVITY_UNIT
        &&& self.lock_timer <= self.settings.lock_delay
    }

    pub open spec fn wf(&self) -> bool {
        &&& self.wf_core()
        &&& 1 <= self.lock_count <= LOCK_RESETS
    }

    /// Whether `mino` overlaps a filled cell or leaves the matrix.
    pub fn intersects(&self, mino: &Mino) -> (r: bool)
        requires
            self.matrix.wf(),
        ensures
            r == collides(self.matrix@, *mino),
    {
        let p = mino.position();
        proof {
            lemma_cells_small(*mino);
            assert forall|i: int| 0 <= i < 4 implies -40000 <= #[trigger] p.0@[i].0 <= 40000 && -40000
                <= p.0@[i].1 <= 40000 by {
                assert(int_pairs(p.0@)[i] == mino_cells(*mino)[i]);
            }
            assert(int_pairs(p.0@).map_values(|c: (int, int)| (c.0, c.1 - 0)) =~= mino_cells(*mino));
        }
        self.blocked(&p, 0)
    }

    /// Whether `mino` is in a locking position: something lies directly under one of its cells.
    pub fn will_lock(&self, mino: Mino) -> (r: bool)
        requires
            self.matrix.wf(),
        ensures
            r == rests(self.matrix@, mino),
    {
        let p = mino.position();
        proof {
            lemma_cells_small(mino);
            assert forall|i: int| 0 <= i < 4 implies -40000 <= #[trigger] p.0@[i].0 <= 40000 && -40000
                <= p.0@[i].1 <= 40000 by {
                assert(int_pairs(p.0@)[i] == mino_cells(mino)[i]);
            }
            assert(int_pairs(p.0@).map_values(|c: (int, int)| (c.0, c.1 - 1)) =~= cells_at(
                mino.variant,
                mino.direction,
                mino.coord.0 as int,
                mino.coord.1 - 1,
            ));
        }
        self.blocked(&p, 1)
    }

    /// Whether any of the cells `p`, lowered by `down` rows, is blocked.
    fn blocked(&self, p: &Positions, down: isize) -> (r: bool)
        requires
            self.matrix.wf(),
            0 <= down <= 1,
            forall|i: int| 0 <= i < 4 ==> -40000 <= #[trigger] p.0@[i].0 <= 40000 && -40000 <= p.0@[i].1 <= 40000,
        ensures
            r == hits(
                self.matrix@,
                int_pairs(p.0@).map_values(|c: (int, int)| (c.0, c.1 - down)),
            ),
    {
        let mut i: usize = 0;
        let mut found = false;
        while i < 4
            invariant
                self.matrix.wf(),
                i <= 4,
                0 <= down <= 1,
                forall|j: int|
                    0 <= j < 4 ==> -40000 <= #[trigger] p.0@[j].0 <= 40000 && -40000 <= p.0@[j].1 <= 40000,
                found == exists|k: int|
                    0 <= k < i && occupied(
                        self.matrix@,
                        p.0@[k].0 as int,
                        p.0@[k].1 as int - down,
                    ),
            decreases 4 - i,
        {
            let (x, y) = p.0[i];
            let c = self.matrix.get(x, y - down);
            let hit = match c {
                Some(cell) => !cell.is_empty(),
                None => true,
            };
            found = found || hit;
            i = i + 1;
        }
        let ghost q = int_pairs(p.0@).map_values(|c: (int, int)| (c.0, c.1 - down));
        assert(q[0] == (p.0@[0].0 as int, p.0@[0].1 as int - down));
        assert(q[1] == (p.0@[1].0 as int, p.0@[1].1 as int - down));
        assert(q[2] == (p.0@[2].0 as int, p.0@[2].1 as int - down));
        assert(q[3] == (p.0@[3].0 as int, p.0@[3].1 as int - down));
        found
    }
}

impl Board {
    /// `mino` lowered to the row at which it locks: the first row, going down from its own, at
    /// which it rests.
    pub fn will_lock_at(&self, mino: &Mino) -> (r: Mino)
        requires
            self.matrix.wf(),
        ensures
            r == at_row(*mino, drop_row(self.matrix@, *mino, mino.coord.1 as int)),
            r.coord.1 <= mino.coord.1,
            r.coord.1 >= 0 || r.coord.1 == mino.coord.1,
            r.coord.1 as int == drop_row(self.matrix@, *mino, mino.coord.1 as int),
    {
        proof {
            lemma_drop_row_is_highest_rest(self.matrix@, *mino, mino.coord.1 as int);
        }
        let mut y: i16 = mino.coord.1;
        let mut probe = Mino { variant: mino.variant, direction: mino.direction, coord: (mino.coord.0, y) };
        let mut rest = self.will_lock(probe);
        while y > 0 && !rest
            invariant
                self.matrix.wf(),
                y <= mino.coord.1,
                y >= 0 || y == mino.coord.1,
                rest == rests_at(self.matrix@, *mino, y as int),
                drop_row(self.matrix@, *mino, mino.coord.1 as int) == drop_row(
                    self.matrix@,
                    *mino,
                    y as int,
                ),
            decreases y,
        {
            y = y - 1;
            probe = Mino { variant: mino.variant, direction: mino.direction, coord: (mino.coord.0, y) };
            rest = self.will_lock(probe);
        }
        Mino { variant: mino.variant, direction: mino.direction, coord: (mino.coord.0, y) }
    }

    /// Whether row `row` is full. `None` when there is no such row.
    pub fn is_filled(&self, row: usize) -> (r: Option<bool>)
        requires
            self.matrix.wf(),
        ensures
            r == if row < self.matrix@.len() {
                Some(full(self.matrix@[row as int]))
            } else {
                None::<bool>
            },
    {
        if row >= self.matrix.storage.len() {
            return None;
        }
        let r = &self.matrix.storage[row];
        let mut x: usize = 0;
        let mut all = true;
        while x < r.len()
            invariant
                x <= r@.len(),
                r@ == self.matrix@[row as int],
                all == forall|k: int| 0 <= k < x ==> !(#[trigger] r@[k] is Empty),
            decreases r@.len() - x,
        {
            if r[x].is_empty() {
                all = false;
            }
            x = x + 1;
        }
        Some(all)
    }

    /// Removes every full row, from the bottom up, reporting each removal.
    fn clear_lines(&mut self) -> (r: Vec<ActionKind>)
        requires
            old(self).wf_core(),
        ensures
            final(self).matrix.wf(),
            final(self).matrix.width() == old(self).matrix.width(),
            final(self).matrix@ == cleared(old(self).matrix@, old(self).matrix.width()),
            r@ == clear_actions(old(self).matrix@),
            final(self).matrix@.len() == old(self).matrix@.len(),
            *final(self) == (Board { matrix: final(self).matrix, ..*old(self) }),
    {
        let ghost o = self.matrix@;
        let ghost w = self.matrix.width();
        let n = self.matrix.num_rows();
        let mut out: Vec<ActionKind> = Vec::new();
        let mut real_row: usize = 0;
        let mut k: usize = 0;
        proof {
            assert(o.take(0) =~= Seq::<Seq<Cell>>::empty());
            assert(self.matrix@ =~= kept_rows(o.take(0)) + o.skip(0) + empty_rows(0, w));
        }
        while k < n
            invariant
                n == o.len(),
                n <= MAX_ROWS,
                k <= n,
                self.matrix.wf(),
                self.matrix.width() == w,
                w == old(self).matrix.width(),
                o == old(self).matrix@,
                real_row == kept_rows(o.take(k as int)).len(),
                real_row <= k,
                self.matrix@ == kept_rows(o.take(k as int)) + o.skip(k as int) + empty_rows(
                    k - real_row,
                    w,
                ),
                out@ == clear_actions(o.take(k as int)),
                *self == (Board { matrix: self.matrix, ..*old(self) }),
            decreases n - k,
        {
            proof {
                lemma_take_step(o, k as int);
                assert(self.matrix@[real_row as int] == o[k as int]);
            }
            let filled = self.is_filled(real_row);
            if filled == Some(true) {
                self.matrix.clear_line(real_row);
                out.push(ActionKind::LineClear { row: real_row as u8 });
                proof {
                    assert(self.matrix@ =~= kept_rows(o.take(k + 1)) + o.skip(k + 1) + empty_rows(
                        k + 1 - real_row,
                        w,
                    ));
                }
            } else {
                real_row = real_row + 1;
                proof {
                    assert(self.matrix@ =~= kept_rows(o.take(k + 1)) + o.skip(k + 1) + empty_rows(
                        k + 1 - real_row,
                        w,
                    ));
                }
            }
            k = k + 1;
        }
        proof {
            assert(o.take(n as int) =~= o);
            assert(o.skip(n as int) =~= Seq::<Seq<Cell>>::empty());
            assert(self.matrix@ =~= cleared(o, w));
        }
        out
    }
}

/// Writing a cell keeps every row's length, so it does not change which cells lie in the
/// matrix.
pub proof fn lemma_write_cell_keeps_shape(m: Seq<Seq<Cell>>, c: (int, int), k: Cell, d: (int, int))
    ensures
        in_matrix(write_cell(m, c, k), d) == in_matrix(m, d),
{
}

/// Raising garbage keeps the number of rows.
pub proof fn lemma_garbage_matrix_len(m: Seq<Seq<Cell>>, w: int, gs: Seq<Garbage>)
    ensures
        garbage_matrix(m, w, gs).len() == m.len(),
    decreases gs.len(),
{
    if gs.len() > 0 {
        let h = if gs[0].amt <= m.len() {
            gs[0].amt as int
        } else {
            m.len() as int
        };
        lemma_garbage_matrix_len(crate::storage::with_garbage(m, w, gs[0].column as int, h), w, gs.drop_first());
    }
}

/// Raising garbage keeps the number of rows, and raising a sequence and then one more block is
/// raising the longer sequence.
pub proof fn lemma_garbage_matrix_snoc(m: Seq<Seq<Cell>>, w: int, gs: Seq<Garbage>, g: Garbage)
    ensures
        garbage_matrix(m, w, gs).len() == m.len(),
        garbage_matrix(m, w, gs.push(g)) == garbage_matrix(garbage_matrix(m, w, gs), w, seq![g]),
    decreases gs.len(),
{
    if gs.len() == 0 {
        assert(gs.push(g) =~= seq![g]);
    } else {
        let h = if gs[0].amt <= m.len() {
            gs[0].amt as int
        } else {
            m.len() as int
        };
        let m1 = crate::storage::with_garbage(m, w, gs[0].column as int, h);
        assert(m1.len() == m.len());
        lemma_garbage_matrix_snoc(m1, w, gs.drop_first(), g);
        assert(gs.push(g).drop_first() =~= gs.drop_first().push(g));
    }
    assert(seq![g].drop_first() =~= Seq::<Garbage>::empty());
}

/// Each full row yields one line clear, and a matrix without full rows is left as it is.
pub proof fn lemma_clear_counts(o: Seq<Seq<Cell>>, w: int)
    ensures
        clear_actions(o).len() + kept_rows(o).len() == o.len(),
        kept_rows(o).len() == o.len() ==> kept_rows(o) == o,
        clear_actions(o).len() == 0 ==> cleared(o, w) == o,
    decreases o.len(),
{
    if o.len() > 0 {
        lemma_clear_counts(o.drop_last(), w);
        if kept_rows(o).len() == o.len() {
            assert(kept_rows(o) =~= o);
        }
    }
    if clear_actions(o).len() == 0 {
        assert(cleared(o, w) =~= o);
    }
}

/// A piece that collides with nothing lies in the matrix, so its reference is near it.
pub proof fn lemma_free_piece_is_near(m: Seq<Seq<Cell>>, mino: Mino)
    requires
        m.len() <= MAX_ROWS,
        forall|i: int| 0 <= i < m.len() ==> (#[trigger] m[i]).len() <= MAX_COLUMNS,
        !collides(m, mino),
    ensures
        coord_ok(mino),
{
    lemma_cells_small(mino);
    let c = mino_cells(mino);
    assert(in_matrix(m, c[0]));
    assert(m[c[0].1].len() <= MAX_COLUMNS);
}

/// Writes `kind` at (`x`, `y`) if that cell lies in the matrix, and reports it.
fn place_one(matrix: &mut BoardStorage, x: isize, y: isize, kind: Cell, out: &mut Vec<ActionKind>)
    requires
        old(matrix).wf(),
        old(matrix)@.len() <= MAX_ROWS,
        old(matrix).width() <= MAX_COLUMNS,
    ensures
        final(matrix).wf(),
        final(matrix).width() == old(matrix).width(),
        final(matrix)@ == write_cell(old(matrix)@, (x as int, y as int), kind),
        final(out)@ == old(out)@ + cell_action(old(matrix)@, (x as int, y as int), kind),
{
    if 0 <= x && 0 <= y && (y as usize) < matrix.num_rows() && (x as usize)
        < matrix.num_columns() {
        proof {
            assert(matrix@[y as int].len() == matrix.width());
        }
        matrix.set(x as usize, y as usize, kind);
        out.push(ActionKind::Cell { position: (x as u8, y as u8), kind });
    } else {
        proof {
            if 0 <= y < matrix@.len() {
                assert(matrix@[y as int].len() == matrix.width());
            }
        }
    }
}

/// Writes `kind` at each of the cells `p` that lie in the matrix, and reports them.
#[verifier::spinoff_prover]
#[verifier::rlimit(50)]
fn place_cells(matrix: &mut BoardStorage, p: &Positions, kind: Cell, out: &mut Vec<ActionKind>)
    requires
        old(matrix).wf(),
        old(matrix)@.len() <= MAX_ROWS,
        old(matrix).width() <= MAX_COLUMNS,
    ensures
        final(matrix).wf(),
        final(matrix).width() == old(matrix).width(),
        final(matrix)@ == write_cells(old(matrix)@, int_pairs(p.0@), kind),
        final(out)@ == old(out)@ + cell_actions(old(matrix)@, int_pairs(p.0@), kind),
{
    let ghost m0 = matrix@;
    let ghost c = int_pairs(p.0@);
    let ghost o0 = out@;
    proof {
        assert(c[0] == (p.0@[0].0 as int, p.0@[0].1 as int));
        assert(c[1] == (p.0@[1].0 as int, p.0@[1].1 as int));
        assert(c[2] == (p.0@[2].0 as int, p.0@[2].1 as int));
        assert(c[3] == (p.0@[3].0 as int, p.0@[3].1 as int));
    }
    place_one(matrix, p.0[0].0, p.0[0].1, kind, out);
    let ghost m1 = matrix@;
    let ghost o1 = out@;
    place_one(matrix, p.0[1].0, p.0[1].1, kind, out);
    let ghost m2 = matrix@;
    let ghost o2 = out@;
    place_one(matrix, p.0[2].0, p.0[2].1, kind, out);
    let ghost m3 = matrix@;
    let ghost o3 = out@;
    place_one(matrix, p.0[3].0, p.0[3].1, kind, out);
    proof {
        lemma_write_cell_keeps_shape(m0, c[0], kind, c[1]);
        lemma_write_cell_keeps_shape(m1, c[1], kind, c[2]);
        lemma_write_cell_keeps_shape(m0, c[0], kind, c[2]);
        lemma_write_cell_keeps_shape(m2, c[2], kind, c[3]);
        lemma_write_cell_keeps_shape(m1, c[1], kind, c[3]);
        lemma_write_cell_keeps_shape(m0, c[0], kind, c[3]);
        assert(o1 == o0 + cell_action(m0, c[0], kind));
        assert(o2 == o1 + cell_action(m0, c[1], kind));
        assert(o3 == o2 + cell_action(m0, c[2], kind));
        assert(out@ == o3 + cell_action(m0, c[3], kind));
        assert(out@ =~= o0 + cell_actions(m0, c, kind));
    }
}


proof fn lemma_take_step(o: Seq<Seq<Cell>>, k: int)
    requires
        0 <= k < o.len(),
    ensures
        o.take(k + 1).drop_last() == o.take(k),
        o.take(k + 1).last() == o[k],
        o.skip(k) == seq![o[k]] + o.skip(k + 1),
        kept_rows(o.take(k + 1)) == kept_rows(o.take(k)) + if full(o[k]) {
            Seq::<Seq<Cell>>::empty()
        } else {
            seq![o[k]]
        },
        clear_actions(o.take(k + 1)) == clear_actions(o.take(k)) + if full(o[k]) {
            seq![ActionKind::LineClear { row: kept_rows(o.take(k)).len() as u8 }]
        } else {
            Seq::<ActionKind>::empty()
        },
{
    assert(o.take(k + 1).drop_last() =~= o.take(k));
    assert(o.skip(k) =~= seq![o[k]] + o.skip(k + 1));
}

impl Board {
    /// Applies queued garbage, up to the garbage cap in all, splitting the block that would
    /// pass the cap.
    fn apply_queued_garbage(&mut self) -> (r: Vec<ActionKind>)
        requires
            old(self).matrix.wf(),
        ensures
            final(self).matrix.wf(),
            final(self).matrix.width() == old(self).matrix.width(),
            final(self).matrix@ == garbage_matrix(
                old(self).matrix@,
                old(self).matrix.width(),
                garbage_take(old(self).queued_garbage@, old(self).settings.garbage_cap as int).0,
            ),
            final(self).queued_garbage@ == garbage_take(
                old(self).queued_garbage@,
                old(self).settings.garbage_cap as int,
            ).1,
            r@ == garbage_actions(
                garbage_take(old(self).queued_garbage@, old(self).settings.garbage_cap as int).0,
            ),
            *final(self) == (Board {
                matrix: final(self).matrix,
                queued_garbage: final(self).queued_garbage,
                ..*old(self)
            }),
    {
        let ghost q0 = self.queued_garbage@;
        let ghost m0 = self.matrix@;
        let ghost w = self.matrix.width();
        let ghost cap = self.settings.garbage_cap as int;
        let mut out: Vec<ActionKind> = Vec::new();
        let mut counter: u16 = 0;
        let ghost mut applied: Seq<Garbage> = Seq::empty();
        while counter < self.settings.garbage_cap && self.queued_garbage.len() > 0
            invariant_except_break
                counter <= self.settings.garbage_cap,
                garbage_take(q0, cap) == (
                    applied + garbage_take(self.queued_garbage@, cap - counter).0,
                    garbage_take(self.queued_garbage@, cap - counter).1,
                ),
            invariant
                self.matrix.wf(),
                self.matrix.width() == w,
                cap == self.settings.garbage_cap,
                w == old(self).matrix.width(),
                self.matrix@ == garbage_matrix(m0, w, applied),
                out@ == garbage_actions(applied),
                *self == (Board {
                    matrix: self.matrix,
                    queued_garbage: self.queued_garbage,
                    ..*old(self)
                }),
            ensures
                garbage_take(q0, cap) == (applied, self.queued_garbage@),
            decreases self.queued_garbage@.len(),
        {
            let ghost q = self.queued_garbage@;
            let head = self.queued_garbage.pop_front();
            let g = match head {
                Some(g) => g,
                None => Garbage { amt: 0, column: 0, received_frame: 0 },
            };
            let budget = self.settings.garbage_cap - counter;
            proof {
                assert(g == q[0]);
            }
            if g.amt > budget {
                let part = Garbage { amt: budget, ..g };
                let rest = Garbage { amt: g.amt - budget, ..g };
                self.queued_garbage.push_front(rest);
                proof {
                    assert(self.queued_garbage@ =~= q.update(0, rest));
                    lemma_garbage_matrix_snoc(m0, w, applied, part);
                    assert(garbage_actions(applied.push(part)) =~= garbage_actions(applied)
                        + garbage_actions(seq![part]));
                }
                self.apply_garbage(part, &mut out);
                proof {
                    applied = applied.push(part);
                }
                break;
            } else {
                counter = counter + g.amt;
                proof {
                    assert(self.queued_garbage@ =~= q.drop_first());
                    lemma_garbage_matrix_snoc(m0, w, applied, g);
                    assert(garbage_actions(applied.push(g)) =~= garbage_actions(applied)
                        + garbage_actions(seq![g]));
                    assert(applied.push(g) + garbage_take(q.drop_first(), cap - counter).0
                        =~= applied + (seq![g] + garbage_take(q.drop_first(), cap - counter).0));
                }
                self.apply_garbage(g, &mut out);
                proof {
                    applied = applied.push(g);
                }
            }
        }
        out
    }

    /// Raises one block of garbage (at most as many rows as the matrix has) and reports it.
    fn apply_garbage(&mut self, g: Garbage, out: &mut Vec<ActionKind>)
        requires
            old(self).matrix.wf(),
        ensures
            final(self).matrix.wf(),
            final(self).matrix.width() == old(self).matrix.width(),
            final(self).matrix@ == garbage_matrix(old(self).matrix@, old(self).matrix.width(), seq![g]),
            final(out)@ == old(out)@ + garbage_actions(seq![g]),
            *final(self) == (Board { matrix: final(self).matrix, ..*old(self) }),
    {
        let rows = self.matrix.num_rows();
        let h = if (g.amt as usize) <= rows {
            g.amt as usize
        } else {
            rows
        };
        self.matrix.apply_garbage(g.column, h);
        out.push(ActionKind::Garbage { column: g.column, height: g.amt });
        proof {
            let gs = seq![g];
            assert(gs.drop_first() =~= Seq::<Garbage>::empty());
            assert(garbage_matrix(self.matrix@, self.matrix.width(), Seq::<Garbage>::empty())
                == self.matrix@);
            assert(garbage_actions(gs) =~= seq![ActionKind::Garbage { column: g.column, height: g.amt }]);
        }
    }
}

impl Board {
    /// Locks the active piece where it lands and brings in the next one; reports the cells
    /// written.
    fn lock_active(&mut self) -> (r: Vec<ActionKind>)
        requires
            old(self).wf_core(),
        ensures
            final(self).wf(),
            final(self).matrix.width() == old(self).matrix.width(),
            final(self).matrix@ == write_cells(
                old(self).matrix@,
                mino_cells(landing(*old(self))),
                Cell::Tetromino(old(self).active.variant),
            ),
            r@ == cell_actions(
                old(self).matrix@,
                mino_cells(landing(*old(self))),
                Cell::Tetromino(old(self).active.variant),
            ),
            final(self).active == spawned(old(self).queue.topped_up().0[0]),
            final(self).queue.window@ == old(self).queue.topped_up().0.drop_first(),
            final(self).queue.rng.state == old(self).queue.topped_up().1,
            final(self).queue.base == old(self).queue.base,
            final(self).hold == activated(old(self).hold),
            final(self).lock_count == LOCK_RESETS,
            final(self).lock_timer == 0,
            final(self).last_drop_needs_update,
            final(self).last_drop == old(self).last_drop,
            final(self).gravity_state == old(self).gravity_state,
            final(self).settings == old(self).settings,
            final(self).queued_garbage == old(self).queued_garbage,
            final(self).acknowledged_garbage == old(self).acknowledged_garbage,
    {
        self.lock_count = LOCK_RESETS;
        self.lock_timer = 0;
        let dropping = self.active;
        let next = self.queue.pop();
        self.active = Mino::spawn(next);
        let kind = Cell::Tetromino(dropping.variant);
        let lands = self.will_lock_at(&dropping);
        let p = lands.position();
        let mut out: Vec<ActionKind> = Vec::new();
        place_cells(&mut self.matrix, &p, kind, &mut out);
        self.hold.activate();
        self.last_drop_needs_update = true;
        proof {
            assert(out@ =~= cell_actions(old(self).matrix@, int_pairs(p.0@), kind));
        }
        out
    }

    /// Clears the full rows, or, when there are none, raises queued garbage.
    fn settle(&mut self) -> (r: Vec<ActionKind>)
        requires
            old(self).wf_core(),
        ensures
            final(self).wf_core(),
            final(self).matrix.width() == old(self).matrix.width(),
            ({
                let o = old(self).matrix@;
                let w = old(self).matrix.width();
                let taken = garbage_take(
                    old(self).queued_garbage@,
                    old(self).settings.garbage_cap as int,
                );
                &&& final(self).matrix@ == if clear_actions(o).len() == 0 {
                    garbage_matrix(o, w, taken.0)
                } else {
                    cleared(o, w)
                }
                &&& final(self).queued_garbage@ == if clear_actions(o).len() == 0 {
                    taken.1
                } else {
                    old(self).queued_garbage@
                }
                &&& r@ == if clear_actions(o).len() == 0 {
                    garbage_actions(taken.0)
                } else {
                    clear_actions(o)
                }
            }),
            *final(self) == (Board {
                matrix: final(self).matrix,
                queued_garbage: final(self).queued_garbage,
                ..*old(self)
            }),
    {
        let ghost o = self.matrix@;
        let ghost w = self.matrix.width();
        let lines = self.clear_lines();
        proof {
            lemma_clear_counts(o, w);
        }
        if lines.len() == 0 {
            let g = self.apply_queued_garbage();
            proof {
                let taken = garbage_take(
                    old(self).queued_garbage@,
                    old(self).settings.garbage_cap as int,
                );
                lemma_garbage_matrix_len(o, w, taken.0);
            }
            g
        } else {
            lines
        }
    }

    /// Locks the active piece at its lock row, clears full rows (or, when there are none,
    /// raises queued garbage), and brings in the next piece.
    pub fn drop_active(&mut self) -> (r: Vec<ActionKind>)
        requires
            old(self).wf_core(),
        ensures
            final(self).wf(),
            final(self).settings == old(self).settings,
            final(self).matrix.width() == old(self).matrix.width(),
            drop_post(*old(self), *final(self), r@),
    {
        let mut out = self.lock_active();
        let ghost mid = *self;
        let ghost first = out@;
        let mut rest = self.settle();
        let ghost second = rest@;
        out.append(&mut rest);
        out.push(ActionKind::Reposition { piece: self.active });
        proof {
            reveal(drop_post);
            let pre = *old(self);
            let post = *self;
            let kind = Cell::Tetromino(pre.active.variant);
            let cells = mino_cells(landing(pre));
            let placed = write_cells(pre.matrix@, cells, kind);
            let clears = clear_actions(placed);
            let taken = garbage_take(pre.queued_garbage@, pre.settings.garbage_cap as int);
            let next = spawned(pre.queue.topped_up().0[0]);
            assert(mid.matrix@ == placed);
            assert(mid.queued_garbage@ == pre.queued_garbage@);
            assert(mid.settings == pre.settings);
            assert(post.matrix@ == if clears.len() == 0 {
                garbage_matrix(placed, pre.matrix.width(), taken.0)
            } else {
                cleared(placed, pre.matrix.width())
            });
            assert(out@ == first + second + seq![ActionKind::Reposition { piece: next }]);
            assert(post.active == next);
            assert(post.queue.window@ == pre.queue.topped_up().0.drop_first());
            assert(post.hold == activated(pre.hold));
            assert(post.acknowledged_garbage@ == pre.acknowledged_garbage@);
        }
        out
    }
}

impl Board {
    /// Moves the active piece to `to`, spending a lock reset if it rests there; drops it when
    /// no lock reset is left.
    fn reposition(&mut self, to: Mino) -> (r: Vec<ActionKind>)
        requires
            old(self).wf_core(),
            -1000 <= old(self).lock_count <= LOCK_RESETS,
            coord_ok(to),
        ensures
            final(self).wf(),
            final(self).settings == old(self).settings,
            final(self).matrix.width() == old(self).matrix.width(),
            reposition_post(*old(self), *final(self), to, r@),
    {
        let mut out: Vec<ActionKind> = Vec::new();
        if to != self.active {
            self.lock_timer = 0;
            if self.will_lock(to) {
                self.lock_count = self.lock_count - 1;
            }
            out.push(ActionKind::Reposition { piece: to });
            self.active = to;
        }
        let ghost mid = *self;
        let ghost head = out@;
        proof {
            assert(mid == moved_to(*old(self), to));
        }
        if self.lock_count <= 0 {
            let mut d = self.drop_active();
            let ghost dropped = d@;
            out.append(&mut d);
            proof {
                assert(out@.take(head.len() as int) =~= head);
                assert(out@.skip(head.len() as int) =~= dropped);
            }
        }
        out
    }
}

impl Board {
    /// Replaces the active piece with the next one from the queue, returning the old one.
    fn cycle_piece(&mut self) -> (r: Mino)
        requires
            old(self).wf(),
        ensures
            final(self).wf(),
            r == old(self).active,
            final(self).active == spawned(old(self).queue.topped_up().0[0]),
            final(self).queue.window@ == old(self).queue.topped_up().0.drop_first(),
            final(self).queue.rng.state == old(self).queue.topped_up().1,
            final(self).queue.base == old(self).queue.base,
            *final(self) == (Board {
                active: final(self).active,
                queue: final(self).queue,
                ..*old(self)
            }),
    {
        let next = self.queue.pop();
        let old_active = self.active;
        self.active = Mino::spawn(next);
        old_active
    }

    /// Shifts the active piece `cells` columns (left when negative). The piece slides column
    /// by column and stops before the first column at which it would collide.
    pub fn shift(&mut self, cells: i8) -> (r: Vec<ActionKind>)
        requires
            old(self).wf(),
        ensures
            final(self).wf(),
            final(self).settings == old(self).settings,
            final(self).matrix.width() == old(self).matrix.width(),
            shift_post(*old(self), *final(self), cells as int, r@),
    {
        let step: i16 = if cells < 0 {
            -1
        } else {
            1
        };
        let ghost gstep: int = step as int;
        let left0: i16 = if cells < 0 {
            -(cells as i16)
        } else {
            cells as i16
        };
        let mut left = left0;
        let mut cur = self.active;
        let mut first = true;
        let mut blocked = false;
        let ghost mut spent: int = 0;
        let ghost m = self.matrix@;
        while left > 0 && !blocked
            invariant
                self.wf_core(),
                *self == (Board { lock_count: self.lock_count, ..*old(self) }),
                self.lock_count == old(self).lock_count - spent,
                1 <= old(self).lock_count <= LOCK_RESETS,
                0 <= left <= left0 <= 128,
                0 <= spent <= left0 - left,
                m == self.matrix@,
                gstep == step as int,
                step == 1 || step == -1,
                coord_ok(cur),
                cur.variant == old(self).active.variant,
                cur.direction == old(self).active.direction,
                cur.coord.1 == old(self).active.coord.1,
                first ==> cur == old(self).active,
                blocked ==> slide(m, cur, gstep, left as int, first) == (cur.coord.0 as int, 0int),
                ({
                    let a = slide(m, old(self).active, gstep, left0 as int, true);
                    let b = slide(m, cur, gstep, left as int, first);
                    a.0 == b.0 && a.1 == spent + b.1
                }),
            decreases left, if blocked {
                0int
            } else {
                1int
            },
        {
            let nxt = Mino { variant: cur.variant, direction: cur.direction, coord: (cur.coord.0 + step, cur.coord.1) };
            proof {
                assert(nxt == at_column(cur, cur.coord.0 + gstep));
            }
            if self.intersects(&nxt) {
                blocked = true;
            } else {
                if !first && self.will_lock(cur) {
                    self.lock_count = self.lock_count - 1;
                    proof {
                        spent = spent + 1;
                    }
                }
                proof {
                    lemma_free_piece_is_near(m, nxt);
                }
                cur = nxt;
                first = false;
                left = left - 1;
            }
        }
        proof {
            assert(cur == at_column(old(self).active, cur.coord.0 as int));
        }
        self.reposition(cur)
    }

    /// Rotates the active piece by `spin`, trying the unkicked position and then each kick in
    /// table order; the first free position is taken and gravity's progress is reset. When none
    /// is free nothing happens.
    pub fn rotate_active(&mut self, spin: crate::tetromino::Spin) -> (r: Vec<ActionKind>)
        requires
            old(self).wf(),
        ensures
            final(self).wf(),
            final(self).settings == old(self).settings,
            final(self).matrix.width() == old(self).matrix.width(),
            rotate_post(*old(self), *final(self), spin, r@),
    {
        let rot = self.active.rotate(spin);
        let kicks = self.active.kick(spin);
        let ghost m = self.matrix@;
        let ghost c = kick_candidates(old(self).active.rotation_spec(spin));
        let mut found: Option<Mino> = None;
        proof {
            assert(rot == offset_by(rot, c[0]));
        }
        if !self.intersects(&rot) {
            found = Some(rot);
        } else {
            match kicks {
                Some(k) => {
                    proof {
                        assert(c == seq![(0int, 0int)] + crate::tetromino::small_pairs(k@));
                    }
                    let mut i: usize = 0;
                    while i < k.len() && found.is_none()
                        invariant
                            self.matrix.wf(),
                            m == self.matrix@,
                            coord_ok(rot),
                            c == seq![(0int, 0int)] + crate::tetromino::small_pairs(k@),
                            i <= k@.len(),
                            found matches Some(f) ==> f == offset_by(rot, c[i as int])
                                && !collides(m, f) && i >= 1 && first_free(m, rot, c, 0) == Some(i as int),
                            found is None ==> first_free(m, rot, c, 0) == first_free(
                                m,
                                rot,
                                c,
                                i + 1,
                            ),
                        decreases k@.len() - i, if found is None {
                            1int
                        } else {
                            0int
                        },
                    {
                        let (dx, dy) = k[i];
                        proof {
                            assert(c[i + 1] == (dx as int, dy as int));
                        }
                        let cand = Mino {
                            variant: rot.variant,
                            direction: rot.direction,
                            coord: (rot.coord.0 + dx as i16, rot.coord.1 + dy as i16),
                        };
                        proof {
                            assert(cand == offset_by(rot, c[i + 1]));
                        }
                        if !self.intersects(&cand) {
                            found = Some(cand);
                            proof {
                                assert(first_free(m, rot, c, i + 1) == Some(i + 1));
                            }
                        }
                        i = i + 1;
                    }
                    proof {
                        if found is None {
                            assert(first_free(m, rot, c, i + 1) == None::<int>);
                        }
                    }
                },
                None => {
                    proof {
                        assert(c =~= seq![(0int, 0int)]);
                        assert(first_free(m, rot, c, 1) == None::<int>);
                    }
                },
            }
        }
        match found {
            Some(to) => {
                proof {
                    lemma_free_piece_is_near(m, to);
                }
                self.gravity_state = 0;
                self.reposition(to)
            },
            None => Vec::new(),
        }
    }

    /// Holds the active piece, if the hold is available.
    pub fn hold(&mut self) -> (r: Vec<ActionKind>)
        requires
            old(self).wf(),
        ensures
            final(self).wf(),
            final(self).settings == old(self).settings,
            final(self).matrix.width() == old(self).matrix.width(),
            hold_post(*old(self), *final(self), r@),
    {
        match self.hold {
            Hold::Empty => {
                let held = self.cycle_piece();
                self.hold = Hold::NotActive(held.variant);
                vec![ActionKind::Hold, ActionKind::Reposition { piece: self.active }]
            },
            Hold::Active(h) => {
                let held = self.active;
                self.active = Mino::spawn(h);
                self.hold = Hold::NotActive(held.variant);
                vec![ActionKind::Hold, ActionKind::Reposition { piece: self.active }]
            },
            Hold::NotActive(_) => Vec::new(),
        }
    }
}

impl Board {
    /// Moves the ready garbage from the acknowledged queue to the queue of garbage to apply.
    fn activate_garbage(&mut self, frame: u32)
        requires
            old(self).wf(),
        ensures
            final(self).wf(),
            final(self).settings == old(self).settings,
            final(self).matrix.width() == old(self).matrix.width(),
            garbage_post(*old(self), *final(self), frame as int),
    {
        let ghost a0 = self.acknowledged_garbage@;
        let ghost sp = self.settings.garbage_speed as int;
        let mut done = false;
        let ghost mut k: int = 0;
        while !done
            invariant
                self.wf(),
                *self == (Board {
                    acknowledged_garbage: self.acknowledged_garbage,
                    queued_garbage: self.queued_garbage,
                    ..*old(self)
                }),
                0 <= k <= a0.len(),
                sp == self.settings.garbage_speed,
                self.acknowledged_garbage@ == a0.skip(k),
                self.queued_garbage@ == old(self).queued_garbage@ + a0.take(k),
                !done ==> ready_prefix(a0, sp, frame as int) == k + ready_prefix(a0.skip(k), sp, frame as int),
                done ==> ready_prefix(a0, sp, frame as int) == k,
            decreases a0.len() - k, if done {
                0int
            } else {
                1int
            },
        {
            if self.acknowledged_garbage.len() == 0 {
                done = true;
            } else {
                let g = self.acknowledged_garbage[0];
                if g.received_frame as u64 + self.settings.garbage_speed as u64 <= frame as u64 + 1 {
                    let moved = self.acknowledged_garbage.pop_front();
                    if let Some(m) = moved {
                        self.queued_garbage.push_back(m);
                    }
                    proof {
                        assert(a0.skip(k).drop_first() =~= a0.skip(k + 1));
                        assert(a0.take(k + 1) =~= a0.take(k).push(a0[k]));
                        k = k + 1;
                    }
                } else {
                    done = true;
                }
            }
        }
    }

    /// The size of the auto-shift due on `subframe`, if one is.
    fn auto_shift_charge(&self, current_subframe: u32, key_state: &State) -> (r: Option<i8>)
        requires
            self.wf(),
        ensures
            r matches Some(n) ==> shift_charge(*self, current_subframe as int, *key_state) == Some(n as int),
            r is None ==> shift_charge(*self, current_subframe as int, *key_state) is None,
    {
        let settings = &self.settings;
        let (arr, shift_size): (u64, i8) = if settings.arr == 0 {
            (1, self.matrix.num_columns() as i8)
        } else {
            (settings.arr as u64, 1)
        };
        let charged: u64 = key_state.shift_began as u64 + settings.das as u64;
        let das_inertia: u64 = match self.last_drop {
            Some(last_drop) => if last_drop as u64 >= charged {
                last_drop as u64 + settings.dcd as u64
            } else {
                charged
            },
            None => charged,
        };
        if current_subframe as u64 >= das_inertia && (current_subframe as u64 - das_inertia) % arr == 0 {
            Some(shift_size)
        } else {
            None
        }
    }

    /// Performs the auto-shift due on `subframe`, if any, in the held direction.
    fn auto_shift(&mut self, subframe: u32, key_state: &State) -> (r: Vec<ActionKind>)
        requires
            old(self).wf(),
        ensures
            final(self).wf(),
            final(self).settings == old(self).settings,
            final(self).matrix.width() == old(self).matrix.width(),
            auto_shift_post(*old(self), *final(self), subframe as int, *key_state, r@),
    {
        match self.auto_shift_charge(subframe, key_state) {
            Some(shift_size) => match key_state.shifting {
                ShiftDirection::Neither => Vec::new(),
                ShiftDirection::Left => self.shift(-shift_size),
                ShiftDirection::Right => self.shift(shift_size),
            },
            None => Vec::new(),
        }
    }

    /// Lets gravity act for one subframe.
    fn apply_gravity(&mut self, soft_dropping: bool) -> (r: Vec<ActionKind>)
        requires
            old(self).wf(),
        ensures
            final(self).wf(),
            final(self).settings == old(self).settings,
            final(self).matrix.width() == old(self).matrix.width(),
            gravity_post(*old(self), *final(self), soft_dropping, r@),
    {
        let settings = &self.settings;
        let step: u64 = if soft_dropping {
            if settings.sdf > 40 {
                self.matrix.num_rows() as u64 * GRAVITY_UNIT
            } else {
                let base: u64 = if settings.gravity >= 50000 {
                    settings.gravity as u64
                } else {
                    50000
                };
                proof {
                    assert(settings.sdf as u64 * base <= 40 * 4294967295) by (nonlinear_arith)
                        requires
                            settings.sdf <= 40,
                            base <= 4294967295,
                    ;
                }
                settings.sdf as u64 * base
            }
        } else {
            settings.gravity as u64
        };
        assert(step <= 40 * 4294967295);
        let total: u64 = self.gravity_state + step;
        if total >= GRAVITY_UNIT {
            let locks_at = self.will_lock_at(&self.active).coord.1;
            let fall: i64 = self.active.coord.1 as i64 - (total / GRAVITY_UNIT) as i64;
            let y: i16 = if fall >= locks_at as i64 {
                fall as i16
            } else {
                locks_at
            };
            self.gravity_state = total % GRAVITY_UNIT;
            let to = Mino { variant: self.active.variant, direction: self.active.direction, coord: (self.active.coord.0, y) };
            proof {
                assert(to == at_row(old(self).active, y as int));
            }
            self.reposition(to)
        } else {
            self.gravity_state = total;
            Vec::new()
        }
    }

    /// Runs the lock timer for one subframe while the piece rests, dropping it when the timer
    /// reaches the lock delay.
    fn lock_tick(&mut self) -> (r: Vec<ActionKind>)
        requires
            old(self).wf(),
        ensures
            final(self).wf(),
            final(self).settings == old(self).settings,
            final(self).matrix.width() == old(self).matrix.width(),
            lock_post(*old(self), *final(self), r@),
    {
        if self.will_lock(self.active) {
            if self.lock_timer < self.settings.lock_delay {
                self.lock_timer = self.lock_timer + 1;
            }
            if self.lock_timer >= self.settings.lock_delay {
                return self.drop_active();
            }
        }
        Vec::new()
    }

    /// One subframe of passive effects.
    pub fn tick(&mut self, subframe: u32, key_state: &State) -> (r: Vec<ActionKind>)
        requires
            old(self).wf(),
        ensures
            final(self).wf(),
            final(self).settings == old(self).settings,
            tick_post(*old(self), *final(self), subframe as int, *key_state, r@),
    {
        if self.last_drop_needs_update {
            self.last_drop_needs_update = false;
            self.last_drop = Some(subframe);
        }
        proof {
            assert(*self == refreshed(*old(self), subframe as int));
        }
        self.activate_garbage(subframe / 10);
        let ghost b1 = *self;
        let mut out = self.auto_shift(subframe, key_state);
        let ghost b2 = *self;
        let ghost a1 = out@;
        let mut g = self.apply_gravity(key_state.soft_dropping);
        let ghost b3 = *self;
        let ghost a2 = g@;
        let mut l = self.lock_tick();
        let ghost a3 = l@;
        out.append(&mut g);
        out.append(&mut l);
        proof {
            reveal(tick_post);
            assert(garbage_post(refreshed(*old(self), subframe as int), b1, subframe as int / 10));
            assert(auto_shift_post(b1, b2, subframe as int, *key_state, a1));
            assert(gravity_post(b2, b3, key_state.soft_dropping, a2));
            assert(lock_post(b3, *self, a3));
            assert(out@ == a1 + a2 + a3);
        }
        out
    }
}

impl Board {
    /// Applies the effects that happen between key presses (garbage readying, auto-shift,
    /// gravity, lock delay) for every subframe from the controller's next unprocessed one up to
    /// `current_subframe`, stamping each action with the frame of its subframe.
    pub fn passive_effects(&mut self, current_subframe: u32, key_state: &State) -> (r: Vec<Action>)
        requires
            old(self).wf(),
        ensures
            final(self).wf(),
            final(self).settings == old(self).settings,
            passive_post(
                *old(self),
                *final(self),
                key_state.last_subframe as int,
                current_subframe as int,
                *key_state,
                r@,
            ),
    {
        let from = key_state.last_subframe;
        let mut out: Vec<Action> = Vec::new();
        let mut subframe: u32 = from;
        let ghost mut bs: Seq<Board> = seq![*self];
        let ghost mut steps: Seq<Seq<ActionKind>> = Seq::empty();
        while subframe < current_subframe
            invariant
                self.wf(),
                self.settings == old(self).settings,
                from <= subframe,
                subframe <= current_subframe || subframe == from,
                from == key_state.last_subframe,
                bs.len() == subframe - from + 1,
                steps.len() == subframe - from,
                bs[0] == *old(self),
                bs[subframe - from] == *self,
                forall|k: int|
                    0 <= k < subframe - from ==> tick_post(
                        #[trigger] bs[k],
                        bs[k + 1],
                        from + k,
                        *key_state,
                        steps[k],
                    ),
                out@ == stamped(steps, from as int),
            decreases current_subframe - subframe,
        {
            let acts = self.tick(subframe, key_state);
            let frame = subframe / 10;
            let mut i: usize = 0;
            let ghost before = out@;
            while i < acts.len()
                invariant
                    i <= acts@.len(),
                    out@ == before + acts@.take(i as int).map_values(
                        |a: ActionKind| Action { kind: a, frame: frame },
                    ),
                decreases acts@.len() - i,
            {
                out.push(acts[i].attach_frame(frame));
                i = i + 1;
                proof {
                    assert(out@ =~= before + acts@.take(i as int).map_values(
                        |a: ActionKind| Action { kind: a, frame: frame },
                    ));
                }
            }
            proof {
                let k = subframe - from;
                assert(acts@.take(acts@.len() as int) =~= acts@);
                let old_steps = steps;
                let old_bs = bs;
                steps = steps.push(acts@);
                bs = bs.push(*self);
                assert(steps.drop_last() =~= old_steps);
                assert(frame == ((from + k) / 10) as u32);
                assert(forall|j: int| 0 <= j < k ==> #[trigger] bs[j] == old_bs[j] && steps[j] == old_steps[j]);
            }
            subframe = subframe + 1;
        }
        proof {
            let n = if current_subframe > from {
                current_subframe - from
            } else {
                0
            };
            assert(tick_chain(
                *old(self),
                *self,
                from as int,
                current_subframe as int,
                *key_state,
                out@,
                bs,
                steps,
            ));
        }
        out
    }
}

impl Board {
    /// A board for a game of type `game_type` whose pieces come from `piece_seed`, with the
    /// initial matrix `game` given as rows from the top. The first piece comes in at once.
    pub fn new(
        piece_seed: u64,
        game_type: GameType,
        settings: Settings,
        game: &[Vec<Option<String>>],
    ) -> (r: Result<(Board, Vec<Action>), ReplayError>)
        ensures
            r == Err::<(Board, Vec<Action>), ReplayError>(ReplayError::UnusableSeed) <==> !valid_seed(piece_seed),
            r == Err::<(Board, Vec<Action>), ReplayError>(ReplayError::UnsupportedGameType) <==> valid_seed(piece_seed) && game_type is Blitz,
            r == Err::<(Board, Vec<Action>), ReplayError>(ReplayError::MatrixTooLarge) <==> valid_seed(piece_seed) && !(game_type is Blitz) && too_large(game@),
            r == Err::<(Board, Vec<Action>), ReplayError>(ReplayError::IrregularMatrix) <==> valid_seed(piece_seed) && !(game_type is Blitz) && !too_large(game@) && ragged(game@),
            r == Err::<(Board, Vec<Action>), ReplayError>(ReplayError::UnknownCell) <==> valid_seed(piece_seed) && !(game_type is Blitz) && !too_large(game@) && !ragged(game@) && has_unknown(game@),
            r is Ok <==> valid_seed(piece_seed) && !(game_type is Blitz) && !too_large(game@) && !ragged(game@) && !has_unknown(game@),
            r matches Ok((b, acts)) ==> new_post(piece_seed, game_type, settings, game@, b, acts@),
            match new_error(piece_seed, game_type, game@) {
                Some(e) => r == Err::<(Board, Vec<Action>), ReplayError>(e),
                None => r is Ok,
            },
    {
        if piece_seed % MODULUS == 0 {
            return Err(ReplayError::UnusableSeed);
        }
        if let GameType::Blitz = game_type {
            return Err(ReplayError::UnsupportedGameType);
        }
        let n = game.len();
        if n > MAX_ROWS || (n > 0 && game[0].len() > MAX_COLUMNS) {
            return Err(ReplayError::MatrixTooLarge);
        }
        let width: usize = if n == 0 {
            0
        } else {
            game[0].len()
        };
        let mut y: usize = 0;
        while y < n
            invariant
                valid_seed(piece_seed),
                !(game_type is Blitz),
                !too_large(game@),
                n == game@.len(),
                y <= n,
                n > 0 ==> width == game@[0]@.len(),
                forall|k: int| 0 <= k < y ==> #[trigger] game@[k]@.len() == width,
            decreases n - y,
        {
            if game[y].len() != width {
                proof {
                    assert(game@[y as int]@.len() != game@[0]@.len());
                }
                return Err(ReplayError::IrregularMatrix);
            }
            y = y + 1;
        }
        assert(!ragged(game@)) by {
            if n > 0 {
                assert forall|k: int| 0 <= k < game@.len() implies #[trigger] game@[k]@.len() == game@[0]@.len() by {
                    assert(game@[k]@.len() == width);
                }
            }
        }
        let mut rows: Vec<Vec<Cell>> = Vec::new();
        let mut i: usize = 0;
        while i < n
            invariant
                valid_seed(piece_seed),
                !(game_type is Blitz),
                !too_large(game@),
                !ragged(game@),
                n == game@.len(),
                n <= MAX_ROWS,
                width <= MAX_COLUMNS,
                i <= n,
                forall|k: int| 0 <= k < n ==> #[trigger] game@[k]@.len() == width,
                rows@.len() == i,
                forall|k: int| 0 <= k < i ==> (#[trigger] rows@[k])@ == parsed_matrix(game@)[k],
                forall|k: int, x: int|
                    n - i <= k < n && 0 <= x < width ==> (#[trigger] cell_of_name(game@[k]@[x])) is Some,
            decreases n - i,
        {
            let src = &game[n - 1 - i];
            let mut row: Vec<Cell> = Vec::new();
            let mut x: usize = 0;
            while x < width
                invariant
                    valid_seed(piece_seed),
                    !(game_type is Blitz),
                    !too_large(game@),
                    !ragged(game@),
                    n == game@.len(),
                    i < n,
                    src@ == game@[n - 1 - i]@,
                    src@.len() == width,
                    x <= width,
                    row@.len() == x,
                    forall|j: int| 0 <= j < x ==> Some(#[trigger] row@[j]) == cell_of_name(src@[j]),
                decreases width - x,
            {
                match Cell::from_optional_name(&src[x]) {
                    Some(c) => row.push(c),
                    None => {
                        proof {
                            assert(cell_of_name(game@[n - 1 - i]@[x as int]) is None);
                            assert(has_unknown(game@));
                        }
                        return Err(ReplayError::UnknownCell);
                    },
                }
                x = x + 1;
            }
            proof {
                assert(row@ =~= parsed_matrix(game@)[i as int]);
                assert forall|k: int, x: int|
                    n - (i + 1) <= k < n && 0 <= x < width implies (#[trigger] cell_of_name(game@[k]@[x])) is Some by {
                    if k == n - 1 - i {
                        assert(Some(row@[x]) == cell_of_name(src@[x]));
                    }
                }
            }
            rows.push(row);
            i = i + 1;
        }
        assert(!has_unknown(game@)) by {
            assert forall|k: int, x: int| 0 <= k < game@.len() && 0 <= x < game@[k]@.len() implies (#[trigger] cell_of_name(game@[k]@[x])) is Some by {
                assert(game@[k]@.len() == width);
            }
        }
        let matrix = BoardStorage::new_from_rows_unchecked(rows);
        proof {
            assert(matrix@ =~= parsed_matrix(game@));
        }
        let mut queue = PieceQueue::from_game(game_type, piece_seed);
        let first = queue.pop();
        let active = Mino::spawn(first);
        let board = Board {
            matrix,
            queue,
            active,
            gravity_state: 0,
            settings,
            lock_count: LOCK_RESETS,
            lock_timer: 0,
            last_drop: None,
            last_drop_needs_update: false,
            hold: Hold::Empty,
            acknowledged_garbage: VecDeque::new(),
            queued_garbage: VecDeque::new(),
        };
        let acts = vec![ActionKind::Reposition { piece: active }.attach_frame(0)];
        proof {
            let bag = shuffled(base_of(game_type), (piece_seed % MODULUS) as int);
            assert(board.queue.base@ == base_of(game_type));
            assert(board.active == spawned(bag.0[0]));
            assert(board.wf());
            assert(acts@ == seq![Action { kind: ActionKind::Reposition { piece: board.active }, frame: 0 }]);
            assert(new_post(piece_seed, game_type, settings, game@, board, acts@));
        }
        Ok((board, acts))
    }

    /// Puts confirmed garbage in the acknowledged queue, dated to `frame`. Announcements are
    /// ignored.
    pub fn acknowledge_garbage(&mut self, garbage: &InteractionData, frame: u32)
        requires
            old(self).wf(),
        ensures
            final(self).wf(),
            final(self).settings == old(self).settings,
            ack_post(*old(self), *final(self), *garbage, frame as int),
    {
        match *garbage {
            InteractionData::InteractionDo { .. } => {},
            InteractionData::InteractionConfirm { amt, column } => {
                self.acknowledged_garbage.push_back(Garbage { amt, column, received_frame: frame });
            },
        }
    }
}

impl Default for Board {
    /// An empty matrix with no rows, a fixed queue, and a T piece at the spawn position.
    fn default() -> (r: Board)
        ensures
            r.wf(),
            r.matrix@.len() == 0,
            r.matrix.width() == 0,
            r.queue.window@.len() == 0,
            r.queue.base@ == standard_base(),
            r.queue.rng.state == 1,
            r.gravity_state == 0,
            r.lock_count == LOCK_RESETS,
            r.lock_timer == 0,
            r.last_drop is None,
            !r.last_drop_needs_update,
            r.active == spawned(MinoVariant::T),
            r.settings == crate::settings::default_settings(),
            r.hold == Hold::Empty,
            r.acknowledged_garbage@.len() == 0,
            r.queued_garbage@.len() == 0,
    {
        Board {
            matrix: BoardStorage::new_empty(),
            queue: PieceQueue::meaningless(),
            active: Mino::spawn(MinoVariant::T),
            gravity_state: 0,
            settings: Settings::default(),
            lock_count: LOCK_RESETS,
            lock_timer: 0,
            last_drop: None,
            last_drop_needs_update: false,
            hold: Hold::Empty,
            acknowledged_garbage: VecDeque::new(),
            queued_garbage: VecDeque::new(),
        }
    }
}

} // verus!
