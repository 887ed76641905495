use vstd::prelude::*;

use crate::action::ActionKind;
use crate::board::{
    cell_action, cell_actions, clear_actions, cleared, drop_post, garbage_actions, empty_rows, full, garbage_matrix, garbage_take,
    garbage_total, hold_post, kept_rows, landing, lemma_clear_counts, write_cells,
    lemma_drop_row_is_highest_rest, rests_at, Board, Garbage,
};
use crate::storage::{empty_row, garbage_row, with_garbage};
use crate::tetromino::Cell;

verus! {

/// A drop locks the piece at the highest row, at or below its own, at which one of its cells
/// has a filled cell or the floor directly beneath it.
pub proof fn lemma_drop_lands_on_highest_resting_row(pre: Board, post: Board, acts: Seq<ActionKind>)
    requires
        pre.wf_core(),
        drop_post(pre, post, acts),
    ensures
        landing(pre).coord.1 <= pre.active.coord.1,
        rests_at(pre.matrix@, pre.active, landing(pre).coord.1 as int),
        forall|z: int|
            landing(pre).coord.1 < z <= pre.active.coord.1 ==> !rests_at(pre.matrix@, pre.active, z),
{
    lemma_drop_row_is_highest_rest(pre.matrix@, pre.active, pre.active.coord.1 as int);
}

/// Whether every garbage block has its hole inside a matrix of width `w`.
pub open spec fn holes_inside(q: Seq<Garbage>, w: int) -> bool {
    forall|i: int| 0 <= i < q.len() ==> (#[trigger] q[i]).column < w
}

/// After a drop no row of the matrix is full, provided the matrix has at least one column and
/// every queued garbage block has its hole inside it.
pub proof fn lemma_drop_leaves_no_full_row(pre: Board, post: Board, acts: Seq<ActionKind>)
    requires
        pre.wf_core(),
        drop_post(pre, post, acts),
        pre.matrix.width() > 0,
        holes_inside(pre.queued_garbage@, pre.matrix.width()),
    ensures
        forall|y: int| 0 <= y < post.matrix@.len() ==> !full(#[trigger] post.matrix@[y]),
{
    reveal(drop_post);
    let w = pre.matrix.width();
    let kind = Cell::Tetromino(pre.active.variant);
    let placed = crate::board::write_cells(pre.matrix@, crate::tetromino::mino_cells(landing(pre)), kind);
    let taken = garbage_take(pre.queued_garbage@, pre.settings.garbage_cap as int);
    lemma_clear_counts(placed, w);
    if clear_actions(placed).len() == 0 {
        lemma_kept_rows_not_full(placed);
        assert forall|y: int| 0 <= y < placed.len() implies !full(#[trigger] placed[y]) by {
            assert(kept_rows(placed)[y] == placed[y]);
        }
        lemma_take_keeps_holes(pre.queued_garbage@, pre.settings.garbage_cap as int, w);
        lemma_garbage_keeps_rows_open(placed, w, taken.0);
    } else {
        lemma_kept_rows_not_full(placed);
        let c = cleared(placed, w);
        assert forall|y: int| 0 <= y < c.len() implies !full(#[trigger] c[y]) by {
            if y >= kept_rows(placed).len() {
                let e = empty_row(w);
                assert(c[y] == e);
                assert(e[0] is Empty);
            }
        }
    }
}

pub proof fn lemma_kept_rows_not_full(o: Seq<Seq<Cell>>)
    ensures
        forall|i: int| 0 <= i < kept_rows(o).len() ==> !full(#[trigger] kept_rows(o)[i]),
    decreases o.len(),
{
    if o.len() > 0 {
        lemma_kept_rows_not_full(o.drop_last());
        let k0 = kept_rows(o.drop_last());
        assert forall|i: int| 0 <= i < kept_rows(o).len() implies !full(#[trigger] kept_rows(o)[i]) by {
            if i < k0.len() {
                assert(kept_rows(o)[i] == k0[i]);
            } else {
                assert(kept_rows(o)[i] == o.last());
            }
        }
    }
}

pub proof fn lemma_take_keeps_holes(q: Seq<Garbage>, budget: int, w: int)
    requires
        holes_inside(q, w),
    ensures
        holes_inside(garbage_take(q, budget).0, w),
    decreases q.len(),
{
    if q.len() > 0 && budget > 0 && q[0].amt <= budget {
        assert(holes_inside(q.drop_first(), w)) by {
            assert forall|i: int| 0 <= i < q.drop_first().len() implies (#[trigger] q.drop_first()[i]).column < w by {
                assert(q.drop_first()[i] == q[i + 1]);
            }
        }
        lemma_take_keeps_holes(q.drop_first(), budget - q[0].amt, w);
        let (a, r) = garbage_take(q.drop_first(), budget - q[0].amt);
        assert forall|i: int| 0 <= i < (seq![q[0]] + a).len() implies (#[trigger] (seq![q[0]] + a)[i]).column < w by {
            if i > 0 {
                assert((seq![q[0]] + a)[i] == a[i - 1]);
            }
        }
    }
}

/// Rising garbage whose holes lie inside the matrix leaves no full row where there was none.
pub proof fn lemma_garbage_keeps_rows_open(m: Seq<Seq<Cell>>, w: int, gs: Seq<Garbage>)
    requires
        w > 0,
        holes_inside(gs, w),
        forall|y: int| 0 <= y < m.len() ==> !full(#[trigger] m[y]),
    ensures
        forall|y: int| 0 <= y < garbage_matrix(m, w, gs).len() ==> !full(#[trigger] garbage_matrix(m, w, gs)[y]),
    decreases gs.len(),
{
    if gs.len() > 0 {
        let g = gs[0];
        let h = if g.amt <= m.len() {
            g.amt as int
        } else {
            m.len() as int
        };
        let m1 = with_garbage(m, w, g.column as int, h);
        assert forall|y: int| 0 <= y < m1.len() implies !full(#[trigger] m1[y]) by {
            if y < h {
                let r = garbage_row(w, g.column as int);
                assert(m1[y] == r);
                assert(r[g.column as int] is Empty);
            } else {
                assert(m1[y] == m[y - h]);
            }
        }
        assert(holes_inside(gs.drop_first(), w)) by {
            assert forall|i: int| 0 <= i < gs.drop_first().len() implies (#[trigger] gs.drop_first()[i]).column < w by {
                assert(gs.drop_first()[i] == gs[i + 1]);
            }
        }
        lemma_garbage_keeps_rows_open(m1, w, gs.drop_first());
        assert(garbage_matrix(m, w, gs) == garbage_matrix(m1, w, gs.drop_first()));
    }
}

/// One drop's garbage loses and invents nothing: what it applies and what stays queued add up
/// to what was queued, and it applies the cap's worth, or everything when less is queued.
pub proof fn lemma_garbage_conserved(q: Seq<Garbage>, cap: int)
    requires
        cap >= 0,
    ensures
        garbage_total(garbage_take(q, cap).0) + garbage_total(garbage_take(q, cap).1) == garbage_total(q),
        garbage_total(garbage_take(q, cap).0) == if garbage_total(q) <= cap {
            garbage_total(q)
        } else {
            cap
        },
    decreases q.len(),
{
    lemma_total_nonneg(q);
    if q.len() == 0 || cap <= 0 {
        assert(garbage_total(Seq::<Garbage>::empty()) == 0);
    } else if q[0].amt > cap {
        let part = Garbage { amt: cap as u16, ..q[0] };
        let rest = Garbage { amt: (q[0].amt - cap) as u16, ..q[0] };
        let r = q.update(0, rest);
        assert(r.drop_first() =~= q.drop_first());
        assert(seq![part].drop_first() =~= Seq::<Garbage>::empty());
        assert(garbage_total(seq![part]) == cap + garbage_total(Seq::<Garbage>::empty()));
        assert(garbage_total(r) == rest.amt + garbage_total(q.drop_first()));
        assert(garbage_take(q, cap) == (seq![part], r));
        lemma_total_nonneg(q.drop_first());
    } else {
        lemma_garbage_conserved(q.drop_first(), cap - q[0].amt);
        let (a, r) = garbage_take(q.drop_first(), cap - q[0].amt);
        assert((seq![q[0]] + a).drop_first() =~= a);
        assert(garbage_take(q, cap) == (seq![q[0]] + a, r));
        assert(garbage_total(seq![q[0]] + a) == q[0].amt + garbage_total(a));
        lemma_total_nonneg(q.drop_first());
    }
}

pub proof fn lemma_total_nonneg(q: Seq<Garbage>)
    ensures
        garbage_total(q) >= 0,
    decreases q.len(),
{
    if q.len() > 0 {
        lemma_total_nonneg(q.drop_first());
    }
}

/// The total height that `k` successive drops apply, starting from the queue `q`.
pub open spec fn applied_over(q: Seq<Garbage>, cap: int, k: nat) -> int
    decreases k,
{
    if k == 0 {
        0
    } else {
        garbage_total(garbage_take(q, cap).0) + applied_over(garbage_take(q, cap).1, cap, (k - 1) as nat)
    }
}

/// The queue left after `k` successive drops.
pub open spec fn left_over(q: Seq<Garbage>, cap: int, k: nat) -> Seq<Garbage>
    decreases k,
{
    if k == 0 {
        q
    } else {
        left_over(garbage_take(q, cap).1, cap, (k - 1) as nat)
    }
}

/// Over successive drops with a positive cap, the garbage applied plus the garbage still
/// queued is always what was queued, and once the drops have had room for all of it, all of
/// it has been applied.
pub proof fn lemma_garbage_drains(q: Seq<Garbage>, cap: int, k: nat)
    requires
        cap > 0,
    ensures
        applied_over(q, cap, k) + garbage_total(left_over(q, cap, k)) == garbage_total(q),
        k * cap >= garbage_total(q) ==> applied_over(q, cap, k) == garbage_total(q),
    decreases k,
{
    if k > 0 {
        lemma_garbage_conserved(q, cap);
        let rest = garbage_take(q, cap).1;
        lemma_garbage_drains(rest, cap, (k - 1) as nat);
        lemma_total_nonneg(rest);
        lemma_total_nonneg(left_over(rest, cap, (k - 1) as nat));
        if k * cap >= garbage_total(q) {
            if garbage_total(q) > cap {
                assert(garbage_total(rest) == garbage_total(q) - cap);
                assert((k - 1) * cap >= garbage_total(rest)) by (nonlinear_arith)
                    requires
                        k * cap >= garbage_total(q),
                        garbage_total(rest) == garbage_total(q) - cap,
                        k >= 1,
                ;
            } else {
                assert(garbage_total(rest) == 0);
                assert((k - 1) * cap >= 0) by (nonlinear_arith)
                    requires
                        k >= 1,
                        cap > 0,
                ;
            }
        }
    } else {
        lemma_total_nonneg(q);
        assert(k * cap == 0) by (nonlinear_arith)
            requires
                k == 0,
        ;
    }
}

/// A second hold, with no drop in between, changes nothing and reports nothing.
pub proof fn lemma_second_hold_does_nothing(
    b0: Board,
    b1: Board,
    a1: Seq<ActionKind>,
    b2: Board,
    a2: Seq<ActionKind>,
)
    requires
        hold_post(b0, b1, a1),
        hold_post(b1, b2, a2),
    ensures
        b2 == b1,
        a2 == Seq::<ActionKind>::empty(),
{
}

/// The total height of the garbage actions among `acts`.
pub open spec fn garbage_height(acts: Seq<ActionKind>) -> int
    decreases acts.len(),
{
    if acts.len() == 0 {
        0
    } else {
        (match acts[0] {
            ActionKind::Garbage { height, .. } => height as int,
            _ => 0int,
        }) + garbage_height(acts.drop_first())
    }
}

/// Whether no line is cleared among `acts`.
pub open spec fn no_line_clear(acts: Seq<ActionKind>) -> bool {
    forall|i: int| 0 <= i < acts.len() ==> !(#[trigger] acts[i] is LineClear)
}

pub proof fn lemma_height_concat(a: Seq<ActionKind>, b: Seq<ActionKind>)
    ensures
        garbage_height(a + b) == garbage_height(a) + garbage_height(b),
    decreases a.len(),
{
    if a.len() > 0 {
        assert((a + b).drop_first() =~= a.drop_first() + b);
        lemma_height_concat(a.drop_first(), b);
    } else {
        assert(a + b =~= b);
    }
}

pub proof fn lemma_height_of_garbage(gs: Seq<Garbage>)
    ensures
        garbage_height(garbage_actions(gs)) == garbage_total(gs),
    decreases gs.len(),
{
    if gs.len() > 0 {
        assert(garbage_actions(gs).drop_first() =~= garbage_actions(gs.drop_first()));
        lemma_height_of_garbage(gs.drop_first());
    }
}

/// Line clears carry no garbage, and every action they hold is a line clear.
pub proof fn lemma_clears_are_clears(o: Seq<Seq<Cell>>)
    ensures
        garbage_height(clear_actions(o)) == 0,
        forall|i: int| 0 <= i < clear_actions(o).len() ==> (#[trigger] clear_actions(o)[i]) is LineClear,
    decreases o.len(),
{
    if o.len() > 0 {
        lemma_clears_are_clears(o.drop_last());
        let a = clear_actions(o.drop_last());
        let b = if full(o.last()) {
            seq![ActionKind::LineClear { row: kept_rows(o.drop_last()).len() as u8 }]
        } else {
            Seq::<ActionKind>::empty()
        };
        lemma_height_concat(a, b);
        assert(garbage_height(Seq::<ActionKind>::empty()) == 0);
        if b.len() > 0 {
            assert(b.drop_first() =~= Seq::<ActionKind>::empty());
            assert(garbage_height(b) == 0 + garbage_height(b.drop_first()));
        }
        assert forall|i: int| 0 <= i < clear_actions(o).len() implies (#[trigger] clear_actions(o)[i]) is LineClear by {
            if i < a.len() {
                assert(clear_actions(o)[i] == a[i]);
            } else {
                assert(clear_actions(o)[i] == b[i - a.len()]);
            }
        }
    }
}

proof fn lemma_one_cell_no_height(m: Seq<Seq<Cell>>, c: (int, int), k: Cell)
    ensures
        garbage_height(cell_action(m, c, k)) == 0,
{
    let a = cell_action(m, c, k);
    assert(garbage_height(Seq::<ActionKind>::empty()) == 0);
    if a.len() > 0 {
        assert(a.drop_first() =~= Seq::<ActionKind>::empty());
        assert(a[0] is Cell);
        assert(garbage_height(a) == 0 + garbage_height(a.drop_first()));
    }
}

proof fn lemma_cells_no_height(m: Seq<Seq<Cell>>, c: Seq<(int, int)>, k: Cell)
    ensures
        garbage_height(cell_actions(m, c, k)) == 0,
{
    lemma_one_cell_no_height(m, c[0], k);
    lemma_one_cell_no_height(m, c[1], k);
    lemma_one_cell_no_height(m, c[2], k);
    lemma_one_cell_no_height(m, c[3], k);
    lemma_height_concat(cell_action(m, c[0], k), cell_action(m, c[1], k));
    lemma_height_concat(cell_action(m, c[0], k) + cell_action(m, c[1], k), cell_action(m, c[2], k));
    lemma_height_concat(
        cell_action(m, c[0], k) + cell_action(m, c[1], k) + cell_action(m, c[2], k),
        cell_action(m, c[3], k),
    );
}

/// The garbage that one drop raises, as its actions report it, is at most the garbage cap; when
/// the drop clears no line it is exactly what the drop takes from the queue, and the rest stays
/// queued.
pub proof fn lemma_drop_garbage_within_cap(pre: Board, post: Board, acts: Seq<ActionKind>)
    requires
        drop_post(pre, post, acts),
    ensures
        garbage_height(acts) <= pre.settings.garbage_cap,
        no_line_clear(acts) ==> garbage_height(acts) == garbage_total(
            garbage_take(pre.queued_garbage@, pre.settings.garbage_cap as int).0,
        ),
        no_line_clear(acts) ==> post.queued_garbage@ == garbage_take(
            pre.queued_garbage@,
            pre.settings.garbage_cap as int,
        ).1,
        post.settings == pre.settings,
{
    reveal(drop_post);
    let kind = Cell::Tetromino(pre.active.variant);
    let cells = crate::tetromino::mino_cells(landing(pre));
    let placed = write_cells(pre.matrix@, cells, kind);
    let clears = clear_actions(placed);
    let taken = garbage_take(pre.queued_garbage@, pre.settings.garbage_cap as int);
    let head = cell_actions(pre.matrix@, cells, kind);
    let mid = if clears.len() == 0 {
        garbage_actions(taken.0)
    } else {
        clears
    };
    let tail = seq![ActionKind::Reposition { piece: post.active }];
    lemma_cells_no_height(pre.matrix@, cells, kind);
    lemma_clears_are_clears(placed);
    lemma_height_of_garbage(taken.0);
    lemma_garbage_conserved(pre.queued_garbage@, pre.settings.garbage_cap as int);
    lemma_total_nonneg(pre.queued_garbage@);
    lemma_height_concat(head, mid);
    lemma_height_concat(head + mid, tail);
    assert(tail.drop_first() =~= Seq::<ActionKind>::empty());
    assert(garbage_height(Seq::<ActionKind>::empty()) == 0);
    assert(garbage_height(tail) == 0 + garbage_height(tail.drop_first()));
    assert(acts == head + mid + tail);
    if no_line_clear(acts) && clears.len() > 0 {
        assert(acts[head.len() as int] == clears[0]);
        assert(!(acts[head.len() as int] is LineClear));
    }
}

/// The total garbage height reported by a run of drops.
pub open spec fn drops_height(acts: Seq<Seq<ActionKind>>) -> int
    decreases acts.len(),
{
    if acts.len() == 0 {
        0
    } else {
        garbage_height(acts[0]) + drops_height(acts.drop_first())
    }
}

/// A run of drops, `bs[k]` to `bs[k + 1]` with actions `acts[k]`, none of which clears a line.
pub open spec fn clean_drops(bs: Seq<Board>, acts: Seq<Seq<ActionKind>>) -> bool {
    &&& bs.len() == acts.len() + 1
    &&& forall|k: int|
        0 <= k < acts.len() ==> drop_post(#[trigger] bs[k], bs[k + 1], acts[k]) && no_line_clear(acts[k])
}

proof fn lemma_drops_follow_takes(bs: Seq<Board>, acts: Seq<Seq<ActionKind>>)
    requires
        clean_drops(bs, acts),
    ensures
        drops_height(acts) == applied_over(
            bs[0].queued_garbage@,
            bs[0].settings.garbage_cap as int,
            acts.len(),
        ),
        bs[acts.len() as int].queued_garbage@ == left_over(
            bs[0].queued_garbage@,
            bs[0].settings.garbage_cap as int,
            acts.len(),
        ),
    decreases acts.len(),
{
    if acts.len() > 0 {
        lemma_drop_garbage_within_cap(bs[0], bs[1], acts[0]);
        let bs1 = bs.drop_first();
        let acts1 = acts.drop_first();
        assert forall|k: int| 0 <= k < acts1.len() implies drop_post(#[trigger] bs1[k], bs1[k + 1], acts1[k])
            && no_line_clear(acts1[k]) by {
            assert(bs1[k] == bs[k + 1] && bs1[k + 1] == bs[k + 2] && acts1[k] == acts[k + 1]);
        }
        lemma_drops_follow_takes(bs1, acts1);
        assert(bs[acts.len() as int] == bs1[acts1.len() as int]);
    }
}

/// Over successive drops that clear no line, each drop reports at most the garbage cap, and
/// once the drops have had room for everything queued, the heights they report add up to
/// exactly what was queued and none is left: no garbage is lost or made up.
pub proof fn lemma_successive_drops_apply_all_garbage(bs: Seq<Board>, acts: Seq<Seq<ActionKind>>)
    requires
        clean_drops(bs, acts),
        bs[0].settings.garbage_cap >= 1,
        acts.len() * bs[0].settings.garbage_cap >= garbage_total(bs[0].queued_garbage@),
    ensures
        forall|k: int|
            0 <= k < acts.len() ==> garbage_height(#[trigger] acts[k]) <= bs[0].settings.garbage_cap,
        drops_height(acts) == garbage_total(bs[0].queued_garbage@),
        garbage_total(bs[acts.len() as int].queued_garbage@) == 0,
{
    let cap = bs[0].settings.garbage_cap as int;
    lemma_drops_follow_takes(bs, acts);
    lemma_garbage_drains(bs[0].queued_garbage@, cap, acts.len());
    lemma_settings_kept(bs, acts, 0);
    assert forall|k: int| 0 <= k < acts.len() implies garbage_height(#[trigger] acts[k]) <= bs[0].settings.garbage_cap by {
        lemma_settings_kept(bs, acts, k);
        lemma_drop_garbage_within_cap(bs[k], bs[k + 1], acts[k]);
    }
}

proof fn lemma_settings_kept(bs: Seq<Board>, acts: Seq<Seq<ActionKind>>, k: int)
    requires
        clean_drops(bs, acts),
        0 <= k <= acts.len(),
    ensures
        bs[k].settings == bs[0].settings,
    decreases k,
{
    if k > 0 {
        lemma_settings_kept(bs, acts, k - 1);
        lemma_drop_garbage_within_cap(bs[k - 1], bs[k], acts[k - 1]);
    }
}

} // verus!
