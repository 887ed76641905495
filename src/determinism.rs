use vstd::prelude::*;

use crate::action::{Action, ActionKind};
use crate::board::{
    ack_post, auto_shift_post, drop_post, garbage_post, gravity_post, hold_post, lock_post,
    moved_to, new_post, passive_post, refreshed, reposition_post, rotate_post, shift_post,
    stamped, tick_chain, tick_post, Board,
};
use crate::event::{EventData, GameType};
use crate::reconstruct::{
    command_post, concat, event_chain, event_post, first_full, initial_state, key_post,
    replay_post, State,
};
use crate::tetromino::Spin;

verus! {

/// Two boards that agree on everything the rules read.
pub open spec fn same(a: Board, b: Board) -> bool {
    &&& a.matrix@ == b.matrix@
    &&& a.matrix.width() == b.matrix.width()
    &&& a.queue.window@ == b.queue.window@
    &&& a.queue.base@ == b.queue.base@
    &&& a.queue.rng.state == b.queue.rng.state
    &&& a.active == b.active
    &&& a.gravity_state == b.gravity_state
    &&& a.settings == b.settings
    &&& a.lock_count == b.lock_count
    &&& a.lock_timer == b.lock_timer
    &&& a.last_drop == b.last_drop
    &&& a.last_drop_needs_update == b.last_drop_needs_update
    &&& a.hold == b.hold
    &&& a.acknowledged_garbage@ == b.acknowledged_garbage@
    &&& a.queued_garbage@ == b.queued_garbage@
}

pub proof fn lemma_drop_determined(p1: Board, q1: Board, a1: Seq<ActionKind>, p2: Board, q2: Board, a2: Seq<ActionKind>)
    requires
        same(p1, p2),
        drop_post(p1, q1, a1),
        drop_post(p2, q2, a2),
    ensures
        same(q1, q2),
        a1 == a2,
{
    reveal(drop_post);
    assert(p1.queue.topped_up() == p2.queue.topped_up());
}

pub proof fn lemma_reposition_determined(
    p1: Board,
    q1: Board,
    a1: Seq<ActionKind>,
    p2: Board,
    q2: Board,
    a2: Seq<ActionKind>,
    to: crate::tetromino::Mino,
)
    requires
        same(p1, p2),
        reposition_post(p1, q1, to, a1),
        reposition_post(p2, q2, to, a2),
    ensures
        same(q1, q2),
        a1 == a2,
{
    let m1 = moved_to(p1, to);
    let m2 = moved_to(p2, to);
    assert(same(m1, m2));
    if m1.lock_count <= 0 {
        let h = if to != p1.active {
            1int
        } else {
            0int
        };
        lemma_drop_determined(m1, q1, a1.skip(h), m2, q2, a2.skip(h));
        assert(a1 =~= a1.take(h) + a1.skip(h));
        assert(a2 =~= a2.take(h) + a2.skip(h));
    }
}

pub proof fn lemma_shift_determined(p1: Board, q1: Board, a1: Seq<ActionKind>, p2: Board, q2: Board, a2: Seq<ActionKind>, cells: int)
    requires
        same(p1, p2),
        shift_post(p1, q1, cells, a1),
        shift_post(p2, q2, cells, a2),
    ensures
        same(q1, q2),
        a1 == a2,
{
    let step = if cells < 0 {
        -1int
    } else {
        1int
    };
    let left = if cells < 0 {
        -cells
    } else {
        cells
    };
    let s = crate::board::slide(p1.matrix@, p1.active, step, left, true);
    lemma_reposition_determined(
        Board { lock_count: (p1.lock_count - s.1) as i32, ..p1 },
        q1,
        a1,
        Board { lock_count: (p2.lock_count - s.1) as i32, ..p2 },
        q2,
        a2,
        crate::board::at_column(p1.active, s.0),
    );
}

pub proof fn lemma_rotate_determined(p1: Board, q1: Board, a1: Seq<ActionKind>, p2: Board, q2: Board, a2: Seq<ActionKind>, spin: Spin)
    requires
        same(p1, p2),
        rotate_post(p1, q1, spin, a1),
        rotate_post(p2, q2, spin, a2),
    ensures
        same(q1, q2),
        a1 == a2,
{
    let rot = crate::tetromino::rotated(p1.active, spin);
    let c = crate::board::kick_candidates(p1.active.rotation_spec(spin));
    match crate::board::first_free(p1.matrix@, rot, c, 0) {
        None => {},
        Some(i) => {
            lemma_reposition_determined(
                Board { gravity_state: 0, ..p1 },
                q1,
                a1,
                Board { gravity_state: 0, ..p2 },
                q2,
                a2,
                crate::board::offset_by(rot, c[i]),
            );
        },
    }
}

pub proof fn lemma_hold_determined(p1: Board, q1: Board, a1: Seq<ActionKind>, p2: Board, q2: Board, a2: Seq<ActionKind>)
    requires
        same(p1, p2),
        hold_post(p1, q1, a1),
        hold_post(p2, q2, a2),
    ensures
        same(q1, q2),
        a1 == a2,
{
    assert(p1.queue.topped_up() == p2.queue.topped_up());
}

pub proof fn lemma_tick_determined(
    p1: Board,
    q1: Board,
    a1: Seq<ActionKind>,
    p2: Board,
    q2: Board,
    a2: Seq<ActionKind>,
    subframe: int,
    ks: State,
)
    requires
        same(p1, p2),
        tick_post(p1, q1, subframe, ks, a1),
        tick_post(p2, q2, subframe, ks, a2),
    ensures
        same(q1, q2),
        a1 == a2,
{
    reveal(tick_post);
    let (b1, c1, d1, x1, y1, z1) = choose|b1: Board, b2: Board, b3: Board, x: Seq<ActionKind>, y: Seq<ActionKind>, z: Seq<ActionKind>|
        {
            &&& garbage_post(refreshed(p1, subframe), b1, subframe / 10)
            &&& auto_shift_post(b1, b2, subframe, ks, x)
            &&& gravity_post(b2, b3, ks.soft_dropping, y)
            &&& lock_post(b3, q1, z)
            &&& a1 == x + y + z
        };
    let (b2, c2, d2, x2, y2, z2) = choose|b1: Board, b2: Board, b3: Board, x: Seq<ActionKind>, y: Seq<ActionKind>, z: Seq<ActionKind>|
        {
            &&& garbage_post(refreshed(p2, subframe), b1, subframe / 10)
            &&& auto_shift_post(b1, b2, subframe, ks, x)
            &&& gravity_post(b2, b3, ks.soft_dropping, y)
            &&& lock_post(b3, q2, z)
            &&& a2 == x + y + z
        };
    assert(same(refreshed(p1, subframe), refreshed(p2, subframe)));
    assert(same(b1, b2));
    assert(crate::board::shift_charge(b1, subframe, ks) == crate::board::shift_charge(b2, subframe, ks));
    match crate::board::shift_charge(b1, subframe, ks) {
        Some(size) => match ks.shifting {
            crate::reconstruct::ShiftDirection::Left => lemma_shift_determined(b1, c1, x1, b2, c2, x2, -size),
            crate::reconstruct::ShiftDirection::Right => lemma_shift_determined(b1, c1, x1, b2, c2, x2, size),
            crate::reconstruct::ShiftDirection::Neither => {},
        },
        None => {},
    }
    assert(same(c1, c2));
    let total = c1.gravity_state + crate::board::gravity_step(c1, ks.soft_dropping);
    assert(crate::board::gravity_step(c1, ks.soft_dropping) == crate::board::gravity_step(c2, ks.soft_dropping));
    if total >= crate::board::GRAVITY_UNIT {
        let lock = crate::board::drop_row(c1.matrix@, c1.active, c1.active.coord.1 as int);
        let fall = c1.active.coord.1 - total / (crate::board::GRAVITY_UNIT as int);
        let y = if fall >= lock {
            fall
        } else {
            lock
        };
        lemma_reposition_determined(
            Board { gravity_state: (total % (crate::board::GRAVITY_UNIT as int)) as u64, ..c1 },
            d1,
            y1,
            Board { gravity_state: (total % (crate::board::GRAVITY_UNIT as int)) as u64, ..c2 },
            d2,
            y2,
            crate::board::at_row(c1.active, y),
        );
    }
    assert(same(d1, d2));
    if crate::board::rests(d1.matrix@, d1.active) {
        let t = if d1.lock_timer < d1.settings.lock_delay {
            d1.lock_timer + 1
        } else {
            d1.lock_timer as int
        };
        if t >= d1.settings.lock_delay {
            lemma_drop_determined(
                Board { lock_timer: t as u64, ..d1 },
                q1,
                z1,
                Board { lock_timer: t as u64, ..d2 },
                q2,
                z2,
            );
        }
    }
}

pub proof fn lemma_passive_determined(
    p1: Board,
    q1: Board,
    a1: Seq<Action>,
    p2: Board,
    q2: Board,
    a2: Seq<Action>,
    from: int,
    to: int,
    ks: State,
)
    requires
        same(p1, p2),
        passive_post(p1, q1, from, to, ks, a1),
        passive_post(p2, q2, from, to, ks, a2),
    ensures
        same(q1, q2),
        a1 == a2,
{
    let (bs1, st1) = choose|bs: Seq<Board>, steps: Seq<Seq<ActionKind>>| tick_chain(p1, q1, from, to, ks, a1, bs, steps);
    let (bs2, st2) = choose|bs: Seq<Board>, steps: Seq<Seq<ActionKind>>| tick_chain(p2, q2, from, to, ks, a2, bs, steps);
    let n = if to > from {
        to - from
    } else {
        0
    };
    lemma_chain_prefix(bs1, st1, bs2, st2, from, ks, n, n);
    assert(st1 =~= st2);
}

proof fn lemma_chain_prefix(
    bs1: Seq<Board>,
    st1: Seq<Seq<ActionKind>>,
    bs2: Seq<Board>,
    st2: Seq<Seq<ActionKind>>,
    from: int,
    ks: State,
    n: int,
    k: int,
)
    requires
        0 <= k <= n,
        bs1.len() == n + 1,
        bs2.len() == n + 1,
        st1.len() == n,
        st2.len() == n,
        same(bs1[0], bs2[0]),
        forall|j: int| 0 <= j < n ==> tick_post(#[trigger] bs1[j], bs1[j + 1], from + j, ks, st1[j]),
        forall|j: int| 0 <= j < n ==> tick_post(#[trigger] bs2[j], bs2[j + 1], from + j, ks, st2[j]),
    ensures
        same(bs1[k], bs2[k]),
        forall|j: int| 0 <= j < k ==> st1[j] == st2[j],
    decreases k,
{
    if k > 0 {
        lemma_chain_prefix(bs1, st1, bs2, st2, from, ks, n, k - 1);
        lemma_tick_determined(bs1[k - 1], bs1[k], st1[k - 1], bs2[k - 1], bs2[k], st2[k - 1], from + k - 1, ks);
    }
}

pub proof fn lemma_command_determined(
    p1: Board,
    q1: Board,
    a1: Seq<ActionKind>,
    p2: Board,
    q2: Board,
    a2: Seq<ActionKind>,
    key: crate::event::Key,
)
    requires
        same(p1, p2),
        command_post(p1, q1, key, a1),
        command_post(p2, q2, key, a2),
    ensures
        same(q1, q2),
        a1 == a2,
{
    match key {
        crate::event::Key::Left => lemma_shift_determined(p1, q1, a1, p2, q2, a2, -1),
        crate::event::Key::Right => lemma_shift_determined(p1, q1, a1, p2, q2, a2, 1),
        crate::event::Key::SoftDrop => {},
        crate::event::Key::Clockwise => lemma_rotate_determined(p1, q1, a1, p2, q2, a2, Spin::CW),
        crate::event::Key::CounterClockwise => lemma_rotate_determined(p1, q1, a1, p2, q2, a2, Spin::CCW),
        crate::event::Key::Flip => lemma_rotate_determined(p1, q1, a1, p2, q2, a2, Spin::Flip),
        crate::event::Key::Hold => lemma_hold_determined(p1, q1, a1, p2, q2, a2),
        crate::event::Key::HardDrop => lemma_drop_determined(p1, q1, a1, p2, q2, a2),
    }
}

pub proof fn lemma_key_determined(
    s1: State,
    t1: State,
    p1: Board,
    q1: Board,
    a1: Seq<Action>,
    t2: State,
    p2: Board,
    q2: Board,
    a2: Seq<Action>,
    ev: crate::event::KeyEvent,
    down: bool,
    frame: int,
)
    requires
        same(p1, p2),
        key_post(s1, t1, p1, q1, ev, down, frame, a1),
        key_post(s1, t2, p2, q2, ev, down, frame, a2),
    ensures
        same(q1, q2),
        a1 == a2,
        t1 == t2,
{
    reveal(key_post);
    let cur = crate::reconstruct::event_subframe(ev, frame);
    let (m1, x1, c1) = choose|mid: Board, p: Seq<Action>, c: Seq<ActionKind>|
        #![trigger passive_post(p1, mid, s1.last_subframe as int, cur + 1, s1, p), crate::reconstruct::stamp(c, frame)]
        {
            &&& passive_post(p1, mid, s1.last_subframe as int, cur + 1, s1, p)
            &&& if down {
                command_post(mid, q1, ev.key, c)
            } else {
                q1 == mid && c == Seq::<ActionKind>::empty()
            }
            &&& a1 == p + crate::reconstruct::stamp(c, frame)
        };
    let (m2, x2, c2) = choose|mid: Board, p: Seq<Action>, c: Seq<ActionKind>|
        #![trigger passive_post(p2, mid, s1.last_subframe as int, cur + 1, s1, p), crate::reconstruct::stamp(c, frame)]
        {
            &&& passive_post(p2, mid, s1.last_subframe as int, cur + 1, s1, p)
            &&& if down {
                command_post(mid, q2, ev.key, c)
            } else {
                q2 == mid && c == Seq::<ActionKind>::empty()
            }
            &&& a2 == p + crate::reconstruct::stamp(c, frame)
        };
    lemma_passive_determined(p1, m1, x1, p2, m2, x2, s1.last_subframe as int, cur + 1, s1);
    if down {
        lemma_command_determined(m1, q1, c1, m2, q2, c2, ev.key);
    }
}

pub proof fn lemma_event_determined(
    s1: State,
    t1: State,
    p1: Board,
    q1: Board,
    a1: Seq<Action>,
    t2: State,
    p2: Board,
    q2: Board,
    a2: Seq<Action>,
    ev: crate::event::Event,
)
    requires
        same(p1, p2),
        event_post(s1, t1, p1, q1, ev, a1),
        event_post(s1, t2, p2, q2, ev, a2),
    ensures
        same(q1, q2),
        a1 == a2,
        t1 == t2,
{
    reveal(event_post);
    match ev.data {
        EventData::KeyDown { key_event } => lemma_key_determined(s1, t1, p1, q1, a1, t2, p2, q2, a2, key_event, true, ev.frame as int),
        EventData::KeyUp { key_event } => lemma_key_determined(s1, t1, p1, q1, a1, t2, p2, q2, a2, key_event, false, ev.frame as int),
        _ => {},
    }
}

proof fn lemma_event_chain_prefix(
    evs: Seq<crate::event::Event>,
    ss1: Seq<State>,
    bs1: Seq<Board>,
    st1: Seq<Seq<Action>>,
    ss2: Seq<State>,
    bs2: Seq<Board>,
    st2: Seq<Seq<Action>>,
    k: int,
)
    requires
        event_chain(evs, ss1, bs1, st1),
        event_chain(evs, ss2, bs2, st2),
        ss1[0] == ss2[0],
        same(bs1[0], bs2[0]),
        0 <= k <= evs.len(),
    ensures
        same(bs1[k], bs2[k]),
        ss1[k] == ss2[k],
        forall|j: int| 0 <= j < k ==> st1[j] == st2[j],
    decreases k,
{
    if k > 0 {
        lemma_event_chain_prefix(evs, ss1, bs1, st1, ss2, bs2, st2, k - 1);
        lemma_event_determined(ss1[k - 1], ss1[k], bs1[k - 1], bs1[k], st1[k - 1], ss2[k], bs2[k - 1], bs2[k], st2[k - 1], evs[k - 1]);
    }
}

/// Replaying the same events twice gives the same action stream.
pub proof fn lemma_replay_is_deterministic(game_type: GameType, evs: Seq<crate::event::Event>, a1: Seq<Action>, a2: Seq<Action>)
    requires
        replay_post(game_type, evs, a1),
        replay_post(game_type, evs, a2),
    ensures
        a1 == a2,
{
    crate::reconstruct::lemma_first_full_is_full(evs, 0);
    let f = first_full(evs, 0)->0;
    if let EventData::Full { data } = evs[f].data {
        let (b1, x1, ss1, bs1, st1) = choose|b0: Board, a0: Seq<Action>, ss: Seq<State>, bs: Seq<Board>, steps: Seq<Seq<Action>>|
            {
                &&& new_post(data.seed, game_type, data.settings, data.board@, b0, a0)
                &&& event_chain(evs.skip(f + 1), ss, bs, steps)
                &&& ss[0] == initial_state()
                &&& bs[0] == b0
                &&& a1 == a0 + concat(steps)
            };
        let (b2, x2, ss2, bs2, st2) = choose|b0: Board, a0: Seq<Action>, ss: Seq<State>, bs: Seq<Board>, steps: Seq<Seq<Action>>|
            {
                &&& new_post(data.seed, game_type, data.settings, data.board@, b0, a0)
                &&& event_chain(evs.skip(f + 1), ss, bs, steps)
                &&& ss[0] == initial_state()
                &&& bs[0] == b0
                &&& a2 == a0 + concat(steps)
            };
        assert(b1.acknowledged_garbage@ =~= b2.acknowledged_garbage@);
        assert(b1.queued_garbage@ =~= b2.queued_garbage@);
        assert(same(b1, b2));
        let n = evs.skip(f + 1).len() as int;
        lemma_event_chain_prefix(evs.skip(f + 1), ss1, bs1, st1, ss2, bs2, st2, n);
        assert(st1 =~= st2);
    }
}

} // verus!
