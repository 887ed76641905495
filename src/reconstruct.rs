use vstd::prelude::*;

use crate::action::{Action, ActionKind};
use crate::board::{
    ack_post, drop_post, hold_post, new_error, new_post, passive_post, rotate_post, shift_post, Board,
};
use crate::event::{Event, EventData, GameType, Key, KeyEvent};
use crate::tetromino::Spin;

verus! {

/// Why a replay could not be reconstructed.
#[derive(Clone, Copy, Debug, PartialEq, Eq, Structural)]
pub enum ReplayError {
    /// No event gives the state the game starts from.
    MissingFullState,
    /// The initial matrix names a cell that is neither a piece nor garbage.
    UnknownCell,
    /// The rows of the initial matrix differ in length.
    IrregularMatrix,
    /// The initial matrix has more rows or columns than a board can have.
    MatrixTooLarge,
    /// The piece seed is a multiple of the generator's modulus, which would stall it.
    UnusableSeed,
    /// The game type deals pieces in an order that is not known.
    UnsupportedGameType,
    /// An event's frame is too large for its subframes to be counted.
    FrameOutOfRange,
}

impl ReplayError {
    /// A sentence that describes the error.
    pub fn message(&self) -> (r: String)
        ensures
            *self == ReplayError::MissingFullState ==> r@ == "could not find full data to extract initial game state from"@,
            *self == ReplayError::UnknownCell ==> r@ == "the initial board names an unknown cell"@,
            *self == ReplayError::IrregularMatrix ==> r@ == "the rows of the initial board differ in length"@,
            *self == ReplayError::MatrixTooLarge ==> r@ == "the initial board is too large"@,
            *self == ReplayError::UnusableSeed ==> r@ == "the piece seed is a multiple of the generator modulus"@,
            *self == ReplayError::UnsupportedGameType ==> r@ == "it is not yet known what queue satisfies this game type"@,
            *self == ReplayError::FrameOutOfRange ==> r@ == "an event frame is too large"@,
    {
        match self {
            ReplayError::MissingFullState => "could not find full data to extract initial game state from".to_owned(),
            ReplayError::UnknownCell => "the initial board names an unknown cell".to_owned(),
            ReplayError::IrregularMatrix => "the rows of the initial board differ in length".to_owned(),
            ReplayError::MatrixTooLarge => "the initial board is too large".to_owned(),
            ReplayError::UnusableSeed => "the piece seed is a multiple of the generator modulus".to_owned(),
            ReplayError::UnsupportedGameType => "it is not yet known what queue satisfies this game type".to_owned(),
            ReplayError::FrameOutOfRange => "an event frame is too large".to_owned(),
        }
    }
}

/// The direction in which a shift key is held.
#[derive(Clone, Copy, Debug, PartialEq, Eq, Structural)]
pub enum ShiftDirection {
    Neither,
    Left,
    Right,
}

/// The controller's state: whether soft drop is held, when the held shift key went down, the
/// first subframe not yet processed, and which shift key is held.
#[derive(Clone, Copy, Debug, PartialEq, Eq, Structural)]
pub struct State {
    pub soft_dropping: bool,
    pub shift_began: u32,
    pub last_subframe: u32,
    pub shifting: ShiftDirection,
}

impl Default for State {
    fn default() -> (r: State)
        ensures
            r == (State { soft_dropping: false, shift_began: 0, last_subframe: 0, shifting: ShiftDirection::Neither }),
    {
        State { soft_dropping: false, shift_began: 0, last_subframe: 0, shifting: ShiftDirection::Neither }
    }
}

/// What the board command bound to a pressed key does. Soft drop only changes the
/// controller's state.
pub open spec fn command_post(pre: Board, post: Board, key: Key, acts: Seq<ActionKind>) -> bool {
    match key {
        Key::Left => shift_post(pre, post, -1, acts),
        Key::Right => shift_post(pre, post, 1, acts),
        Key::SoftDrop => post == pre && acts == Seq::<ActionKind>::empty(),
        Key::Clockwise => rotate_post(pre, post, Spin::CW, acts),
        Key::CounterClockwise => rotate_post(pre, post, Spin::CCW, acts),
        Key::Flip => rotate_post(pre, post, Spin::Flip, acts),
        Key::Hold => hold_post(pre, post, acts),
        Key::HardDrop => drop_post(pre, post, acts),
    }
}

/// The controller's state after a key goes down or up on subframe `cur`; the passive effects
/// have then run through `cur`, so the next subframe to process is `cur + 1`.
pub open spec fn key_state_post(ks: State, key: Key, down: bool, cur: int) -> State {
    let s = if down {
        match key {
            Key::Left => State { shift_began: cur as u32, shifting: ShiftDirection::Left, ..ks },
            Key::Right => State { shift_began: cur as u32, shifting: ShiftDirection::Right, ..ks },
            Key::SoftDrop => State { soft_dropping: true, ..ks },
            _ => ks,
        }
    } else {
        match key {
            Key::Left | Key::Right => State { shifting: ShiftDirection::Neither, ..ks },
            Key::SoftDrop => State { soft_dropping: false, ..ks },
            _ => ks,
        }
    };
    State { last_subframe: (cur + 1) as u32, ..s }
}

pub open spec fn stamp(acts: Seq<ActionKind>, frame: int) -> Seq<Action> {
    acts.map_values(|a: ActionKind| Action { kind: a, frame: frame as u32 })
}

/// The subframe of a key event on `frame`.
pub open spec fn event_subframe(ev: KeyEvent, frame: int) -> int {
    frame * 10 + ev.subframe
}

/// What a key event does: the passive effects run up to and including its subframe, then a
/// pressed key's command runs; its actions are stamped with the event's frame.
#[verifier::opaque]
pub open spec fn key_post(
    ks: State,
    ks2: State,
    pre: Board,
    post: Board,
    ev: KeyEvent,
    down: bool,
    frame: int,
    acts: Seq<Action>,
) -> bool {
    let cur = event_subframe(ev, frame);
    &&& ks2 == key_state_post(ks, ev.key, down, cur)
    &&& exists|mid: Board, p: Seq<Action>, c: Seq<ActionKind>|
        #![trigger passive_post(pre, mid, ks.last_subframe as int, cur + 1, ks, p), stamp(c, frame)]
        {
            &&& passive_post(pre, mid, ks.last_subframe as int, cur + 1, ks, p)
            &&& if down {
                command_post(mid, post, ev.key, c)
            } else {
                post == mid && c == Seq::<ActionKind>::empty()
            }
            &&& acts == p + stamp(c, frame)
        }
}

/// Whether an event's subframes can be counted.
pub open spec fn frame_ok(ev: Event) -> bool {
    match ev.data {
        EventData::KeyDown { key_event } => event_subframe(key_event, ev.frame as int) + 1 <= u32::MAX,
        EventData::KeyUp { key_event } => event_subframe(key_event, ev.frame as int) + 1 <= u32::MAX,
        _ => true,
    }
}

/// What one event after the start of the game does.
#[verifier::opaque]
pub open spec fn event_post(
    ks: State,
    ks2: State,
    pre: Board,
    post: Board,
    ev: Event,
    acts: Seq<Action>,
) -> bool {
    match ev.data {
        EventData::KeyDown { key_event } => key_post(ks, ks2, pre, post, key_event, true, ev.frame as int, acts),
        EventData::KeyUp { key_event } => key_post(ks, ks2, pre, post, key_event, false, ev.frame as int, acts),
        EventData::InGameEvent { event } => ks2 == ks && ack_post(pre, post, event, ev.frame as int)
            && acts == Seq::<Action>::empty(),
        _ => ks2 == ks && post == pre && acts == Seq::<Action>::empty(),
    }
}

/// The events `evs`, in order, take the controller from (`ks`, `pre`) with stream `acts0` to
/// stream `acts`: `ss` and `bs` hold the states and boards between events.
pub open spec fn event_chain(
    evs: Seq<Event>,
    ss: Seq<State>,
    bs: Seq<Board>,
    steps: Seq<Seq<Action>>,
) -> bool {
    &&& ss.len() == evs.len() + 1
    &&& bs.len() == evs.len() + 1
    &&& steps.len() == evs.len()
    &&& forall|k: int|
        0 <= k < evs.len() ==> event_post(#[trigger] ss[k], ss[k + 1], bs[k], bs[k + 1], evs[k], steps[k])
}

pub open spec fn concat(steps: Seq<Seq<Action>>) -> Seq<Action>
    decreases steps.len(),
{
    if steps.len() == 0 {
        Seq::<Action>::empty()
    } else {
        concat(steps.drop_last()) + steps.last()
    }
}

/// The index of the first event that gives the game's starting state, from index `i` on.
pub open spec fn first_full(evs: Seq<Event>, i: int) -> Option<int>
    decreases evs.len() - i,
{
    if i < 0 || i >= evs.len() {
        None
    } else if evs[i].data is Full {
        Some(i)
    } else {
        first_full(evs, i + 1)
    }
}

/// The controller state at the start of a game.
pub open spec fn initial_state() -> State {
    State { soft_dropping: false, shift_began: 0, last_subframe: 0, shifting: ShiftDirection::Neither }
}

/// Whether some event after index `f` has a frame too large for its subframes to be counted.
pub open spec fn late_frame_overflow(evs: Seq<Event>, f: int) -> bool {
    exists|k: int| f < k < evs.len() && !frame_ok(#[trigger] evs[k])
}

/// The action stream of a replay: the game starts from its first full-state event, and every
/// later event then acts in order on the board and the controller state.
pub open spec fn replay_post(game_type: GameType, evs: Seq<Event>, acts: Seq<Action>) -> bool {
    match first_full(evs, 0) {
        Some(f) => match evs[f].data {
            EventData::Full { data } => exists|b0: Board, a0: Seq<Action>, ss: Seq<State>, bs: Seq<Board>, steps: Seq<Seq<Action>>|
                #![trigger new_post(data.seed, game_type, data.settings, data.board@, b0, a0), event_chain(evs.skip(f + 1), ss, bs, steps)]
                {
                    &&& new_post(data.seed, game_type, data.settings, data.board@, b0, a0)
                    &&& event_chain(evs.skip(f + 1), ss, bs, steps)
                    &&& ss[0] == initial_state()
                    &&& bs[0] == b0
                    &&& acts == a0 + concat(steps)
                },
            _ => false,
        },
        None => false,
    }
}

/// The controller: the board, the controller state, and the action stream so far.
pub struct Controller {
    pub board: Board,
    pub state: State,
    pub stream: Vec<Action>,
}

impl State {
    /// Runs the passive effects up to and including the key event's subframe, then sends the
    /// command of a pressed key to the board and records the key's new state. Each subframe is
    /// processed once: the next event starts from the subframe after this one.
    pub fn handle_keys(
        &mut self,
        board: &mut Board,
        stream: &mut Vec<Action>,
        event: &KeyEvent,
        down: bool,
        frame: u32,
    )
        requires
            old(board).wf(),
            event_subframe(*event, frame as int) + 1 <= u32::MAX,
        ensures
            final(board).wf(),
            final(board).settings == old(board).settings,
            final(stream)@.len() >= old(stream)@.len(),
            final(stream)@.take(old(stream)@.len() as int) == old(stream)@,
            key_post(
                *old(self),
                *final(self),
                *old(board),
                *final(board),
                *event,
                down,
                frame as int,
                final(stream)@.skip(old(stream)@.len() as int),
            ),
    {
        let current_subframe: u32 = frame * 10 + event.subframe;
        let ghost s0 = stream@;
        let mut passive = board.passive_effects(current_subframe + 1, self);
        let ghost mid = *board;
        let ghost p = passive@;
        stream.append(&mut passive);
        let cmd: Vec<ActionKind> = if down {
            match event.key {
                Key::Left => {
                    self.shift_began = current_subframe;
                    let r = board.shift(-1);
                    self.shifting = ShiftDirection::Left;
                    r
                },
                Key::Right => {
                    self.shift_began = current_subframe;
                    let r = board.shift(1);
                    self.shifting = ShiftDirection::Right;
                    r
                },
                Key::SoftDrop => {
                    self.soft_dropping = true;
                    Vec::new()
                },
                Key::Clockwise => board.rotate_active(Spin::CW),
                Key::CounterClockwise => board.rotate_active(Spin::CCW),
                Key::Flip => board.rotate_active(Spin::Flip),
                Key::Hold => board.hold(),
                Key::HardDrop => board.drop_active(),
            }
        } else {
            match event.key {
                Key::Left | Key::Right => self.shifting = ShiftDirection::Neither,
                Key::SoftDrop => self.soft_dropping = false,
                _ => {},
            }
            Vec::new()
        };
        let ghost c = cmd@;
        let ghost s1 = stream@;
        let mut i: usize = 0;
        while i < cmd.len()
            invariant
                i <= cmd@.len(),
                c == cmd@,
                stream@ == s1 + stamp(c.take(i as int), frame as int),
            decreases cmd@.len() - i,
        {
            stream.push(cmd[i].attach_frame(frame));
            i = i + 1;
            proof {
                assert(stream@ =~= s1 + stamp(c.take(i as int), frame as int));
            }
        }
        self.last_subframe = current_subframe + 1;
        proof {
            assert(c.take(c.len() as int) =~= c);
            assert(stream@.take(s0.len() as int) =~= s0);
            assert(stream@.skip(s0.len() as int) =~= p + stamp(c, frame as int));
            assert(passive_post(*old(board), mid, old(self).last_subframe as int, event_subframe(*event, frame as int) + 1, *old(self), p));
            reveal(key_post);
            let cur = event_subframe(*event, frame as int);
            assert(current_subframe as int == cur);
            assert(*self == key_state_post(*old(self), event.key, down, cur));
            if down {
                assert(command_post(mid, *board, event.key, c));
            } else {
                assert(*board == mid);
                assert(c =~= Seq::<ActionKind>::empty());
            }
            assert(stream@.skip(s0.len() as int) == p + stamp(c, frame as int));
            assert(passive_post(*old(board), mid, old(self).last_subframe as int, cur + 1, *old(self), p));
        }
    }
}

impl Controller {
    /// Starts the game from the first event that gives its starting state; returns the
    /// controller and the index of that event.
    pub fn read_game(events: &[Event], game_type: GameType) -> (r: Result<(Controller, usize), ReplayError>)
        ensures
            first_full(events@, 0) is None ==> r == Err::<(Controller, usize), ReplayError>(ReplayError::MissingFullState),
            first_full(events@, 0) matches Some(f) ==> match events@[f].data {
                EventData::Full { data } => match r {
                    Ok((c, i)) => {
                        &&& i == f
                        &&& new_error(data.seed, game_type, data.board@) is None
                        &&& c.board.wf()
                        &&& new_post(data.seed, game_type, data.settings, data.board@, c.board, c.stream@)
                        &&& c.state == (State { soft_dropping: false, shift_began: 0, last_subframe: 0, shifting: ShiftDirection::Neither })
                    },
                    Err(e) => new_error(data.seed, game_type, data.board@) == Some(e),
                },
                _ => false,
            },
    {
        let mut i: usize = 0;
        while i < events.len()
            invariant
                i <= events@.len(),
                first_full(events@, 0) == first_full(events@, i as int),
            decreases events@.len() - i,
        {
            match &events[i].data {
                EventData::Full { data } => {
                    proof {
                        assert(first_full(events@, i as int) == Some(i as int));
                    }
                    let (board, stream) = match Board::new(data.seed, game_type, data.settings, data.board.as_slice()) {
                        Ok(v) => v,
                        Err(e) => return Err(e),
                    };
                    let state = State { soft_dropping: false, shift_began: 0, last_subframe: 0, shifting: ShiftDirection::Neither };
                    return Ok((Controller { board, state, stream }, i));
                },
                _ => {},
            }
            i = i + 1;
        }
        Err(ReplayError::MissingFullState)
    }
}

impl Controller {
    /// Plays every event after index `start` in order and returns the whole action stream.
    pub fn stream(self, events: &[Event], start: usize) -> (r: Result<Vec<Action>, ReplayError>)
        requires
            self.board.wf(),
            start < events@.len(),
        ensures
            late_frame_overflow(events@, start as int) <==> r is Err,
            r is Err ==> r == Err::<Vec<Action>, ReplayError>(ReplayError::FrameOutOfRange),
            r matches Ok(acts) ==> exists|ss: Seq<State>, bs: Seq<Board>, steps: Seq<Seq<Action>>|
                #[trigger] event_chain(events@.skip(start + 1), ss, bs, steps) && ss[0] == self.state
                    && bs[0] == self.board && acts@ == self.stream@ + concat(steps),
    {
        let mut c = self;
        let ghost evs = events@.skip(start + 1);
        let ghost s0 = c.stream@;
        let ghost mut ss: Seq<State> = seq![c.state];
        let ghost mut bs: Seq<Board> = seq![c.board];
        let ghost mut steps: Seq<Seq<Action>> = Seq::empty();
        let n = events.len();
        let mut i: usize = start + 1;
        while i < n
            invariant
                n == events@.len(),
                start < i <= events@.len(),
                evs == events@.skip(start + 1),
                c.board.wf(),
                ss.len() == i - start,
                bs.len() == i - start,
                steps.len() == i - start - 1,
                ss[0] == self.state,
                bs[0] == self.board,
                ss[i - start - 1] == c.state,
                bs[i - start - 1] == c.board,
                forall|k: int|
                    0 <= k < i - start - 1 ==> event_post(#[trigger] ss[k], ss[k + 1], bs[k], bs[k + 1], evs[k], steps[k]),
                forall|k: int| start < k < i ==> frame_ok(#[trigger] events@[k]),
                c.stream@ == s0 + concat(steps),
            decreases events@.len() - i,
        {
            let ev = &events[i];
            let ghost k = i - start - 1;
            let ghost before = c.stream@;
            let ghost st0 = c.state;
            let ghost b0 = c.board;
            proof {
                assert(evs[k] == events@[i as int]);
            }
            match &ev.data {
                EventData::KeyDown { key_event } => {
                    if ev.frame as u64 * 10 + key_event.subframe as u64 + 1 > u32::MAX as u64 {
                        proof {
                            assert(!frame_ok(events@[i as int]));
                        }
                        return Err(ReplayError::FrameOutOfRange);
                    }
                    c.state.handle_keys(&mut c.board, &mut c.stream, key_event, true, ev.frame);
                },
                EventData::KeyUp { key_event } => {
                    if ev.frame as u64 * 10 + key_event.subframe as u64 + 1 > u32::MAX as u64 {
                        proof {
                            assert(!frame_ok(events@[i as int]));
                        }
                        return Err(ReplayError::FrameOutOfRange);
                    }
                    c.state.handle_keys(&mut c.board, &mut c.stream, key_event, false, ev.frame);
                },
                EventData::InGameEvent { event } => {
                    c.board.acknowledge_garbage(event, ev.frame);
                },
                _ => {},
            }
            proof {
                reveal(event_post);
                let step = c.stream@.skip(before.len() as int);
                assert(c.stream@ =~= before + step);
                match evs[k].data {
                    EventData::KeyDown { .. } => {},
                    EventData::KeyUp { .. } => {},
                    _ => {
                        assert(step =~= Seq::<Action>::empty());
                    },
                }
                assert(event_post(st0, c.state, b0, c.board, evs[k], step));
                let old_steps = steps;
                let old_ss = ss;
                let old_bs = bs;
                steps = steps.push(step);
                ss = ss.push(c.state);
                bs = bs.push(c.board);
                assert(steps.drop_last() =~= old_steps);
                assert(forall|j: int| 0 <= j <= k ==> #[trigger] ss[j] == old_ss[j] && bs[j] == old_bs[j]);
                assert(forall|j: int| 0 <= j < k ==> #[trigger] steps[j] == old_steps[j]);
            }
            i = i + 1;
        }
        proof {
            assert(evs.len() == events@.len() - start - 1);
            assert(event_chain(evs, ss, bs, steps));
        }
        Ok(c.stream)
    }
}

/// Reconstructs the action stream of a replay: the game starts from the first event that
/// gives its starting state, and every later event is played in order.
pub fn reconstruct(game_type: GameType, event_stream: &[Event]) -> (r: Result<Vec<Action>, ReplayError>)
    ensures
        first_full(event_stream@, 0) is None ==> r == Err::<Vec<Action>, ReplayError>(ReplayError::MissingFullState),
        first_full(event_stream@, 0) matches Some(f) ==> match event_stream@[f].data {
            EventData::Full { data } => match new_error(data.seed, game_type, data.board@) {
                Some(e) => r == Err::<Vec<Action>, ReplayError>(e),
                None => {
                    &&& late_frame_overflow(event_stream@, f) ==> r == Err::<Vec<Action>, ReplayError>(ReplayError::FrameOutOfRange)
                    &&& !late_frame_overflow(event_stream@, f) ==> r is Ok
                },
            },
            _ => false,
        },
        r matches Ok(acts) ==> replay_post(game_type, event_stream@, acts@),
{
    proof {
        lemma_first_full_is_full(event_stream@, 0);
    }
    let (controller, start) = match Controller::read_game(event_stream, game_type) {
        Ok(v) => v,
        Err(e) => return Err(e),
    };
    let ghost b0 = controller.board;
    let ghost a0 = controller.stream@;
    let r = controller.stream(event_stream, start);
    proof {
        if let Ok(acts) = &r {
            let f = start as int;
            if let EventData::Full { data } = event_stream@[f].data {
                let (ss, bs, steps) = choose|ss: Seq<State>, bs: Seq<Board>, steps: Seq<Seq<Action>>|
                    #[trigger] event_chain(event_stream@.skip(start + 1), ss, bs, steps) && ss[0] == initial_state()
                        && bs[0] == b0 && acts@ == a0 + concat(steps);
                assert(new_post(data.seed, game_type, data.settings, data.board@, b0, a0));
                assert(event_chain(event_stream@.skip(f + 1), ss, bs, steps));
            }
        }
    }
    r
}

/// The first full-state event found is one.
pub proof fn lemma_first_full_is_full(evs: Seq<Event>, i: int)
    ensures
        first_full(evs, i) matches Some(f) ==> i <= f < evs.len() && evs[f].data is Full,
    decreases evs.len() - i,
{
    if 0 <= i < evs.len() && !(evs[i].data is Full) {
        lemma_first_full_is_full(evs, i + 1);
    }
}

} // verus!
