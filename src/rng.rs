use vstd::prelude::*;

use crate::event::GameType;
use crate::tetromino::MinoVariant;

use std::collections::VecDeque;

verus! {

/// The modulus of the generator, the prime 2^31 - 1.
pub const MODULUS: u64 = 2147483647;

/// The multiplier of the generator.
pub const MULTIPLIER: u64 = 16807;

/// One step of the multiplicative congruential generator.
pub open spec fn lcg(s: int) -> int {
    (MULTIPLIER * s) % (MODULUS as int)
}

/// The index, at most `i`, that a draw `n` in [1, MODULUS) picks: the floor of
/// `(n - 1) / (MODULUS - 1) * (i + 1)`, computed exactly.
pub open spec fn pick(n: int, i: int) -> int {
    ((n - 1) * (i + 1)) / (MODULUS - 1) as int
}

pub open spec fn swapped<T>(s: Seq<T>, a: int, b: int) -> Seq<T> {
    s.update(a, s[b]).update(b, s[a])
}

/// The result of the in-place shuffle over indices `i` down to 1, and the generator state after
/// it: each index swaps with a drawn index at or below it; index 0 is never chosen as `i`.
pub open spec fn shuffle_down<T>(s: Seq<T>, state: int, i: int) -> (Seq<T>, int)
    decreases i,
{
    if i < 1 {
        (s, state)
    } else {
        let n = lcg(state);
        shuffle_down(swapped(s, i, pick(n, i)), n, i - 1)
    }
}

/// The shuffle of a whole sequence.
pub open spec fn shuffled<T>(s: Seq<T>, state: int) -> (Seq<T>, int) {
    shuffle_down(s, state, s.len() - 1)
}

/// A state that the generator can hold: it never reaches 0 from one of these.
pub open spec fn live_state(s: int) -> bool {
    1 <= s < MODULUS
}

/// The seeds whose state is live.
pub open spec fn valid_seed(seed: u64) -> bool {
    seed % MODULUS != 0
}

pub proof fn lemma_lcg_live(s: int)
    requires
        live_state(s),
    ensures
        live_state(lcg(s)),
{
    // 16807 * s is not a multiple of the prime modulus, as neither factor is
    assert(MULTIPLIER * s > 0) by (nonlinear_arith)
        requires
            s >= 1,
    ;
    lemma_not_multiple(s);
}

proof fn lemma_not_multiple(s: int)
    requires
        1 <= s < MODULUS,
    ensures
        (MULTIPLIER * s) % (MODULUS as int) != 0,
{
    if (MULTIPLIER * s) % (MODULUS as int) == 0 {
        lemma_multiple_is_impossible(s);
    }
}

proof fn lemma_multiple_is_impossible(s: int)
    requires
        1 <= s < MODULUS,
        (MULTIPLIER * s) % (MODULUS as int) == 0,
    ensures
        s % (MODULUS as int) == 0,
{
    // 16807 has the inverse 1407677000 modulo 2^31 - 1
    let q = (MULTIPLIER * s) / (MODULUS as int);
    assert(MULTIPLIER * s == q * (MODULUS as int));
    assert(1407677000 * 16807 == 11017 * (MODULUS as int) + 1);
    assert(s * (1407677000 * 16807) == 1407677000 * (MULTIPLIER * s)) by (nonlinear_arith);
    assert(s == 1407677000 * q * (MODULUS as int) - s * 11017 * (MODULUS as int)) by (nonlinear_arith)
        requires
            MULTIPLIER * s == q * (MODULUS as int),
            1407677000 * 16807 == 11017 * (MODULUS as int) + 1,
            s * (1407677000 * 16807) == 1407677000 * (MULTIPLIER * s),
    ;
    let k = 1407677000 * q - s * 11017;
    assert(s == k * (MODULUS as int)) by (nonlinear_arith)
        requires
            s == 1407677000 * q * (MODULUS as int) - s * 11017 * (MODULUS as int),
            k == 1407677000 * q - s * 11017,
    ;
    assert(s % (MODULUS as int) == 0) by (nonlinear_arith)
        requires
            s == k * (MODULUS as int),
    ;
}

pub proof fn lemma_pick_bounds(n: int, i: int)
    requires
        live_state(n),
        i >= 0,
    ensures
        0 <= pick(n, i) <= i,
{
    let d = (MODULUS - 1) as int;
    assert(0 <= (n - 1) * (i + 1)) by (nonlinear_arith)
        requires
            n >= 1,
            i >= 0,
    ;
    assert((n - 1) * (i + 1) < d * (i + 1)) by (nonlinear_arith)
        requires
            n - 1 < d,
            i >= 0,
    ;
    assert(((n - 1) * (i + 1)) / d < i + 1) by (nonlinear_arith)
        requires
            (n - 1) * (i + 1) < d * (i + 1),
            d > 0,
    ;
}

pub proof fn lemma_shuffle_down_len<T>(s: Seq<T>, state: int, i: int)
    requires
        live_state(state),
        i < s.len(),
    ensures
        shuffle_down(s, state, i).0.len() == s.len(),
        live_state(shuffle_down(s, state, i).1),
    decreases i,
{
    if i >= 1 {
        let n = lcg(state);
        lemma_lcg_live(state);
        lemma_pick_bounds(n, i);
        lemma_shuffle_down_len(swapped(s, i, pick(n, i)), n, i - 1);
    }
}

/// The generator that deals the pieces.
pub struct Rng {
    pub state: u64,
}

impl Rng {
    /// A generator whose state is the seed reduced modulo the modulus.
    pub fn seeded(seed: u64) -> (r: Rng)
        ensures
            r.state == seed % MODULUS,
            live_state(r.state as int) <==> valid_seed(seed),
    {
        Rng { state: seed % MODULUS }
    }

    /// Advances the generator and returns its new state.
    pub fn next(&mut self) -> (r: u64)
        requires
            old(self).state < MODULUS,
        ensures
            final(self).state as int == lcg(old(self).state as int),
            r == final(self).state,
            r < MODULUS,
            live_state(old(self).state as int) ==> live_state(r as int),
    {
        proof {
            if live_state(self.state as int) {
                lemma_lcg_live(self.state as int);
            }
        }
        self.state = MULTIPLIER * self.state % MODULUS;
        self.state
    }

    /// Shuffles `slice` in place: from the last index down to index 1, each index swaps with an
    /// index drawn at or below it.
    pub fn shuffle_slice<T: Copy>(&mut self, slice: &mut [T])
        requires
            live_state(old(self).state as int),
        ensures
            (final(slice)@, final(self).state as int) == shuffled(old(slice)@, old(self).state as int),
            live_state(final(self).state as int),
    {
        let len = slice.len();
        if len < 2 {
            return ;
        }
        let mut i: usize = len - 1;
        while i >= 1
            invariant
                1 <= len == slice@.len(),
                i < len,
                live_state(self.state as int),
                shuffled(old(slice)@, old(self).state as int) == shuffle_down(
                    slice@,
                    self.state as int,
                    i as int,
                ),
            decreases i,
        {
            let ghost prev = slice@;
            let n = self.next();
            proof {
                lemma_pick_bounds(n as int, i as int);
                assert((n - 1) * (i as int + 1) <= (MODULUS - 1) * (len as int)) by (nonlinear_arith)
                    requires
                        n <= MODULUS - 1,
                        n >= 1,
                        i < len,
                ;
            }
            let j_wide: u128 = ((n - 1) as u128 * (i as u128 + 1)) / (MODULUS - 1) as u128;
            let j = j_wide as usize;
            let a = slice[i];
            let b = slice[j];
            slice[i] = b;
            slice[j] = a;
            assert(j == pick(n as int, i as int));
            assert(slice@ =~= swapped(prev, i as int, j as int));
            i = i - 1;
        }
    }

    /// Returns `arr` shuffled as [Rng::shuffle_slice] shuffles.
    pub fn shuffle_array<T: Copy, const N: usize>(&mut self, arr: [T; N]) -> (r: [T; N])
        requires
            live_state(old(self).state as int),
        ensures
            (r@, final(self).state as int) == shuffled(arr@, old(self).state as int),
            live_state(final(self).state as int),
    {
        let mut arr = arr;
        self.shuffle_slice(&mut arr);
        arr
    }
}

/// A bag of seven pieces shuffled by the generator, dealt one at a time.
pub struct PieceQueue {
    pub window: VecDeque<MinoVariant>,
    pub base: [MinoVariant; 7],
    pub rng: Rng,
}

impl PieceQueue {
    pub open spec fn wf(&self) -> bool {
        live_state(self.rng.state as int)
    }

    /// The pieces still to be dealt from the current bag, and the generator state, once the
    /// queue has made sure there is at least one.
    pub open spec fn topped_up(&self) -> (Seq<MinoVariant>, int) {
        if self.window@.len() == 0 {
            shuffled(self.base@, self.rng.state as int)
        } else {
            (self.window@, self.rng.state as int)
        }
    }

    /// A queue that deals bags of `base` in the orders that `seed` draws.
    pub fn seeded_with_base(seed: u64, base: [MinoVariant; 7]) -> (r: PieceQueue)
        ensures
            r.wf() <==> valid_seed(seed),
            r.window@.len() == 0,
            r.base@ == base@,
            r.rng.state == seed % MODULUS,
    {
        let rng = Rng::seeded(seed);
        PieceQueue { window: VecDeque::new(), base, rng }
    }

    /// A queue for the given kind of game. Blitz games deal from a bag order that is not known.
    pub fn from_game(game: GameType, seed: u64) -> (r: PieceQueue)
        requires
            !(game is Blitz),
        ensures
            r.wf() <==> valid_seed(seed),
            r.window@.len() == 0,
            r.base@ == (if game is FortyLine {
                forty_line_base()
            } else {
                standard_base()
            }),
            r.rng.state == seed % MODULUS,
    {
        match game {
            GameType::FortyLine => PieceQueue::fortyline(seed),
            _ => PieceQueue::standard(seed),
        }
    }

    /// The queue of league and custom games.
    pub fn standard(seed: u64) -> (r: PieceQueue)
        ensures
            r.wf() <==> valid_seed(seed),
            r.window@.len() == 0,
            r.base@ == standard_base(),
            r.rng.state == seed % MODULUS,
    {
        let base = [
            MinoVariant::Z,
            MinoVariant::L,
            MinoVariant::O,
            MinoVariant::S,
            MinoVariant::I,
            MinoVariant::J,
            MinoVariant::T,
        ];
        assert(base@ =~= standard_base());
        PieceQueue::seeded_with_base(seed, base)
    }

    /// The queue of forty-line games.
    pub fn fortyline(seed: u64) -> (r: PieceQueue)
        ensures
            r.wf() <==> valid_seed(seed),
            r.window@.len() == 0,
            r.base@ == forty_line_base(),
            r.rng.state == seed % MODULUS,
    {
        let base = [
            MinoVariant::I,
            MinoVariant::O,
            MinoVariant::T,
            MinoVariant::Z,
            MinoVariant::J,
            MinoVariant::L,
            MinoVariant::S,
        ];
        assert(base@ =~= forty_line_base());
        PieceQueue::seeded_with_base(seed, base)
    }

    /// A standard queue with a fixed seed, for when the order does not matter.
    pub fn meaningless() -> (r: PieceQueue)
        ensures
            r.wf(),
            r.window@.len() == 0,
            r.base@ == standard_base(),
            r.rng.state == 1,
    {
        PieceQueue::standard(1)
    }

    /// Deals the next piece, shuffling a new bag first when the current one is used up.
    pub fn pop(&mut self) -> (r: MinoVariant)
        requires
            old(self).wf(),
        ensures
            final(self).wf(),
            final(self).base == old(self).base,
            r == old(self).topped_up().0[0],
            final(self).window@ == old(self).topped_up().0.drop_first(),
            final(self).rng.state as int == old(self).topped_up().1,
    {
        if self.window.len() == 0 {
            self.generate();
        }
        proof {
            lemma_shuffle_down_len(old(self).base@, old(self).rng.state as int, 6);
        }
        let r = self.window.pop_front();
        match r {
            Some(v) => v,
            None => MinoVariant::I,
        }
    }

    /// Appends a freshly shuffled bag to the pieces still to be dealt.
    pub fn generate(&mut self)
        requires
            old(self).wf(),
        ensures
            final(self).wf(),
            final(self).base == old(self).base,
            final(self).window@ == old(self).window@ + shuffled(
                old(self).base@,
                old(self).rng.state as int,
            ).0,
            final(self).rng.state as int == shuffled(old(self).base@, old(self).rng.state as int).1,
    {
        let bag = self.rng.shuffle_array(self.base);
        proof {
            lemma_shuffle_down_len(old(self).base@, old(self).rng.state as int, 6);
        }
        append_bag(&mut self.window, bag);
    }
}

fn append_bag(window: &mut VecDeque<MinoVariant>, bag: [MinoVariant; 7])
    ensures
        final(window)@ == old(window)@ + bag@,
{
    let mut k: usize = 0;
    while k < 7
        invariant
            k <= 7,
            window@ == old(window)@ + bag@.take(k as int),
        decreases 7 - k,
    {
        window.push_back(bag[k]);
        k = k + 1;
        assert(window@ =~= old(window)@ + bag@.take(k as int));
    }
    assert(bag@.take(7) =~= bag@);
}

pub open spec fn standard_base() -> Seq<MinoVariant> {
    seq![
        MinoVariant::Z,
        MinoVariant::L,
        MinoVariant::O,
        MinoVariant::S,
        MinoVariant::I,
        MinoVariant::J,
        MinoVariant::T,
    ]
}

pub open spec fn forty_line_base() -> Seq<MinoVariant> {
    seq![
        MinoVariant::I,
        MinoVariant::O,
        MinoVariant::T,
        MinoVariant::Z,
        MinoVariant::J,
        MinoVariant::L,
        MinoVariant::S,
    ]
}

} // verus!
