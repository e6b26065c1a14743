//! Sequencers: the claim and publish rules that coordinate producers with the
//! consumers that gate them.

use vstd::prelude::*;
use crate::error::{DisruptorError, DisruptorResult};
use crate::failure::{FailureRecord, FailureRecordView};
use crate::producer_type::ProducerType;
use crate::ring_buffer::{slot_of, valid_ring_size};
use crate::wait_strategy::WaitStrategy;

verus! {

/// The smaller of two integers.
pub open spec fn min_int(a: int, b: int) -> int {
    if a <= b {
        a
    } else {
        b
    }
}

/// The smallest registered gating value, or `default` when none is registered.
pub open spec fn min_gating(gating: Seq<Option<i64>>, default: int) -> int
    decreases gating.len(),
{
    if gating.len() == 0 {
        default
    } else {
        let rest = min_gating(gating.drop_last(), default);
        match gating.last() {
            Some(g) => min_int(g as int, rest),
            None => rest,
        }
    }
}

/// What the model of a sequencer holds.
pub struct SequencerView {
    /// Single or multi-producer claim rules.
    pub mode: ProducerType,
    /// Number of ring slots.
    pub buffer_size: nat,
    /// Highest claimed sequence (`-1` before the first claim).
    pub claimed: int,
    /// Single producer: highest published sequence.
    pub cursor: int,
    /// Multi producer: for each slot, the round (`sequence / size`) last published there.
    pub available: Seq<i64>,
    /// Gating sequences of the consumers; `None` marks a removed one.
    pub gating: Seq<Option<i64>>,
    /// A fatal failure poisoned the pipeline.
    pub poisoned: bool,
    /// Shutdown or halt closed the claim path.
    pub closed: bool,
    /// The first failure recorded.
    pub first_failure: Option<FailureRecordView>,
}

impl SequencerView {
    /// The gating minimum: the smallest gating sequence, never above the claimed one.
    pub open spec fn gate(self) -> int {
        min_gating(self.gating, self.claimed)
    }

    /// Whether `sequence` has been published.
    pub open spec fn is_published(self, sequence: int) -> bool {
        if self.mode == ProducerType::Single {
            sequence <= self.cursor
        } else {
            self.available[slot_of(sequence, self.buffer_size)] == sequence / (
            self.buffer_size as int)
        }
    }

    /// The published cursor that consumers of the first stage follow.
    pub open spec fn published_cursor(self) -> int {
        if self.mode == ProducerType::Single {
            self.cursor
        } else {
            self.claimed
        }
    }

    /// Whether `n` more sequences fit without overwriting an ungated slot.
    pub open spec fn fits(self, n: int) -> bool {
        self.claimed + n <= i64::MAX && self.claimed + n - self.buffer_size <= self.gate()
    }

    /// Whether a claim of `n` sequences succeeds.
    pub open spec fn claim_succeeds(self, n: int) -> bool {
        !self.poisoned && !self.closed && self.fits(n)
    }

    /// The state after a successful claim of `n` sequences.
    pub open spec fn after_claim(self, n: int) -> SequencerView {
        SequencerView { claimed: self.claimed + n, ..self }
    }

    /// Free slots: the ring size minus the sequences claimed beyond the gating minimum.
    pub open spec fn remaining(self) -> int {
        self.buffer_size - (self.claimed - self.gate())
    }

    /// The sequencer invariant.
    pub open spec fn wf(self) -> bool {
        &&& valid_ring_size(self.buffer_size)
        &&& -1 <= self.cursor <= self.claimed <= i64::MAX
        &&& forall|i: int|
            0 <= i < self.gating.len() && #[trigger] self.gating[i] is Some ==> -1
                <= self.gating[i]->Some_0 <= self.claimed
        &&& self.claimed - self.gate() <= self.buffer_size
        &&& self.mode == ProducerType::Multi ==> {
            &&& self.available.len() == self.buffer_size
            &&& forall|i: int|
                0 <= i < self.buffer_size ==> (#[trigger] self.available[i] == -1 || (
                self.available[i] >= 0 && self.available[i] * self.buffer_size + i
                    <= self.claimed))
        }
    }
}

/// The first failure kept after recording `failure`.
pub open spec fn kept_failure(
    first: Option<FailureRecordView>,
    failure: FailureRecordView,
) -> Option<FailureRecordView> {
    if first is Some {
        first
    } else {
        Some(failure)
    }
}

/// The claim and publish state shared by both producer modes.
#[derive(Debug)]
pub struct SequencerCore {
    mode: ProducerType,
    buffer_size: usize,
    claimed: i64,
    cursor: i64,
    available: Vec<i64>,
    gating: Vec<Option<i64>>,
    poisoned: bool,
    closed: bool,
    first_failure: Option<FailureRecord>,
}

/// The view of an optional failure record.
pub open spec fn opt_record(r: Option<FailureRecord>) -> Option<FailureRecordView> {
    match r {
        Some(f) => Some(f@),
        None => None,
    }
}

impl View for SequencerCore {
    type V = SequencerView;

    closed spec fn view(&self) -> SequencerView {
        SequencerView {
            mode: self.mode,
            buffer_size: self.buffer_size as nat,
            claimed: self.claimed as int,
            cursor: self.cursor as int,
            available: self.available@,
            gating: self.gating@,
            poisoned: self.poisoned,
            closed: self.closed,
            first_failure: opt_record(self.first_failure),
        }
    }
}

/// The state of a fresh sequencer.
pub open spec fn initial_sequencer(mode: ProducerType, buffer_size: nat) -> SequencerView {
    SequencerView {
        mode,
        buffer_size,
        claimed: -1,
        cursor: -1,
        available: if mode == ProducerType::Multi {
            Seq::new(buffer_size, |i: int| -1i64)
        } else {
            Seq::empty()
        },
        gating: Seq::empty(),
        poisoned: false,
        closed: false,
        first_failure: None,
    }
}

pub(crate) proof fn lemma_min_gating_bound(gating: Seq<Option<i64>>, default: int)
    ensures
        min_gating(gating, default) <= default,
        forall|i: int|
            0 <= i < gating.len() && gating[i] is Some ==> min_gating(gating, default)
                <= gating[i]->Some_0,
    decreases gating.len(),
{
    if gating.len() > 0 {
        lemma_min_gating_bound(gating.drop_last(), default);
        assert forall|i: int| 0 <= i < gating.len() && gating[i] is Some implies min_gating(
            gating,
            default,
        ) <= gating[i]->Some_0 by {
            if i < gating.len() - 1 {
                assert(gating.drop_last()[i] == gating[i]);
            }
        }
    }
}


pub(crate) proof fn lemma_min_gating_floor(gating: Seq<Option<i64>>, default: int, floor: int)
    requires
        default >= floor,
        forall|i: int| 0 <= i < gating.len() && #[trigger] gating[i] is Some ==> gating[i]->Some_0 >= floor,
    ensures
        min_gating(gating, default) >= floor,
    decreases gating.len(),
{
    if gating.len() > 0 {
        assert forall|i: int| 0 <= i < gating.drop_last().len() && #[trigger] gating.drop_last()[i] is Some implies gating.drop_last()[i]->Some_0 >= floor by {
            assert(gating.drop_last()[i] == gating[i]);
        }
        lemma_min_gating_floor(gating.drop_last(), default, floor);
        assert(gating[gating.len() - 1] == gating.last());
    }
}

/// `g2` gates no lower than `g1`, slot by slot; a removed slot gates nothing.
pub open spec fn gating_le(g1: Seq<Option<i64>>, g2: Seq<Option<i64>>) -> bool {
    &&& g1.len() == g2.len()
    &&& forall|i: int|
        0 <= i < g1.len() ==> match (#[trigger] g1[i], g2[i]) {
            (Some(a), Some(b)) => a <= b,
            (Some(a), None) => true,
            (None, Some(b)) => false,
            (None, None) => true,
        }
}

proof fn lemma_min_gating_mono(g1: Seq<Option<i64>>, g2: Seq<Option<i64>>, d1: int, d2: int)
    requires
        gating_le(g1, g2),
        d1 <= d2,
    ensures
        min_gating(g1, d1) <= min_gating(g2, d2),
    decreases g1.len(),
{
    if g1.len() > 0 {
        let n = g1.len() - 1;
        assert(gating_le(g1.drop_last(), g2.drop_last())) by {
            assert forall|i: int| 0 <= i < g1.drop_last().len() implies match (
                #[trigger] g1.drop_last()[i],
                g2.drop_last()[i],
            ) {
                (Some(a), Some(b)) => a <= b,
                (Some(a), None) => true,
                (None, Some(b)) => false,
                (None, None) => true,
            } by {
                assert(g1.drop_last()[i] == g1[i]);
                assert(g2.drop_last()[i] == g2[i]);
            }
        }
        lemma_min_gating_mono(g1.drop_last(), g2.drop_last(), d1, d2);
        assert(match (g1[n], g2[n]) {
            (Some(a), Some(b)) => a <= b,
            (Some(a), None) => true,
            (None, Some(b)) => false,
            (None, None) => true,
        });
        lemma_min_gating_bound(g1.drop_last(), d1);
    }
}

proof fn lemma_min_gating_monotone(g: Seq<Option<i64>>, i: int, v: i64, d: int)
    requires
        0 <= i < g.len(),
        g[i] matches Some(x) && x <= v,
    ensures
        min_gating(g, d) <= min_gating(g.update(i, Some(v)), d),
{
    assert(gating_le(g, g.update(i, Some(v))));
    lemma_min_gating_mono(g, g.update(i, Some(v)), d, d);
}

proof fn lemma_min_gating_remove(g: Seq<Option<i64>>, i: int, d: int)
    requires
        0 <= i < g.len(),
    ensures
        min_gating(g, d) <= min_gating(g.update(i, None), d),
{
    assert(gating_le(g, g.update(i, None)));
    lemma_min_gating_mono(g, g.update(i, None), d, d);
}

pub(crate) proof fn lemma_min_gating_raise_default(g: Seq<Option<i64>>, d1: int, d2: int)
    requires
        d1 <= d2,
    ensures
        min_gating(g, d1) <= min_gating(g, d2),
{
    assert(gating_le(g, g));
    lemma_min_gating_mono(g, g, d1, d2);
}


pub(crate) proof fn lemma_distinct_slots(t: int, s: int, size: int)
    requires
        size > 0,
        t != s,
        0 <= t,
        0 <= s,
        t - size < s < t + size,
    ensures
        t % size != s % size,
{
    vstd::arithmetic::div_mod::lemma_fundamental_div_mod(t, size);
    vstd::arithmetic::div_mod::lemma_fundamental_div_mod(s, size);
    let q1 = t / size;
    let q2 = s / size;
    if t % size == s % size {
        assert(t - s == size * (q1 - q2)) by (nonlinear_arith)
            requires
                t == size * q1 + t % size,
                s == size * q2 + s % size,
                t % size == s % size,
        ;
        assert(false) by (nonlinear_arith)
            requires
                t - s == size * (q1 - q2),
                t != s,
                size > 0,
                t - size < s < t + size,
        ;
    }
}

impl SequencerCore {
    /// A fresh sequencer: nothing claimed, nothing published, no gating.
    pub fn new(mode: ProducerType, buffer_size: usize) -> (s: Self)
        requires
            valid_ring_size(buffer_size as nat),
        ensures
            s@ == initial_sequencer(mode, buffer_size as nat),
            s@.wf(),
    {
        let mut available: Vec<i64> = Vec::new();
        if mode == ProducerType::Multi {
            let mut i: usize = 0;
            while i < buffer_size
                invariant
                    i <= buffer_size,
                    available@ == Seq::new(i as nat, |j: int| -1i64),
                decreases buffer_size - i,
            {
                available.push(-1);
                i = i + 1;
            }
        }
        let s = SequencerCore {
            mode,
            buffer_size,
            claimed: -1,
            cursor: -1,
            available,
            gating: Vec::new(),
            poisoned: false,
            closed: false,
            first_failure: None,
        };
        proof {
            assert(s@.available =~= initial_sequencer(mode, buffer_size as nat).available);
            assert(s@.gating =~= Seq::<Option<i64>>::empty());
        }
        s
    }

    /// Number of ring slots.
    pub fn buffer_size(&self) -> (n: usize)
        ensures
            n == self@.buffer_size,
    {
        self.buffer_size
    }

    /// The producer mode.
    pub fn mode(&self) -> (m: ProducerType)
        ensures
            m == self@.mode,
    {
        self.mode
    }

    /// The cursor: the highest published sequence for a single producer, the
    /// highest claimed one for multiple producers.
    pub fn cursor(&self) -> (c: i64)
        ensures
            c == self@.published_cursor(),
    {
        if self.mode == ProducerType::Single {
            self.cursor
        } else {
            self.claimed
        }
    }

    /// The highest claimed sequence.
    pub fn claimed(&self) -> (c: i64)
        ensures
            c == self@.claimed,
    {
        self.claimed
    }

    /// The gating minimum: the smallest registered gating sequence, or the
    /// claimed sequence when it is smaller or nothing gates.
    pub fn minimum_gating(&self) -> (m: i64)
        requires
            self@.wf(),
        ensures
            m == self@.gate(),
    {
        let mut m: i64 = self.claimed;
        let mut i: usize = 0;
        while i < self.gating.len()
            invariant
                i <= self.gating@.len(),
                m == min_gating(self.gating@.subrange(0, i as int), self.claimed as int),
            decreases self.gating@.len() - i,
        {
            proof {
                assert(self.gating@.subrange(0, i + 1).drop_last() =~= self.gating@.subrange(
                    0,
                    i as int,
                ));
            }
            match self.gating[i] {
                Some(g) => {
                    if g < m {
                        m = g;
                    }
                },
                None => {},
            }
            i = i + 1;
        }
        proof {
            assert(self.gating@.subrange(0, self.gating@.len() as int) =~= self.gating@);
        }
        m
    }

    /// Free slots: size minus the sequences claimed beyond the gating minimum.
    pub fn remaining_capacity(&self) -> (r: i64)
        requires
            self@.wf(),
        ensures
            r == self@.remaining(),
            0 <= r <= self@.buffer_size,
    {
        proof {
            lemma_min_gating_bound(self.gating@, self.claimed as int);
        }
        let gate = self.minimum_gating();
        let used: i64 = self.claimed - gate;
        (self.buffer_size as i64) - used
    }

    /// Whether `required` more sequences fit right now.
    pub fn has_available_capacity(&self, required: i64) -> (r: bool)
        requires
            self@.wf(),
            required >= 1,
        ensures
            r == self@.fits(required as int),
    {
        let gate = self.minimum_gating();
        if self.claimed > i64::MAX - required {
            return false;
        }
        self.claimed + required - (self.buffer_size as i64) <= gate
    }

    /// Registers a gating sequence holding `initial` and returns its index.
    pub fn add_gating_sequence(&mut self, initial: i64) -> (index: usize)
        requires
            old(self)@.wf(),
            old(self)@.claimed - old(self)@.buffer_size <= initial <= old(self)@.claimed,
            -1 <= initial,
        ensures
            final(self)@ == (SequencerView {
                gating: old(self)@.gating.push(Some(initial)),
                ..old(self)@
            }),
            index == old(self)@.gating.len(),
            final(self)@.wf(),
    {
        let index = self.gating.len();
        self.gating.push(Some(initial));
        proof {
            let v = final(self)@;
            assert(v.gating.drop_last() =~= old(self)@.gating);
            lemma_min_gating_bound(old(self)@.gating, old(self)@.claimed);
        }
        index
    }

    /// Advances the gating sequence at `index` to `value`.
    pub fn set_gating_sequence(&mut self, index: usize, value: i64)
        requires
            old(self)@.wf(),
            index < old(self)@.gating.len(),
            old(self)@.gating[index as int] matches Some(g) && g <= value,
            value <= old(self)@.claimed,
        ensures
            final(self)@ == (SequencerView {
                gating: old(self)@.gating.update(index as int, Some(value)),
                ..old(self)@
            }),
            final(self)@.wf(),
    {
        proof {
            lemma_min_gating_monotone(old(self)@.gating, index as int, value, old(self)@.claimed);
        }
        self.gating.set(index, Some(value));
    }

    /// Removes the gating sequence at `index`; it no longer holds producers back.
    pub fn remove_gating_sequence(&mut self, index: usize)
        requires
            old(self)@.wf(),
            index < old(self)@.gating.len(),
        ensures
            final(self)@ == (SequencerView {
                gating: old(self)@.gating.update(index as int, None),
                ..old(self)@
            }),
            final(self)@.wf(),
    {
        proof {
            lemma_min_gating_remove(old(self)@.gating, index as int, old(self)@.claimed);
        }
        self.gating.set(index, None);
    }

    /// The value of the gating sequence at `index`, if it is registered.
    pub fn gating_sequence(&self, index: usize) -> (g: Option<i64>)
        requires
            index < self@.gating.len(),
        ensures
            g == self@.gating[index as int],
    {
        self.gating[index]
    }

    /// Number of gating slots ever registered.
    pub fn gating_count(&self) -> (n: usize)
        ensures
            n == self@.gating.len(),
    {
        self.gating.len()
    }

    /// Claims the next `n` sequences if they fit and the pipeline is open;
    /// returns the highest claimed sequence.
    pub fn try_next_n(&mut self, n: i64) -> (r: Option<i64>)
        requires
            old(self)@.wf(),
            1 <= n <= old(self)@.buffer_size,
        ensures
            final(self)@.wf(),
            r is Some <==> old(self)@.claim_succeeds(n as int),
            r is Some ==> r == Some((old(self)@.claimed + n) as i64) && final(self)@
                == old(self)@.after_claim(n as int),
            r is None ==> final(self)@ == old(self)@,
    {
        if self.poisoned || self.closed {
            return None;
        }
        if !self.has_available_capacity(n) {
            return None;
        }
        self.claimed = self.claimed + n;
        proof {
            lemma_min_gating_raise_default(old(self)@.gating, old(self)@.claimed, self.claimed as int);
            assert(final(self)@ == old(self)@.after_claim(n as int));
        }
        Some(self.claimed)
    }

    /// Claims the next sequence; see [`Self::try_next_n`].
    pub fn try_next(&mut self) -> (r: Option<i64>)
        requires
            old(self)@.wf(),
        ensures
            final(self)@.wf(),
            r is Some <==> old(self)@.claim_succeeds(1),
            r is Some ==> r == Some((old(self)@.claimed + 1) as i64) && final(self)@
                == old(self)@.after_claim(1),
            r is None ==> final(self)@ == old(self)@,
    {
        self.try_next_n(1)
    }

    /// Claims the next `n` sequences, reporting why a claim is refused: the
    /// pipeline is poisoned, it is shut down, or the sequences do not fit yet.
    pub fn next_n(&mut self, n: i64) -> (r: DisruptorResult<i64>)
        requires
            old(self)@.wf(),
            1 <= n <= old(self)@.buffer_size,
        ensures
            final(self)@.wf(),
            match r {
                Ok(s) => old(self)@.claim_succeeds(n as int) && s == old(self)@.claimed + n
                    && final(self)@ == old(self)@.after_claim(n as int),
                Err(e) => final(self)@ == old(self)@ && !old(self)@.claim_succeeds(n as int) && e
                    == (if old(self)@.poisoned {
                    DisruptorError::Poisoned
                } else if old(self)@.closed {
                    DisruptorError::Shutdown
                } else {
                    DisruptorError::InsufficientCapacity
                }),
            },
    {
        if self.poisoned {
            return Err(DisruptorError::Poisoned);
        }
        if self.closed {
            return Err(DisruptorError::Shutdown);
        }
        match self.try_next_n(n) {
            Some(s) => Ok(s),
            None => Err(DisruptorError::InsufficientCapacity),
        }
    }

    /// Makes the claimed `sequence` visible to consumers.
    pub fn publish(&mut self, sequence: i64)
        requires
            old(self)@.wf(),
            0 <= sequence <= old(self)@.claimed,
            old(self)@.claimed - old(self)@.buffer_size < sequence,
            old(self)@.mode == ProducerType::Single ==> old(self)@.cursor < sequence,
        ensures
            final(self)@.wf(),
            final(self)@.is_published(sequence as int),
            old(self)@.mode == ProducerType::Single ==> final(self)@ == (SequencerView {
                cursor: sequence as int,
                ..old(self)@
            }),
            old(self)@.mode == ProducerType::Multi ==> final(self)@ == (SequencerView {
                available: old(self)@.available.update(
                    slot_of(sequence as int, old(self)@.buffer_size),
                    (sequence as int / old(self)@.buffer_size as int) as i64,
                ),
                ..old(self)@
            }),
    {
        if self.mode == ProducerType::Single {
            self.cursor = sequence;
        } else {
            let size = self.buffer_size as u64;
            let index = ((sequence as u64) % size) as usize;
            let round = ((sequence as u64) / size) as i64;
            proof {
                vstd::arithmetic::div_mod::lemma_fundamental_div_mod(sequence as int, size as int);
            }
            self.available.set(index, round);
            proof {
                let v = final(self)@;
                assert forall|i: int| 0 <= i < v.buffer_size implies (#[trigger] v.available[i]
                    == -1 || (v.available[i] >= 0 && v.available[i] * v.buffer_size + i
                    <= v.claimed)) by {
                    if i != index as int {
                        assert(v.available[i] == old(self)@.available[i]);
                    }
                }
            }
        }
    }


    /// Makes every claimed sequence in `lo..=hi` visible to consumers.
    pub fn publish_range(&mut self, lo: i64, hi: i64)
        requires
            old(self)@.wf(),
            0 <= lo <= hi <= old(self)@.claimed,
            old(self)@.claimed - old(self)@.buffer_size < lo,
            old(self)@.mode == ProducerType::Single ==> old(self)@.cursor < lo,
        ensures
            final(self)@.wf(),
            forall|s: int| lo <= s <= hi ==> final(self)@.is_published(s),
            old(self)@.mode == ProducerType::Single ==> final(self)@ == (SequencerView {
                cursor: hi as int,
                ..old(self)@
            }),
            old(self)@.mode == ProducerType::Multi ==> final(self)@ == (SequencerView {
                available: final(self)@.available,
                ..old(self)@
            }),
            forall|s: int|
                #![trigger old(self)@.is_published(s)]
                0 <= s && !(lo <= s <= hi) && old(self)@.claimed - old(self)@.buffer_size < s
                    <= old(self)@.claimed && old(self)@.is_published(s) ==> final(self)@.is_published(s),
    {
        if self.mode == ProducerType::Single {
            self.cursor = hi;
            return;
        }
        let count: i64 = hi - lo + 1;
        let mut off: i64 = 0;
        while off < count
            invariant
                old(self)@.mode == ProducerType::Multi,
                0 <= lo <= hi <= old(self)@.claimed,
                count == hi - lo + 1,
                0 <= off <= count,
                old(self)@.claimed - old(self)@.buffer_size < lo,
                self@.wf(),
                self@ == (SequencerView { available: self@.available, ..old(self)@ }),
                forall|t: int| lo <= t < lo + off ==> self@.is_published(t),
                forall|t: int|
                    #![trigger old(self)@.is_published(t)]
                    0 <= t && !(lo <= t < lo + off) && old(self)@.claimed - old(self)@.buffer_size
                        < t <= old(self)@.claimed && old(self)@.is_published(t)
                        ==> self@.is_published(t),
            decreases count - off,
        {
            let s = lo + off;
            let ghost before = self@;
            self.publish(s);
            proof {
                let size = before.buffer_size as int;
                assert forall|t: int| lo <= t < lo + off + 1 implies self@.is_published(t) by {
                    if t < s {
                        lemma_distinct_slots(t, s as int, size);
                        assert(before.is_published(t));
                    }
                }
                assert forall|t: int|
                    #![trigger old(self)@.is_published(t)]
                    0 <= t && !(lo <= t < lo + off + 1) && old(self)@.claimed
                        - old(self)@.buffer_size < t <= old(self)@.claimed && old(
                        self,
                    )@.is_published(t) implies self@.is_published(t) by {
                    lemma_distinct_slots(t, s as int, size);
                    assert(before.is_published(t));
                }
            }
            off = off + 1;
        }
    }

    /// Whether `sequence` has been published.
    pub fn is_available(&self, sequence: i64) -> (r: bool)
        requires
            self@.wf(),
            sequence >= 0,
        ensures
            r == self@.is_published(sequence as int),
    {
        if self.mode == ProducerType::Single {
            sequence <= self.cursor
        } else {
            let size = self.buffer_size as u64;
            let index = ((sequence as u64) % size) as usize;
            let round = ((sequence as u64) / size) as i64;
            self.available[index] == round
        }
    }

    /// The highest sequence up to `available` such that every sequence from
    /// `lower` on is published; `lower - 1` when `lower` itself is not.
    pub fn highest_published_sequence(&self, lower: i64, available: i64) -> (r: i64)
        requires
            self@.wf(),
            0 <= lower,
            lower - 1 <= available,
            self@.mode == ProducerType::Single ==> available <= self@.cursor,
        ensures
            lower - 1 <= r <= available,
            forall|s: int| lower <= s <= r ==> self@.is_published(s),
            r < available ==> !self@.is_published(r + 1),
    {
        if self.mode == ProducerType::Single {
            return available;
        }
        let mut s: i64 = lower;
        while s <= available
            invariant
                self@.wf(),
                0 <= lower <= s <= available + 1,
                forall|t: int| lower <= t < s ==> self@.is_published(t),
            decreases available + 1 - s,
        {
            if !self.is_available(s) {
                return s - 1;
            }
            if s == available {
                return available;
            }
            s = s + 1;
        }
        available
    }

    /// Whether a fatal failure poisoned the pipeline.
    pub fn is_poisoned(&self) -> (r: bool)
        ensures
            r == self@.poisoned,
    {
        self.poisoned
    }

    /// Whether shutdown or halt closed the claim path.
    pub fn is_closed(&self) -> (r: bool)
        ensures
            r == self@.closed,
    {
        self.closed
    }

    /// Poisons the pipeline: every later claim fails.
    pub fn poison(&mut self)
        requires
            old(self)@.wf(),
        ensures
            final(self)@ == (SequencerView { poisoned: true, ..old(self)@ }),
            final(self)@.wf(),
    {
        self.poisoned = true;
    }

    /// Closes the claim path: every later claim fails.
    pub fn close(&mut self)
        requires
            old(self)@.wf(),
        ensures
            final(self)@ == (SequencerView { closed: true, ..old(self)@ }),
            final(self)@.wf(),
    {
        self.closed = true;
    }

    /// Records `failure` unless a failure was recorded before: the first one is kept.
    pub fn record_failure(&mut self, failure: &FailureRecord)
        requires
            old(self)@.wf(),
        ensures
            final(self)@ == (SequencerView {
                first_failure: kept_failure(old(self)@.first_failure, failure@),
                ..old(self)@
            }),
            final(self)@.wf(),
    {
        if self.first_failure.is_none() {
            self.first_failure = Some(failure.duplicate());
        }
    }

    /// Records `failure` (the first is kept) and poisons the pipeline.
    pub fn poison_with_failure(&mut self, failure: &FailureRecord)
        requires
            old(self)@.wf(),
        ensures
            final(self)@ == (SequencerView {
                first_failure: kept_failure(old(self)@.first_failure, failure@),
                poisoned: true,
                ..old(self)@
            }),
            final(self)@.wf(),
    {
        self.record_failure(failure);
        self.poison();
    }

    /// A copy of the first recorded failure.
    pub fn first_failure(&self) -> (r: Option<FailureRecord>)
        ensures
            opt_record(r) == self@.first_failure,
    {
        match &self.first_failure {
            Some(f) => Some(f.duplicate()),
            None => None,
        }
    }
}

/// A single-producer sequencer: claims need no coordination between threads.
#[derive(Debug)]
pub struct SingleProducerSequencer<W> {
    core: SequencerCore,
    wait_strategy: W,
}

/// A multi-producer sequencer: each published slot is flagged with its round.
#[derive(Debug)]
pub struct MultiProducerSequencer<W> {
    core: SequencerCore,
    wait_strategy: W,
}

impl<W: WaitStrategy> SingleProducerSequencer<W> {
    /// The claim and publish state.
    pub closed spec fn state(self) -> SequencerView {
        self.core@
    }

    /// The strategy its consumers wait with.
    pub closed spec fn waits_with(self) -> W {
        self.wait_strategy
    }

    /// A fresh single-producer sequencer over `buffer_size` slots.
    pub fn new(buffer_size: usize, wait_strategy: W) -> (s: Self)
        requires
            valid_ring_size(buffer_size as nat),
        ensures
            s.state() == initial_sequencer(ProducerType::Single, buffer_size as nat),
            s.state().wf(),
            s.waits_with() == wait_strategy,
    {
        SingleProducerSequencer { core: SequencerCore::new(ProducerType::Single, buffer_size), wait_strategy }
    }

    /// The claim and publish state.
    pub fn claim_state(&self) -> (c: &SequencerCore)
        ensures
            c@ == self.state(),
    {
        &self.core
    }
}

impl<W: WaitStrategy> MultiProducerSequencer<W> {
    /// The claim and publish state.
    pub closed spec fn state(self) -> SequencerView {
        self.core@
    }

    /// The strategy its consumers wait with.
    pub closed spec fn waits_with(self) -> W {
        self.wait_strategy
    }

    /// A fresh multi-producer sequencer over `buffer_size` slots.
    pub fn new(buffer_size: usize, wait_strategy: W) -> (s: Self)
        requires
            valid_ring_size(buffer_size as nat),
        ensures
            s.state() == initial_sequencer(ProducerType::Multi, buffer_size as nat),
            s.state().wf(),
            s.waits_with() == wait_strategy,
    {
        MultiProducerSequencer { core: SequencerCore::new(ProducerType::Multi, buffer_size), wait_strategy }
    }

    /// The claim and publish state.
    pub fn claim_state(&self) -> (c: &SequencerCore)
        ensures
            c@ == self.state(),
    {
        &self.core
    }
}

/// Either kind of sequencer.
#[derive(Debug)]
pub enum SequencerEnum<W> {
    /// A single-producer sequencer.
    Single(SingleProducerSequencer<W>),
    /// A multi-producer sequencer.
    Multi(MultiProducerSequencer<W>),
}

impl<W: WaitStrategy> SequencerEnum<W> {
    /// The claim and publish state.
    pub open spec fn state(self) -> SequencerView {
        match self {
            SequencerEnum::Single(s) => s.state(),
            SequencerEnum::Multi(m) => m.state(),
        }
    }

    /// The strategy its consumers wait with.
    pub open spec fn waits_with(self) -> W {
        match self {
            SequencerEnum::Single(s) => s.waits_with(),
            SequencerEnum::Multi(m) => m.waits_with(),
        }
    }

    /// Splits into the claim and publish state and the wait strategy.
    pub fn into_parts(self) -> (r: (SequencerCore, W))
        ensures
            r.0@ == self.state(),
            r.1 == self.waits_with(),
    {
        match self {
            SequencerEnum::Single(s) => (s.core, s.wait_strategy),
            SequencerEnum::Multi(m) => (m.core, m.wait_strategy),
        }
    }

    /// Number of ring slots.
    pub fn get_buffer_size(&self) -> (n: usize)
        ensures
            n == self.state().buffer_size,
    {
        match self {
            SequencerEnum::Single(s) => s.claim_state().buffer_size(),
            SequencerEnum::Multi(m) => m.claim_state().buffer_size(),
        }
    }
}

} // verus!
