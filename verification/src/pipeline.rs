//! The pipeline state: ring, sequencer and consumer gating, with the producer
//! operations (claim, fill, publish) and the consumer operations (wait for the
//! barrier, process, advance) as verified state transitions.

use vstd::prelude::*;
use crate::error::{error_message, DisruptorError, DisruptorResult};
use crate::failure::{FailureRecord, FailureRecordView};
use crate::producer::{MissingFreeSlots, RingBufferFull, TryPublishError};
use crate::producer_type::ProducerType;
use crate::ring_buffer::{slot_of, RingBuffer, SlotPadding};
use crate::sequencer::{lemma_min_gating_floor, lemma_distinct_slots, lemma_min_gating_bound, kept_failure, opt_record, SequencerCore, SequencerEnum, SequencerView};
use crate::wait_strategy::WaitStrategy;
use crate::consumer_engine::{consumer_failure, consumer_failure_view, ConsumerContext, ConsumerStep};
use crate::event_handler::EventHandler;
use crate::exception_handler::{DefaultExceptionHandler, ErrorDecision, ExceptionHandler};
use crate::failure::FailurePhase;

verus! {

/// What the model of a pipeline holds.
pub struct PipelineView<E> {
    /// The ring slots.
    pub ring: Seq<E>,
    /// The claim and publish state, with one gating sequence per consumer.
    pub seq: SequencerView,
    /// For each consumer, the consumers it waits for (empty: it follows the cursor).
    pub deps: Seq<Seq<usize>>,
    /// For each consumer, the worker pool it claims work from, if any.
    pub pools: Seq<Option<usize>>,
    /// For each worker pool, the highest sequence claimed by one of its workers.
    pub work: Seq<i64>,
}

impl<E> PipelineView<E> {
    /// The sequence a consumer has processed up to.
    pub open spec fn consumer(self, c: int) -> Option<i64> {
        self.seq.gating[c]
    }

    /// The event stored for `sequence`.
    pub open spec fn event_at(self, sequence: int) -> E {
        self.ring[slot_of(sequence, self.seq.buffer_size)]
    }

    /// The pipeline invariant: the sequencer's (which includes that no claim
    /// reaches a slot a consumer has not released), a ring of the sequencer's
    /// size, consumers that never pass the published cursor, and downstream
    /// consumers that never pass the consumers they wait for.
    pub open spec fn wf(self) -> bool {
        &&& self.seq.wf()
        &&& self.ring.len() == self.seq.buffer_size
        &&& self.deps.len() == self.seq.gating.len()
        &&& self.pools.len() == self.seq.gating.len()
        &&& forall|c: int| 0 <= c < self.pools.len() && #[trigger] self.pools[c] is Some
            ==> self.pools[c]->Some_0 < self.work.len()
        &&& forall|c: int, k: int|
            0 <= c < self.deps.len() && 0 <= k < self.deps[c].len() ==> #[trigger] self.deps[c][k]
                < c
        &&& forall|c: int|
            0 <= c < self.seq.gating.len() && #[trigger] self.seq.gating[c] is Some
                ==> self.seq.gating[c]->Some_0 <= self.seq.published_cursor()
        &&& forall|c: int, k: int|
            0 <= c < self.deps.len() && 0 <= k < self.deps[c].len() && self.seq.gating[c] is Some
                && #[trigger] self.seq.gating[self.deps[c][k] as int] is Some
                ==> self.seq.gating[c]->Some_0 <= self.seq.gating[self.deps[c][k] as int]->Some_0
    }

    /// The rejection reported for a refused try-claim: a terminal state wins
    /// over the transient reason.
    pub open spec fn rejection(self, transient: TryPublishError) -> TryPublishError {
        if self.seq.poisoned {
            TryPublishError::Poisoned
        } else if self.seq.closed {
            TryPublishError::Shutdown
        } else {
            transient
        }
    }

    /// The transient reason of a refused single claim.
    pub open spec fn single_refusal(self) -> TryPublishError {
        if self.seq.remaining() > 0 {
            TryPublishError::Contended
        } else {
            TryPublishError::Full(RingBufferFull)
        }
    }

    /// The transient reason of a refused batch claim of `n` slots.
    pub open spec fn batch_refusal(self, n: nat) -> TryPublishError {
        let free: int = if self.seq.remaining() > 0 {
            self.seq.remaining()
        } else {
            0
        };
        if n <= free {
            TryPublishError::Contended
        } else {
            TryPublishError::MissingFreeSlots(MissingFreeSlots((n - free) as u64))
        }
    }

    /// No claim is pending: every claimed sequence has been published.
    pub open spec fn settled(self) -> bool {
        self.seq.published_cursor() == self.seq.claimed
    }

}

/// The slowest active consumer among `deps`, or `default` when none is active.
pub open spec fn dep_min(gating: Seq<Option<i64>>, deps: Seq<usize>, default: int) -> int
    decreases deps.len(),
{
    if deps.len() == 0 {
        default
    } else {
        let rest = dep_min(gating, deps.drop_last(), default);
        match gating[deps.last() as int] {
            Some(g) => if g < rest {
                g as int
            } else {
                rest
            },
            None => rest,
        }
    }
}

/// The highest sequence up to `upper` such that all of `lower..=` it are
/// published (`lower - 1` when `lower` is not).
pub open spec fn published_run(v: SequencerView, lower: int, upper: int) -> int
    decreases upper - lower + 1,
{
    if lower > upper {
        upper
    } else if !v.is_published(lower) {
        lower - 1
    } else {
        published_run(v, lower + 1, upper)
    }
}

impl<E> PipelineView<E> {
    /// Whether the claimed `s` may be written: claimed, within the ring's
    /// window, and not yet published.
    pub open spec fn writable(self, s: int) -> bool {
        &&& 0 <= s <= self.seq.claimed
        &&& self.seq.claimed - self.seq.buffer_size < s
        &&& (self.seq.mode == ProducerType::Single ==> self.seq.cursor < s)
        &&& (self.seq.mode == ProducerType::Multi ==> !self.seq.is_published(s))
    }

    /// Whether `c` is a registered, active consumer.
    pub open spec fn active(self, c: int) -> bool {
        0 <= c < self.seq.gating.len() && self.seq.gating[c] is Some
    }

    /// Whether consumer `c` is registered and not removed.
    pub open spec fn is_active_consumer(self, c: usize) -> bool {
        self.active(c as int)
    }

    /// The barrier bound of consumer `c`: the published cursor, or the slowest
    /// active consumer it waits for.
    pub open spec fn upper(self, c: int) -> int {
        dep_min(self.seq.gating, self.deps[c], self.seq.published_cursor())
    }

    /// The highest sequence consumer `c` may process next, by its barrier.
    pub open spec fn available(self, c: int) -> int {
        published_run(self.seq, self.seq.gating[c]->Some_0 + 1, self.upper(c))
    }
}

/// The sequencer after claiming and publishing the single sequence `s`.
pub open spec fn published_one(v: SequencerView, s: int) -> SequencerView {
    SequencerView {
        claimed: s,
        cursor: if v.mode == ProducerType::Single {
            s
        } else {
            v.cursor
        },
        available: if v.mode == ProducerType::Multi {
            v.available.update(slot_of(s, v.buffer_size), (s / (v.buffer_size as int)) as i64)
        } else {
            v.available
        },
        ..v
    }
}

/// `new` is `old` after claiming and publishing `lo..=hi`: only the claimed
/// count, the cursor and the availability flags move, every sequence of the
/// batch is published, and what was published before stays published.
pub open spec fn published_batch(old: SequencerView, new: SequencerView, lo: int, hi: int) -> bool {
    &&& new == (SequencerView {
        claimed: hi,
        cursor: if old.mode == ProducerType::Single {
            hi
        } else {
            old.cursor
        },
        available: new.available,
        ..old
    })
    &&& old.mode == ProducerType::Single ==> new.available == old.available
    &&& forall|s: int| lo <= s <= hi ==> new.is_published(s)
    &&& forall|s: int|
        #![trigger old.is_published(s)]
        0 <= s && hi - old.buffer_size < s <= old.claimed && old.is_published(s)
            ==> new.is_published(s)
}

/// `n` as a sequence value, saturating at `i64::MAX`.
pub open spec fn clamp_i64(n: usize) -> i64 {
    if n <= i64::MAX {
        n as i64
    } else {
        i64::MAX
    }
}

/// `n` as a sequence value, saturating at `i64::MAX`.
pub fn clamped_i64(n: usize) -> (r: i64)
    ensures
        r == clamp_i64(n),
{
    if (n as u64) <= (i64::MAX as u64) {
        n as i64
    } else {
        i64::MAX
    }
}

/// Whether `t` is one of the `n` sequences from `lo` on.
pub open spec fn in_batch(lo: int, n: int, t: int) -> bool {
    lo <= t < lo + n
}

/// Whether a consumer goes on after its handler returned `res` for the event
/// at `sequence`, left as `event`: the handler succeeded, or the exception
/// policy `exceptions` answered its error with `Continue`.
pub open spec fn continued<E, X: ExceptionHandler<E>>(
    exceptions: Option<&X>,
    res: DisruptorResult<()>,
    sequence: i64,
    event: E,
) -> bool {
    res is Ok || (exceptions matches Some(x) && call_ensures(
        X::handle_event_exception,
        (x, res->Err_0, sequence, &event),
        ErrorDecision::Continue,
    ))
}

/// Whether a consumer stops with `message` after its handler returned `res`
/// for the event at `sequence`, left as `event`: the handler failed with the
/// error whose message it is, and the exception policy `exceptions` (none:
/// the fatal default) answered with `Stop`.
pub open spec fn stopped_with<E, X: ExceptionHandler<E>>(
    exceptions: Option<&X>,
    res: DisruptorResult<()>,
    sequence: i64,
    event: E,
    message: Seq<char>,
) -> bool {
    &&& res is Err
    &&& message == error_message(res->Err_0)
    &&& exceptions matches Some(x) ==> call_ensures(
        X::handle_event_exception,
        (x, res->Err_0, sequence, &event),
        ErrorDecision::Stop,
    )
}

/// The last sequence a consumer step handed to its handler: where it
/// stopped or the end of its batch; `-1` for an idle step, which hands none.
pub open spec fn step_end(r: ConsumerStep) -> int {
    match r {
        ConsumerStep::Idle => -1,
        ConsumerStep::Processed { from, to } => to as int,
        ConsumerStep::Stopped { at } => at as int,
    }
}

/// `hs` is a run of handler states from `first` to `last`.
pub open spec fn handler_states<H>(hs: Seq<H>, first: H, last: H) -> bool {
    &&& hs.len() >= 1
    &&& hs[0] == first
    &&& hs.last() == last
}

/// How one step of a pool worker that reported `r` moves its pool's work
/// sequence from `before` to `after`, as [`Pipeline::process_work_item`]
/// states it: an idle step leaves it, any other step claims the sequence
/// after it and moves it there.
pub open spec fn pool_step(before: i64, r: ConsumerStep, after: i64) -> bool {
    match r {
        ConsumerStep::Idle => after == before,
        ConsumerStep::Processed { from, to } => from == before + 1 && to == from && after == from,
        ConsumerStep::Stopped { at } => at == before + 1 && after == at,
    }
}

/// The sequence a pool worker's step claimed, if any.
pub open spec fn step_claim(r: ConsumerStep) -> Option<i64> {
    match r {
        ConsumerStep::Idle => None,
        ConsumerStep::Processed { from, .. } => Some(from),
        ConsumerStep::Stopped { at } => Some(at),
    }
}

/// Whether `t` is the last sequence, `last`, of a batch.
pub open spec fn batch_end(t: int, last: int) -> bool {
    t == last
}

/// The last sequence a run of events handled: where it stopped, or `last`.
pub open spec fn run_end(stop: Option<(i64, String)>, last: i64) -> int {
    match stop {
        Some((s, _)) => s as int,
        None => last as int,
    }
}

/// `w` is `v` after claiming and publishing the batch `lo..=hi`: the consumers
/// and pools are untouched, and no ring slot outside the batch changed.
pub open spec fn batch_written<E>(v: PipelineView<E>, w: PipelineView<E>, lo: int, hi: int) -> bool {
    &&& published_batch(v.seq, w.seq, lo, hi)
    &&& w.deps == v.deps
    &&& w.pools == v.pools
    &&& w.work == v.work
    &&& w.ring.len() == v.ring.len()
    &&& forall|j: int|
        0 <= j < v.ring.len() && (forall|t: int| lo <= t <= hi ==> slot_of(t, v.seq.buffer_size) != j)
            ==> #[trigger] w.ring[j] == v.ring[j]
}

/// The slowest active consumer among `deps` bounds each of them and
/// `default`, and is one of them unless it is `default`.
pub proof fn lemma_dep_min(gating: Seq<Option<i64>>, deps: Seq<usize>, default: int)
    requires
        forall|k: int| 0 <= k < deps.len() ==> #[trigger] deps[k] < gating.len(),
    ensures
        dep_min(gating, deps, default) <= default,
        forall|k: int|
            0 <= k < deps.len() && #[trigger] gating[deps[k] as int] is Some ==> dep_min(
                gating,
                deps,
                default,
            ) <= gating[deps[k] as int]->Some_0,
        dep_min(gating, deps, default) == default || exists|k: int|
            0 <= k < deps.len() && #[trigger] gating[deps[k] as int] == Some(
                dep_min(gating, deps, default) as i64,
            ),
    decreases deps.len(),
{
    if deps.len() > 0 {
        let d = deps.drop_last();
        assert forall|k: int| 0 <= k < d.len() implies #[trigger] d[k] < gating.len() by {
            assert(d[k] == deps[k]);
        }
        lemma_dep_min(gating, d, default);
        assert forall|k: int|
            0 <= k < deps.len() && #[trigger] gating[deps[k] as int] is Some implies dep_min(
                gating,
                deps,
                default,
            ) <= gating[deps[k] as int]->Some_0 by {
            if k < deps.len() - 1 {
                assert(d[k] == deps[k]);
            }
        }
        let m = dep_min(gating, deps, default);
        let r = dep_min(gating, d, default);
        if m != default {
            if m == r {
                let k = choose|k: int| 0 <= k < d.len() && #[trigger] gating[d[k] as int] == Some(
                    r as i64,
                );
                assert(d[k] == deps[k]);
            } else {
                assert(deps.last() == deps[deps.len() - 1]);
                assert(gating[deps[deps.len() - 1] as int] == Some(m as i64));
            }
        }
    }
}

/// A sequence claimed beyond a state in which every claim was published (or
/// any state of a multi-producer pipeline) may be written until it is published.
pub proof fn lemma_claimed_writable<E>(v: PipelineView<E>, w: PipelineView<E>, s: int)
    requires
        v.wf(),
        w.seq.claimed >= v.seq.claimed,
        w.seq == (SequencerView { claimed: w.seq.claimed, ..v.seq }),
        v.seq.claimed < s <= w.seq.claimed,
        w.seq.claimed - w.seq.buffer_size < s,
        v.seq.published_cursor() == v.seq.claimed || v.seq.mode == ProducerType::Multi,
    ensures
        w.writable(s),
{
    if v.seq.mode == ProducerType::Multi {
        let size = v.seq.buffer_size as int;
        let i = s % size;
        vstd::arithmetic::div_mod::lemma_fundamental_div_mod(s, size);
        if w.seq.is_published(s) {
            assert(v.seq.available[i] == s / size);
            assert(v.seq.available[i] * size + i <= v.seq.claimed);
            assert(s == size * (s / size) + i);
            vstd::arithmetic::mul::lemma_mul_is_commutative(size, s / size);
        }
    }
}

proof fn lemma_published_run(v: SequencerView, lower: int, upper: int, r: int)
    requires
        lower - 1 <= r <= upper,
        forall|s: int| lower <= s <= r ==> v.is_published(s),
        r < upper ==> !v.is_published(r + 1),
    ensures
        published_run(v, lower, upper) == r,
    decreases r - lower + 1,
{
    if lower <= upper {
        if lower <= r {
            lemma_published_run(v, lower + 1, upper, r);
        }
    }
}

/// `w` is `v` with consumer `c` frozen at `frozen` and the pipeline poisoned;
/// the first failure is kept, or, when none was recorded, it is a failure of
/// this consumer at `at` (of event processing, or also of batch start when
/// `event_only` is false).
pub open spec fn stopped_as(
    v: SequencerView,
    w: SequencerView,
    c: int,
    frozen: i64,
    context: ConsumerContext,
    at: i64,
    event_only: bool,
) -> bool {
    &&& w == (SequencerView {
        gating: v.gating.update(c, Some(frozen)),
        poisoned: true,
        first_failure: w.first_failure,
        ..v
    })
    &&& v.first_failure is Some ==> w.first_failure == v.first_failure
    &&& v.first_failure is None ==> (w.first_failure matches Some(f) && f.thread_name == Some(
        context.name(),
    ) && f.stage_index == context.stage() && f.sequence == Some(at) && (f.phase
        == FailurePhase::EventProcessing || (!event_only && f.phase == FailurePhase::BatchStart)))
}

impl<E> PipelineView<E> {
    /// What a sequential consumer step of `c` reports from this state.
    pub open spec fn step_outcome(self, c: int, step: ConsumerStep) -> bool {
        let current = self.seq.gating[c]->Some_0;
        match step {
            ConsumerStep::Idle => self.available(c) <= current,
            ConsumerStep::Processed { from, to } => from == current + 1 && to == self.available(c)
                && from <= to,
            ConsumerStep::Stopped { at } => current < at <= self.available(c),
        }
    }

    /// The state after pool worker `c` catches up with its pool's work
    /// sequence, where its barrier lets it (otherwise this state).
    pub open spec fn work_snapshot(self, c: int) -> PipelineView<E> {
        let current = self.work[self.pools[c]->Some_0 as int];
        if self.seq.gating[c]->Some_0 < current && current <= self.upper(c) {
            PipelineView {
                seq: SequencerView { gating: self.seq.gating.update(c, Some(current)), ..self.seq },
                ..self
            }
        } else {
            self
        }
    }

    /// Whether pool worker `c` claims the sequence after its pool's work
    /// sequence now: it caught up with the work sequence, and its barrier makes
    /// the next sequence available.
    pub open spec fn work_claimable(self, c: int) -> bool {
        let current = self.work[self.pools[c]->Some_0 as int];
        let snap = self.work_snapshot(c);
        snap.seq.gating[c]->Some_0 == current && current < snap.available(c)
    }

    /// What a step of pool worker `c` reports from this state: the sequence
    /// after the pool's work sequence is the one it processed or stopped at.
    pub open spec fn work_outcome(self, c: int, step: ConsumerStep) -> bool {
        let next = self.work[self.pools[c]->Some_0 as int] + 1;
        match step {
            ConsumerStep::Idle => true,
            ConsumerStep::Processed { from, to } => from == next && to == next,
            ConsumerStep::Stopped { at } => at == next,
        }
    }

    /// What a single try-publish returns from this state.
    pub open spec fn try_publish_outcome(self, r: Result<i64, TryPublishError>) -> bool {
        &&& (r is Ok <==> self.seq.claim_succeeds(1))
        &&& (r matches Ok(s) ==> s == self.seq.claimed + 1)
        &&& (r matches Err(e) ==> e == self.rejection(self.single_refusal()))
    }

    /// What a batch try-publish of `n` events returns from this state.
    pub open spec fn try_batch_outcome(self, n: usize, r: Result<i64, TryPublishError>) -> bool {
        &&& (r is Ok <==> (1 <= n <= self.seq.buffer_size && self.seq.claim_succeeds(n as int)))
        &&& (r matches Ok(hi) ==> hi == self.seq.claimed + n)
        &&& (r matches Err(e) ==> e == self.rejection(
            if n == 0 || n > self.seq.buffer_size {
                TryPublishError::InvalidBatchSize { requested: n, capacity: self.seq.buffer_size as usize }
            } else {
                self.batch_refusal(n as nat)
            },
        ))
    }

    /// What a publish of `n` events (reporting refusals as errors) returns from this state.
    pub open spec fn publish_outcome(self, n: usize, r: DisruptorResult<i64>) -> bool {
        &&& (r is Ok <==> (1 <= n <= self.seq.buffer_size && self.seq.claim_succeeds(n as int)))
        &&& (r matches Ok(hi) ==> hi == self.seq.claimed + n)
        &&& (r matches Err(e) ==> e == if n == 0 || n > self.seq.buffer_size {
            DisruptorError::InvalidSequence(clamp_i64(n))
        } else if self.seq.poisoned {
            DisruptorError::Poisoned
        } else if self.seq.closed {
            DisruptorError::Shutdown
        } else {
            DisruptorError::InsufficientCapacity
        })
    }
}

/// The ring, its sequencer and the consumers gating it.
#[derive(Debug)]
pub struct Pipeline<E, W> {
    ring: RingBuffer<E>,
    sequencer: SequencerCore,
    wait_strategy: W,
    deps: Vec<Vec<usize>>,
    pools: Vec<Option<usize>>,
    work: Vec<i64>,
}

/// The view of a list of dependency lists.
pub open spec fn deps_view(d: Seq<Vec<usize>>) -> Seq<Seq<usize>> {
    Seq::new(d.len(), |i: int| d[i]@)
}

impl<E, W> View for Pipeline<E, W> {
    type V = PipelineView<E>;

    closed spec fn view(&self) -> PipelineView<E> {
        PipelineView {
            ring: self.ring@,
            seq: self.sequencer@,
            deps: deps_view(self.deps@),
            pools: self.pools@,
            work: self.work@,
        }
    }
}

impl<E, W: WaitStrategy> Pipeline<E, W> {
    /// The pipeline invariant, including the ring's own.
    pub closed spec fn wf(&self) -> bool {
        &&& self.ring.wf()
        &&& self@.wf()
    }

    /// The invariant includes that of the view.
    pub proof fn lemma_view_wf(&self)
        requires
            self.wf(),
        ensures
            self@.wf(),
    {
    }

    /// How the ring's slots are padded, and the strategy consumers wait with.
    pub closed spec fn setup(self) -> (SlotPadding, W) {
        (self.ring.padding_spec(), self.wait_strategy)
    }

    /// A pipeline over `ring` coordinated by `sequencer`, with no consumers yet.
    pub fn new(ring: RingBuffer<E>, sequencer: SequencerEnum<W>) -> (p: Self)
        requires
            ring.wf(),
            sequencer.state().wf(),
            ring.size() == sequencer.state().buffer_size,
            sequencer.state().gating.len() == 0,
        ensures
            p.wf(),
            p.setup() == (ring.padding_spec(), sequencer.waits_with()),
            p@.ring == ring@,
            p@.seq == sequencer.state(),
            p@.deps == Seq::<Seq<usize>>::empty(),
            p@.pools == Seq::<Option<usize>>::empty(),
            p@.work == Seq::<i64>::empty(),
    {
        let (core, wait_strategy) = sequencer.into_parts();
        let p = Pipeline {
            ring,
            sequencer: core,
            wait_strategy,
            deps: Vec::new(),
            pools: Vec::new(),
            work: Vec::new(),
        };
        proof {
            assert(p@.deps =~= Seq::<Seq<usize>>::empty());
        }
        p
    }

    /// Number of ring slots.
    pub fn buffer_size(&self) -> (n: usize)
        ensures
            n == self@.seq.buffer_size,
    {
        self.sequencer.buffer_size()
    }

    /// How the ring's slots are padded.
    pub fn slot_padding(&self) -> (p: SlotPadding)
        ensures
            p == self.setup().0,
    {
        self.ring.padding()
    }

    /// The strategy consumers wait with.
    pub fn wait_strategy(&self) -> (w: &W)
        ensures
            *w == self.setup().1,
    {
        &self.wait_strategy
    }

    /// The cursor; see [`SequencerCore::cursor`].
    pub fn cursor(&self) -> (c: i64)
        ensures
            c == self@.seq.published_cursor(),
    {
        self.sequencer.cursor()
    }

    /// Free slots right now.
    pub fn remaining_capacity(&self) -> (r: i64)
        requires
            self.wf(),
        ensures
            r == self@.seq.remaining(),
    {
        self.sequencer.remaining_capacity()
    }

    /// Whether the pipeline was poisoned.
    pub fn is_poisoned(&self) -> (r: bool)
        ensures
            r == self@.seq.poisoned,
    {
        self.sequencer.is_poisoned()
    }

    /// Whether the claim path is closed.
    pub fn is_closed(&self) -> (r: bool)
        ensures
            r == self@.seq.closed,
    {
        self.sequencer.is_closed()
    }

    /// A copy of the first recorded failure.
    pub fn first_failure(&self) -> (r: Option<FailureRecord>)
        ensures
            opt_record(r) == self@.seq.first_failure,
    {
        self.sequencer.first_failure()
    }

    /// The event stored for `sequence`.
    pub fn event(&self, sequence: i64) -> (e: &E)
        requires
            self.wf(),
            sequence >= 0,
        ensures
            *e == self@.event_at(sequence as int),
    {
        self.ring.get(sequence)
    }

    /// Records a failure (the first is kept) without poisoning.
    pub fn record_failure(&mut self, failure: &FailureRecord)
        requires
            old(self).wf(),
        ensures
            final(self).wf(),
            final(self)@ == (PipelineView {
                seq: SequencerView {
                    first_failure: kept_failure(old(self)@.seq.first_failure, failure@),
                    ..old(self)@.seq
                },
                ..old(self)@
            }),
    {
        self.sequencer.record_failure(failure);
    }

    /// Records a failure (the first is kept) and poisons the pipeline.
    pub fn poison_with_failure(&mut self, failure: &FailureRecord)
        requires
            old(self).wf(),
        ensures
            final(self).wf(),
            final(self)@ == (PipelineView {
                seq: SequencerView {
                    first_failure: kept_failure(old(self)@.seq.first_failure, failure@),
                    poisoned: true,
                    ..old(self)@.seq
                },
                ..old(self)@
            }),
    {
        self.sequencer.poison_with_failure(failure);
    }

    /// Poisons the pipeline without a record.
    pub fn poison(&mut self)
        requires
            old(self).wf(),
        ensures
            final(self).wf(),
            final(self)@ == (PipelineView {
                seq: SequencerView { poisoned: true, ..old(self)@.seq },
                ..old(self)@
            }),
    {
        self.sequencer.poison();
    }

    /// Closes the claim path (shutdown or halt).
    pub fn close(&mut self)
        requires
            old(self).wf(),
        ensures
            final(self).wf(),
            final(self)@ == (PipelineView {
                seq: SequencerView { closed: true, ..old(self)@.seq },
                ..old(self)@
            }),
    {
        self.sequencer.close();
    }

    /// Claims the next sequence, fills its event with `update`, and publishes it.
    ///
    /// Refused when the pipeline is poisoned or closed, or when the slot is not
    /// released yet; a refusal changes nothing and says why.
    pub fn try_publish<F: FnOnce(&mut E)>(&mut self, update: F) -> (r: Result<i64, TryPublishError>)
        requires
            old(self).wf(),
            forall|e: &mut E| update.requires((e,)),
        ensures
            final(self).wf(),
            r is Ok <==> old(self)@.seq.claim_succeeds(1),
            match r {
                Ok(s) => {
                    &&& s == old(self)@.seq.claimed + 1
                    &&& final(self)@.seq == published_one(old(self)@.seq, s as int)
                    &&& final(self)@.deps == old(self)@.deps
                    &&& final(self)@.pools == old(self)@.pools
                    &&& final(self)@.work == old(self)@.work
                    &&& exists|e: &mut E|
                        *e == old(self)@.event_at(s as int) && final(self)@.ring == old(self)@.ring.update(slot_of(s as int, old(self)@.seq.buffer_size), *final(e))
                            && update.ensures((e,), ())
                },
                Err(e) => final(self)@ == old(self)@ && e == old(self)@.rejection(
                    old(self)@.single_refusal(),
                ),
            },
            forall|s: int|
                old(self)@.seq.gate() < s <= old(self)@.seq.claimed ==> #[trigger] final(self)@.event_at(s) == old(self)@.event_at(s),
    {
        let claim = self.sequencer.try_next();
        match claim {
            None => {
                let transient = if self.sequencer.remaining_capacity() > 0 {
                    TryPublishError::Contended
                } else {
                    TryPublishError::Full(RingBufferFull)
                };
                Err(self.classify_rejection(transient))
            },
            Some(s) => {
                proof {
                    lemma_min_gating_bound(old(self)@.seq.gating, old(self)@.seq.claimed);
                    lemma_min_gating_floor(old(self)@.seq.gating, old(self)@.seq.claimed, -1);
                }
                self.ring.update_with(s, update);
                self.sequencer.publish(s);
                proof {
                    let size = old(self)@.seq.buffer_size as int;
                    assert forall|t: int|
                        old(self)@.seq.gate() < t <= old(self)@.seq.claimed implies #[trigger] final(self)@.event_at(t) == old(self)@.event_at(t) by {
                        lemma_distinct_slots(t, s as int, size);
                    }
                    assert(final(self)@.seq =~= published_one(old(self)@.seq, s as int));
                }
                Ok(s)
            },
        }
    }

    /// A terminal state (poisoned, then closed) wins over the transient reason.
    fn classify_rejection(&self, transient: TryPublishError) -> (e: TryPublishError)
        ensures
            e == self@.rejection(transient),
    {
        if self.sequencer.is_poisoned() {
            TryPublishError::Poisoned
        } else if self.sequencer.is_closed() {
            TryPublishError::Shutdown
        } else {
            transient
        }
    }

    /// Claims `n` sequences for a batch and returns the highest one; the
    /// batch must then be written and published.
    ///
    /// Refused (changing nothing) when `n` is zero or exceeds the ring, when the
    /// pipeline is poisoned or closed, or when the slots are not released yet.
    pub fn try_claim(&mut self, n: usize) -> (r: Result<i64, TryPublishError>)
        requires
            old(self).wf(),
        ensures
            final(self).wf(),
            match r {
                Ok(hi) => {
                    &&& 1 <= n <= old(self)@.seq.buffer_size
                    &&& old(self)@.seq.claim_succeeds(n as int)
                    &&& hi == old(self)@.seq.claimed + n
                    &&& final(self)@ == (PipelineView {
                        seq: old(self)@.seq.after_claim(n as int),
                        ..old(self)@
                    })
                },
                Err(e) => {
                    &&& final(self)@ == old(self)@
                    &&& e == old(self)@.rejection(
                        if n == 0 || n > old(self)@.seq.buffer_size {
                            TryPublishError::InvalidBatchSize {
                                requested: n,
                                capacity: old(self)@.seq.buffer_size as usize,
                            }
                        } else {
                            old(self)@.batch_refusal(n as nat)
                        },
                    )
                    &&& (1 <= n <= old(self)@.seq.buffer_size ==> !old(self)@.seq.claim_succeeds(
                        n as int,
                    ))
                },
            },
    {
        let capacity = self.sequencer.buffer_size();
        if n == 0 || n > capacity {
            return Err(
                self.classify_rejection(TryPublishError::InvalidBatchSize { requested: n, capacity }),
            );
        }
        let batch = n as i64;
        match self.sequencer.try_next_n(batch) {
            Some(hi) => Ok(hi),
            None => {
                let remaining = self.sequencer.remaining_capacity();
                let free: u64 = if remaining > 0 {
                    remaining as u64
                } else {
                    0
                };
                let wanted = n as u64;
                let transient = if wanted <= free {
                    TryPublishError::Contended
                } else {
                    TryPublishError::MissingFreeSlots(MissingFreeSlots(wanted - free))
                };
                Err(self.classify_rejection(transient))
            },
        }
    }

    /// Claims `n` sequences for a batch, reporting a refusal as an error: an
    /// invalid size, a poisoned or closed pipeline, or slots not released yet.
    pub fn claim(&mut self, n: usize) -> (r: DisruptorResult<i64>)
        requires
            old(self).wf(),
        ensures
            final(self).wf(),
            match r {
                Ok(hi) => {
                    &&& 1 <= n <= old(self)@.seq.buffer_size
                    &&& old(self)@.seq.claim_succeeds(n as int)
                    &&& hi == old(self)@.seq.claimed + n
                    &&& final(self)@ == (PipelineView {
                        seq: old(self)@.seq.after_claim(n as int),
                        ..old(self)@
                    })
                },
                Err(e) => {
                    &&& final(self)@ == old(self)@
                    &&& e == if n == 0 || n > old(self)@.seq.buffer_size {
                        DisruptorError::InvalidSequence(clamp_i64(n))
                    } else if old(self)@.seq.poisoned {
                        DisruptorError::Poisoned
                    } else if old(self)@.seq.closed {
                        DisruptorError::Shutdown
                    } else {
                        DisruptorError::InsufficientCapacity
                    }
                    &&& (1 <= n <= old(self)@.seq.buffer_size ==> !old(self)@.seq.claim_succeeds(
                        n as int,
                    ))
                },
            },
    {
        let capacity = self.sequencer.buffer_size();
        if n == 0 || n > capacity {
            return Err(DisruptorError::InvalidSequence(clamped_i64(n)));
        }
        self.sequencer.next_n(n as i64)
    }

    /// Writes the claimed, not yet published `sequence` with `update`,
    /// passing `index` (its position within its batch) along.
    pub fn write_claimed<F: Fn(usize, &mut E)>(&mut self, sequence: i64, index: usize, update: &F)
        requires
            old(self).wf(),
            old(self)@.writable(sequence as int),
            forall|i: usize, e: &mut E| update.requires((i, e)),
        ensures
            final(self).wf(),
            final(self)@.seq == old(self)@.seq,
            final(self)@.deps == old(self)@.deps,
            final(self)@.pools == old(self)@.pools,
            final(self)@.work == old(self)@.work,
            exists|e: &mut E|
                *e == old(self)@.event_at(sequence as int) && final(self)@.ring == old(self)@.ring.update(slot_of(sequence as int, old(self)@.seq.buffer_size), *final(e))
                    && update.ensures((index, e), ()),
            forall|s: int|
                old(self)@.seq.gate() < s <= old(self)@.seq.claimed && s != sequence ==> #[trigger] final(self)@.event_at(s) == old(self)@.event_at(s),
    {
        proof {
            lemma_min_gating_bound(old(self)@.seq.gating, old(self)@.seq.claimed);
            lemma_min_gating_floor(old(self)@.seq.gating, old(self)@.seq.claimed, -1);
        }
        self.ring.update_indexed(sequence, index, update);
        proof {
            let size = old(self)@.seq.buffer_size as int;
            assert forall|t: int|
                old(self)@.seq.gate() < t <= old(self)@.seq.claimed && t != sequence implies #[trigger] final(self)@.event_at(t) == old(self)@.event_at(t) by {
                lemma_distinct_slots(t, sequence as int, size);
            }
        }
    }

    /// Claims the next sequence, to be written and published; refused
    /// (changing nothing) as [`Self::try_publish`] is.
    pub fn try_claim_next(&mut self) -> (r: Result<i64, TryPublishError>)
        requires
            old(self).wf(),
        ensures
            final(self).wf(),
            r is Ok <==> old(self)@.seq.claim_succeeds(1),
            r matches Ok(s) ==> s == old(self)@.seq.claimed + 1 && final(self)@ == (PipelineView {
                seq: old(self)@.seq.after_claim(1),
                ..old(self)@
            }),
            r matches Err(e) ==> final(self)@ == old(self)@ && e == old(self)@.rejection(
                old(self)@.single_refusal(),
            ),
    {
        match self.sequencer.try_next() {
            Some(s) => Ok(s),
            None => {
                let transient = if self.sequencer.remaining_capacity() > 0 {
                    TryPublishError::Contended
                } else {
                    TryPublishError::Full(RingBufferFull)
                };
                Err(self.classify_rejection(transient))
            },
        }
    }

    /// Writes the claimed, not yet published `sequence` with `update`.
    pub fn write_claimed_with<F: FnOnce(&mut E)>(&mut self, sequence: i64, update: F)
        requires
            old(self).wf(),
            old(self)@.writable(sequence as int),
            forall|e: &mut E| update.requires((e,)),
        ensures
            final(self).wf(),
            final(self)@.seq == old(self)@.seq,
            final(self)@.deps == old(self)@.deps,
            final(self)@.pools == old(self)@.pools,
            final(self)@.work == old(self)@.work,
            exists|e: &mut E|
                *e == old(self)@.event_at(sequence as int) && final(self)@.ring == old(self)@.ring.update(slot_of(sequence as int, old(self)@.seq.buffer_size), *final(e))
                    && update.ensures((e,), ()),
    {
        self.ring.update_with(sequence, update);
    }

    /// Publishes the claimed batch `lo..=hi`.
    pub fn publish_claimed(&mut self, lo: i64, hi: i64)
        requires
            old(self).wf(),
            0 <= lo <= hi <= old(self)@.seq.claimed,
            old(self)@.seq.claimed - old(self)@.seq.buffer_size < lo,
            old(self)@.seq.mode == ProducerType::Single ==> old(self)@.seq.cursor < lo,
        ensures
            final(self).wf(),
            final(self)@.ring == old(self)@.ring,
            final(self)@.deps == old(self)@.deps,
            final(self)@.pools == old(self)@.pools,
            final(self)@.work == old(self)@.work,
            forall|s: int| lo <= s <= hi ==> final(self)@.seq.is_published(s),
            old(self)@.seq.mode == ProducerType::Single ==> final(self)@.seq == (SequencerView {
                cursor: hi as int,
                ..old(self)@.seq
            }),
            old(self)@.seq.mode == ProducerType::Multi ==> final(self)@.seq == (SequencerView {
                available: final(self)@.seq.available,
                ..old(self)@.seq
            }),
            forall|s: int|
                #![trigger old(self)@.seq.is_published(s)]
                0 <= s && !(lo <= s <= hi) && old(self)@.seq.claimed - old(self)@.seq.buffer_size < s
                    <= old(self)@.seq.claimed && old(self)@.seq.is_published(s)
                    ==> final(self)@.seq.is_published(s),
    {
        self.sequencer.publish_range(lo, hi);
    }

    /// The highest claimed sequence.
    pub fn claimed(&self) -> (c: i64)
        ensures
            c == self@.seq.claimed,
    {
        self.sequencer.claimed()
    }

    /// Writes the claimed sequences `lo + k..lo + n` of the batch claimed
    /// from `v`, each with `update` given its index in the batch.
    fn write_from<F: Fn(usize, &mut E)>(
        &mut self,
        lo: i64,
        k: usize,
        n: usize,
        update: &F,
        Ghost(v): Ghost<PipelineView<E>>,
    )
        requires
            old(self).wf(),
            v.wf(),
            1 <= n <= v.seq.buffer_size,
            k <= n,
            v.seq.claim_succeeds(n as int),
            lo == v.seq.claimed + 1,
            old(self)@.seq == v.seq.after_claim(n as int),
            old(self)@.deps == v.deps,
            old(self)@.pools == v.pools,
            old(self)@.work == v.work,
            old(self)@.ring.len() == v.ring.len(),
            v.seq.published_cursor() == v.seq.claimed || v.seq.mode == ProducerType::Multi,
            forall|t: int| lo + k <= t < lo + n ==> #[trigger] old(self)@.event_at(t) == v.event_at(t),
            forall|i: usize, e: &mut E| update.requires((i, e)),
        ensures
            final(self).wf(),
            final(self)@.seq == old(self)@.seq,
            final(self)@.deps == old(self)@.deps,
            final(self)@.pools == old(self)@.pools,
            final(self)@.work == old(self)@.work,
            final(self)@.ring.len() == old(self)@.ring.len(),
            forall|j: int|
                0 <= j < v.ring.len() && (forall|t: int|
                    lo + k <= t < lo + n ==> slot_of(t, v.seq.buffer_size) != j) ==> #[trigger] final(self)@.ring[j]
                    == old(self)@.ring[j],
            forall|t: int|
                #![trigger in_batch(lo + k, n - k, t)]
                in_batch(lo + k, n - k, t) ==> exists|e: &mut E|
                    *e == v.event_at(t) && final(self)@.ring[slot_of(t, v.seq.buffer_size)] == *final(e)
                        && update.ensures(((t - lo) as usize, e), ()),
        decreases n - k,
    {
        if k < n {
            proof {
                lemma_min_gating_floor(v.seq.gating, v.seq.claimed, -1);
            }
            let s: i64 = lo + k as i64;
            proof {
                lemma_claimed_writable(v, self@, s as int);
            }
            let ghost before = self@;
            self.write_claimed(s, k, update);
            let ghost mid = self@;
            proof {
                let size = v.seq.buffer_size as int;
                assert forall|t: int| lo + k + 1 <= t < lo + n implies #[trigger] mid.event_at(t) == v.event_at(t) by {
                    lemma_distinct_slots(t, s as int, size);
                    assert(before.event_at(t) == v.event_at(t));
                }
            }
            self.write_from(lo, k + 1, n, update, Ghost(v));
            proof {
                let size = v.seq.buffer_size as int;
                let w = self@;
                let js = slot_of(s as int, v.seq.buffer_size);
                vstd::arithmetic::div_mod::lemma_mod_pos_bound(s as int, size);
                assert forall|t: int|
                    #![trigger slot_of(t, v.seq.buffer_size)]
                    lo + k + 1 <= t < lo + n implies slot_of(t, v.seq.buffer_size) != js by {
                    lemma_distinct_slots(t, s as int, size);
                }
                assert(w.ring[js] == mid.ring[js]);
                let e0 = choose|e: &mut E|
                    *e == before.event_at(s as int) && mid.ring == before.ring.update(js, *final(e))
                        && update.ensures((k, e), ());
                assert forall|t: int|
                    #![trigger in_batch(lo + k, n - k, t)]
                    in_batch(lo + k, n - k, t) implies exists|e: &mut E|
                        *e == v.event_at(t) && w.ring[slot_of(t, v.seq.buffer_size)] == *final(e)
                            && update.ensures(((t - lo) as usize, e), ()) by {
                    if t == s {
                        assert(before.event_at(s as int) == v.event_at(s as int));
                        assert(((t - lo) as usize) == k);
                        assert(*e0 == v.event_at(t) && *final(e0) == w.ring[slot_of(t, v.seq.buffer_size)]
                            && update.ensures(((t - lo) as usize, e0), ()));
                    } else {
                        assert(in_batch(lo + (k + 1), n - (k + 1), t));
                    }
                }
                assert forall|j: int|
                    0 <= j < v.ring.len() && (forall|t: int|
                        lo + k <= t < lo + n ==> slot_of(t, v.seq.buffer_size) != j) implies #[trigger] w.ring[j]
                        == before.ring[j] by {
                    assert(slot_of(s as int, v.seq.buffer_size) != j);
                    assert(mid.ring[j] == before.ring[j]);
                }
            }
        }
    }

    /// Writes the `n` sequences just claimed from `v` (the state before the
    /// claim), passing each its index within the batch, then publishes them.
    pub(crate) fn write_and_publish<F: Fn(usize, &mut E)>(
        &mut self,
        n: usize,
        update: &F,
        Ghost(v): Ghost<PipelineView<E>>,
    )
        requires
            old(self).wf(),
            v.wf(),
            1 <= n <= v.seq.buffer_size,
            v.seq.claim_succeeds(n as int),
            old(self)@ == (PipelineView { seq: v.seq.after_claim(n as int), ..v }),
            v.seq.published_cursor() == v.seq.claimed || v.seq.mode == ProducerType::Multi,
            forall|i: usize, e: &mut E| update.requires((i, e)),
        ensures
            final(self).wf(),
            batch_written(v, final(self)@, v.seq.claimed + 1, v.seq.claimed + n),
            forall|t: int|
                #![trigger in_batch(v.seq.claimed + 1, n as int, t)]
                in_batch(v.seq.claimed + 1, n as int, t) ==> exists|e: &mut E|
                    *e == v.event_at(t) && final(self)@.ring[slot_of(t, v.seq.buffer_size)] == *final(e)
                        && update.ensures(((t - v.seq.claimed - 1) as usize, e), ()),
    {
        let hi: i64 = self.sequencer.claimed();
        let lo: i64 = hi - (n as i64 - 1);
        self.write_from(lo, 0, n, update, Ghost(v));
        let ghost written = self@;
        self.publish_claimed(lo, hi);
        proof {
            let w = self@;
            assert forall|s: int|
                #![trigger v.seq.is_published(s)]
                0 <= s && hi - v.seq.buffer_size < s <= v.seq.claimed && v.seq.is_published(s)
                    implies w.seq.is_published(s) by {
                assert(written.seq.is_published(s) == v.seq.is_published(s));
            }
            assert forall|t: int|
                #![trigger in_batch(v.seq.claimed + 1, n as int, t)]
                in_batch(v.seq.claimed + 1, n as int, t) implies exists|e: &mut E|
                    *e == v.event_at(t) && w.ring[slot_of(t, v.seq.buffer_size)] == *final(e)
                        && update.ensures(((t - v.seq.claimed - 1) as usize, e), ()) by {
                assert(in_batch(lo + 0, n - 0, t));
            }
        }
    }

    /// Writes the sequence `s` just claimed from `v` (the state before the
    /// claim) with `update`, then publishes it.
    pub(crate) fn write_and_publish_one<F: FnOnce(&mut E)>(
        &mut self,
        s: i64,
        update: F,
        Ghost(v): Ghost<PipelineView<E>>,
    )
        requires
            old(self).wf(),
            v.wf(),
            v.seq.claim_succeeds(1),
            s == v.seq.claimed + 1,
            old(self)@ == (PipelineView { seq: v.seq.after_claim(1), ..v }),
            v.seq.published_cursor() == v.seq.claimed || v.seq.mode == ProducerType::Multi,
            forall|e: &mut E| update.requires((e,)),
        ensures
            final(self).wf(),
            batch_written(v, final(self)@, s as int, s as int),
            exists|e: &mut E|
                *e == v.event_at(s as int) && final(self)@.ring[slot_of(s as int, v.seq.buffer_size)] == *final(e)
                    && update.ensures((e,), ()),
    {
        proof {
            lemma_claimed_writable(v, self@, s as int);
        }
        self.write_claimed_with(s, update);
        let ghost written = self@;
        self.publish_claimed(s, s);
        proof {
            let w = self@;
            let size = v.seq.buffer_size as int;
            vstd::arithmetic::div_mod::lemma_mod_pos_bound(s as int, size);
            assert forall|q: int|
                #![trigger v.seq.is_published(q)]
                0 <= q && s - v.seq.buffer_size < q <= v.seq.claimed && v.seq.is_published(q)
                    implies w.seq.is_published(q) by {
                assert(written.seq.is_published(q) == v.seq.is_published(q));
            }
            assert forall|j: int|
                0 <= j < v.ring.len() && (forall|t: int| s <= t <= s ==> slot_of(t, v.seq.buffer_size) != j)
                    implies #[trigger] w.ring[j] == v.ring[j] by {
                assert(slot_of(s as int, v.seq.buffer_size) != j);
            }
        }
    }

    /// Claims `n` sequences, writes each with `update` (given its index in
    /// the batch), publishes them all and returns the highest one.
    ///
    /// Refused (changing nothing, `update` never runs) as [`Self::try_claim`] is.
    pub fn try_batch_publish<F: Fn(usize, &mut E)>(&mut self, n: usize, update: &F) -> (r: Result<
        i64,
        TryPublishError,
    >)
        requires
            old(self).wf(),
            old(self)@.settled(),
            forall|i: usize, e: &mut E| update.requires((i, e)),
        ensures
            final(self).wf(),
            final(self)@.settled(),
            old(self)@.try_batch_outcome(n, r),
            r is Err ==> final(self)@ == old(self)@,
            r matches Ok(hi) ==> batch_written(old(self)@, final(self)@, hi - n + 1, hi as int),
            r matches Ok(hi) ==> forall|t: int|
                #![trigger in_batch(hi - n + 1, n as int, t)]
                in_batch(hi - n + 1, n as int, t) ==> exists|e: &mut E|
                    *e == old(self)@.event_at(t) && final(self)@.ring[slot_of(t, old(self)@.seq.buffer_size)]
                        == *final(e) && update.ensures(((t - (hi - n + 1)) as usize, e), ()),
    {
        let hi = match self.try_claim(n) {
            Ok(hi) => hi,
            Err(e) => {
                return Err(e);
            },
        };
        self.write_and_publish(n, update, Ghost(old(self)@));
        proof {
            let v = old(self)@;
            let w = self@;
            assert forall|t: int|
                #![trigger in_batch(hi - n + 1, n as int, t)]
                in_batch(hi - n + 1, n as int, t) implies exists|e: &mut E|
                    *e == v.event_at(t) && w.ring[slot_of(t, v.seq.buffer_size)] == *final(e)
                        && update.ensures(((t - (hi - n + 1)) as usize, e), ()) by {
                assert(in_batch(v.seq.claimed + 1, n as int, t));
            }
        }
        Ok(hi)
    }

    /// Claims the next sequence, fills its event with `update`, and publishes
    /// it, reporting a refusal as an error: a poisoned or closed pipeline, or
    /// a slot not released yet (`InsufficientCapacity`; nothing waits here).
    pub fn publish<F: FnOnce(&mut E)>(&mut self, update: F) -> (r: DisruptorResult<i64>)
        requires
            old(self).wf(),
            forall|e: &mut E| update.requires((e,)),
        ensures
            final(self).wf(),
            old(self)@.publish_outcome(1, r),
            r is Err ==> final(self)@ == old(self)@,
            r matches Ok(s) ==> {
                &&& final(self)@.seq == published_one(old(self)@.seq, s as int)
                &&& final(self)@.deps == old(self)@.deps
                &&& final(self)@.pools == old(self)@.pools
                &&& final(self)@.work == old(self)@.work
                &&& exists|e: &mut E|
                    *e == old(self)@.event_at(s as int) && final(self)@.ring == old(self)@.ring.update(
                        slot_of(s as int, old(self)@.seq.buffer_size),
                        *final(e),
                    ) && update.ensures((e,), ())
            },
    {
        let s = match self.claim(1) {
            Ok(s) => s,
            Err(e) => {
                return Err(e);
            },
        };
        proof {
            lemma_min_gating_bound(old(self)@.seq.gating, old(self)@.seq.claimed);
            lemma_min_gating_floor(old(self)@.seq.gating, old(self)@.seq.claimed, -1);
        }
        self.ring.update_with(s, update);
        self.sequencer.publish(s);
        proof {
            assert(final(self)@.seq =~= published_one(old(self)@.seq, s as int));
        }
        Ok(s)
    }

    /// Claims `n` sequences, writes and publishes them as
    /// [`Self::try_batch_publish`] does, reporting a refusal as
    /// [`Self::claim`] does (`update` never runs then).
    pub fn batch_publish<F: Fn(usize, &mut E)>(&mut self, n: usize, update: &F) -> (r: DisruptorResult<i64>)
        requires
            old(self).wf(),
            old(self)@.settled(),
            forall|i: usize, e: &mut E| update.requires((i, e)),
        ensures
            final(self).wf(),
            final(self)@.settled(),
            old(self)@.publish_outcome(n, r),
            r is Err ==> final(self)@ == old(self)@,
            r matches Ok(hi) ==> batch_written(old(self)@, final(self)@, hi - n + 1, hi as int),
            r matches Ok(hi) ==> forall|t: int|
                #![trigger in_batch(hi - n + 1, n as int, t)]
                in_batch(hi - n + 1, n as int, t) ==> exists|e: &mut E|
                    *e == old(self)@.event_at(t) && final(self)@.ring[slot_of(t, old(self)@.seq.buffer_size)]
                        == *final(e) && update.ensures(((t - (hi - n + 1)) as usize, e), ()),
    {
        let hi = match self.claim(n) {
            Ok(hi) => hi,
            Err(e) => {
                return Err(e);
            },
        };
        self.write_and_publish(n, update, Ghost(old(self)@));
        proof {
            let v = old(self)@;
            let w = self@;
            assert forall|t: int|
                #![trigger in_batch(hi - n + 1, n as int, t)]
                in_batch(hi - n + 1, n as int, t) implies exists|e: &mut E|
                    *e == v.event_at(t) && w.ring[slot_of(t, v.seq.buffer_size)] == *final(e)
                        && update.ensures(((t - (hi - n + 1)) as usize, e), ()) by {
                assert(in_batch(v.seq.claimed + 1, n as int, t));
            }
        }
        Ok(hi)
    }

    /// The value of consumer `c`'s sequence, if `c` is registered and active.
    pub fn consumer_sequence(&self, c: usize) -> (r: Option<i64>)
        requires
            c < self@.seq.gating.len(),
        ensures
            r == self@.seq.gating[c as int],
    {
        self.sequencer.gating_sequence(c)
    }

    /// Whether every active consumer has processed every claimed sequence.
    pub fn drained(&self) -> (r: bool)
        requires
            self.wf(),
        ensures
            r == (self@.seq.gate() == self@.seq.claimed),
    {
        self.sequencer.minimum_gating() == self.sequencer.claimed()
    }

    /// The worker pool of consumer `c`, if it is a pool worker.
    pub fn consumer_pool(&self, c: usize) -> (r: Option<usize>)
        requires
            self.wf(),
            c < self@.seq.gating.len(),
        ensures
            r == self@.pools[c as int],
    {
        self.pools[c]
    }

    /// Number of worker pools created.
    pub fn pool_count(&self) -> (n: usize)
        ensures
            n == self@.work.len(),
    {
        self.work.len()
    }

    /// Number of consumers ever registered.
    pub fn consumer_count(&self) -> (n: usize)
        ensures
            n == self@.seq.gating.len(),
    {
        self.sequencer.gating_count()
    }

    /// The smallest active sequence among `deps`, or `default` when none is active.
    fn min_of(&self, deps: &Vec<usize>, default: i64) -> (m: i64)
        requires
            self.wf(),
            forall|k: int| 0 <= k < deps@.len() ==> #[trigger] deps@[k] < self@.seq.gating.len(),
        ensures
            m == dep_min(self@.seq.gating, deps@, default as int),
    {
        let mut m = default;
        let mut k: usize = 0;
        while k < deps.len()
            invariant
                k <= deps@.len(),
                forall|j: int| 0 <= j < deps@.len() ==> #[trigger] deps@[j] < self@.seq.gating.len(),
                m == dep_min(self@.seq.gating, deps@.subrange(0, k as int), default as int),
            decreases deps@.len() - k,
        {
            proof {
                assert(deps@.subrange(0, k + 1).drop_last() =~= deps@.subrange(0, k as int));
                assert(deps@.subrange(0, k + 1).last() == deps@[k as int]);
            }
            match self.sequencer.gating_sequence(deps[k]) {
                Some(g) => {
                    if g < m {
                        m = g;
                    }
                },
                None => {},
            }
            k = k + 1;
        }
        proof {
            assert(deps@.subrange(0, deps@.len() as int) =~= deps@);
        }
        m
    }

    /// The barrier bound of consumer `c`.
    pub fn upper(&self, c: usize) -> (u: i64)
        requires
            self.wf(),
            c < self@.seq.gating.len(),
        ensures
            u == self@.upper(c as int),
    {
        proof {
            assert(self@.deps[c as int] == self.deps@[c as int]@);
        }
        let cursor = self.sequencer.cursor();
        self.min_of(&self.deps[c], cursor)
    }

    /// The highest sequence active consumer `c` may process next.
    pub fn barrier_available(&self, c: usize) -> (a: i64)
        requires
            self.wf(),
            self@.active(c as int),
        ensures
            a == self@.available(c as int),
            self@.seq.gating[c as int]->Some_0 <= a <= self@.upper(c as int),
            forall|s: int| self@.seq.gating[c as int]->Some_0 < s <= a ==> self@.seq.is_published(s),
    {
        let current = match self.sequencer.gating_sequence(c) {
            Some(g) => g,
            None => 0,
        };
        let upper = self.upper(c);
        proof {
            let v = self@;
            assert(v.deps[c as int] == self.deps@[c as int]@);
            lemma_dep_min(v.seq.gating, v.deps[c as int], v.seq.published_cursor());
            assert forall|k: int|
                0 <= k < v.deps[c as int].len() && #[trigger] v.seq.gating[v.deps[c as int][k] as int] is Some
                    implies current <= v.seq.gating[v.deps[c as int][k] as int]->Some_0 by {
            }
            lemma_min_gating_floor(v.seq.gating, v.seq.claimed, -1);
        }
        if current == i64::MAX {
            return current;
        }
        let a = self.sequencer.highest_published_sequence(current + 1, upper);
        proof {
            lemma_published_run(self@.seq, current + 1, upper as int, a as int);
        }
        a
    }

    /// Registers a consumer that waits for the consumers `deps` (for none, it
    /// follows the cursor) and returns its index. It starts at the slowest
    /// active consumer it waits for, or at the cursor.
    pub fn add_consumer(&mut self, deps: Vec<usize>) -> (c: usize)
        requires
            old(self).wf(),
            old(self)@.seq.published_cursor() == old(self)@.seq.claimed,
            forall|k: int| 0 <= k < deps@.len() ==> #[trigger] deps@[k] < old(self)@.seq.gating.len(),
        ensures
            final(self).wf(),
            final(self).setup() == old(self).setup(),
            c == old(self)@.seq.gating.len(),
            final(self)@ == (PipelineView {
                seq: SequencerView {
                    gating: old(self)@.seq.gating.push(
                        Some(dep_min(old(self)@.seq.gating, deps@, old(self)@.seq.claimed) as i64),
                    ),
                    ..old(self)@.seq
                },
                deps: old(self)@.deps.push(deps@),
                pools: old(self)@.pools.push(None),
                ..old(self)@
            }),
    {
        let claimed = self.sequencer.claimed();
        let initial = self.min_of(&deps, claimed);
        proof {
            let v = old(self)@;
            lemma_dep_min(v.seq.gating, deps@, v.seq.claimed);
            lemma_min_gating_floor(v.seq.gating, v.seq.claimed, -1);
            lemma_min_gating_bound(v.seq.gating, v.seq.claimed);
            if initial != claimed {
                let k = choose|k: int|
                    0 <= k < deps@.len() && #[trigger] v.seq.gating[deps@[k] as int] == Some(
                        initial,
                    );
                assert(v.seq.gating[deps@[k] as int] is Some);
            }
        }
        let c = self.sequencer.add_gating_sequence(initial);
        self.deps.push(deps);
        self.pools.push(None);
        proof {
            let v = old(self)@;
            let w = final(self)@;
            assert(w.deps =~= v.deps.push(deps@));
            assert forall|d: int| 0 <= d < w.pools.len() && #[trigger] w.pools[d] is Some implies w.pools[d]->Some_0 < w.work.len() by {
                assert(d < v.pools.len());
                assert(w.pools[d] == v.pools[d]);
            }
            lemma_dep_min(v.seq.gating, deps@, v.seq.claimed);
            assert forall|d: int, k: int|
                0 <= d < w.deps.len() && 0 <= k < w.deps[d].len() && w.seq.gating[d] is Some
                    && #[trigger] w.seq.gating[w.deps[d][k] as int] is Some implies w.seq.gating[d]->Some_0
                    <= w.seq.gating[w.deps[d][k] as int]->Some_0 by {
                if d < v.deps.len() {
                    assert(w.deps[d] == v.deps[d]);
                    assert(v.deps[d][k] < d);
                } else {
                    assert(w.deps[d] == deps@);
                }
            }
            assert forall|d: int, k: int|
                0 <= d < w.deps.len() && 0 <= k < w.deps[d].len() implies #[trigger] w.deps[d][k] < d by {
                if d < v.deps.len() {
                    assert(w.deps[d] == v.deps[d]);
                }
            }
        }
        c
    }

    /// Removes consumer `c`: it no longer gates producers or downstream consumers.
    pub fn remove_consumer(&mut self, c: usize)
        requires
            old(self).wf(),
            c < old(self)@.seq.gating.len(),
        ensures
            final(self).wf(),
            final(self)@ == (PipelineView {
                seq: SequencerView { gating: old(self)@.seq.gating.update(c as int, None), ..old(self)@.seq },
                ..old(self)@
            }),
    {
        self.sequencer.remove_gating_sequence(c);
    }

    /// Moves active consumer `c` to `to`, which its barrier allows.
    fn advance_consumer(&mut self, c: usize, to: i64)
        requires
            old(self).wf(),
            old(self)@.active(c as int),
            old(self)@.seq.gating[c as int]->Some_0 <= to <= old(self)@.upper(c as int),
        ensures
            final(self).wf(),
            final(self)@ == (PipelineView {
                seq: SequencerView { gating: old(self)@.seq.gating.update(c as int, Some(to)), ..old(self)@.seq },
                ..old(self)@
            }),
    {
        proof {
            let v = old(self)@;
            lemma_dep_min(v.seq.gating, v.deps[c as int], v.seq.published_cursor());
        }
        self.sequencer.set_gating_sequence(c, to);
        proof {
            let v = old(self)@;
            let w = final(self)@;
            assert forall|d: int, k: int|
                0 <= d < w.deps.len() && 0 <= k < w.deps[d].len() && w.seq.gating[d] is Some
                    && #[trigger] w.seq.gating[w.deps[d][k] as int] is Some implies w.seq.gating[d]->Some_0
                    <= w.seq.gating[w.deps[d][k] as int]->Some_0 by {
                if d == c as int {
                    assert(v.deps[d][k] < d);
                    assert(v.seq.gating[v.deps[d][k] as int] is Some);
                } else if w.deps[d][k] as int == c as int {
                } else {
                }
            }
        }
    }

    /// Commits consumer `c` up to `to`, a sequence its barrier makes available.
    pub fn commit_consumer(&mut self, c: usize, to: i64)
        requires
            old(self).wf(),
            old(self)@.active(c as int),
            old(self)@.seq.gating[c as int]->Some_0 <= to <= old(self)@.available(c as int),
        ensures
            final(self).wf(),
            final(self)@ == (PipelineView {
                seq: SequencerView { gating: old(self)@.seq.gating.update(c as int, Some(to)), ..old(self)@.seq },
                ..old(self)@
            }),
    {
        let a = self.barrier_available(c);
        self.advance_consumer(c, to);
    }

    /// Processes the event at `sequence`; on an error, asks `exceptions` (none:
    /// the fatal default) and returns the error's message when it says `Stop`.
    fn process_one<H: EventHandler<E>, X: ExceptionHandler<E>>(
        &mut self,
        sequence: i64,
        end_of_batch: bool,
        handler: &mut H,
        exceptions: Option<&X>,
    ) -> (stop: Option<String>)
        requires
            old(self).wf(),
            sequence >= 0,
        ensures
            final(self).wf(),
            final(self)@.seq == old(self)@.seq,
            final(self)@.deps == old(self)@.deps,
            final(self)@.pools == old(self)@.pools,
            final(self)@.work == old(self)@.work,
            final(self)@.ring.len() == old(self)@.ring.len(),
            forall|j: int|
                0 <= j < old(self)@.ring.len() && j != slot_of(sequence as int, old(self)@.seq.buffer_size)
                    ==> #[trigger] final(self)@.ring[j] == old(self)@.ring[j],
            exists|h: &mut H, ev: &mut E, res: DisruptorResult<()>|
                #![trigger call_ensures(H::on_event, (h, ev, sequence, end_of_batch), res)]
                *h == *old(handler) && *final(h) == *final(handler) && *ev == old(self)@.event_at(sequence as int)
                    && final(self)@.ring[slot_of(sequence as int, old(self)@.seq.buffer_size)] == *final(ev)
                    && call_ensures(H::on_event, (h, ev, sequence, end_of_batch), res) && ((stop is None
                    && continued(exceptions, res, sequence, *final(ev))) || (stop matches Some(m)
                    && stopped_with(exceptions, res, sequence, *final(ev), m@))),
    {
        proof {
            self.lemma_view_wf();
            assert(self.ring.event_at(sequence as int) == self@.event_at(sequence as int));
        }
        let event = self.ring.get_mut(sequence);
        let outcome = handler.on_event(event, sequence, end_of_batch);
        match outcome {
            Ok(()) => {
                None
            },
            Err(e) => {
                let message = e.describe();
                let decision = match exceptions {
                    Some(x) => x.handle_event_exception(e, sequence, &*event),
                    None => ErrorDecision::Stop,
                };
                if decision == ErrorDecision::Stop {
                    Some(message)
                } else {
                    None
                }
            },
        }
    }

    /// Processes the events `next..=last` in order with `handler`, stopping at
    /// the first one whose error `exceptions` (none: the fatal default) answers
    /// with `Stop`; returns that sequence with the error's message, and the
    /// states the handler went through: the one it started in, then the one
    /// each handled event left it in.
    fn run_events<H: EventHandler<E>, X: ExceptionHandler<E>>(
        &mut self,
        next: i64,
        last: i64,
        handler: &mut H,
        exceptions: Option<&X>,
    ) -> (r: (Option<(i64, String)>, Ghost<Seq<H>>))
        requires
            old(self).wf(),
            0 <= next <= last,
            last - next < old(self)@.seq.buffer_size,
        ensures
            final(self).wf(),
            final(self)@.seq == old(self)@.seq,
            final(self)@.deps == old(self)@.deps,
            final(self)@.pools == old(self)@.pools,
            final(self)@.work == old(self)@.work,
            final(self)@.ring.len() == old(self)@.ring.len(),
            r.0 matches Some((s, _)) ==> next <= s <= last,
            r.1@.len() == run_end(r.0, last) - next + 2,
            r.1@[0] == *old(handler),
            r.1@.last() == *final(handler),
            forall|t: int|
                #![trigger in_batch(next as int, run_end(r.0, last) - next + 1, t)]
                in_batch(next as int, run_end(r.0, last) - next + 1, t) ==> exists|
                    h: &mut H,
                    ev: &mut E,
                    res: DisruptorResult<()>,
                |
                    #![trigger call_ensures(H::on_event, (h, ev, t as i64, batch_end(t, last as int)), res)]
                    *h == r.1@[t - next] && *final(h) == r.1@[t - next + 1] && *ev == old(self)@.event_at(t)
                        && final(self)@.ring[slot_of(t, old(self)@.seq.buffer_size)] == *final(ev) && call_ensures(
                        H::on_event,
                        (h, ev, t as i64, batch_end(t, last as int)),
                        res,
                    ) && match r.0 {
                        Some((s, m)) => if t == s {
                            stopped_with(exceptions, res, s, *final(ev), m@)
                        } else {
                            continued(exceptions, res, t as i64, *final(ev))
                        },
                        None => continued(exceptions, res, t as i64, *final(ev)),
                    },
            forall|j: int|
                0 <= j < old(self)@.ring.len() && (forall|t: int|
                    next <= t <= run_end(r.0, last) ==> slot_of(t, old(self)@.seq.buffer_size) != j)
                    ==> #[trigger] final(self)@.ring[j] == old(self)@.ring[j],
    {
        let mut s: i64 = next;
        let ghost mut hs: Seq<H> = seq![*handler];
        loop
            invariant
                0 <= next <= s <= last,
                self.wf(),
                self@.seq == old(self)@.seq,
                self@.deps == old(self)@.deps,
                self@.pools == old(self)@.pools,
                self@.work == old(self)@.work,
                self@.ring.len() == old(self)@.ring.len(),
                forall|j: int|
                    0 <= j < old(self)@.ring.len() && (forall|t: int|
                        next <= t < s ==> slot_of(t, old(self)@.seq.buffer_size) != j) ==> #[trigger] self@.ring[j]
                        == old(self)@.ring[j],
                last - next < old(self)@.seq.buffer_size,
                hs.len() == s - next + 1,
                hs[0] == *old(handler),
                hs.last() == *handler,
                forall|t: int|
                    #![trigger in_batch(next as int, s - next, t)]
                    in_batch(next as int, s - next, t) ==> exists|h: &mut H, ev: &mut E, res: DisruptorResult<()>|
                        #![trigger call_ensures(H::on_event, (h, ev, t as i64, batch_end(t, last as int)), res)]
                        *h == hs[t - next] && *final(h) == hs[t - next + 1] && *ev == old(self)@.event_at(t)
                            && self@.ring[slot_of(t, old(self)@.seq.buffer_size)] == *final(ev) && call_ensures(
                            H::on_event,
                            (h, ev, t as i64, batch_end(t, last as int)),
                            res,
                        ) && continued(exceptions, res, t as i64, *final(ev)),
            decreases last - s,
        {
            let ghost before = self@;
            let ghost hs0 = hs;
            let end_of_batch = s == last;
            proof {
                assert(end_of_batch == batch_end(s as int, last as int));
                let size = old(self)@.seq.buffer_size as int;
                vstd::arithmetic::div_mod::lemma_mod_pos_bound(s as int, size);
                assert forall|t: int| next <= t < s implies slot_of(t, old(self)@.seq.buffer_size) != slot_of(
                    s as int,
                    old(self)@.seq.buffer_size,
                ) by {
                    lemma_distinct_slots(t, s as int, size);
                }
                assert(before.event_at(s as int) == old(self)@.event_at(s as int));
            }
            let stop = self.process_one(s, end_of_batch, handler, exceptions);
            proof {
                hs = hs0.push(*handler);
                let size = old(self)@.seq.buffer_size as int;
                assert forall|j: int|
                    0 <= j < old(self)@.ring.len() && (forall|t: int|
                        next <= t <= s ==> slot_of(t, old(self)@.seq.buffer_size) != j)
                        implies #[trigger] self@.ring[j] == old(self)@.ring[j] by {
                    assert(slot_of(s as int, old(self)@.seq.buffer_size) != j);
                    assert(forall|t: int| next <= t < s ==> slot_of(t, old(self)@.seq.buffer_size) != j);
                }
                assert forall|t: int|
                    #![trigger in_batch(next as int, s - next, t)]
                    in_batch(next as int, s - next, t) implies exists|h: &mut H, ev: &mut E, res: DisruptorResult<()>|
                        #![trigger call_ensures(H::on_event, (h, ev, t as i64, batch_end(t, last as int)), res)]
                        *h == hs[t - next] && *final(h) == hs[t - next + 1] && *ev == old(self)@.event_at(t)
                            && self@.ring[slot_of(t, old(self)@.seq.buffer_size)] == *final(ev) && call_ensures(
                            H::on_event,
                            (h, ev, t as i64, batch_end(t, last as int)),
                            res,
                        ) && continued(exceptions, res, t as i64, *final(ev)) by {
                    lemma_distinct_slots(t, s as int, size);
                    assert(self@.ring[slot_of(t, old(self)@.seq.buffer_size)] == before.ring[slot_of(t, old(self)@.seq.buffer_size)]);
                    assert(hs[t - next] == hs0[t - next]);
                    assert(hs[t - next + 1] == hs0[t - next + 1]);
                }
                assert(hs[s - next] == hs0.last());
                assert(hs[s - next + 1] == *handler);
            }
            match stop {
                None => {
                    proof {
                        assert forall|t: int|
                            #![trigger in_batch(next as int, s + 1 - next, t)]
                            in_batch(next as int, s + 1 - next, t) implies exists|h: &mut H, ev: &mut E, res: DisruptorResult<()>|
                                #![trigger call_ensures(H::on_event, (h, ev, t as i64, batch_end(t, last as int)), res)]
                                *h == hs[t - next] && *final(h) == hs[t - next + 1] && *ev == old(self)@.event_at(t)
                                    && self@.ring[slot_of(t, old(self)@.seq.buffer_size)] == *final(ev) && call_ensures(
                                    H::on_event,
                                    (h, ev, t as i64, batch_end(t, last as int)),
                                    res,
                                ) && continued(exceptions, res, t as i64, *final(ev)) by {
                            if t < s {
                                assert(in_batch(next as int, s - next, t));
                            } else {
                                assert(t as i64 == s);
                                assert(batch_end(t, last as int) == end_of_batch);
                            }
                        }
                    }
                },
                Some(message) => {
                    let r = (Some((s, message)), Ghost(hs));
                    proof {
                        assert forall|t: int|
                            #![trigger in_batch(next as int, run_end(r.0, last) - next + 1, t)]
                            in_batch(next as int, run_end(r.0, last) - next + 1, t) implies exists|h: &mut H, ev: &mut E, res: DisruptorResult<()>|
                                #![trigger call_ensures(H::on_event, (h, ev, t as i64, batch_end(t, last as int)), res)]
                                *h == r.1@[t - next] && *final(h) == r.1@[t - next + 1] && *ev == old(self)@.event_at(t)
                                    && self@.ring[slot_of(t, old(self)@.seq.buffer_size)] == *final(ev) && call_ensures(
                                    H::on_event,
                                    (h, ev, t as i64, batch_end(t, last as int)),
                                    res,
                                ) && if t == s {
                                    stopped_with(exceptions, res, s, *final(ev), message@)
                                } else {
                                    continued(exceptions, res, t as i64, *final(ev))
                                } by {
                            if t < s {
                                assert(in_batch(next as int, s - next, t));
                            } else {
                                assert(t as i64 == s);
                                assert(batch_end(t, last as int) == end_of_batch);
                            }
                        }
                    }
                    return r;
                },
            }
            if end_of_batch {
                let r: (Option<(i64, String)>, Ghost<Seq<H>>) = (None, Ghost(hs));
                proof {
                    assert forall|t: int|
                        #![trigger in_batch(next as int, run_end(r.0, last) - next + 1, t)]
                        in_batch(next as int, run_end(r.0, last) - next + 1, t) implies exists|h: &mut H, ev: &mut E, res: DisruptorResult<()>|
                            #![trigger call_ensures(H::on_event, (h, ev, t as i64, batch_end(t, last as int)), res)]
                            *h == r.1@[t - next] && *final(h) == r.1@[t - next + 1] && *ev == old(self)@.event_at(t)
                                && self@.ring[slot_of(t, old(self)@.seq.buffer_size)] == *final(ev) && call_ensures(
                                H::on_event,
                                (h, ev, t as i64, batch_end(t, last as int)),
                                res,
                            ) && continued(exceptions, res, t as i64, *final(ev)) by {
                        assert(in_batch(next as int, s + 1 - next, t));
                    }
                }
                return r;
            }
            s = s + 1;
        }
    }

    /// One step of a sequential consumer: processes every event its barrier
    /// makes available, in order, then advances to the last one.
    ///
    /// The batch-start callback fails the step before any event; an event
    /// error goes to `exceptions` (none: the fatal default). A `Stop` freezes
    /// the consumer at the last fully processed event. Either failure records
    /// the consumer's failure (the first is kept) and poisons the pipeline.
    ///
    /// The handler is called once for the batch start and then once per
    /// event, in sequence order, each call starting from the state the one
    /// before left it in.
    pub fn process_batch<H: EventHandler<E>, X: ExceptionHandler<E>>(
        &mut self,
        c: usize,
        handler: &mut H,
        exceptions: Option<&X>,
        context: ConsumerContext,
    ) -> (r: ConsumerStep)
        requires
            old(self).wf(),
            old(self)@.active(c as int),
        ensures
            final(self).wf(),
            final(self)@.deps == old(self)@.deps,
            final(self)@.pools == old(self)@.pools,
            final(self)@.work == old(self)@.work,
            ({
                let v = old(self)@;
                let w = final(self)@;
                let current = v.seq.gating[c as int]->Some_0;
                match r {
                    ConsumerStep::Idle => w == v && v.available(c as int) <= current,
                    ConsumerStep::Processed { from, to } => {
                        &&& from == current + 1
                        &&& to == v.available(c as int)
                        &&& from <= to
                        &&& w.seq == (SequencerView {
                            gating: v.seq.gating.update(c as int, Some(to)),
                            ..v.seq
                        })
                        &&& forall|j: int|
                            0 <= j < v.ring.len() && (forall|t: int|
                                from <= t <= to ==> slot_of(t, v.seq.buffer_size) != j) ==> #[trigger] w.ring[j]
                                == v.ring[j]
                    },
                    ConsumerStep::Stopped { at } => {
                        &&& current < at <= v.available(c as int)
                        &&& stopped_as(v.seq, w.seq, c as int, (at - 1) as i64, context, at, false)
                        &&& forall|j: int|
                            0 <= j < v.ring.len() && (forall|t: int|
                                current < t <= at ==> slot_of(t, v.seq.buffer_size) != j) ==> #[trigger] w.ring[j]
                                == v.ring[j]
                    },
                }
            }),
            ({
                let v = old(self)@;
                let w = final(self)@;
                let current = v.seq.gating[c as int]->Some_0;
                let n = v.available(c as int) - current;
                exists|hs: Seq<H>|
                    #![trigger handler_states(hs, *old(handler), *final(handler))]
                    handler_states(hs, *old(handler), *final(handler)) && match r {
                        ConsumerStep::Idle => hs.len() == 1,
                        ConsumerStep::Processed { from, to } => {
                            &&& hs.len() == to - current + 2
                            &&& exists|h: &mut H, res: DisruptorResult<()>|
                                #![trigger call_ensures(H::on_batch_start, (h, n as i64, n as i64), res)]
                                *h == hs[0] && *final(h) == hs[1] && call_ensures(
                                    H::on_batch_start,
                                    (h, n as i64, n as i64),
                                    res,
                                ) && res is Ok
                            &&& forall|t: int|
                                #![trigger in_batch(current + 1, to - current, t)]
                                in_batch(current + 1, to - current, t) ==> exists|
                                    h: &mut H,
                                    ev: &mut E,
                                    res: DisruptorResult<()>,
                                |
                                    #![trigger call_ensures(H::on_event, (h, ev, t as i64, batch_end(t, to as int)), res)]
                                    *h == hs[t - current] && *final(h) == hs[t - current + 1] && *ev == v.event_at(t)
                                        && w.ring[slot_of(t, v.seq.buffer_size)] == *final(ev) && call_ensures(
                                        H::on_event,
                                        (h, ev, t as i64, batch_end(t, to as int)),
                                        res,
                                    ) && continued(exceptions, res, t as i64, *final(ev))
                        },
                        ConsumerStep::Stopped { at } => {
                            ||| {
                                &&& at == current + 1
                                &&& hs.len() == 2
                                &&& exists|h: &mut H, res: DisruptorResult<()>|
                                    #![trigger call_ensures(H::on_batch_start, (h, n as i64, n as i64), res)]
                                    *h == hs[0] && *final(h) == hs[1] && call_ensures(
                                        H::on_batch_start,
                                        (h, n as i64, n as i64),
                                        res,
                                    ) && res is Err && (v.seq.first_failure is None
                                        ==> w.seq.first_failure->Some_0.message == error_message(res->Err_0))
                            }
                            ||| {
                                &&& hs.len() == at - current + 2
                                &&& exists|h: &mut H, res: DisruptorResult<()>|
                                    #![trigger call_ensures(H::on_batch_start, (h, n as i64, n as i64), res)]
                                    *h == hs[0] && *final(h) == hs[1] && call_ensures(
                                        H::on_batch_start,
                                        (h, n as i64, n as i64),
                                        res,
                                    ) && res is Ok
                                &&& forall|t: int|
                                    #![trigger in_batch(current + 1, at - current, t)]
                                    in_batch(current + 1, at - current, t) ==> exists|
                                        h: &mut H,
                                        ev: &mut E,
                                        res: DisruptorResult<()>,
                                    |
                                        #![trigger call_ensures(H::on_event, (h, ev, t as i64, batch_end(t, v.available(c as int))), res)]
                                        *h == hs[t - current] && *final(h) == hs[t - current + 1] && *ev
                                            == v.event_at(t) && w.ring[slot_of(t, v.seq.buffer_size)] == *final(ev)
                                            && call_ensures(
                                            H::on_event,
                                            (h, ev, t as i64, batch_end(t, v.available(c as int))),
                                            res,
                                        ) && if t == at {
                                            stopped_with(exceptions, res, at, *final(ev), error_message(res->Err_0))
                                                && (v.seq.first_failure is None ==> w.seq.first_failure->Some_0.message
                                                == error_message(res->Err_0))
                                        } else {
                                            continued(exceptions, res, t as i64, *final(ev))
                                        }
                            }
                        },
                    }
            }),
    {
        let current = match self.sequencer.gating_sequence(c) {
            Some(g) => g,
            None => 0,
        };
        let available = self.barrier_available(c);
        if available <= current {
            proof {
                assert(handler_states(seq![*handler], *old(handler), *handler));
            }
            return ConsumerStep::Idle;
        }
        let next = current + 1;
        proof {
            let v = old(self)@;
            lemma_min_gating_bound(v.seq.gating, v.seq.claimed);
            assert(v.seq.gating[c as int] is Some);
            assert(v.seq.gate() <= current);
            lemma_dep_min(v.seq.gating, v.deps[c as int], v.seq.published_cursor());
        }
        let batch_size = available - current;
        let queue_depth = available - current;
        proof {
            assert(batch_size == (old(self)@.available(c as int) - current) as i64);
        }
        let ghost h0 = *handler;
        let started = handler.on_batch_start(batch_size, queue_depth);
        let ghost h1 = *handler;
        match started {
            Ok(()) => {},
            Err(e) => {
                let message = e.describe();
                let failure = consumer_failure(
                    FailurePhase::BatchStart,
                    message.as_str(),
                    context,
                    Some(next),
                );
                self.poison_with_failure(&failure);
                proof {
                    let v = old(self)@;
                    assert(v.seq.gating.update(c as int, Some((next - 1) as i64)) =~= v.seq.gating);
                    assert(started->Err_0 == e);
                    let hs = seq![h0, h1];
                    assert(handler_states(hs, *old(handler), *handler));
                }
                return ConsumerStep::Stopped { at: next };
            },
        }
        let (stop, Ghost(hs)) = self.run_events(next, available, handler, exceptions);
        let ghost after = self@;
        let ghost chain = seq![h0] + hs;
        proof {
            assert(chain[1] == h1);
            assert(handler_states(chain, *old(handler), *handler));
            assert forall|k: int| 0 <= k < hs.len() implies #[trigger] chain[k + 1] == hs[k] by {}
        }
        match stop {
            None => {
                self.advance_consumer(c, available);
                proof {
                    let v = old(self)@;
                    let w = self@;
                    assert(w.ring == after.ring);
                    assert forall|t: int|
                        #![trigger in_batch(current + 1, available - current, t)]
                        in_batch(current + 1, available - current, t) implies exists|
                            h: &mut H,
                            ev: &mut E,
                            res: DisruptorResult<()>,
                        |
                            #![trigger call_ensures(H::on_event, (h, ev, t as i64, batch_end(t, available as int)), res)]
                            *h == chain[t - current] && *final(h) == chain[t - current + 1] && *ev == v.event_at(t)
                                && w.ring[slot_of(t, v.seq.buffer_size)] == *final(ev) && call_ensures(
                                H::on_event,
                                (h, ev, t as i64, batch_end(t, available as int)),
                                res,
                            ) && continued(exceptions, res, t as i64, *final(ev)) by {
                        assert(in_batch(next as int, run_end(stop, available) - next + 1, t));
                        assert(chain[t - current] == hs[t - next]);
                        assert(chain[t - current + 1] == hs[t - next + 1]);
                    }
                }
                ConsumerStep::Processed { from: next, to: available }
            },
            Some((s, message)) => {
                self.advance_consumer(c, s - 1);
                let failure = consumer_failure(
                    FailurePhase::EventProcessing,
                    message.as_str(),
                    context,
                    Some(s),
                );
                self.poison_with_failure(&failure);
                proof {
                    let v = old(self)@;
                    let w = self@;
                    assert(w.ring == after.ring);
                    assert(v.seq.first_failure is None ==> w.seq.first_failure->Some_0.message == message@);
                    assert forall|t: int|
                        #![trigger in_batch(current + 1, s - current, t)]
                        in_batch(current + 1, s - current, t) implies exists|
                            h: &mut H,
                            ev: &mut E,
                            res: DisruptorResult<()>,
                        |
                            #![trigger call_ensures(H::on_event, (h, ev, t as i64, batch_end(t, v.available(c as int))), res)]
                            *h == chain[t - current] && *final(h) == chain[t - current + 1] && *ev == v.event_at(t)
                                && w.ring[slot_of(t, v.seq.buffer_size)] == *final(ev) && call_ensures(
                                H::on_event,
                                (h, ev, t as i64, batch_end(t, v.available(c as int))),
                                res,
                            ) && if t == s {
                                stopped_with(exceptions, res, s, *final(ev), error_message(res->Err_0)) && (
                                v.seq.first_failure is None ==> w.seq.first_failure->Some_0.message
                                    == error_message(res->Err_0))
                            } else {
                                continued(exceptions, res, t as i64, *final(ev))
                            } by {
                        assert(in_batch(next as int, run_end(stop, available) - next + 1, t));
                        assert(chain[t - current] == hs[t - next]);
                        assert(chain[t - current + 1] == hs[t - next + 1]);
                    }
                }
                ConsumerStep::Stopped { at: s }
            },
        }
    }

    /// One probing step of a sequential consumer, as a batch event processor
    /// takes it outside its run loop: processes every event its barrier makes
    /// available, in order, then advances to the last one.
    ///
    /// The batch-start callback is told of the batch and its outcome ignored;
    /// an event error goes to `exceptions` (none: the fatal default), and a
    /// `Stop` freezes the consumer at the last fully processed event and
    /// poisons the pipeline, without a failure record.
    ///
    /// The handler is called once for the batch start and then once per
    /// event, in sequence order, each call starting from the state the one
    /// before left it in.
    pub fn probe_batch<H: EventHandler<E>, X: ExceptionHandler<E>>(
        &mut self,
        c: usize,
        handler: &mut H,
        exceptions: Option<&X>,
    ) -> (r: ConsumerStep)
        requires
            old(self).wf(),
            old(self)@.active(c as int),
        ensures
            final(self).wf(),
            final(self)@.deps == old(self)@.deps,
            final(self)@.pools == old(self)@.pools,
            final(self)@.work == old(self)@.work,
            ({
                let v = old(self)@;
                let w = final(self)@;
                let current = v.seq.gating[c as int]->Some_0;
                match r {
                    ConsumerStep::Idle => w == v && v.available(c as int) <= current,
                    ConsumerStep::Processed { from, to } => {
                        &&& from == current + 1
                        &&& to == v.available(c as int)
                        &&& from <= to
                        &&& w.seq == (SequencerView {
                            gating: v.seq.gating.update(c as int, Some(to)),
                            ..v.seq
                        })
                        &&& forall|j: int|
                            0 <= j < v.ring.len() && (forall|t: int|
                                from <= t <= to ==> slot_of(t, v.seq.buffer_size) != j) ==> #[trigger] w.ring[j]
                                == v.ring[j]
                    },
                    ConsumerStep::Stopped { at } => {
                        &&& current < at <= v.available(c as int)
                        &&& w.seq == (SequencerView {
                            gating: v.seq.gating.update(c as int, Some((at - 1) as i64)),
                            poisoned: true,
                            ..v.seq
                        })
                        &&& forall|j: int|
                            0 <= j < v.ring.len() && (forall|t: int|
                                current < t <= at ==> slot_of(t, v.seq.buffer_size) != j) ==> #[trigger] w.ring[j]
                                == v.ring[j]
                    },
                }
            }),
            ({
                let v = old(self)@;
                let w = final(self)@;
                let current = v.seq.gating[c as int]->Some_0;
                let n = v.available(c as int) - current;
                exists|hs: Seq<H>|
                    #![trigger handler_states(hs, *old(handler), *final(handler))]
                    {
                        &&& handler_states(hs, *old(handler), *final(handler))
                        &&& hs.len() == if r is Idle {
                            1
                        } else {
                            step_end(r) - current + 2
                        }
                        &&& r !is Idle ==> exists|h: &mut H, res: DisruptorResult<()>|
                            #![trigger call_ensures(H::on_batch_start, (h, n as i64, n as i64), res)]
                            *h == hs[0] && *final(h) == hs[1] && call_ensures(
                                H::on_batch_start,
                                (h, n as i64, n as i64),
                                res,
                            )
                        &&& forall|t: int|
                            #![trigger in_batch(current + 1, step_end(r) - current, t)]
                            in_batch(current + 1, step_end(r) - current, t) ==> exists|
                                h: &mut H,
                                ev: &mut E,
                                res: DisruptorResult<()>,
                            |
                                #![trigger call_ensures(H::on_event, (h, ev, t as i64, batch_end(t, v.available(c as int))), res)]
                                *h == hs[t - current] && *final(h) == hs[t - current + 1] && *ev == v.event_at(t)
                                    && w.ring[slot_of(t, v.seq.buffer_size)] == *final(ev) && call_ensures(
                                    H::on_event,
                                    (h, ev, t as i64, batch_end(t, v.available(c as int))),
                                    res,
                                ) && if r is Stopped && t == step_end(r) {
                                    stopped_with(exceptions, res, t as i64, *final(ev), error_message(res->Err_0))
                                } else {
                                    continued(exceptions, res, t as i64, *final(ev))
                                }
                    }
            }),
    {
        let current = match self.sequencer.gating_sequence(c) {
            Some(g) => g,
            None => 0,
        };
        let available = self.barrier_available(c);
        if available <= current {
            proof {
                assert(handler_states(seq![*handler], *old(handler), *handler));
            }
            return ConsumerStep::Idle;
        }
        let next = current + 1;
        proof {
            let v = old(self)@;
            lemma_min_gating_bound(v.seq.gating, v.seq.claimed);
            assert(v.seq.gating[c as int] is Some);
            assert(v.seq.gate() <= current);
            lemma_dep_min(v.seq.gating, v.deps[c as int], v.seq.published_cursor());
        }
        let batch_size = available - current;
        proof {
            assert(batch_size == (old(self)@.available(c as int) - current) as i64);
        }
        let ghost h0 = *handler;
        let _ = handler.on_batch_start(batch_size, batch_size);
        let ghost h1 = *handler;
        let (stop, Ghost(hs)) = self.run_events(next, available, handler, exceptions);
        let ghost after = self@;
        let ghost chain = seq![h0] + hs;
        proof {
            assert(chain[1] == h1);
            assert(handler_states(chain, *old(handler), *handler));
        }
        match stop {
            None => {
                self.advance_consumer(c, available);
                let r = ConsumerStep::Processed { from: next, to: available };
                proof {
                    let v = old(self)@;
                    let w = self@;
                    assert(w.ring == after.ring);
                    assert forall|t: int|
                        #![trigger in_batch(current + 1, step_end(r) - current, t)]
                        in_batch(current + 1, step_end(r) - current, t) implies exists|
                            h: &mut H,
                            ev: &mut E,
                            res: DisruptorResult<()>,
                        |
                            #![trigger call_ensures(H::on_event, (h, ev, t as i64, batch_end(t, v.available(c as int))), res)]
                            *h == chain[t - current] && *final(h) == chain[t - current + 1] && *ev == v.event_at(t)
                                && w.ring[slot_of(t, v.seq.buffer_size)] == *final(ev) && call_ensures(
                                H::on_event,
                                (h, ev, t as i64, batch_end(t, v.available(c as int))),
                                res,
                            ) && continued(exceptions, res, t as i64, *final(ev)) by {
                        assert(in_batch(next as int, run_end(stop, available) - next + 1, t));
                        assert(chain[t - current] == hs[t - next]);
                        assert(chain[t - current + 1] == hs[t - next + 1]);
                    }
                }
                r
            },
            Some((s, _message)) => {
                self.advance_consumer(c, s - 1);
                self.poison();
                let r = ConsumerStep::Stopped { at: s };
                proof {
                    let v = old(self)@;
                    let w = self@;
                    assert(w.ring == after.ring);
                    assert forall|t: int|
                        #![trigger in_batch(current + 1, step_end(r) - current, t)]
                        in_batch(current + 1, step_end(r) - current, t) implies exists|
                            h: &mut H,
                            ev: &mut E,
                            res: DisruptorResult<()>,
                        |
                            #![trigger call_ensures(H::on_event, (h, ev, t as i64, batch_end(t, v.available(c as int))), res)]
                            *h == chain[t - current] && *final(h) == chain[t - current + 1] && *ev == v.event_at(t)
                                && w.ring[slot_of(t, v.seq.buffer_size)] == *final(ev) && call_ensures(
                                H::on_event,
                                (h, ev, t as i64, batch_end(t, v.available(c as int))),
                                res,
                            ) && if t == s {
                                stopped_with(exceptions, res, s, *final(ev), error_message(res->Err_0))
                            } else {
                                continued(exceptions, res, t as i64, *final(ev))
                            } by {
                        assert(in_batch(next as int, run_end(stop, available) - next + 1, t));
                        assert(chain[t - current] == hs[t - next]);
                        assert(chain[t - current + 1] == hs[t - next + 1]);
                    }
                }
                r
            },
        }
    }

    /// Observes the event at `sequence` with `on_event`; returns the error's
    /// message when it fails.
    fn observe_one<F: Fn(&E, i64, bool) -> DisruptorResult<()>>(
        &self,
        sequence: i64,
        end_of_batch: bool,
        on_event: &F,
    ) -> (failed: Option<String>)
        requires
            self.wf(),
            sequence >= 0,
            forall|e: &E, s: i64, b: bool| on_event.requires((e, s, b)),
        ensures
            exists|res: DisruptorResult<()>|
                #![trigger on_event.ensures((&self@.event_at(sequence as int), sequence, end_of_batch), res)]
                on_event.ensures((&self@.event_at(sequence as int), sequence, end_of_batch), res) && (res is Ok
                    ==> failed is None) && (res is Err ==> (failed matches Some(m) && m@ == error_message(
                    res->Err_0,
                ))),
    {
        proof {
            assert(self.ring.event_at(sequence as int) == self@.event_at(sequence as int));
        }
        let event = self.ring.get(sequence);
        match on_event(event, sequence, end_of_batch) {
            Ok(()) => None,
            Err(e) => Some(e.describe()),
        }
    }

    /// One step of a read-only fan-out consumer: observes every event its
    /// barrier makes available, in order, through shared references, then
    /// advances to the last one. An error freezes the consumer at the last
    /// observed event, records the failure and poisons the pipeline.
    pub fn process_readonly_batch<F: Fn(&E, i64, bool) -> DisruptorResult<()>>(
        &mut self,
        c: usize,
        on_event: &F,
        context: ConsumerContext,
    ) -> (r: ConsumerStep)
        requires
            old(self).wf(),
            old(self)@.active(c as int),
            forall|e: &E, s: i64, b: bool| on_event.requires((e, s, b)),
        ensures
            final(self).wf(),
            final(self)@.deps == old(self)@.deps,
            final(self)@.pools == old(self)@.pools,
            final(self)@.work == old(self)@.work,
            final(self)@.ring == old(self)@.ring,
            ({
                let v = old(self)@;
                let w = final(self)@;
                let current = v.seq.gating[c as int]->Some_0;
                match r {
                    ConsumerStep::Idle => w == v && v.available(c as int) <= current,
                    ConsumerStep::Processed { from, to } => {
                        &&& from == current + 1
                        &&& to == v.available(c as int)
                        &&& from <= to
                        &&& w.seq == (SequencerView {
                            gating: v.seq.gating.update(c as int, Some(to)),
                            ..v.seq
                        })
                    },
                    ConsumerStep::Stopped { at } => {
                        &&& current < at <= v.available(c as int)
                        &&& stopped_as(v.seq, w.seq, c as int, (at - 1) as i64, context, at, true)
                    },
                }
            }),
            ({
                let v = old(self)@;
                let w = final(self)@;
                let current = v.seq.gating[c as int]->Some_0;
                forall|t: int|
                    #![trigger in_batch(current + 1, step_end(r) - current, t)]
                    in_batch(current + 1, step_end(r) - current, t) ==> exists|res: DisruptorResult<()>|
                        #![trigger on_event.ensures((&v.event_at(t), t as i64, batch_end(t, v.available(c as int))), res)]
                        on_event.ensures((&v.event_at(t), t as i64, batch_end(t, v.available(c as int))), res)
                            && if r is Stopped && t == step_end(r) {
                            res is Err && (v.seq.first_failure is None ==> w.seq.first_failure->Some_0.message
                                == error_message(res->Err_0))
                        } else {
                            res is Ok
                        }
            }),
    {
        let current = match self.sequencer.gating_sequence(c) {
            Some(g) => g,
            None => 0,
        };
        let available = self.barrier_available(c);
        if available <= current {
            return ConsumerStep::Idle;
        }
        proof {
            let v = old(self)@;
            lemma_min_gating_bound(v.seq.gating, v.seq.claimed);
            assert(v.seq.gating[c as int] is Some);
            lemma_dep_min(v.seq.gating, v.deps[c as int], v.seq.published_cursor());
        }
        let next = current + 1;
        let count: i64 = available - current;
        let mut off: i64 = 0;
        while off < count
            invariant
                self.wf(),
                self@ == old(self)@,
                old(self)@.active(c as int),
                current == old(self)@.seq.gating[c as int]->Some_0,
                available == old(self)@.available(c as int),
                available <= old(self)@.upper(c as int),
                next == current + 1,
                current < available,
                count == available - current,
                0 <= off <= count,
                forall|e: &E, s: i64, b: bool| on_event.requires((e, s, b)),
                forall|t: int|
                    #![trigger in_batch(next as int, off as int, t)]
                    in_batch(next as int, off as int, t) ==> exists|res: DisruptorResult<()>|
                        #![trigger on_event.ensures((&old(self)@.event_at(t), t as i64, batch_end(t, available as int)), res)]
                        on_event.ensures((&old(self)@.event_at(t), t as i64, batch_end(t, available as int)), res)
                            && res is Ok,
            decreases count - off,
        {
            let s = next + off;
            let end_of_batch = s == available;
            proof {
                assert(end_of_batch == batch_end(s as int, available as int));
            }
            let failed = self.observe_one(s, end_of_batch, on_event);
            match failed {
                None => {},
                Some(message) => {
                    self.advance_consumer(c, s - 1);
                    let failure = consumer_failure(
                        FailurePhase::EventProcessing,
                        message.as_str(),
                        context,
                        Some(s),
                    );
                    self.poison_with_failure(&failure);
                    proof {
                        let v = old(self)@;
                        let m = message@;
                        assert(self@.seq == (SequencerView {
                            gating: v.seq.gating.update(c as int, Some((s - 1) as i64)),
                            poisoned: true,
                            first_failure: kept_failure(
                                v.seq.first_failure,
                                consumer_failure_view(FailurePhase::EventProcessing, m, context, Some(s)),
                            ),
                            ..v.seq
                        }));
                    }
                    let r = ConsumerStep::Stopped { at: s };
                    proof {
                        let v = old(self)@;
                        let w = self@;
                        assert(v.seq.first_failure is None ==> w.seq.first_failure->Some_0.message == message@);
                        assert forall|t: int|
                            #![trigger in_batch(current + 1, step_end(r) - current, t)]
                            in_batch(current + 1, step_end(r) - current, t) implies exists|res: DisruptorResult<()>|
                                #![trigger on_event.ensures((&v.event_at(t), t as i64, batch_end(t, v.available(c as int))), res)]
                                on_event.ensures((&v.event_at(t), t as i64, batch_end(t, v.available(c as int))), res)
                                    && if r is Stopped && t == step_end(r) {
                                    res is Err && (v.seq.first_failure is None ==> w.seq.first_failure->Some_0.message
                                        == error_message(res->Err_0))
                                } else {
                                    res is Ok
                                } by {
                            if t < s {
                                assert(in_batch(next as int, off as int, t));
                            } else {
                                assert(t as i64 == s);
                            }
                        }
                    }
                    return r;
                },
            }
            proof {
                assert forall|t: int|
                    #![trigger in_batch(next as int, off + 1, t)]
                    in_batch(next as int, off + 1, t) implies exists|res: DisruptorResult<()>|
                        #![trigger on_event.ensures((&old(self)@.event_at(t), t as i64, batch_end(t, available as int)), res)]
                        on_event.ensures((&old(self)@.event_at(t), t as i64, batch_end(t, available as int)), res)
                            && res is Ok by {
                    if t < s {
                        assert(in_batch(next as int, off as int, t));
                    } else {
                        assert(t as i64 == s);
                    }
                }
            }
            off = off + 1;
        }
        self.advance_consumer(c, available);
        let r = ConsumerStep::Processed { from: next, to: available };
        proof {
            let v = old(self)@;
            let w = self@;
            assert forall|t: int|
                #![trigger in_batch(current + 1, step_end(r) - current, t)]
                in_batch(current + 1, step_end(r) - current, t) implies exists|res: DisruptorResult<()>|
                    #![trigger on_event.ensures((&v.event_at(t), t as i64, batch_end(t, v.available(c as int))), res)]
                    on_event.ensures((&v.event_at(t), t as i64, batch_end(t, v.available(c as int))), res)
                        && if r is Stopped && t == step_end(r) {
                        res is Err && (v.seq.first_failure is None ==> w.seq.first_failure->Some_0.message
                            == error_message(res->Err_0))
                    } else {
                        res is Ok
                    } by {
                assert(in_batch(next as int, off as int, t));
            }
        }
        r
    }

    /// Creates a worker pool whose work sequence starts at the claimed
    /// sequence, and returns its index.
    pub fn add_worker_pool(&mut self) -> (p: usize)
        requires
            old(self).wf(),
        ensures
            final(self).wf(),
            final(self).setup() == old(self).setup(),
            p == old(self)@.work.len(),
            final(self)@ == (PipelineView { work: old(self)@.work.push(old(self)@.seq.claimed as i64), ..old(self)@ }),
    {
        let p = self.work.len();
        let claimed = self.sequencer.claimed();
        self.work.push(claimed);
        proof {
            let v = old(self)@;
            let w = final(self)@;
            assert forall|d: int| 0 <= d < w.pools.len() && #[trigger] w.pools[d] is Some implies w.pools[d]->Some_0 < w.work.len() by {
                assert(w.pools[d] == v.pools[d]);
            }
        }
        p
    }

    /// Registers a worker of pool `pool` that waits for the consumers `deps`;
    /// it starts like [`Self::add_consumer`].
    pub fn add_pool_worker(&mut self, deps: Vec<usize>, pool: usize) -> (c: usize)
        requires
            old(self).wf(),
            old(self)@.seq.published_cursor() == old(self)@.seq.claimed,
            forall|k: int| 0 <= k < deps@.len() ==> #[trigger] deps@[k] < old(self)@.seq.gating.len(),
            pool < old(self)@.work.len(),
        ensures
            final(self).wf(),
            final(self).setup() == old(self).setup(),
            c == old(self)@.seq.gating.len(),
            final(self)@ == (PipelineView {
                seq: SequencerView {
                    gating: old(self)@.seq.gating.push(
                        Some(dep_min(old(self)@.seq.gating, deps@, old(self)@.seq.claimed) as i64),
                    ),
                    ..old(self)@.seq
                },
                deps: old(self)@.deps.push(deps@),
                pools: old(self)@.pools.push(Some(pool)),
                ..old(self)@
            }),
    {
        let c = self.add_consumer(deps);
        let last = self.pools.len() - 1;
        self.pools.set(last, Some(pool));
        proof {
            let v = old(self)@;
            let w = final(self)@;
            assert(w.pools =~= v.pools.push(Some(pool)));
            assert forall|d: int| 0 <= d < w.pools.len() && #[trigger] w.pools[d] is Some implies w.pools[d]->Some_0 < w.work.len() by {
                if d < v.pools.len() {
                    assert(w.pools[d] == v.pools[d]);
                }
            }
        }
        c
    }

    /// One step of a pool worker: takes a snapshot of the pool's work sequence
    /// (advancing to it), claims the next sequence for exclusive processing when
    /// its barrier makes it available, processes it and advances to it.
    ///
    /// A batch-start or event error poisons the pipeline with the worker's
    /// failure; the worker stays at its snapshot and the claimed sequence stays taken.
    ///
    /// The handler is called once for the batch start and then once per
    /// event, in sequence order, each call starting from the state the one
    /// before left it in.
    #[verifier::rlimit(60)]
    pub fn process_work_item<H: EventHandler<E>>(
        &mut self,
        c: usize,
        handler: &mut H,
        context: ConsumerContext,
    ) -> (r: ConsumerStep)
        requires
            old(self).wf(),
            old(self)@.active(c as int),
            old(self)@.pools[c as int] is Some,
        ensures
            final(self).wf(),
            final(self)@.deps == old(self)@.deps,
            final(self)@.pools == old(self)@.pools,
            r is Idle <==> !old(self)@.work_claimable(c as int),
            pool_step(
                old(self)@.work[old(self)@.pools[c as int]->Some_0 as int],
                r,
                final(self)@.work[old(self)@.pools[c as int]->Some_0 as int],
            ),
            r is Idle ==> final(self)@ == old(self)@.work_snapshot(c as int),
            r matches ConsumerStep::Processed { from, to } ==> from == to && from == old(self)@.work[old(self)@.pools[c as int]->Some_0 as int] + 1,
            r matches ConsumerStep::Processed { from, to } ==> final(self)@.work == old(self)@.work.update(old(self)@.pools[c as int]->Some_0 as int, from),
            r matches ConsumerStep::Processed { from, to } ==> final(self)@.seq == (SequencerView {
                gating: old(self)@.seq.gating.update(c as int, Some(from)),
                ..old(self)@.seq
            }),
            r matches ConsumerStep::Processed { from, to } ==> forall|j: int|
                0 <= j < old(self)@.ring.len() && j != slot_of(from as int, old(self)@.seq.buffer_size) ==> #[trigger] final(self)@.ring[j]
                    == old(self)@.ring[j],
            r matches ConsumerStep::Stopped { at } ==> at == old(self)@.work[old(self)@.pools[c as int]->Some_0 as int] + 1,
            r matches ConsumerStep::Stopped { at } ==> final(self)@.work == old(self)@.work.update(old(self)@.pools[c as int]->Some_0 as int, at),
            r matches ConsumerStep::Stopped { at } ==> stopped_as(
                old(self)@.seq,
                final(self)@.seq,
                c as int,
                old(self)@.work[old(self)@.pools[c as int]->Some_0 as int],
                context,
                at,
                false,
            ),
            r matches ConsumerStep::Stopped { at } ==> forall|j: int|
                0 <= j < old(self)@.ring.len() && j != slot_of(at as int, old(self)@.seq.buffer_size) ==> #[trigger] final(self)@.ring[j]
                    == old(self)@.ring[j],
            ({
                let v = old(self)@;
                let w = final(self)@;
                let snap = v.work_snapshot(c as int);
                let claim = v.work[v.pools[c as int]->Some_0 as int] + 1;
                let depth = snap.available(c as int) - claim + 1;
                let last = snap.available(c as int);
                exists|hs: Seq<H>|
                    #![trigger handler_states(hs, *old(handler), *final(handler))]
                    handler_states(hs, *old(handler), *final(handler)) && match r {
                        ConsumerStep::Idle => hs.len() == 1,
                        ConsumerStep::Processed { from, to } => {
                            &&& hs.len() == 3
                            &&& exists|h: &mut H, res: DisruptorResult<()>|
                                #![trigger call_ensures(H::on_batch_start, (h, 1i64, depth as i64), res)]
                                *h == hs[0] && *final(h) == hs[1] && call_ensures(
                                    H::on_batch_start,
                                    (h, 1i64, depth as i64),
                                    res,
                                ) && res is Ok
                            &&& exists|h: &mut H, ev: &mut E, res: DisruptorResult<()>|
                                #![trigger call_ensures(H::on_event, (h, ev, from, batch_end(from as int, last)), res)]
                                *h == hs[1] && *final(h) == hs[2] && *ev == v.event_at(from as int) && w.ring[slot_of(
                                    from as int,
                                    v.seq.buffer_size,
                                )] == *final(ev) && call_ensures(
                                    H::on_event,
                                    (h, ev, from, batch_end(from as int, last)),
                                    res,
                                ) && res is Ok
                        },
                        ConsumerStep::Stopped { at } => {
                            ||| {
                                &&& hs.len() == 2
                                &&& exists|h: &mut H, res: DisruptorResult<()>|
                                    #![trigger call_ensures(H::on_batch_start, (h, 1i64, depth as i64), res)]
                                    *h == hs[0] && *final(h) == hs[1] && call_ensures(
                                        H::on_batch_start,
                                        (h, 1i64, depth as i64),
                                        res,
                                    ) && res is Err && (v.seq.first_failure is None
                                        ==> w.seq.first_failure->Some_0.message == error_message(res->Err_0))
                            }
                            ||| {
                                &&& hs.len() == 3
                                &&& exists|h: &mut H, res: DisruptorResult<()>|
                                    #![trigger call_ensures(H::on_batch_start, (h, 1i64, depth as i64), res)]
                                    *h == hs[0] && *final(h) == hs[1] && call_ensures(
                                        H::on_batch_start,
                                        (h, 1i64, depth as i64),
                                        res,
                                    ) && res is Ok
                                &&& exists|h: &mut H, ev: &mut E, res: DisruptorResult<()>|
                                    #![trigger call_ensures(H::on_event, (h, ev, at, batch_end(at as int, last)), res)]
                                    *h == hs[1] && *final(h) == hs[2] && *ev == v.event_at(at as int) && w.ring[slot_of(
                                        at as int,
                                        v.seq.buffer_size,
                                    )] == *final(ev) && call_ensures(
                                        H::on_event,
                                        (h, ev, at, batch_end(at as int, last)),
                                        res,
                                    ) && res is Err && (v.seq.first_failure is None
                                        ==> w.seq.first_failure->Some_0.message == error_message(res->Err_0))
                            }
                        },
                    }
            }),
    {
        let pool = match self.pools[c] {
            Some(p) => p,
            None => 0,
        };
        let current = self.work[pool];
        let mine = match self.sequencer.gating_sequence(c) {
            Some(g) => g,
            None => 0,
        };
        let upper = self.upper(c);
        if mine < current && current <= upper {
            self.advance_consumer(c, current);
        }
        let ghost snapped = self@;
        let now = match self.sequencer.gating_sequence(c) {
            Some(g) => g,
            None => 0,
        };
        if now != current {
            proof {
                assert(handler_states(seq![*handler], *old(handler), *handler));
            }
            return ConsumerStep::Idle;
        }
        let available = self.barrier_available(c);
        if available <= current {
            proof {
                assert(handler_states(seq![*handler], *old(handler), *handler));
            }
            return ConsumerStep::Idle;
        }
        proof {
            let v = self@;
            lemma_min_gating_bound(v.seq.gating, v.seq.claimed);
            assert(v.seq.gating[c as int] is Some);
            lemma_dep_min(v.seq.gating, v.deps[c as int], v.seq.published_cursor());
        }
        let claimed = current + 1;
        self.work.set(pool, claimed);
        proof {
            let v = old(self)@;
            let w = self@;
            assert forall|d: int| 0 <= d < w.pools.len() && #[trigger] w.pools[d] is Some implies w.pools[d]->Some_0 < w.work.len() by {
                assert(w.pools[d] == v.pools[d]);
            }
        }
        let ghost claimed_state = self@;
        proof {
            assert(snapped == old(self)@.work_snapshot(c as int));
            assert(available - claimed + 1 == (old(self)@.work_snapshot(c as int).available(c as int) - claimed + 1) as i64);
        }
        let ghost h0 = *handler;
        let started = handler.on_batch_start(1, available - claimed + 1);
        let ghost h1 = *handler;
        match started {
            Ok(()) => {},
            Err(e) => {
                let message = e.describe();
                let failure = consumer_failure(
                    FailurePhase::BatchStart,
                    message.as_str(),
                    context,
                    Some(claimed),
                );
                self.poison_with_failure(&failure);
                proof {
                    let v = old(self)@;
                    assert(snapped.seq.gating =~= v.seq.gating.update(c as int, Some(current)));
                    let m = message@;
                    let phase = FailurePhase::BatchStart;
                    assert((phase == FailurePhase::BatchStart || phase == FailurePhase::EventProcessing)
                        && self@.seq == (SequencerView {
                        gating: v.seq.gating.update(c as int, Some(current)),
                        poisoned: true,
                        first_failure: kept_failure(
                            v.seq.first_failure,
                            consumer_failure_view(phase, m, context, Some(claimed)),
                        ),
                        ..v.seq
                    }));
                    assert(self@.work =~= v.work.update(v.pools[c as int]->Some_0 as int, claimed));
                    assert(handler_states(seq![h0, h1], *old(handler), *handler));
                }
                return ConsumerStep::Stopped { at: claimed };
            },
        }
        let none: Option<&DefaultExceptionHandler<E>> = None;
        let end_of_batch = claimed == available;
        proof {
            assert(end_of_batch == batch_end(claimed as int, old(self)@.work_snapshot(c as int).available(c as int)));
            assert(self@.event_at(claimed as int) == old(self)@.event_at(claimed as int));
        }
        let stop = self.process_one(claimed, end_of_batch, handler, none);
        let ghost processed = self@;
        let ghost h2 = *handler;
        proof {
            assert(handler_states(seq![h0, h1, h2], *old(handler), *handler));
        }
        match stop {
            Some(message) => {
                let failure = consumer_failure(
                    FailurePhase::EventProcessing,
                    message.as_str(),
                    context,
                    Some(claimed),
                );
                self.poison_with_failure(&failure);
                proof {
                    let v = old(self)@;
                    assert(snapped.seq.gating =~= v.seq.gating.update(c as int, Some(current)));
                    let m = message@;
                    let phase = FailurePhase::EventProcessing;
                    assert((phase == FailurePhase::BatchStart || phase == FailurePhase::EventProcessing)
                        && self@.seq == (SequencerView {
                        gating: v.seq.gating.update(c as int, Some(current)),
                        poisoned: true,
                        first_failure: kept_failure(
                            v.seq.first_failure,
                            consumer_failure_view(phase, m, context, Some(claimed)),
                        ),
                        ..v.seq
                    }));
                    assert(self@.work =~= v.work.update(v.pools[c as int]->Some_0 as int, claimed));
                    assert(self@.ring == processed.ring);
                    assert(v.seq.first_failure is None ==> self@.seq.first_failure->Some_0.message == m);
                    let hs = seq![h0, h1, h2];
                    assert(hs[1] == h1 && hs[2] == h2);
                    assert(handler_states(hs, *old(handler), *handler));
                    let last = v.work_snapshot(c as int).available(c as int);
                    let depth = last - (v.work[v.pools[c as int]->Some_0 as int] + 1) + 1;
                    let w = self@;
                    assert(exists|h: &mut H, res: DisruptorResult<()>|
                        #![trigger call_ensures(H::on_batch_start, (h, 1i64, depth as i64), res)]
                        *h == hs[0] && *final(h) == hs[1] && call_ensures(
                            H::on_batch_start,
                            (h, 1i64, depth as i64),
                            res,
                        ) && res is Ok);
                    assert(exists|h: &mut H, ev: &mut E, res: DisruptorResult<()>|
                        #![trigger call_ensures(H::on_event, (h, ev, claimed, batch_end(claimed as int, last)), res)]
                        *h == hs[1] && *final(h) == hs[2] && *ev == v.event_at(claimed as int) && w.ring[slot_of(
                            claimed as int,
                            v.seq.buffer_size,
                        )] == *final(ev) && call_ensures(
                            H::on_event,
                            (h, ev, claimed, batch_end(claimed as int, last)),
                            res,
                        ) && res is Err && (v.seq.first_failure is None ==> w.seq.first_failure->Some_0.message
                            == error_message(res->Err_0)));
                    let (h, ev, res) = choose|h: &mut H, ev: &mut E, res: DisruptorResult<()>|
                        #![trigger call_ensures(H::on_event, (h, ev, claimed, batch_end(claimed as int, last)), res)]
                        *h == hs[1] && *final(h) == hs[2] && *ev == v.event_at(claimed as int) && w.ring[slot_of(
                            claimed as int,
                            v.seq.buffer_size,
                        )] == *final(ev) && call_ensures(
                            H::on_event,
                            (h, ev, claimed, batch_end(claimed as int, last)),
                            res,
                        ) && res is Err && (v.seq.first_failure is None ==> w.seq.first_failure->Some_0.message
                            == error_message(res->Err_0));
                    let r = ConsumerStep::Stopped { at: claimed };
                    assert(call_ensures(H::on_event, (h, ev, r->at, batch_end(r->at as int, last)), res));
                }
                ConsumerStep::Stopped { at: claimed }
            },
            None => {
                self.advance_consumer(c, claimed);
                proof {
                    let v = old(self)@;
                    assert(self@.seq.gating =~= v.seq.gating.update(c as int, Some(claimed)));
                    assert(self@.work =~= v.work.update(v.pools[c as int]->Some_0 as int, claimed));
                    assert(claimed == v.work[v.pools[c as int]->Some_0 as int] + 1);
                    assert(self@.seq == (SequencerView {
                        gating: v.seq.gating.update(c as int, Some(claimed)),
                        ..v.seq
                    }));
                    assert(forall|j: int|
                        0 <= j < v.ring.len() && j != slot_of(claimed as int, v.seq.buffer_size) ==> #[trigger] self@.ring[j]
                            == v.ring[j]);
                }
                ConsumerStep::Processed { from: claimed, to: claimed }
            },
        }
    }

    /// Reads the event at `sequence`, which active consumer `c`'s barrier
    /// makes available and which `c` has not processed yet, with `read`.
    pub fn read_available<R, F: FnOnce(&E) -> R>(&self, c: usize, sequence: i64, read: F) -> (r: R)
        requires
            self.wf(),
            self@.active(c as int),
            self@.seq.gating[c as int]->Some_0 < sequence <= self@.available(c as int),
            forall|e: &E| read.requires((e,)),
        ensures
            read.ensures((&self@.event_at(sequence as int),), r),
    {
        proof {
            lemma_min_gating_floor(self@.seq.gating, self@.seq.claimed, -1);
            assert(self@.seq.gating[c as int] is Some);
        }
        read(self.ring.get(sequence))
    }

    /// Applies `update` to the event at `sequence`, which active consumer `c`'s
    /// barrier makes available and which `c` has not processed yet.
    pub fn update_available<F: FnOnce(&mut E)>(&mut self, c: usize, sequence: i64, update: F)
        requires
            old(self).wf(),
            old(self)@.active(c as int),
            old(self)@.seq.gating[c as int]->Some_0 < sequence <= old(self)@.available(c as int),
            forall|e: &mut E| update.requires((e,)),
        ensures
            final(self).wf(),
            final(self)@.seq == old(self)@.seq,
            final(self)@.deps == old(self)@.deps,
            final(self)@.pools == old(self)@.pools,
            final(self)@.work == old(self)@.work,
            exists|e: &mut E|
                *e == old(self)@.event_at(sequence as int) && final(self)@.ring == old(self)@.ring.update(slot_of(sequence as int, old(self)@.seq.buffer_size), *final(e))
                    && update.ensures((e,), ()),
    {
        proof {
            lemma_min_gating_floor(old(self)@.seq.gating, old(self)@.seq.claimed, -1);
            assert(old(self)@.seq.gating[c as int] is Some);
        }
        self.ring.update_with(sequence, update);
    }
}

} // verus!
