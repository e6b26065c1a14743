//! Publishing events: the errors a publish reports and the producer handles.

use vstd::prelude::*;
use vstd::string::StringExecFns;
use crate::text::{decimal_digits, push_decimal};
use crate::error::{DisruptorError, DisruptorResult};
use crate::failure::FailureRecord;
use crate::pipeline::{clamp_i64, in_batch, PipelineView};
use crate::ring_buffer::{slot_of, RingBuffer};
use crate::sequencer::{opt_record, SequencerEnum};
use crate::shared::{ok_value, published_from, Busy, SharedPipeline};
use crate::wait_strategy::WaitStrategy;

verus! {

/// The ring buffer is full.
#[derive(Debug, Clone, Copy, PartialEq, Eq, Structural)]
pub struct RingBufferFull;

impl RingBufferFull {
    /// The display form of the error.
    pub fn describe(&self) -> (s: String)
        ensures
            s@ == "Ring Buffer is full"@,
    {
        String::from_str("Ring Buffer is full")
    }
}

/// Too few free slots for a batch; holds the deficit.
#[derive(Debug, Clone, Copy, PartialEq, Eq, Structural)]
pub struct MissingFreeSlots(pub u64);

impl MissingFreeSlots {
    /// The display form of the error.
    pub fn describe(&self) -> (s: String)
        ensures
            s@ == "Missing free slots in Ring Buffer: "@ + decimal_digits(self.0 as nat),
    {
        let mut s = String::from_str("Missing free slots in Ring Buffer: ");
        push_decimal(&mut s, self.0);
        s
    }
}

/// Why a non-blocking publish attempt was rejected.
#[derive(Debug, Clone, Copy, PartialEq, Eq, Structural)]
pub enum TryPublishError {
    /// The ring buffer is full right now; retrying is meaningful.
    Full(RingBufferFull),
    /// A claim lost a race while capacity was available; retrying is meaningful.
    Contended,
    /// Not enough free slots for the batch (carries the deficit); retrying is meaningful.
    MissingFreeSlots(MissingFreeSlots),
    /// The batch size is zero or exceeds the ring; retrying can never succeed.
    InvalidBatchSize {
        /// Number of slots requested.
        requested: usize,
        /// Maximum batch size of this ring.
        capacity: usize,
    },
    /// A fatal failure poisoned the pipeline; terminal.
    Poisoned,
    /// Shutdown or halt closed the claim path; terminal.
    Shutdown,
    /// A nested single-producer publish from inside a translator.
    ReentrantPublish,
}

/// The display form of a publish rejection.
pub open spec fn try_publish_error_text(e: TryPublishError) -> Seq<char> {
    match e {
        TryPublishError::Full(_) => "Ring Buffer is full"@,
        TryPublishError::Contended => "Another producer won the claim race"@,
        TryPublishError::MissingFreeSlots(m) => "Missing free slots in Ring Buffer: "@
            + decimal_digits(m.0 as nat),
        TryPublishError::InvalidBatchSize { requested, capacity } => "Invalid batch size "@
            + decimal_digits(requested as nat) + "; expected a value in 1..="@ + decimal_digits(
            capacity as nat,
        ),
        TryPublishError::Poisoned => "Pipeline was poisoned by a panic; publishing is disabled"@,
        TryPublishError::Shutdown => "Sequencer is closed (shutdown/halt); publishing is disabled"@,
        TryPublishError::ReentrantPublish =>
            "Reentrant publish from inside a single-producer DSL translator"@,
    }
}

/// A terminal rejection: the pipeline itself can never accept a publish again.
pub open spec fn is_terminal_error(e: TryPublishError) -> bool {
    e == TryPublishError::Poisoned || e == TryPublishError::Shutdown
}

/// A transient rejection: backpressure, retrying is meaningful.
pub open spec fn is_transient_error(e: TryPublishError) -> bool {
    e is Full || e is Contended || e is MissingFreeSlots
}

impl TryPublishError {
    /// True for the terminal states `Poisoned` and `Shutdown`.
    pub fn is_terminal(&self) -> (r: bool)
        ensures
            r == is_terminal_error(*self),
    {
        matches!(self, TryPublishError::Poisoned | TryPublishError::Shutdown)
    }

    /// True for transient backpressure: `Full`, `Contended`, `MissingFreeSlots`.
    pub fn is_transient(&self) -> (r: bool)
        ensures
            r == is_transient_error(*self),
    {
        matches!(
            self,
            TryPublishError::Full(_) | TryPublishError::Contended | TryPublishError::MissingFreeSlots(_)
        )
    }

    /// Whether the rejection wraps an underlying error (`Full`, `MissingFreeSlots`).
    pub fn has_source(&self) -> (r: bool)
        ensures
            r == (*self is Full || *self is MissingFreeSlots),
    {
        matches!(self, TryPublishError::Full(_) | TryPublishError::MissingFreeSlots(_))
    }

    /// The display form of the rejection.
    pub fn describe(&self) -> (s: String)
        ensures
            s@ == try_publish_error_text(*self),
    {
        match self {
            TryPublishError::Full(e) => e.describe(),
            TryPublishError::Contended => String::from_str("Another producer won the claim race"),
            TryPublishError::MissingFreeSlots(e) => e.describe(),
            TryPublishError::InvalidBatchSize { requested, capacity } => {
                let mut s = String::from_str("Invalid batch size ");
                push_decimal(&mut s, *requested as u64);
                s.append("; expected a value in 1..=");
                push_decimal(&mut s, *capacity as u64);
                s
            },
            TryPublishError::Poisoned => String::from_str(
                "Pipeline was poisoned by a panic; publishing is disabled",
            ),
            TryPublishError::Shutdown => String::from_str(
                "Sequencer is closed (shutdown/halt); publishing is disabled",
            ),
            TryPublishError::ReentrantPublish => String::from_str(
                "Reentrant publish from inside a single-producer DSL translator",
            ),
        }
    }
}

impl From<RingBufferFull> for TryPublishError {
    fn from(e: RingBufferFull) -> (r: Self)
        ensures
            r == TryPublishError::Full(e),
    {
        TryPublishError::Full(e)
    }
}

impl vstd::std_specs::convert::FromSpecImpl<RingBufferFull> for TryPublishError {
    open spec fn obeys_from_spec() -> bool {
        true
    }

    open spec fn from_spec(e: RingBufferFull) -> Self {
        TryPublishError::Full(e)
    }
}

impl From<MissingFreeSlots> for TryPublishError {
    fn from(e: MissingFreeSlots) -> (r: Self)
        ensures
            r == TryPublishError::MissingFreeSlots(e),
    {
        TryPublishError::MissingFreeSlots(e)
    }
}

impl vstd::std_specs::convert::FromSpecImpl<MissingFreeSlots> for TryPublishError {
    open spec fn obeys_from_spec() -> bool {
        true
    }

    open spec fn from_spec(e: MissingFreeSlots) -> Self {
        TryPublishError::MissingFreeSlots(e)
    }
}

/// Publishing events into a pipeline.
///
/// The `try_` methods report why a claim was refused: transient backpressure
/// (`Full`, `MissingFreeSlots`, `Contended`) that a retry may overcome, a zero
/// or oversized batch, or a terminal pipeline (`Poisoned`, `Shutdown`). The
/// other two report a refusal as a [`crate::DisruptorError`]. A batch update
/// is called once per event with the event's index within the batch.
pub trait Producer<E> {
    /// Claims, fills and publishes one event; returns its sequence.
    fn try_publish<F: FnOnce(&mut E)>(&mut self, update: F) -> (r: Result<i64, TryPublishError>)
        requires
            forall|e: &mut E| update.requires((e,)),
    ;

    /// Claims, fills and publishes `n` events; returns the highest sequence.
    fn try_batch_publish<F: Fn(usize, &mut E)>(&mut self, n: usize, update: F) -> (r: Result<
        i64,
        TryPublishError,
    >)
        requires
            forall|i: usize, e: &mut E| update.requires((i, e)),
    ;

    /// Claims, fills and publishes one event, reporting a refusal as an error.
    fn publish<F: FnOnce(&mut E)>(&mut self, update: F) -> (r: DisruptorResult<i64>)
        requires
            forall|e: &mut E| update.requires((e,)),
    ;

    /// Claims, fills and publishes `n` events, reporting a refusal as an error.
    fn batch_publish<F: Fn(usize, &mut E)>(&mut self, n: usize, update: F) -> (r: DisruptorResult<
        i64,
    >)
        requires
            forall|i: usize, e: &mut E| update.requires((i, e)),
    ;
}

/// A publishing handle on a pipeline shared with its consumers and, for a
/// multi-producer pipeline, with other handles.
#[verifier::reject_recursive_types(E)]
#[verifier::reject_recursive_types(W)]
pub struct SimpleProducer<E, W: WaitStrategy> {
    shared: SharedPipeline<E, W>,
}

impl<E, W: WaitStrategy> SimpleProducer<E, W> {
    /// The pipeline this producer publishes into.
    pub closed spec fn pipeline(self) -> SharedPipeline<E, W> {
        self.shared
    }

    /// A producer over a ring and a sequencer of the same size, with no
    /// consumer registered and no claim pending.
    pub fn new(ring_buffer: RingBuffer<E>, sequencer: SequencerEnum<W>) -> (r: Self)
        requires
            ring_buffer.wf(),
            sequencer.state().wf(),
            sequencer.state().gating.len() == 0,
            sequencer.state().published_cursor() == sequencer.state().claimed,
            ring_buffer.size() == sequencer.state().buffer_size,
        ensures
            r.pipeline().size_spec() == ring_buffer.size(),
    {
        SimpleProducer { shared: SharedPipeline::new(ring_buffer, sequencer) }
    }

    /// A producer publishing into `shared`.
    pub fn from_shared(shared: SharedPipeline<E, W>) -> (r: Self)
        ensures
            r.pipeline() == shared,
    {
        SimpleProducer { shared }
    }

    /// The pipeline this producer publishes into.
    pub fn shared(&self) -> (r: &SharedPipeline<E, W>)
        ensures
            *r == self.pipeline(),
    {
        &self.shared
    }

    /// Another handle publishing into the same pipeline.
    pub fn duplicate(&self) -> (r: Self)
        ensures
            r.pipeline().shares_with(self.pipeline()),
            r.pipeline().size_spec() == self.pipeline().size_spec(),
            r.pipeline().lock_refused() == self.pipeline().lock_refused(),
    {
        SimpleProducer { shared: self.shared.handle() }
    }

    /// The published cursor (`-1` before the first publish).
    pub fn current_sequence(&self) -> (c: Result<i64, Busy>)
        ensures
            c is Err ==> self.pipeline().lock_refused(),
            c is Ok ==> exists|p: PipelineView<E>| p.wf() && #[trigger] p.seq.published_cursor() == c->Ok_0,
    {
        self.shared.cursor()
    }

    /// The first structured failure retained by the pipeline.
    pub fn first_failure(&self) -> (r: Result<Option<FailureRecord>, Busy>)
        ensures
            r is Err ==> self.pipeline().lock_refused(),
            r is Ok ==> exists|p: PipelineView<E>| p.wf() && #[trigger] p.seq.first_failure == opt_record(r->Ok_0),
    {
        self.shared.first_failure()
    }
}

impl<E, W: WaitStrategy> Producer<E> for SimpleProducer<E, W> {
    fn try_publish<F: FnOnce(&mut E)>(&mut self, update: F) -> (r: Result<i64, TryPublishError>)
        ensures
            (r == Err::<i64, TryPublishError>(TryPublishError::Contended) && old(self).pipeline().lock_refused()) || exists|p: PipelineView<E>, q: PipelineView<E>|
                #![trigger published_from(p, q, 1, ok_value(r))]
                p.wf() && p.try_publish_outcome(r) && published_from(p, q, 1, ok_value(r))
                && (r matches Ok(s) ==> exists|e: &mut E|
                *e == p.event_at(s as int) && q.ring[slot_of(s as int, p.seq.buffer_size)] == *final(e)
                    && update.ensures((e,), ())),
    {
        self.shared.try_publish(update)
    }

    fn try_batch_publish<F: Fn(usize, &mut E)>(&mut self, n: usize, update: F) -> (r: Result<
        i64,
        TryPublishError,
    >)
        ensures
            n == 0 || n > old(self).pipeline().size_spec() ==> (r == Err::<i64, TryPublishError>(TryPublishError::Contended) && old(self).pipeline().lock_refused())
                || exists|p: PipelineView<E>|
                #![trigger p.rejection(TryPublishError::InvalidBatchSize { requested: n, capacity: old(self).pipeline().size_spec() as usize })]
                p.wf() && r == Err::<i64, TryPublishError>(
                    p.rejection(TryPublishError::InvalidBatchSize { requested: n, capacity: old(self).pipeline().size_spec() as usize }),
                ),
            1 <= n <= old(self).pipeline().size_spec() ==> (r == Err::<i64, TryPublishError>(TryPublishError::Contended) && old(self).pipeline().lock_refused()) || exists|p: PipelineView<E>, q: PipelineView<E>|
                #![trigger published_from(p, q, n, ok_value(r))]
                p.wf() && p.try_batch_outcome(n, r) && published_from(p, q, n, ok_value(r)) && (r matches Ok(hi) ==> forall|
                    t: int,
                |
                    #![trigger in_batch(hi - n + 1, n as int, t)]
                    in_batch(hi - n + 1, n as int, t) ==> exists|e: &mut E|
                        *e == p.event_at(t) && q.ring[slot_of(t, p.seq.buffer_size)] == *final(e) && update.ensures(
                            ((t - (hi - n + 1)) as usize, e),
                            (),
                        )),
    {
        self.shared.try_batch_publish(n, &update)
    }

    fn publish<F: FnOnce(&mut E)>(&mut self, update: F) -> (r: DisruptorResult<i64>)
        ensures
            (r == Err::<i64, DisruptorError>(DisruptorError::Timeout) && old(self).pipeline().lock_refused()) || exists|p: PipelineView<E>, q: PipelineView<E>|
                #![trigger published_from(p, q, 1, ok_value(r))]
                p.wf() && p.publish_outcome(1, r) && published_from(p, q, 1, ok_value(r))
                && (r matches Ok(s) ==> exists|e: &mut E|
                *e == p.event_at(s as int) && q.ring[slot_of(s as int, p.seq.buffer_size)] == *final(e)
                    && update.ensures((e,), ())),
    {
        self.shared.publish(update)
    }

    fn batch_publish<F: Fn(usize, &mut E)>(&mut self, n: usize, update: F) -> (r: DisruptorResult<
        i64,
    >)
        ensures
            n == 0 || n > old(self).pipeline().size_spec() ==> r == Err::<i64, DisruptorError>(
                DisruptorError::InvalidSequence(clamp_i64(n)),
            ),
            1 <= n <= old(self).pipeline().size_spec() ==> (r == Err::<i64, DisruptorError>(DisruptorError::Timeout) && old(self).pipeline().lock_refused()) || exists|p: PipelineView<E>, q: PipelineView<E>|
                #![trigger published_from(p, q, n, ok_value(r))]
                p.wf() && p.publish_outcome(n, r) && published_from(p, q, n, ok_value(r)) && (r matches Ok(hi) ==> forall|
                    t: int,
                |
                    #![trigger in_batch(hi - n + 1, n as int, t)]
                    in_batch(hi - n + 1, n as int, t) ==> exists|e: &mut E|
                        *e == p.event_at(t) && q.ring[slot_of(t, p.seq.buffer_size)] == *final(e) && update.ensures(
                            ((t - (hi - n + 1)) as usize, e),
                            (),
                        )),
    {
        self.shared.batch_publish(n, &update)
    }
}

/// A producer handle that hands out further handles on the same pipeline,
/// one per publishing thread.
#[verifier::reject_recursive_types(E)]
#[verifier::reject_recursive_types(W)]
pub struct CloneableProducer<E, W: WaitStrategy> {
    producer: SimpleProducer<E, W>,
}

impl<E, W: WaitStrategy> CloneableProducer<E, W> {
    /// The pipeline this producer's handles publish into.
    pub closed spec fn pipeline(self) -> SharedPipeline<E, W> {
        self.producer.pipeline()
    }

    /// A cloneable producer over a ring and a sequencer of the same size,
    /// with no consumer registered and no claim pending.
    pub fn new(ring_buffer: RingBuffer<E>, sequencer: SequencerEnum<W>) -> (r: Self)
        requires
            ring_buffer.wf(),
            sequencer.state().wf(),
            sequencer.state().gating.len() == 0,
            sequencer.state().published_cursor() == sequencer.state().claimed,
            ring_buffer.size() == sequencer.state().buffer_size,
        ensures
            r.pipeline().size_spec() == ring_buffer.size(),
    {
        CloneableProducer { producer: SimpleProducer::new(ring_buffer, sequencer) }
    }

    /// A cloneable producer publishing into `shared`.
    pub fn from_shared(shared: SharedPipeline<E, W>) -> (r: Self)
        ensures
            r.pipeline() == shared,
    {
        CloneableProducer { producer: SimpleProducer::from_shared(shared) }
    }

    /// A new handle on the same pipeline.
    pub fn create_producer(&self) -> (r: SimpleProducer<E, W>)
        ensures
            r.pipeline().shares_with(self.pipeline()),
            r.pipeline().size_spec() == self.pipeline().size_spec(),
            r.pipeline().lock_refused() == self.pipeline().lock_refused(),
    {
        self.producer.duplicate()
    }

    /// Claims, fills and publishes one event; see [`Producer::try_publish`].
    pub fn try_publish<F: FnOnce(&mut E)>(&self, update: F) -> (r: Result<i64, TryPublishError>)
        requires
            forall|e: &mut E| update.requires((e,)),
        ensures
            (r == Err::<i64, TryPublishError>(TryPublishError::Contended) && self.pipeline().lock_refused()) || exists|p: PipelineView<E>, q: PipelineView<E>|
                #![trigger published_from(p, q, 1, ok_value(r))]
                p.wf() && p.try_publish_outcome(r) && published_from(p, q, 1, ok_value(r))
                && (r matches Ok(s) ==> exists|e: &mut E|
                *e == p.event_at(s as int) && q.ring[slot_of(s as int, p.seq.buffer_size)] == *final(e)
                    && update.ensures((e,), ())),
    {
        let mut producer = self.create_producer();
        producer.try_publish(update)
    }

    /// Claims, fills and publishes one event, reporting a refusal as an error.
    pub fn publish<F: FnOnce(&mut E)>(&self, update: F) -> (r: DisruptorResult<i64>)
        requires
            forall|e: &mut E| update.requires((e,)),
        ensures
            (r == Err::<i64, DisruptorError>(DisruptorError::Timeout) && self.pipeline().lock_refused()) || exists|p: PipelineView<E>, q: PipelineView<E>|
                #![trigger published_from(p, q, 1, ok_value(r))]
                p.wf() && p.publish_outcome(1, r) && published_from(p, q, 1, ok_value(r))
                && (r matches Ok(s) ==> exists|e: &mut E|
                *e == p.event_at(s as int) && q.ring[slot_of(s as int, p.seq.buffer_size)] == *final(e)
                    && update.ensures((e,), ())),
    {
        let mut producer = self.create_producer();
        producer.publish(update)
    }

    /// Claims, fills and publishes `n` events; see [`Producer::try_batch_publish`].
    pub fn try_batch_publish<F: Fn(usize, &mut E)>(&self, n: usize, update: F) -> (r: Result<
        i64,
        TryPublishError,
    >)
        requires
            forall|i: usize, e: &mut E| update.requires((i, e)),
        ensures
            n == 0 || n > self.pipeline().size_spec() ==> (r == Err::<i64, TryPublishError>(TryPublishError::Contended) && self.pipeline().lock_refused())
                || exists|p: PipelineView<E>|
                #![trigger p.rejection(TryPublishError::InvalidBatchSize { requested: n, capacity: self.pipeline().size_spec() as usize })]
                p.wf() && r == Err::<i64, TryPublishError>(
                    p.rejection(TryPublishError::InvalidBatchSize { requested: n, capacity: self.pipeline().size_spec() as usize }),
                ),
            1 <= n <= self.pipeline().size_spec() ==> (r == Err::<i64, TryPublishError>(TryPublishError::Contended) && self.pipeline().lock_refused()) || exists|p: PipelineView<E>, q: PipelineView<E>|
                #![trigger published_from(p, q, n, ok_value(r))]
                p.wf() && p.try_batch_outcome(n, r) && published_from(p, q, n, ok_value(r)) && (r matches Ok(hi) ==> forall|
                    t: int,
                |
                    #![trigger in_batch(hi - n + 1, n as int, t)]
                    in_batch(hi - n + 1, n as int, t) ==> exists|e: &mut E|
                        *e == p.event_at(t) && q.ring[slot_of(t, p.seq.buffer_size)] == *final(e) && update.ensures(
                            ((t - (hi - n + 1)) as usize, e),
                            (),
                        )),
    {
        let mut producer = self.create_producer();
        producer.try_batch_publish(n, update)
    }

    /// Claims, fills and publishes `n` events, reporting a refusal as an error.
    pub fn batch_publish<F: Fn(usize, &mut E)>(&self, n: usize, update: F) -> (r: DisruptorResult<
        i64,
    >)
        requires
            forall|i: usize, e: &mut E| update.requires((i, e)),
        ensures
            n == 0 || n > self.pipeline().size_spec() ==> r == Err::<i64, DisruptorError>(
                DisruptorError::InvalidSequence(clamp_i64(n)),
            ),
            1 <= n <= self.pipeline().size_spec() ==> (r == Err::<i64, DisruptorError>(DisruptorError::Timeout) && self.pipeline().lock_refused()) || exists|p: PipelineView<E>, q: PipelineView<E>|
                #![trigger published_from(p, q, n, ok_value(r))]
                p.wf() && p.publish_outcome(n, r) && published_from(p, q, n, ok_value(r)) && (r matches Ok(hi) ==> forall|
                    t: int,
                |
                    #![trigger in_batch(hi - n + 1, n as int, t)]
                    in_batch(hi - n + 1, n as int, t) ==> exists|e: &mut E|
                        *e == p.event_at(t) && q.ring[slot_of(t, p.seq.buffer_size)] == *final(e) && update.ensures(
                            ((t - (hi - n + 1)) as usize, e),
                            (),
                        )),
    {
        let mut producer = self.create_producer();
        producer.batch_publish(n, update)
    }
}

} // verus!
