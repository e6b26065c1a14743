//! Polling consumers driven by the application's own threads.

use vstd::prelude::*;
use std::sync::Arc;
use core::sync::atomic::{AtomicBool, Ordering};
use crate::error::{DisruptorError, DisruptorResult};
use crate::event_factory::EventFactory;
use crate::pipeline::{Pipeline, PipelineView};
use crate::producer::SimpleProducer;
use crate::ring_buffer::{valid_ring_size, RingBuffer};
use crate::sequencer::{SequencerEnum, SingleProducerSequencer};
use crate::shared::{barrier_reading, commit_reading, consumer_reading, update_reading, Busy, SharedPipeline};
use crate::sync::share;
use crate::wait_strategy::WaitStrategy;

verus! {

/// Why a poll returned no batch.
#[derive(Debug, Clone, Copy, PartialEq, Eq, Structural)]
pub enum Polling {
    /// No new event is published yet.
    Idle,
    /// The poller was halted, or the pipeline is gone.
    Shutdown,
}

/// What a poll from `next` returns, given whether the poller was halted
/// and what its barrier reported: `Shutdown` when halted or when the
/// consumer is gone (`None`); `Idle` when the lock was busy or nothing from
/// `next` on is available; otherwise the sequences `next..=available`.
pub open spec fn poll_decision(halted: bool, reading: Result<Option<i64>, Busy>, next: i64) -> Result<
    (i64, i64),
    Polling,
> {
    if halted {
        Err(Polling::Shutdown)
    } else {
        match reading {
            Err(_) => Err(Polling::Idle),
            Ok(None) => Err(Polling::Shutdown),
            Ok(Some(available)) => if available < next {
                Err(Polling::Idle)
            } else {
                Ok((next, available))
            },
        }
    }
}

/// The decision of a poll from `next`; see [`poll_decision`].
pub fn poll_outcome(halted: bool, reading: Result<Option<i64>, Busy>, next: i64) -> (r: Result<
    (i64, i64),
    Polling,
>)
    ensures
        r == poll_decision(halted, reading, next),
{
    if halted {
        return Err(Polling::Shutdown);
    }
    match reading {
        Err(_) => Err(Polling::Idle),
        Ok(None) => Err(Polling::Shutdown),
        Ok(Some(available)) => {
            if available < next {
                Err(Polling::Idle)
            } else {
                Ok((next, available))
            }
        },
    }
}

/// A consumer that the application polls instead of a managed thread.
///
/// Its consumer is registered with the pipeline, so producers never overwrite
/// an event it has not committed.
#[verifier::reject_recursive_types(E)]
#[verifier::reject_recursive_types(W)]
pub struct EventPoller<E, W: WaitStrategy> {
    shared: SharedPipeline<E, W>,
    consumer: usize,
    next_sequence: i64,
    shutdown: Arc<AtomicBool>,
}

impl<E, W: WaitStrategy> EventPoller<E, W> {
    #[verifier::type_invariant]
    spec fn inv(self) -> bool {
        0 <= self.next_sequence
    }

    /// The pipeline this poller consumes from.
    pub closed spec fn pipeline(self) -> SharedPipeline<E, W> {
        self.shared
    }

    /// The consumer this poller drives.
    pub closed spec fn consumer_index(self) -> usize {
        self.consumer
    }

    /// The next sequence this poller will consume.
    pub closed spec fn next_spec(self) -> i64 {
        self.next_sequence
    }

    /// Whether reading this poller's halt flag can give `v`, as a read
    /// that gave it shows.
    pub closed spec fn halt_read(self, v: bool) -> bool {
        call_ensures(AtomicBool::load, (&*self.shutdown, Ordering::Acquire), v)
    }

    /// Whether asking the pipeline for this poller's barrier can give `v`,
    /// as a request that gave it shows.
    pub closed spec fn barrier_seen(self, v: Result<Option<i64>, Busy>) -> bool {
        call_ensures(SharedPipeline::<E, W>::barrier_available, (&self.shared, self.consumer), v)
    }

    /// Registers a new consumer of `shared` (following the cursor) and polls
    /// for it; `None` when the pipeline was lost to a panic, `Busy` when its
    /// lock was held.
    pub fn attach(shared: SharedPipeline<E, W>, shutdown: Arc<AtomicBool>) -> (r: Result<Option<Self>, Busy>)
        ensures
            r is Err ==> shared.lock_refused(),
            r matches Ok(Some(poller)) ==> ({
                &&& poller.pipeline() == shared
                &&& exists|p: PipelineView<E>|
                    p.wf() && #[trigger] p.seq.gating.len() == poller.consumer_index()
            }),
            r matches Ok(Some(poller)) ==> exists|p: PipelineView<E>, v: Option<i64>|
                p.wf() && #[trigger] consumer_reading(p, poller.consumer_index(), v) && poller.next_spec()
                    == (match v {
                    Some(s) => s + 1,
                    None => 0,
                }),
            r == Ok::<Option<Self>, Busy>(None) ==> exists|p: PipelineView<E>|
                #![trigger p.wf()]
                p.wf() && (p.seq.poisoned || p.seq.claimed == i64::MAX),
    {
        let deps: Vec<usize> = Vec::new();
        let ghost d = deps@;
        let added = match shared.add_consumer(deps) {
            Ok(added) => added,
            Err(Busy) => {
                return Err(Busy);
            },
        };
        match added {
            None => {
                proof {
                    assert(d.len() == 0);
                }
                Ok(None)
            },
            Some(c) => {
                let read = match shared.consumer_sequence(c) {
                    Ok(read) => read,
                    Err(Busy) => {
                        return Err(Busy);
                    },
                };
                let start = match read {
                    Some(s) => s,
                    None => -1,
                };
                if start < -1 || start == i64::MAX {
                    proof {
                        let p = choose|p: PipelineView<E>| p.wf() && #[trigger] consumer_reading(p, c, read);
                        assert(p.seq.wf());
                        assert(p.wf() && p.seq.claimed == i64::MAX);
                    }
                    return Ok(None);
                }
                let poller = EventPoller { shared, consumer: c, next_sequence: start + 1, shutdown };
                let r = Some(poller);
                proof {
                    let p = choose|p: PipelineView<E>| p.wf() && #[trigger] consumer_reading(p, c, read);
                    assert(r->Some_0.consumer_index() == c);
                    assert(consumer_reading(p, r->Some_0.consumer_index(), read));
                }
                Ok(r)
            },
        }
    }

    /// The committed sequence of this poller's consumer: producers never
    /// overwrite events after it.
    pub fn sequence(&self) -> (r: Result<Option<i64>, Busy>)
        ensures
            r is Err ==> self.pipeline().lock_refused(),
            r matches Ok(v) ==> exists|p: PipelineView<E>| p.wf() && #[trigger] consumer_reading(p, self.consumer_index(), v),
    {
        proof {
            assert(self.consumer_index() == self.consumer);
        }
        self.shared.consumer_sequence(self.consumer)
    }

    /// The next sequence this poller will consume.
    pub fn next_sequence(&self) -> (r: i64)
        ensures
            r == self.next_spec(),
    {
        self.next_sequence
    }

    /// Asks this poller to stop: every later poll reports `Shutdown`.
    pub fn halt(&self) {
        self.shutdown.store(true, Ordering::Release);
    }

    /// The published events from the next sequence up to what this
    /// poller's barrier allows, as a batch to process and commit; what is
    /// returned is [`poll_outcome`] of the halt flag read and the barrier
    /// reading (which is not taken when halted). `Shutdown` comes only from a
    /// halt flag read as set or a consumer that is gone; `Idle` only from a
    /// flag read as clear and a busy lock or nothing new; a batch ends where
    /// the barrier reading ended.
    pub fn poll(&self) -> (r: Result<EventBatch, Polling>)
        ensures
            r == Err::<EventBatch, Polling>(Polling::Shutdown) ==> self.halt_read(true) || self.barrier_seen(
                Ok(None),
            ),
            r == Err::<EventBatch, Polling>(Polling::Idle) ==> self.halt_read(false) && ((exists|b: Busy|
                #[trigger] self.barrier_seen(Err(b))) || exists|a: i64|
                a < self.next_spec() && #[trigger] self.barrier_seen(Ok(Some(a)))),
            r matches Ok(b) ==> self.halt_read(false) && self.barrier_seen(Ok(Some(b.to_spec()))),
            exists|halted: bool, reading: Result<Option<i64>, Busy>|
                #![trigger poll_decision(halted, reading, self.next_spec())]
                (reading matches Ok(a) ==> exists|p: PipelineView<E>|
                    p.wf() && #[trigger] barrier_reading(p, self.consumer_index(), a)) && match poll_decision(
                    halted,
                    reading,
                    self.next_spec(),
                ) {
                    Ok((f, t)) => r matches Ok(b) && b.from_spec() == f && b.current_spec() == f && b.to_spec()
                        == t && b.consumer_spec() == self.consumer_index(),
                    Err(e) => r == Err::<EventBatch, Polling>(e),
                },
    {
        proof {
            use_type_invariant(self);
            assert(self.consumer_index() == self.consumer);
            assert(self.next_spec() == self.next_sequence);
        }
        let halted = self.shutdown.load(Ordering::Acquire);
        let reading = if halted {
            Err(Busy)
        } else {
            self.shared.barrier_available(self.consumer)
        };
        let ghost next = self.next_sequence;
        match poll_outcome(halted, reading, self.next_sequence) {
            Ok((from, to)) => {
                proof {
                    assert(poll_decision(halted, reading, next) == Ok::<(i64, i64), Polling>((from, to)));
                }
                Ok(EventBatch { consumer: self.consumer, from, current: from, to })
            },
            Err(e) => {
                proof {
                    assert(poll_decision(halted, reading, next) == Err::<(i64, i64), Polling>(e));
                    if !halted && reading is Ok && reading->Ok_0 is Some {
                        let a = reading->Ok_0->Some_0;
                        assert(reading == Ok::<Option<i64>, Busy>(Some(a)));
                        assert(self.barrier_seen(Ok(Some(a))));
                    }
                    if !halted && reading is Err {
                        assert(reading == Err::<Option<i64>, Busy>(reading->Err_0));
                        assert(self.barrier_seen(Err(reading->Err_0)));
                    }
                }
                Err(e)
            },
        }
    }

    /// A poll whose batch holds at most `max_events` events (none for 0).
    pub fn take(&self, max_events: usize) -> (r: Result<EventBatch, Polling>)
        ensures
            r == Err::<EventBatch, Polling>(Polling::Shutdown) ==> self.halt_read(true) || self.barrier_seen(
                Ok(None),
            ),
            r == Err::<EventBatch, Polling>(Polling::Idle) ==> self.halt_read(false) && ((exists|b: Busy|
                #[trigger] self.barrier_seen(Err(b))) || exists|a: i64|
                a < self.next_spec() && #[trigger] self.barrier_seen(Ok(Some(a)))),
            r matches Ok(b) ==> self.halt_read(false) && exists|a: i64|
                b.to_spec() <= a && #[trigger] self.barrier_seen(Ok(Some(a))),
            exists|halted: bool, reading: Result<Option<i64>, Busy>|
                #![trigger poll_decision(halted, reading, self.next_spec())]
                (reading matches Ok(a) ==> exists|p: PipelineView<E>|
                    p.wf() && #[trigger] barrier_reading(p, self.consumer_index(), a)) && match poll_decision(
                    halted,
                    reading,
                    self.next_spec(),
                ) {
                    Ok((f, t)) => r matches Ok(b) && b.from_spec() == f && b.current_spec() == f
                        && b.consumer_spec() == self.consumer_index() && b.to_spec() == (if t - f + 1
                        <= max_events {
                        t as int
                    } else {
                        f + max_events - 1
                    }),
                    Err(e) => r == Err::<EventBatch, Polling>(e),
                },
    {
        proof {
            assert(self.consumer_index() == self.consumer);
            assert(self.next_spec() == self.next_sequence);
        }
        let batch = match self.poll() {
            Ok(b) => b,
            Err(e) => {
                return Err(e);
            },
        };
        proof {
            use_type_invariant(&batch);
        }
        if max_events == 0 {
            return Ok(EventBatch { to: batch.from - 1, ..batch });
        }
        let count: u64 = (batch.to - batch.from) as u64 + 1;
        if count <= max_events as u64 {
            Ok(batch)
        } else {
            Ok(EventBatch { to: batch.from + (max_events as i64 - 1), ..batch })
        }
    }

    /// Reads the event at `sequence` of `batch` with `read`; `None` when
    /// `sequence` lies outside the batch, the batch was taken by another
    /// poller, or the pipeline refused the read (it was lost).
    pub fn get<R, F: FnOnce(&E) -> R>(&self, batch: &EventBatch, sequence: i64, read: F) -> (r: Result<
        Option<R>,
        Busy,
    >)
        requires
            forall|e: &E| read.requires((e,)),
        ensures
            r is Err ==> self.pipeline().lock_refused(),
            !(batch.consumer_spec() == self.consumer_index() && batch.from_spec() <= sequence
                <= batch.to_spec()) ==> r matches Ok(None),
            r matches Ok(Some(v)) ==> exists|p: PipelineView<E>|
                p.wf() && #[trigger] update_reading(p, self.consumer_index(), sequence, true) && read.ensures(
                    (&p.event_at(sequence as int),),
                    v,
                ),
            r matches Ok(None) && batch.consumer_spec() == self.consumer_index() && batch.from_spec()
                <= sequence <= batch.to_spec() ==> exists|p: PipelineView<E>|
                p.wf() && #[trigger] update_reading(p, self.consumer_index(), sequence, false),
    {
        proof {
            assert(self.consumer_index() == self.consumer);
        }
        if batch.consumer != self.consumer || sequence < batch.from || sequence > batch.to {
            return Ok(None);
        }
        self.shared.read_available(self.consumer, sequence, read)
    }

    /// Applies `update` to the next event of `batch` and moves past it;
    /// `None` when the batch is exhausted, was taken by another poller, or
    /// the pipeline refused the update (it was lost); `Busy`, changing
    /// nothing, when the lock was held.
    pub fn update_next<F: FnOnce(&mut E)>(&self, batch: &mut EventBatch, update: F) -> (r: Result<
        Option<i64>,
        Busy,
    >)
        requires
            forall|e: &mut E| update.requires((e,)),
        ensures
            r is Err ==> self.pipeline().lock_refused(),
            r matches Ok(Some(s)) ==> s == old(batch).current_spec() && final(batch).current_spec() == s + 1
                && exists|p: PipelineView<E>|
                p.wf() && #[trigger] update_reading(p, self.consumer_index(), s, true),
            !(r matches Ok(Some(_))) ==> *final(batch) == *old(batch),
            !(old(batch).consumer_spec() == self.consumer_index() && old(batch).current_spec()
                <= old(batch).to_spec() && old(batch).current_spec() < i64::MAX) ==> r matches Ok(None),
            r matches Ok(None) && old(batch).consumer_spec() == self.consumer_index() && old(batch).current_spec()
                <= old(batch).to_spec() && old(batch).current_spec() < i64::MAX ==> exists|p: PipelineView<E>|
                p.wf() && #[trigger] update_reading(p, self.consumer_index(), old(batch).current_spec(), false),
            final(batch).from_spec() == old(batch).from_spec(),
            final(batch).to_spec() == old(batch).to_spec(),
            final(batch).consumer_spec() == old(batch).consumer_spec(),
    {
        proof {
            assert(self.consumer_index() == self.consumer);
            use_type_invariant(&*batch);
        }
        if batch.consumer != self.consumer || batch.current > batch.to || batch.current == i64::MAX {
            return Ok(None);
        }
        let s = batch.current;
        match self.shared.update_available(self.consumer, s, update) {
            Ok(true) => {
                batch.current = s + 1;
                Ok(Some(s))
            },
            Ok(false) => Ok(None),
            Err(Busy) => Err(Busy),
        }
    }

    /// Commits `batch` to this poller's consumer, releasing its slots to the
    /// producers; the next poll starts after it. Reports whether the
    /// pipeline accepted the commit; `Busy`, changing nothing, when the lock
    /// was held.
    pub fn commit(&mut self, batch: EventBatch) -> (r: Result<bool, Busy>)
        ensures
            r is Err ==> old(self).pipeline().lock_refused(),
            final(self).consumer_index() == old(self).consumer_index(),
            r is Err ==> final(self).next_spec() == old(self).next_spec(),
            r is Ok && batch.consumer_spec() == old(self).consumer_index() && batch.from_spec() <= batch.to_spec()
                < i64::MAX ==> final(self).next_spec() == batch.to_spec() + 1,
            !(batch.consumer_spec() == old(self).consumer_index() && batch.from_spec() <= batch.to_spec()
                < i64::MAX) ==> final(self).next_spec() == old(self).next_spec() && r == Ok::<bool, Busy>(false),
            r == Ok::<bool, Busy>(true) ==> exists|p: PipelineView<E>|
                p.wf() && #[trigger] commit_reading(p, old(self).consumer_index(), batch.to_spec(), true),
            r == Ok::<bool, Busy>(false) && batch.consumer_spec() == old(self).consumer_index() && batch.from_spec()
                <= batch.to_spec() < i64::MAX ==> exists|p: PipelineView<E>|
                p.wf() && #[trigger] commit_reading(p, old(self).consumer_index(), batch.to_spec(), false),
    {
        proof {
            use_type_invariant(&batch);
        }
        if batch.consumer != self.consumer || batch.to < batch.from || batch.to == i64::MAX {
            return Ok(false);
        }
        let done = match self.shared.commit_consumer(self.consumer, batch.to) {
            Ok(done) => done,
            Err(Busy) => {
                return Err(Busy);
            },
        };
        self.next_sequence = batch.to + 1;
        Ok(done)
    }
}

/// A batch of published events taken by a poll: the sequences
/// `from_sequence()..=to_sequence()`, processed up to the current one.
#[derive(Debug)]
pub struct EventBatch {
    consumer: usize,
    from: i64,
    current: i64,
    to: i64,
}

impl EventBatch {
    #[verifier::type_invariant]
    spec fn inv(self) -> bool {
        0 <= self.from && self.from - 1 <= self.to && self.from <= self.current
    }

    /// The consumer that took the batch.
    pub closed spec fn consumer_spec(self) -> usize {
        self.consumer
    }

    /// The first sequence.
    pub closed spec fn from_spec(self) -> i64 {
        self.from
    }

    /// The next sequence to process.
    pub closed spec fn current_spec(self) -> i64 {
        self.current
    }

    /// The last sequence.
    pub closed spec fn to_spec(self) -> i64 {
        self.to
    }

    /// The number of events: `to - from + 1`, or 0 for an empty batch.
    pub open spec fn len_spec(self) -> int {
        if self.to_spec() < self.from_spec() {
            0
        } else {
            self.to_spec() - self.from_spec() + 1
        }
    }

    /// Inclusive start sequence of this batch.
    pub fn from_sequence(&self) -> (s: i64)
        ensures
            s == self.from_spec(),
    {
        self.from
    }

    /// Inclusive end sequence of this batch.
    pub fn to_sequence(&self) -> (s: i64)
        ensures
            s == self.to_spec(),
    {
        self.to
    }

    /// Number of events in the batch (0 when it does not fit a `usize`).
    pub fn len(&self) -> (n: usize)
        ensures
            n == (if self.len_spec() <= usize::MAX {
                self.len_spec()
            } else {
                0
            }),
    {
        if self.to < self.from {
            0
        } else {
            let span: u64 = (self.to as i128 - self.from as i128) as u64;
            if span < usize::MAX as u64 {
                (span + 1) as usize
            } else {
                0
            }
        }
    }

    /// Whether the batch holds no event.
    pub fn is_empty(&self) -> (b: bool)
        ensures
            b == (self.len_spec() == 0 || self.len_spec() > usize::MAX),
    {
        self.len() == 0
    }
}

/// What [`open_single_producer_poller`] returns: the producer, the poller,
/// and the poller's stop flag.
pub type SingleProducerPollerBundle<E, W> = (SimpleProducer<E, W>, EventPoller<E, W>, Arc<AtomicBool>);

/// A single-producer ring of `buffer_size` slots filled by `event_factory`,
/// with one polling consumer registered before anything is published.
///
/// Refused with `InvalidBufferSize` unless the size is a power of two.
pub fn open_single_producer_poller<E, F: EventFactory<E>, W: WaitStrategy>(
    buffer_size: usize,
    event_factory: F,
    wait_strategy: W,
) -> (r: DisruptorResult<SingleProducerPollerBundle<E, W>>)
    ensures
        r is Ok <==> valid_ring_size(buffer_size as nat),
        r is Err ==> r == Err::<SingleProducerPollerBundle<E, W>, DisruptorError>(
            DisruptorError::InvalidBufferSize(buffer_size),
        ),
        r matches Ok(bundle) ==> bundle.1.consumer_index() == 0 && bundle.1.next_spec() == 0,
{
    let ring = match RingBuffer::new(buffer_size, event_factory) {
        Ok(ring) => ring,
        Err(e) => {
            return Err(e);
        },
    };
    let sequencer = SequencerEnum::Single(SingleProducerSequencer::new(buffer_size, wait_strategy));
    let mut pipeline = Pipeline::new(ring, sequencer);
    let consumer = pipeline.add_consumer(Vec::new());
    let shared = SharedPipeline::from_pipeline(pipeline);
    let shutdown = Arc::new(AtomicBool::new(false));
    let poller = EventPoller {
        shared: shared.handle(),
        consumer,
        next_sequence: 0,
        shutdown: share(&shutdown),
    };
    let producer = SimpleProducer::from_shared(shared);
    Ok((producer, poller, shutdown))
}

} // verus!
