//! A pipeline shared between handles and threads behind one lock.
//!
//! Every operation takes the lock and runs one verified transition of the
//! [`Pipeline`]; its contract states the result as a function of the state the
//! operation found, which other handles may have changed since the last call.

use vstd::prelude::*;
use vstd::string::StringExecFns;
use std::sync::{Arc, Mutex};
use crate::consumer_engine::{lifecycle_failure, ConsumerContext, ConsumerStep};
use crate::error::{error_message, DisruptorError, DisruptorResult};
use crate::event_handler::EventHandler;
use crate::exception_handler::ExceptionHandler;
use crate::failure::{FailurePhase, FailureRecord, FailureRecordView};
use crate::pipeline::{batch_written, clamp_i64, clamped_i64, in_batch, lemma_claimed_writable, Pipeline, PipelineView};
use crate::producer::TryPublishError;
use crate::ring_buffer::{slot_of, RingBuffer};
use crate::sequencer::{kept_failure, opt_record, SequencerEnum, SequencerView};
use crate::sync::{guarded, new_mutex, share, try_lock};
use crate::text::{decimal, push_signed_decimal};
use crate::wait_strategy::WaitStrategy;
use crate::event_translator::EventTranslator;

verus! {

/// The message recorded when a producer's update panics between claiming
/// `lo..=hi` and publishing it.
pub open spec fn producer_panic_message(lo: int, hi: int) -> Seq<char> {
    if lo == hi {
        "producer update panicked after claim and before publish"@
    } else {
        "producer batch update panicked after claiming sequences "@ + decimal(lo) + "..="@
            + decimal(hi)
    }
}

/// The failure recorded when a producer's update panics between claiming
/// `lo..=hi` and publishing it.
pub open spec fn producer_panic_view(lo: int, hi: int) -> FailureRecordView {
    FailureRecordView {
        phase: FailurePhase::ProducerPanic,
        message: producer_panic_message(lo, hi),
        thread_name: None,
        stage_index: None,
        sequence: Some(lo as i64),
    }
}

/// Builds the failure recorded for a producer panic over `lo..=hi`.
fn producer_panic_record(lo: i64, hi: i64) -> (r: FailureRecord)
    ensures
        r@ == producer_panic_view(lo as int, hi as int),
{
    if lo == hi {
        FailureRecord::new(
            FailurePhase::ProducerPanic,
            "producer update panicked after claim and before publish",
        ).with_sequence(lo)
    } else {
        let mut m = String::from_str("producer batch update panicked after claiming sequences ");
        push_signed_decimal(&mut m, lo);
        m.append("..=");
        push_signed_decimal(&mut m, hi);
        FailureRecord::new(FailurePhase::ProducerPanic, m.as_str()).with_sequence(lo)
    }
}

/// The state a shared pipeline keeps reporting after a callback panicked in
/// the middle of an operation: the pipeline as it was, poisoned, with the
/// failure that the panic means when nothing was recorded before.
pub open spec fn frozen_view<E>(v: PipelineView<E>, extra: Option<FailureRecordView>) -> PipelineView<E> {
    PipelineView {
        seq: SequencerView {
            poisoned: true,
            first_failure: match extra {
                Some(f) => kept_failure(v.seq.first_failure, f),
                None => v.seq.first_failure,
            },
            ..v.seq
        },
        ..v
    }
}

/// What registering a consumer waiting for `deps` reports from `p`.
pub open spec fn consumer_added<E>(p: PipelineView<E>, deps: Seq<usize>, r: Option<usize>) -> bool {
    match r {
        Some(c) => c == p.seq.gating.len() && forall|k: int| 0 <= k < deps.len() ==> deps[k] < c,
        None => p.seq.poisoned || exists|k: int| 0 <= k < deps.len() && deps[k] >= p.seq.gating.len(),
    }
}

/// What creating a worker pool reports from `p`.
pub open spec fn pool_added<E>(p: PipelineView<E>, r: Option<usize>) -> bool {
    match r {
        Some(i) => i == p.work.len(),
        None => p.seq.poisoned,
    }
}

/// What registering a worker of `pool` waiting for `deps` reports from `p`.
pub open spec fn worker_added<E>(p: PipelineView<E>, deps: Seq<usize>, pool: usize, r: Option<usize>) -> bool {
    match r {
        Some(c) => c == p.seq.gating.len() && pool < p.work.len() && forall|k: int|
            0 <= k < deps.len() ==> deps[k] < c,
        None => p.seq.poisoned || pool >= p.work.len() || exists|k: int|
            0 <= k < deps.len() && deps[k] >= p.seq.gating.len(),
    }
}

/// What removing consumer `c` reports from `p`.
pub open spec fn consumer_removed<E>(p: PipelineView<E>, c: usize, r: bool) -> bool {
    if r {
        c < p.seq.gating.len()
    } else {
        p.seq.poisoned || c >= p.seq.gating.len()
    }
}

/// What reading consumer `c`'s sequence reports from `p`.
pub open spec fn consumer_reading<E>(p: PipelineView<E>, c: usize, r: Option<i64>) -> bool {
    match r {
        Some(v) => c < p.seq.gating.len() && p.seq.gating[c as int] == Some(v),
        None => p.seq.poisoned || c >= p.seq.gating.len() || p.seq.gating[c as int] is None,
    }
}

/// What reading the barrier of consumer `c` reports from `p`.
pub open spec fn barrier_reading<E>(p: PipelineView<E>, c: usize, r: Option<i64>) -> bool {
    match r {
        Some(a) => p.active(c as int) && a == p.available(c as int),
        None => p.seq.poisoned || !p.active(c as int),
    }
}

/// What committing consumer `c` to `to` reports from `p`: done exactly when
/// its barrier allows `to`.
pub open spec fn commit_reading<E>(p: PipelineView<E>, c: usize, to: i64, r: bool) -> bool {
    let allowed = p.active(c as int) && p.seq.gating[c as int]->Some_0 <= to <= p.available(
        c as int,
    );
    if r {
        allowed
    } else {
        p.seq.poisoned || !allowed
    }
}

/// What updating the event at `sequence` for consumer `c` reports from `p`:
/// done exactly when `c`'s barrier makes `sequence` available and `c` has not
/// processed it yet.
pub open spec fn update_reading<E>(p: PipelineView<E>, c: usize, sequence: i64, r: bool) -> bool {
    let allowed = p.active(c as int) && p.seq.gating[c as int]->Some_0 < sequence <= p.available(
        c as int,
    );
    if r {
        allowed
    } else {
        p.seq.poisoned || !allowed
    }
}

/// `q` is `p` with `failure` recorded (the first one is kept) and, when
/// `poison` holds, the pipeline poisoned.
pub open spec fn failure_recorded<E>(
    p: PipelineView<E>,
    q: PipelineView<E>,
    failure: FailureRecordView,
    poison: bool,
) -> bool {
    q == (PipelineView {
        seq: SequencerView {
            first_failure: kept_failure(p.seq.first_failure, failure),
            poisoned: p.seq.poisoned || poison,
            ..p.seq
        },
        ..p
    })
}

/// The record of a lifecycle callback of the consumer thread `thread_name`
/// at stage `stage_index` that failed with `e`.
pub open spec fn lifecycle_view(
    phase: FailurePhase,
    e: DisruptorError,
    thread_name: Seq<char>,
    stage_index: usize,
) -> FailureRecordView {
    FailureRecordView {
        phase,
        message: error_message(e),
        thread_name: Some(thread_name),
        stage_index: Some(stage_index),
        sequence: None,
    }
}

/// The highest sequence a publish returned, if it returned one.
pub open spec fn ok_value<T>(r: Result<i64, T>) -> Option<i64> {
    match r {
        Ok(hi) => Some(hi),
        Err(_) => None,
    }
}

/// How a publish of `n` events from `p` leaves `q`, given the highest
/// sequence it published (`None` when it was refused): unchanged when
/// refused; otherwise the sequences up to `hi` claimed and published, and
/// only their slots written.
pub open spec fn published_from<E>(p: PipelineView<E>, q: PipelineView<E>, n: usize, hi: Option<i64>) -> bool {
    match hi {
        None => q == p,
        Some(hi) => batch_written(p, q, hi - n + 1, hi as int),
    }
}

/// What a sequential step of consumer `c` reports from `p`.
pub open spec fn step_reading<E>(p: PipelineView<E>, c: usize, r: Option<ConsumerStep>) -> bool {
    match r {
        Some(step) => p.active(c as int) && p.step_outcome(c as int, step),
        None => p.seq.poisoned || !p.active(c as int),
    }
}

/// What a step of pool worker `c` reports from `p`.
pub open spec fn work_reading<E>(p: PipelineView<E>, c: usize, r: Option<ConsumerStep>) -> bool {
    match r {
        Some(step) => p.active(c as int) && p.pools[c as int] is Some && p.work_outcome(
            c as int,
            step,
        ),
        None => p.seq.poisoned || !p.active(c as int) || p.pools[c as int] is None,
    }
}

/// What is left of a pipeline lost to a panic: the values it reports.
#[verifier::reject_recursive_types(E)]
struct Frozen<E> {
    cursor: i64,
    remaining: i64,
    buffer_size: usize,
    closed: bool,
    failure: Option<FailureRecord>,
    view: Ghost<PipelineView<E>>,
}

impl<E> Frozen<E> {
    /// The reported values are those of a well-formed, poisoned state.
    spec fn valid(self) -> bool {
        &&& self.view@.wf()
        &&& self.view@.seq.poisoned
        &&& self.cursor == self.view@.seq.published_cursor()
        &&& self.remaining == self.view@.seq.remaining()
        &&& self.buffer_size == self.view@.seq.buffer_size
        &&& self.closed == self.view@.seq.closed
        &&& opt_record(self.failure) == self.view@.seq.first_failure
    }

    /// The same state, closed.
    fn closed_copy(&self) -> (f: Frozen<E>)
        requires
            self.valid(),
        ensures
            f.valid(),
            f.view@ == (PipelineView {
                seq: SequencerView { closed: true, ..self.view@.seq },
                ..self.view@
            }),
    {
        let failure = match &self.failure {
            Some(r) => Some(r.duplicate()),
            None => None,
        };
        Frozen {
            cursor: self.cursor,
            remaining: self.remaining,
            buffer_size: self.buffer_size,
            closed: true,
            failure,
            view: Ghost(PipelineView { seq: SequencerView { closed: true, ..self.view@.seq }, ..self.view@ }),
        }
    }

    /// The same state with `record` recorded (the first failure is kept).
    fn recorded_copy(&self, record: &FailureRecord) -> (f: Frozen<E>)
        requires
            self.valid(),
        ensures
            f.valid(),
            f.view@ == (PipelineView {
                seq: SequencerView {
                    first_failure: kept_failure(self.view@.seq.first_failure, record@),
                    ..self.view@.seq
                },
                ..self.view@
            }),
    {
        let failure = match &self.failure {
            Some(r) => Some(r.duplicate()),
            None => Some(record.duplicate()),
        };
        Frozen {
            cursor: self.cursor,
            remaining: self.remaining,
            buffer_size: self.buffer_size,
            closed: self.closed,
            failure,
            view: Ghost(
                PipelineView {
                    seq: SequencerView {
                        first_failure: kept_failure(self.view@.seq.first_failure, record@),
                        ..self.view@.seq
                    },
                    ..self.view@
                },
            ),
        }
    }
}

/// Whether every index in `deps` is below `count`.
fn all_below(deps: &Vec<usize>, count: usize) -> (b: bool)
    ensures
        b == forall|k: int| 0 <= k < deps@.len() ==> #[trigger] deps@[k] < count,
{
    let mut k: usize = 0;
    while k < deps.len()
        invariant
            k <= deps@.len(),
            forall|j: int| 0 <= j < k ==> #[trigger] deps@[j] < count,
        decreases deps@.len() - k,
    {
        if deps[k] >= count {
            return false;
        }
        k = k + 1;
    }
    true
}

/// A pipeline with no pending claim whenever the lock is free, or what is
/// left of it after a callback panicked during an operation.
///
/// Only this module builds a `Guarded` and changes one, always through
/// verified code, so its invariant holds whenever the lock hands it out.
#[verifier::reject_recursive_types(E)]
struct Guarded<E, W: WaitStrategy> {
    pipeline: Option<Pipeline<E, W>>,
    frozen: Frozen<E>,
}

impl<E, W: WaitStrategy> Guarded<E, W> {
    #[verifier::type_invariant]
    spec fn inv(self) -> bool {
        match self.pipeline {
            Some(p) => p.wf() && p@.settled(),
            None => self.frozen.valid(),
        }
    }

    /// Whether the pipeline is in place (no callback panicked).
    spec fn live(self) -> bool {
        self.pipeline is Some
    }

    /// The state the guarded pipeline is in, or the one it was lost in.
    spec fn state(self) -> PipelineView<E> {
        match self.pipeline {
            Some(p) => p@,
            None => self.frozen.view@,
        }
    }

    /// What is reported after a panic while `p` is out, with `extra` as the
    /// failure the panic means.
    fn freeze(p: &Pipeline<E, W>, extra: Option<FailureRecord>) -> (f: Frozen<E>)
        requires
            p.wf(),
        ensures
            f.valid(),
            f.view@ == frozen_view(p@, opt_record(extra)),
    {
        proof {
            p.lemma_view_wf();
        }
        let failure = match p.first_failure() {
            Some(r) => Some(r),
            None => extra,
        };
        Frozen {
            cursor: p.cursor(),
            remaining: p.remaining_capacity(),
            buffer_size: p.buffer_size(),
            closed: p.is_closed(),
            failure,
            view: Ghost(frozen_view(p@, opt_record(extra))),
        }
    }

    /// Takes the pipeline out, leaving what a panic would leave.
    fn take(&mut self) -> (p: Option<Pipeline<E, W>>)
        ensures
            old(self).state().wf(),
            old(self).live() ==> (p matches Some(q) && q@ == old(self).state() && q.wf() && q@.wf()
                && q@.settled() && !final(self).live()),
            !old(self).live() ==> p is None && final(self).state() == old(self).state()
                && !final(self).live() && old(self).state().seq.poisoned,
    {
        proof {
            use_type_invariant(&*self);
            if self.pipeline is Some {
                self.pipeline->Some_0.lemma_view_wf();
            }
        }
        let frozen = match &self.pipeline {
            Some(q) => Some(Self::freeze(q, None)),
            None => None,
        };
        match frozen {
            None => None,
            Some(f) => {
                self.frozen = f;
                let mut out: Option<Pipeline<E, W>> = None;
                std::mem::swap(&mut out, &mut self.pipeline);
                out
            },
        }
    }

    fn try_publish<F: FnOnce(&mut E)>(&mut self, update: F) -> (r: Result<i64, TryPublishError>)
        requires
            forall|e: &mut E| update.requires((e,)),
        ensures
            old(self).state().wf(),
            old(self).state().try_publish_outcome(r),
            published_from(old(self).state(), final(self).state(), 1, ok_value(r)),
            r matches Ok(s) ==> exists|e: &mut E|
                *e == old(self).state().event_at(s as int) && final(self).state().ring[slot_of(
                    s as int,
                    old(self).state().seq.buffer_size,
                )] == *final(e) && update.ensures((e,), ()),
    {
        let mut p = match self.take() {
            Some(p) => p,
            None => {
                return Err(TryPublishError::Poisoned);
            },
        };
        let ghost v = p@;
        match p.try_claim_next() {
            Err(e) => {
                self.pipeline = Some(p);
                Err(e)
            },
            Ok(s) => {
                let record = producer_panic_record(s, s);
                self.frozen = Self::freeze(&p, Some(record));
                p.write_and_publish_one(s, update, Ghost(v));
                self.pipeline = Some(p);
                Ok(s)
            },
        }
    }

    fn try_batch_publish<F: Fn(usize, &mut E)>(&mut self, n: usize, update: &F) -> (r: Result<
        i64,
        TryPublishError,
    >)
        requires
            forall|i: usize, e: &mut E| update.requires((i, e)),
        ensures
            old(self).state().wf(),
            old(self).state().try_batch_outcome(n, r),
            published_from(old(self).state(), final(self).state(), n, ok_value(r)),
            r matches Ok(hi) ==> forall|t: int|
                #![trigger in_batch(hi - n + 1, n as int, t)]
                in_batch(hi - n + 1, n as int, t) ==> exists|e: &mut E|
                    *e == old(self).state().event_at(t) && final(self).state().ring[slot_of(
                        t,
                        old(self).state().seq.buffer_size,
                    )] == *final(e) && update.ensures(((t - (hi - n + 1)) as usize, e), ()),
    {
        let mut p = match self.take() {
            Some(p) => p,
            None => {
                return Err(TryPublishError::Poisoned);
            },
        };
        let ghost v = p@;
        match p.try_claim(n) {
            Err(e) => {
                self.pipeline = Some(p);
                Err(e)
            },
            Ok(hi) => {
                let lo: i64 = hi - (n as i64 - 1);
                let record = producer_panic_record(lo, hi);
                self.frozen = Self::freeze(&p, Some(record));
                p.write_and_publish(n, update, Ghost(v));
                proof {
                    let w = p@;
                    assert forall|t: int|
                        #![trigger in_batch(hi - n + 1, n as int, t)]
                        in_batch(hi - n + 1, n as int, t) implies exists|e: &mut E|
                            *e == v.event_at(t) && w.ring[slot_of(t, v.seq.buffer_size)] == *final(e)
                                && update.ensures(((t - (hi - n + 1)) as usize, e), ()) by {
                        assert(in_batch(v.seq.claimed + 1, n as int, t));
                    }
                }
                self.pipeline = Some(p);
                Ok(hi)
            },
        }
    }

    fn publish<F: FnOnce(&mut E)>(&mut self, update: F) -> (r: DisruptorResult<i64>)
        requires
            forall|e: &mut E| update.requires((e,)),
        ensures
            old(self).state().wf(),
            old(self).state().publish_outcome(1, r),
            published_from(old(self).state(), final(self).state(), 1, ok_value(r)),
            r matches Ok(s) ==> exists|e: &mut E|
                *e == old(self).state().event_at(s as int) && final(self).state().ring[slot_of(
                    s as int,
                    old(self).state().seq.buffer_size,
                )] == *final(e) && update.ensures((e,), ()),
    {
        let mut p = match self.take() {
            Some(p) => p,
            None => {
                return Err(DisruptorError::Poisoned);
            },
        };
        let ghost v = p@;
        match p.claim(1) {
            Err(e) => {
                self.pipeline = Some(p);
                Err(e)
            },
            Ok(s) => {
                let record = producer_panic_record(s, s);
                self.frozen = Self::freeze(&p, Some(record));
                p.write_and_publish_one(s, update, Ghost(v));
                self.pipeline = Some(p);
                Ok(s)
            },
        }
    }

    fn batch_publish<F: Fn(usize, &mut E)>(&mut self, n: usize, update: &F) -> (r: DisruptorResult<
        i64,
    >)
        requires
            forall|i: usize, e: &mut E| update.requires((i, e)),
        ensures
            old(self).state().wf(),
            old(self).state().publish_outcome(n, r),
            published_from(old(self).state(), final(self).state(), n, ok_value(r)),
            r matches Ok(hi) ==> forall|t: int|
                #![trigger in_batch(hi - n + 1, n as int, t)]
                in_batch(hi - n + 1, n as int, t) ==> exists|e: &mut E|
                    *e == old(self).state().event_at(t) && final(self).state().ring[slot_of(
                        t,
                        old(self).state().seq.buffer_size,
                    )] == *final(e) && update.ensures(((t - (hi - n + 1)) as usize, e), ()),
    {
        proof {
            use_type_invariant(&*self);
        }
        let size = match &self.pipeline {
            Some(p) => p.buffer_size(),
            None => self.frozen.buffer_size,
        };
        if n == 0 || n > size {
            let requested: i64 = if (n as u64) <= (i64::MAX as u64) {
                n as i64
            } else {
                i64::MAX
            };
            proof {
                if self.pipeline is Some {
                    self.pipeline->Some_0.lemma_view_wf();
                }
            }
            return Err(DisruptorError::InvalidSequence(requested));
        }
        let mut p = match self.take() {
            Some(p) => p,
            None => {
                return Err(DisruptorError::Poisoned);
            },
        };
        let ghost v = p@;
        match p.claim(n) {
            Err(e) => {
                self.pipeline = Some(p);
                Err(e)
            },
            Ok(hi) => {
                let lo: i64 = hi - (n as i64 - 1);
                let record = producer_panic_record(lo, hi);
                self.frozen = Self::freeze(&p, Some(record));
                p.write_and_publish(n, update, Ghost(v));
                proof {
                    let w = p@;
                    assert forall|t: int|
                        #![trigger in_batch(hi - n + 1, n as int, t)]
                        in_batch(hi - n + 1, n as int, t) implies exists|e: &mut E|
                            *e == v.event_at(t) && w.ring[slot_of(t, v.seq.buffer_size)] == *final(e)
                                && update.ensures(((t - (hi - n + 1)) as usize, e), ()) by {
                        assert(in_batch(v.seq.claimed + 1, n as int, t));
                    }
                }
                self.pipeline = Some(p);
                Ok(hi)
            },
        }
    }

    fn try_publish_sequenced<F: FnOnce(&mut E, i64)>(&mut self, update: F) -> (r: Result<
        i64,
        TryPublishError,
    >)
        requires
            forall|e: &mut E, s: i64| update.requires((e, s)),
        ensures
            old(self).state().wf(),
            old(self).state().try_publish_outcome(r),
            published_from(old(self).state(), final(self).state(), 1, ok_value(r)),
    {
        let mut p = match self.take() {
            Some(p) => p,
            None => {
                return Err(TryPublishError::Poisoned);
            },
        };
        let ghost v = p@;
        match p.try_claim_next() {
            Err(e) => {
                self.pipeline = Some(p);
                Err(e)
            },
            Ok(s) => {
                let record = producer_panic_record(s, s);
                self.frozen = Self::freeze(&p, Some(record));
                let fill = move |e: &mut E|
                    requires
                        update.requires((e, s)),
                    { update(e, s) };
                p.write_and_publish_one(s, fill, Ghost(v));
                self.pipeline = Some(p);
                Ok(s)
            },
        }
    }

    fn publish_sequenced<F: FnOnce(&mut E, i64)>(&mut self, update: F) -> (r: DisruptorResult<i64>)
        requires
            forall|e: &mut E, s: i64| update.requires((e, s)),
        ensures
            old(self).state().wf(),
            old(self).state().publish_outcome(1, r),
            published_from(old(self).state(), final(self).state(), 1, ok_value(r)),
    {
        let mut p = match self.take() {
            Some(p) => p,
            None => {
                return Err(DisruptorError::Poisoned);
            },
        };
        let ghost v = p@;
        match p.claim(1) {
            Err(e) => {
                self.pipeline = Some(p);
                Err(e)
            },
            Ok(s) => {
                let record = producer_panic_record(s, s);
                self.frozen = Self::freeze(&p, Some(record));
                let fill = move |e: &mut E|
                    requires
                        update.requires((e, s)),
                    { update(e, s) };
                p.write_and_publish_one(s, fill, Ghost(v));
                self.pipeline = Some(p);
                Ok(s)
            },
        }
    }

    fn cursor(&self) -> (c: i64)
        ensures
            self.state().wf(),
            c == self.state().seq.published_cursor(),
    {
        proof {
            use_type_invariant(self);
            if self.pipeline is Some {
                self.pipeline->Some_0.lemma_view_wf();
            }
        }
        match &self.pipeline {
            Some(p) => p.cursor(),
            None => self.frozen.cursor,
        }
    }

    fn drained(&self) -> (r: bool)
        ensures
            self.state().wf(),
            r == (self.state().seq.gate() == self.state().seq.claimed),
    {
        proof {
            use_type_invariant(self);
            if self.pipeline is Some {
                self.pipeline->Some_0.lemma_view_wf();
            }
        }
        match &self.pipeline {
            Some(p) => p.drained(),
            None => self.frozen.remaining == self.frozen.buffer_size as i64,
        }
    }

    fn buffer_size(&self) -> (n: usize)
        ensures
            self.state().wf(),
            n == self.state().seq.buffer_size,
    {
        proof {
            use_type_invariant(self);
            if self.pipeline is Some {
                self.pipeline->Some_0.lemma_view_wf();
            }
        }
        match &self.pipeline {
            Some(p) => p.buffer_size(),
            None => self.frozen.buffer_size,
        }
    }

    fn remaining_capacity(&self) -> (r: i64)
        ensures
            self.state().wf(),
            r == self.state().seq.remaining(),
    {
        proof {
            use_type_invariant(self);
            if self.pipeline is Some {
                self.pipeline->Some_0.lemma_view_wf();
            }
        }
        match &self.pipeline {
            Some(p) => p.remaining_capacity(),
            None => self.frozen.remaining,
        }
    }

    fn is_poisoned(&self) -> (r: bool)
        ensures
            self.state().wf(),
            r == self.state().seq.poisoned,
    {
        proof {
            use_type_invariant(self);
            if self.pipeline is Some {
                self.pipeline->Some_0.lemma_view_wf();
            }
        }
        match &self.pipeline {
            Some(p) => p.is_poisoned(),
            None => true,
        }
    }

    fn is_closed(&self) -> (r: bool)
        ensures
            self.state().wf(),
            r == self.state().seq.closed,
    {
        proof {
            use_type_invariant(self);
            if self.pipeline is Some {
                self.pipeline->Some_0.lemma_view_wf();
            }
        }
        match &self.pipeline {
            Some(p) => p.is_closed(),
            None => self.frozen.closed,
        }
    }

    fn first_failure(&self) -> (r: Option<FailureRecord>)
        ensures
            self.state().wf(),
            opt_record(r) == self.state().seq.first_failure,
    {
        proof {
            use_type_invariant(self);
            if self.pipeline is Some {
                self.pipeline->Some_0.lemma_view_wf();
            }
        }
        match &self.pipeline {
            Some(p) => p.first_failure(),
            None => match &self.frozen.failure {
                Some(f) => Some(f.duplicate()),
                None => None,
            },
        }
    }

    fn close(&mut self)
        ensures
            old(self).state().wf(),
            final(self).state() == (PipelineView {
                seq: SequencerView { closed: true, ..old(self).state().seq },
                ..old(self).state()
            }),
    {
        match self.take() {
            Some(mut p) => {
                p.close();
                self.pipeline = Some(p);
            },
            None => {
                proof {
                    use_type_invariant(&*self);
                }
                let f = self.frozen.closed_copy();
                self.frozen = f;
            },
        }
    }

    fn record_failure(&mut self, failure: &FailureRecord, poison: bool)
        ensures
            old(self).state().wf(),
            failure_recorded(old(self).state(), final(self).state(), failure@, poison),
    {
        match self.take() {
            Some(mut p) => {
                if poison {
                    p.poison_with_failure(failure);
                } else {
                    p.record_failure(failure);
                }
                self.pipeline = Some(p);
            },
            None => {
                proof {
                    use_type_invariant(&*self);
                }
                let f = self.frozen.recorded_copy(failure);
                self.frozen = f;
            },
        }
    }

    fn poison(&mut self)
        ensures
            old(self).state().wf(),
            final(self).state() == (PipelineView {
                seq: SequencerView { poisoned: true, ..old(self).state().seq },
                ..old(self).state()
            }),
    {
        match self.take() {
            Some(mut p) => {
                p.poison();
                self.pipeline = Some(p);
            },
            None => {},
        }
    }

    fn add_consumer(&mut self, deps: Vec<usize>) -> (r: Option<usize>)
        ensures
            old(self).state().wf(),
            consumer_added(old(self).state(), deps@, r),
    {
        let mut p = match self.take() {
            Some(p) => p,
            None => {
                return None;
            },
        };
        let count = p.consumer_count();
        if !all_below(&deps, count) {
            self.pipeline = Some(p);
            return None;
        }
        let c = p.add_consumer(deps);
        self.pipeline = Some(p);
        Some(c)
    }

    fn add_worker_pool(&mut self) -> (r: Option<usize>)
        ensures
            old(self).state().wf(),
            pool_added(old(self).state(), r),
    {
        let mut p = match self.take() {
            Some(p) => p,
            None => {
                return None;
            },
        };
        let i = p.add_worker_pool();
        self.pipeline = Some(p);
        Some(i)
    }

    fn add_pool_worker(&mut self, deps: Vec<usize>, pool: usize) -> (r: Option<usize>)
        ensures
            old(self).state().wf(),
            worker_added(old(self).state(), deps@, pool, r),
    {
        let mut p = match self.take() {
            Some(p) => p,
            None => {
                return None;
            },
        };
        let count = p.consumer_count();
        if pool >= p.pool_count() || !all_below(&deps, count) {
            self.pipeline = Some(p);
            return None;
        }
        let c = p.add_pool_worker(deps, pool);
        self.pipeline = Some(p);
        Some(c)
    }

    fn remove_consumer(&mut self, c: usize) -> (r: bool)
        ensures
            old(self).state().wf(),
            consumer_removed(old(self).state(), c, r),
    {
        let mut p = match self.take() {
            Some(p) => p,
            None => {
                return false;
            },
        };
        if c >= p.consumer_count() {
            self.pipeline = Some(p);
            return false;
        }
        p.remove_consumer(c);
        self.pipeline = Some(p);
        true
    }

    fn consumer_sequence(&self, c: usize) -> (r: Option<i64>)
        ensures
            self.state().wf(),
            consumer_reading(self.state(), c, r),
    {
        proof {
            use_type_invariant(self);
            if self.pipeline is Some {
                self.pipeline->Some_0.lemma_view_wf();
            }
        }
        match &self.pipeline {
            Some(p) => {
                if c < p.consumer_count() {
                    p.consumer_sequence(c)
                } else {
                    None
                }
            },
            None => None,
        }
    }

    /// Whether `c` is an active consumer of the live pipeline `p`.
    fn is_active(p: &Pipeline<E, W>, c: usize) -> (r: bool)
        ensures
            r == p@.active(c as int),
    {
        if c < p.consumer_count() {
            match p.consumer_sequence(c) {
                Some(_) => true,
                None => false,
            }
        } else {
            false
        }
    }

    fn barrier_available(&self, c: usize) -> (r: Option<i64>)
        ensures
            self.state().wf(),
            barrier_reading(self.state(), c, r),
    {
        proof {
            use_type_invariant(self);
            if self.pipeline is Some {
                self.pipeline->Some_0.lemma_view_wf();
            }
        }
        match &self.pipeline {
            Some(p) => {
                if Self::is_active(p, c) {
                    Some(p.barrier_available(c))
                } else {
                    None
                }
            },
            None => None,
        }
    }

    fn commit_consumer(&mut self, c: usize, to: i64) -> (r: bool)
        ensures
            old(self).state().wf(),
            commit_reading(old(self).state(), c, to, r),
    {
        let mut p = match self.take() {
            Some(p) => p,
            None => {
                return false;
            },
        };
        if !Self::is_active(&p, c) {
            self.pipeline = Some(p);
            return false;
        }
        let current = match p.consumer_sequence(c) {
            Some(g) => g,
            None => to,
        };
        let available = p.barrier_available(c);
        if to < current || to > available {
            self.pipeline = Some(p);
            return false;
        }
        p.commit_consumer(c, to);
        self.pipeline = Some(p);
        true
    }

    fn read_available<R, F: FnOnce(&E) -> R>(&mut self, c: usize, sequence: i64, read: F) -> (r: Option<R>)
        requires
            forall|e: &E| read.requires((e,)),
        ensures
            old(self).state().wf(),
            update_reading(old(self).state(), c, sequence, r is Some),
            r matches Some(v) ==> read.ensures((&old(self).state().event_at(sequence as int),), v),
    {
        let p = match self.take() {
            Some(p) => p,
            None => {
                return None;
            },
        };
        if !Self::is_active(&p, c) {
            self.pipeline = Some(p);
            return None;
        }
        let current = match p.consumer_sequence(c) {
            Some(g) => g,
            None => sequence,
        };
        let available = p.barrier_available(c);
        if sequence <= current || sequence > available {
            self.pipeline = Some(p);
            return None;
        }
        let v = p.read_available(c, sequence, read);
        self.pipeline = Some(p);
        Some(v)
    }

    fn update_available<F: FnOnce(&mut E)>(&mut self, c: usize, sequence: i64, update: F) -> (r: bool)
        requires
            forall|e: &mut E| update.requires((e,)),
        ensures
            old(self).state().wf(),
            update_reading(old(self).state(), c, sequence, r),
    {
        let mut p = match self.take() {
            Some(p) => p,
            None => {
                return false;
            },
        };
        if !Self::is_active(&p, c) {
            self.pipeline = Some(p);
            return false;
        }
        let current = match p.consumer_sequence(c) {
            Some(g) => g,
            None => sequence,
        };
        let available = p.barrier_available(c);
        if sequence <= current || sequence > available {
            self.pipeline = Some(p);
            return false;
        }
        p.update_available(c, sequence, update);
        self.pipeline = Some(p);
        true
    }

    fn process_batch<H: EventHandler<E>, X: ExceptionHandler<E>>(
        &mut self,
        c: usize,
        handler: &mut H,
        exceptions: Option<&X>,
        context: ConsumerContext,
    ) -> (r: Option<ConsumerStep>)
        ensures
            old(self).state().wf(),
            step_reading(old(self).state(), c, r),
            r matches Some(step) ==> exists|p: &mut Pipeline<E, W>, h: &mut H|
                #![trigger call_ensures(Pipeline::<E, W>::process_batch::<H, X>, (p, c, h, exceptions, context), step)]
                (*p).wf() && (*p)@.active(c as int) && (*p)@ == old(self).state() && (*final(p))@
                    == final(self).state() && *h == *old(handler) && *final(h) == *final(handler) && call_ensures(
                    Pipeline::<E, W>::process_batch::<H, X>,
                    (p, c, h, exceptions, context),
                    step,
                ),
    {
        let mut p = match self.take() {
            Some(p) => p,
            None => {
                return None;
            },
        };
        if !Self::is_active(&p, c) {
            self.pipeline = Some(p);
            return None;
        }
        let step = p.process_batch(c, handler, exceptions, context);
        self.pipeline = Some(p);
        Some(step)
    }

    fn probe_batch<H: EventHandler<E>, X: ExceptionHandler<E>>(
        &mut self,
        c: usize,
        handler: &mut H,
        exceptions: Option<&X>,
    ) -> (r: Option<ConsumerStep>)
        ensures
            old(self).state().wf(),
            step_reading(old(self).state(), c, r),
            r matches Some(step) ==> exists|p: &mut Pipeline<E, W>, h: &mut H|
                #![trigger call_ensures(Pipeline::<E, W>::probe_batch::<H, X>, (p, c, h, exceptions), step)]
                (*p).wf() && (*p)@.active(c as int) && (*p)@ == old(self).state() && (*final(p))@
                    == final(self).state() && *h == *old(handler) && *final(h) == *final(handler) && call_ensures(
                    Pipeline::<E, W>::probe_batch::<H, X>,
                    (p, c, h, exceptions),
                    step,
                ),
    {
        let mut p = match self.take() {
            Some(p) => p,
            None => {
                return None;
            },
        };
        if !Self::is_active(&p, c) {
            self.pipeline = Some(p);
            return None;
        }
        let step = p.probe_batch(c, handler, exceptions);
        self.pipeline = Some(p);
        Some(step)
    }

    fn process_readonly_batch<F: Fn(&E, i64, bool) -> DisruptorResult<()>>(
        &mut self,
        c: usize,
        on_event: &F,
        context: ConsumerContext,
    ) -> (r: Option<ConsumerStep>)
        requires
            forall|e: &E, s: i64, b: bool| on_event.requires((e, s, b)),
        ensures
            old(self).state().wf(),
            step_reading(old(self).state(), c, r),
            r matches Some(step) ==> exists|p: &mut Pipeline<E, W>|
                #![trigger call_ensures(Pipeline::<E, W>::process_readonly_batch::<F>, (p, c, on_event, context), step)]
                (*p).wf() && (*p)@.active(c as int) && (*p)@ == old(self).state() && (*final(p))@
                    == final(self).state() && call_ensures(
                    Pipeline::<E, W>::process_readonly_batch::<F>,
                    (p, c, on_event, context),
                    step,
                ),
    {
        let mut p = match self.take() {
            Some(p) => p,
            None => {
                return None;
            },
        };
        if !Self::is_active(&p, c) {
            self.pipeline = Some(p);
            return None;
        }
        let step = p.process_readonly_batch(c, on_event, context);
        self.pipeline = Some(p);
        Some(step)
    }

    fn process_work_item<H: EventHandler<E>>(
        &mut self,
        c: usize,
        handler: &mut H,
        context: ConsumerContext,
    ) -> (r: Option<ConsumerStep>)
        ensures
            old(self).state().wf(),
            work_reading(old(self).state(), c, r),
            r matches Some(step) ==> exists|p: &mut Pipeline<E, W>, h: &mut H|
                #![trigger call_ensures(Pipeline::<E, W>::process_work_item::<H>, (p, c, h, context), step)]
                (*p).wf() && (*p)@.active(c as int) && (*p)@.pools[c as int] is Some && (*p)@
                    == old(self).state() && (*final(p))@ == final(self).state() && *h == *old(handler)
                    && *final(h) == *final(handler) && call_ensures(
                    Pipeline::<E, W>::process_work_item::<H>,
                    (p, c, h, context),
                    step,
                ),
    {
        let mut p = match self.take() {
            Some(p) => p,
            None => {
                return None;
            },
        };
        if !Self::is_active(&p, c) {
            self.pipeline = Some(p);
            return None;
        }
        match p.consumer_pool(c) {
            None => {
                self.pipeline = Some(p);
                None
            },
            Some(_) => {
                let step = p.process_work_item(c, handler, context);
                self.pipeline = Some(p);
                Some(step)
            },
        }
    }
}

/// A pipeline shared between handles; every operation takes the lock.
#[verifier::reject_recursive_types(E)]
#[verifier::reject_recursive_types(W)]
pub struct SharedPipeline<E, W: WaitStrategy> {
    inner: Arc<Mutex<Guarded<E, W>>>,
    size: usize,
}

/// What an operation on a shared pipeline reports when it finds the lock
/// held, by another thread or by a callback of this thread that the
/// operation was called from; it then changes nothing and the caller may try
/// again later.
#[derive(Debug, Clone, Copy, PartialEq, Eq, Structural)]
pub struct Busy;

impl<E, W: WaitStrategy> SharedPipeline<E, W> {
    /// Whether this handle and `other` hold equal shared locks, as a handle
    /// and the one [`Self::handle`] made from it do. The lock's contents are
    /// opaque here, so this does not show by itself that the two share one
    /// allocation.
    pub closed spec fn shares_with(self, other: Self) -> bool {
        self.inner == other.inner
    }

    /// Whether asking for this pipeline's lock can find it held, as an
    /// attempt that found it held shows.
    pub closed spec fn lock_refused(self) -> bool {
        call_ensures(try_lock::<Guarded<E, W>>, (&*self.inner,), None)
    }

    /// The number of ring slots the pipeline was created with.
    pub closed spec fn size_spec(self) -> nat {
        self.size as nat
    }

    /// A shared pipeline over a ring and a sequencer of the same size, with
    /// no consumer registered and no claim pending.
    pub fn new(ring: RingBuffer<E>, sequencer: SequencerEnum<W>) -> (r: Self)
        requires
            ring.wf(),
            sequencer.state().wf(),
            sequencer.state().gating.len() == 0,
            sequencer.state().published_cursor() == sequencer.state().claimed,
            ring.size() == sequencer.state().buffer_size,
        ensures
            r.size_spec() == ring.size(),
    {
        let size = ring.buffer_size();
        let pipeline = Pipeline::new(ring, sequencer);
        let frozen = Guarded::freeze(&pipeline, None);
        SharedPipeline { inner: Arc::new(new_mutex(Guarded { pipeline: Some(pipeline), frozen })), size }
    }

    /// Shares a pipeline with no pending claim, such as one whose consumers
    /// were registered before any publish.
    pub fn from_pipeline(pipeline: Pipeline<E, W>) -> (r: Self)
        requires
            pipeline.wf(),
            pipeline@.settled(),
        ensures
            r.size_spec() == pipeline@.seq.buffer_size,
    {
        let size = pipeline.buffer_size();
        let frozen = Guarded::freeze(&pipeline, None);
        SharedPipeline { inner: Arc::new(new_mutex(Guarded { pipeline: Some(pipeline), frozen })), size }
    }

    /// Another handle on the same pipeline.
    pub fn handle(&self) -> (r: Self)
        ensures
            r.shares_with(*self),
            r.size_spec() == self.size_spec(),
            r.lock_refused() == self.lock_refused(),
    {
        SharedPipeline { inner: share(&self.inner), size: self.size }
    }

    /// Claims, fills and publishes one event; see [`Pipeline::try_publish`].
    pub fn try_publish<F: FnOnce(&mut E)>(&self, update: F) -> (r: Result<i64, TryPublishError>)
        requires
            forall|e: &mut E| update.requires((e,)),
        ensures
            (r == Err::<i64, TryPublishError>(TryPublishError::Contended) && self.lock_refused()) || exists|p: PipelineView<E>, q: PipelineView<E>|
                #![trigger published_from(p, q, 1, ok_value(r))]
                p.wf() && p.try_publish_outcome(r) && published_from(p, q, 1, ok_value(r))
                && (r matches Ok(s) ==> exists|e: &mut E|
                *e == p.event_at(s as int) && q.ring[slot_of(s as int, p.seq.buffer_size)] == *final(e)
                    && update.ensures((e,), ())),
    {
        let mut guard = match try_lock(&*self.inner) {
            Some(guard) => guard,
            None => {
                return Err(TryPublishError::Contended);
            },
        };
        let g = guarded(&mut guard);
        g.try_publish(update)
    }

    /// Claims, fills and publishes `n` events; see [`Pipeline::try_batch_publish`].
    /// A batch of no event or of more events than the ring holds is refused
    /// without touching the pipeline: as the pipeline's terminal state when
    /// it has one, otherwise as an invalid batch size.
    pub fn try_batch_publish<F: Fn(usize, &mut E)>(&self, n: usize, update: &F) -> (r: Result<
        i64,
        TryPublishError,
    >)
        requires
            forall|i: usize, e: &mut E| update.requires((i, e)),
        ensures
            n == 0 || n > self.size_spec() ==> (r == Err::<i64, TryPublishError>(TryPublishError::Contended) && self.lock_refused())
                || exists|p: PipelineView<E>|
                #![trigger p.rejection(TryPublishError::InvalidBatchSize { requested: n, capacity: self.size_spec() as usize })]
                p.wf() && r == Err::<i64, TryPublishError>(
                    p.rejection(TryPublishError::InvalidBatchSize { requested: n, capacity: self.size_spec() as usize }),
                ),
            1 <= n <= self.size_spec() ==> (r == Err::<i64, TryPublishError>(TryPublishError::Contended) && self.lock_refused()) || exists|p: PipelineView<E>, q: PipelineView<E>|
                #![trigger published_from(p, q, n, ok_value(r))]
                p.wf() && p.try_batch_outcome(n, r) && published_from(p, q, n, ok_value(r)) && (r matches Ok(hi) ==> forall|
                    t: int,
                |
                    #![trigger in_batch(hi - n + 1, n as int, t)]
                    in_batch(hi - n + 1, n as int, t) ==> exists|e: &mut E|
                        *e == p.event_at(t) && q.ring[slot_of(t, p.seq.buffer_size)] == *final(e) && update.ensures(
                            ((t - (hi - n + 1)) as usize, e),
                            (),
                        )),
    {
        let mut guard = match try_lock(&*self.inner) {
            Some(guard) => guard,
            None => {
                return Err(TryPublishError::Contended);
            },
        };
        let g = guarded(&mut guard);
        if n == 0 || n > self.size {
            let poisoned = g.is_poisoned();
            let closed = g.is_closed();
            let invalid = TryPublishError::InvalidBatchSize { requested: n, capacity: self.size };
            let e = if poisoned {
                TryPublishError::Poisoned
            } else if closed {
                TryPublishError::Shutdown
            } else {
                invalid
            };
            proof {
                assert(e == g.state().rejection(invalid));
            }
            return Err(e);
        }
        g.try_batch_publish(n, update)
    }

    /// Claims, fills and publishes one event, reporting a refusal as an
    /// error; see [`Pipeline::publish`].
    pub fn publish<F: FnOnce(&mut E)>(&self, update: F) -> (r: DisruptorResult<i64>)
        requires
            forall|e: &mut E| update.requires((e,)),
        ensures
            (r == Err::<i64, DisruptorError>(DisruptorError::Timeout) && self.lock_refused()) || exists|p: PipelineView<E>, q: PipelineView<E>|
                #![trigger published_from(p, q, 1, ok_value(r))]
                p.wf() && p.publish_outcome(1, r) && published_from(p, q, 1, ok_value(r))
                && (r matches Ok(s) ==> exists|e: &mut E|
                *e == p.event_at(s as int) && q.ring[slot_of(s as int, p.seq.buffer_size)] == *final(e)
                    && update.ensures((e,), ())),
    {
        let mut guard = match try_lock(&*self.inner) {
            Some(guard) => guard,
            None => {
                return Err(DisruptorError::Timeout);
            },
        };
        let g = guarded(&mut guard);
        g.publish(update)
    }

    /// Claims, fills and publishes `n` events, reporting a refusal as an
    /// error; see [`Pipeline::batch_publish`]. A batch of no event or of more
    /// events than the ring holds is refused from its size alone, before the
    /// lock is taken.
    pub fn batch_publish<F: Fn(usize, &mut E)>(&self, n: usize, update: &F) -> (r: DisruptorResult<
        i64,
    >)
        requires
            forall|i: usize, e: &mut E| update.requires((i, e)),
        ensures
            n == 0 || n > self.size_spec() ==> r == Err::<i64, DisruptorError>(
                DisruptorError::InvalidSequence(clamp_i64(n)),
            ),
            1 <= n <= self.size_spec() ==> (r == Err::<i64, DisruptorError>(DisruptorError::Timeout) && self.lock_refused()) || exists|p: PipelineView<E>, q: PipelineView<E>|
                #![trigger published_from(p, q, n, ok_value(r))]
                p.wf() && p.publish_outcome(n, r) && published_from(p, q, n, ok_value(r)) && (r matches Ok(hi) ==> forall|
                    t: int,
                |
                    #![trigger in_batch(hi - n + 1, n as int, t)]
                    in_batch(hi - n + 1, n as int, t) ==> exists|e: &mut E|
                        *e == p.event_at(t) && q.ring[slot_of(t, p.seq.buffer_size)] == *final(e) && update.ensures(
                            ((t - (hi - n + 1)) as usize, e),
                            (),
                        )),
    {
        if n == 0 || n > self.size {
            return Err(DisruptorError::InvalidSequence(clamped_i64(n)));
        }
        let mut guard = match try_lock(&*self.inner) {
            Some(guard) => guard,
            None => {
                return Err(DisruptorError::Timeout);
            },
        };
        let g = guarded(&mut guard);
        g.batch_publish(n, update)
    }

    /// The published cursor: the highest sequence consumers of the first
    /// stage may read.
    pub fn cursor(&self) -> (c: Result<i64, Busy>)
        ensures
            c is Err ==> self.lock_refused(),
            c is Ok ==> exists|p: PipelineView<E>| p.wf() && #[trigger] p.seq.published_cursor() == c->Ok_0,
    {
        let mut guard = match try_lock(&*self.inner) {
            Some(guard) => guard,
            None => {
                return Err(Busy);
            },
        };
        let g = guarded(&mut guard);
        let v = g.cursor();
        let r = Ok(v);
        proof {
            assert(r->Ok_0 == v);
        }
        r
    }

    /// Number of ring slots.
    pub fn buffer_size(&self) -> (n: usize)
        ensures
            n == self.size_spec(),
    {
        self.size
    }

    /// Free slots: the ring size minus the sequences claimed beyond the
    /// slowest consumer.
    pub fn remaining_capacity(&self) -> (r: Result<i64, Busy>)
        ensures
            r is Err ==> self.lock_refused(),
            r is Ok ==> exists|p: PipelineView<E>| p.wf() && #[trigger] p.seq.remaining() == r->Ok_0,
    {
        let mut guard = match try_lock(&*self.inner) {
            Some(guard) => guard,
            None => {
                return Err(Busy);
            },
        };
        let g = guarded(&mut guard);
        let v = g.remaining_capacity();
        let r = Ok(v);
        proof {
            assert(r->Ok_0 == v);
        }
        r
    }

    /// Whether a fatal failure poisoned the pipeline.
    pub fn is_poisoned(&self) -> (r: Result<bool, Busy>)
        ensures
            r is Err ==> self.lock_refused(),
            r is Ok ==> exists|p: PipelineView<E>| p.wf() && #[trigger] p.seq.poisoned == r->Ok_0,
    {
        let mut guard = match try_lock(&*self.inner) {
            Some(guard) => guard,
            None => {
                return Err(Busy);
            },
        };
        let g = guarded(&mut guard);
        let v = g.is_poisoned();
        let r = Ok(v);
        proof {
            assert(r->Ok_0 == v);
        }
        r
    }

    /// Whether shutdown or halt closed the claim path.
    pub fn is_closed(&self) -> (r: Result<bool, Busy>)
        ensures
            r is Err ==> self.lock_refused(),
            r is Ok ==> exists|p: PipelineView<E>| p.wf() && #[trigger] p.seq.closed == r->Ok_0,
    {
        let mut guard = match try_lock(&*self.inner) {
            Some(guard) => guard,
            None => {
                return Err(Busy);
            },
        };
        let g = guarded(&mut guard);
        let v = g.is_closed();
        let r = Ok(v);
        proof {
            assert(r->Ok_0 == v);
        }
        r
    }

    /// A copy of the first failure recorded.
    pub fn first_failure(&self) -> (r: Result<Option<FailureRecord>, Busy>)
        ensures
            r is Err ==> self.lock_refused(),
            r is Ok ==> exists|p: PipelineView<E>| p.wf() && #[trigger] p.seq.first_failure == opt_record(r->Ok_0),
    {
        let mut guard = match try_lock(&*self.inner) {
            Some(guard) => guard,
            None => {
                return Err(Busy);
            },
        };
        let g = guarded(&mut guard);
        let v = g.first_failure();
        let r = Ok(v);
        proof {
            assert(r->Ok_0 == v);
        }
        r
    }

    /// Closes the claim path: every later claim is refused as shut down.
    pub fn close(&self) -> (r: Result<(), Busy>)
        ensures
            r is Err ==> self.lock_refused(),
    {
        let mut guard = match try_lock(&*self.inner) {
            Some(guard) => guard,
            None => {
                return Err(Busy);
            },
        };
        let g = guarded(&mut guard);
        g.close();
        Ok(())
    }

    /// Poisons the pipeline without a record.
    pub fn poison(&self) -> (r: Result<(), Busy>)
        ensures
            r is Err ==> self.lock_refused(),
    {
        let mut guard = match try_lock(&*self.inner) {
            Some(guard) => guard,
            None => {
                return Err(Busy);
            },
        };
        let g = guarded(&mut guard);
        g.poison();
        Ok(())
    }

    /// Records `failure` (the first one is kept) without poisoning.
    pub fn record_failure(&self, failure: &FailureRecord) -> (r: Result<(), Busy>)
        ensures
            r is Err ==> self.lock_refused(),
            r is Ok ==> exists|p: PipelineView<E>, q: PipelineView<E>|
                #![trigger failure_recorded(p, q, failure@, false)]
                p.wf() && failure_recorded(p, q, failure@, false),
    {
        let mut guard = match try_lock(&*self.inner) {
            Some(guard) => guard,
            None => {
                return Err(Busy);
            },
        };
        let g = guarded(&mut guard);
        g.record_failure(failure, false);
        Ok(())
    }

    /// Records `failure` (the first one is kept) and poisons the pipeline.
    pub fn poison_with_failure(&self, failure: &FailureRecord) -> (r: Result<(), Busy>)
        ensures
            r is Err ==> self.lock_refused(),
            r is Ok ==> exists|p: PipelineView<E>, q: PipelineView<E>|
                #![trigger failure_recorded(p, q, failure@, true)]
                p.wf() && failure_recorded(p, q, failure@, true),
    {
        let mut guard = match try_lock(&*self.inner) {
            Some(guard) => guard,
            None => {
                return Err(Busy);
            },
        };
        let g = guarded(&mut guard);
        g.record_failure(failure, true);
        Ok(())
    }

    /// Reports how the start callback of the handler of a consumer thread
    /// ended, and whether the consumer goes on to its loop: it does after a
    /// success; after an error it does not, and the pipeline is poisoned
    /// with a `HandlerStart` record of the thread and stage.
    pub fn report_start(&self, outcome: &DisruptorResult<()>, thread_name: &str, stage_index: usize) -> (r:
        Result<bool, Busy>)
        ensures
            r is Err ==> self.lock_refused(),
            outcome is Ok ==> r == Ok::<bool, Busy>(true),
            outcome is Err ==> r != Ok::<bool, Busy>(true),
            *outcome matches Err(e) ==> (r is Ok ==> exists|p: PipelineView<E>, q: PipelineView<E>|
                #![trigger failure_recorded(p, q, lifecycle_view(FailurePhase::HandlerStart, e, thread_name@, stage_index), true)]
                p.wf() && failure_recorded(
                    p,
                    q,
                    lifecycle_view(FailurePhase::HandlerStart, e, thread_name@, stage_index),
                    true,
                )),
    {
        match outcome {
            Ok(()) => Ok(true),
            Err(e) => {
                let message = e.describe();
                let failure = lifecycle_failure(FailurePhase::HandlerStart, message.as_str(), thread_name, stage_index);
                match self.poison_with_failure(&failure) {
                    Ok(()) => Ok(false),
                    Err(busy) => Err(busy),
                }
            },
        }
    }

    /// Reports how the shutdown callback of the handler of a consumer thread
    /// ended: an error is recorded as a `HandlerShutdown` record of the
    /// thread and stage, without poisoning the pipeline.
    pub fn report_shutdown(&self, outcome: &DisruptorResult<()>, thread_name: &str, stage_index: usize) -> (r:
        Result<(), Busy>)
        ensures
            r is Err ==> self.lock_refused(),
            outcome is Ok ==> r is Ok,
            *outcome matches Err(e) ==> (r is Ok ==> exists|p: PipelineView<E>, q: PipelineView<E>|
                #![trigger failure_recorded(p, q, lifecycle_view(FailurePhase::HandlerShutdown, e, thread_name@, stage_index), false)]
                p.wf() && failure_recorded(
                    p,
                    q,
                    lifecycle_view(FailurePhase::HandlerShutdown, e, thread_name@, stage_index),
                    false,
                )),
    {
        match outcome {
            Ok(()) => Ok(()),
            Err(e) => {
                let message = e.describe();
                let failure = lifecycle_failure(
                    FailurePhase::HandlerShutdown,
                    message.as_str(),
                    thread_name,
                    stage_index,
                );
                self.record_failure(&failure)
            },
        }
    }

    /// Registers a consumer that waits for the consumers `deps` (none: the
    /// cursor); see [`Pipeline::add_consumer`]. `None` when an index in
    /// `deps` is unknown or the pipeline was lost to a panic.
    pub fn add_consumer(&self, deps: Vec<usize>) -> (r: Result<Option<usize>, Busy>)
        ensures
            r is Err ==> self.lock_refused(),
            r is Ok ==> exists|p: PipelineView<E>| p.wf() && #[trigger] consumer_added(p, deps@, r->Ok_0),
    {
        let mut guard = match try_lock(&*self.inner) {
            Some(guard) => guard,
            None => {
                return Err(Busy);
            },
        };
        let g = guarded(&mut guard);
        let v = g.add_consumer(deps);
        let r = Ok(v);
        proof {
            assert(r->Ok_0 == v);
        }
        r
    }

    /// Creates a worker pool; see [`Pipeline::add_worker_pool`].
    pub fn add_worker_pool(&self) -> (r: Result<Option<usize>, Busy>)
        ensures
            r is Err ==> self.lock_refused(),
            r is Ok ==> exists|p: PipelineView<E>| p.wf() && #[trigger] pool_added(p, r->Ok_0),
    {
        let mut guard = match try_lock(&*self.inner) {
            Some(guard) => guard,
            None => {
                return Err(Busy);
            },
        };
        let g = guarded(&mut guard);
        let v = g.add_worker_pool();
        let r = Ok(v);
        proof {
            assert(r->Ok_0 == v);
        }
        r
    }

    /// Registers a worker of `pool` that waits for the consumers `deps`; see
    /// [`Pipeline::add_pool_worker`].
    pub fn add_pool_worker(&self, deps: Vec<usize>, pool: usize) -> (r: Result<Option<usize>, Busy>)
        ensures
            r is Err ==> self.lock_refused(),
            r is Ok ==> exists|p: PipelineView<E>| p.wf() && #[trigger] worker_added(p, deps@, pool, r->Ok_0),
    {
        let mut guard = match try_lock(&*self.inner) {
            Some(guard) => guard,
            None => {
                return Err(Busy);
            },
        };
        let g = guarded(&mut guard);
        let v = g.add_pool_worker(deps, pool);
        let r = Ok(v);
        proof {
            assert(r->Ok_0 == v);
        }
        r
    }

    /// Removes consumer `c` from gating; `false` when there is no such consumer.
    pub fn remove_consumer(&self, c: usize) -> (r: Result<bool, Busy>)
        ensures
            r is Err ==> self.lock_refused(),
            r is Ok ==> exists|p: PipelineView<E>| p.wf() && #[trigger] consumer_removed(p, c, r->Ok_0),
    {
        let mut guard = match try_lock(&*self.inner) {
            Some(guard) => guard,
            None => {
                return Err(Busy);
            },
        };
        let g = guarded(&mut guard);
        let v = g.remove_consumer(c);
        let r = Ok(v);
        proof {
            assert(r->Ok_0 == v);
        }
        r
    }

    /// The sequence consumer `c` has processed up to.
    pub fn consumer_sequence(&self, c: usize) -> (r: Result<Option<i64>, Busy>)
        ensures
            r is Err ==> self.lock_refused(),
            r is Ok ==> exists|p: PipelineView<E>| p.wf() && #[trigger] consumer_reading(p, c, r->Ok_0),
    {
        let mut guard = match try_lock(&*self.inner) {
            Some(guard) => guard,
            None => {
                return Err(Busy);
            },
        };
        let g = guarded(&mut guard);
        let v = g.consumer_sequence(c);
        let r = Ok(v);
        proof {
            assert(r->Ok_0 == v);
        }
        r
    }

    /// The highest sequence consumer `c` may process, by its barrier.
    pub fn barrier_available(&self, c: usize) -> (r: Result<Option<i64>, Busy>)
        ensures
            r is Err ==> self.lock_refused(),
            r is Ok ==> exists|p: PipelineView<E>| p.wf() && #[trigger] barrier_reading(p, c, r->Ok_0),
    {
        let mut guard = match try_lock(&*self.inner) {
            Some(guard) => guard,
            None => {
                return Err(Busy);
            },
        };
        let g = guarded(&mut guard);
        let v = g.barrier_available(c);
        let r = Ok(v);
        proof {
            assert(r->Ok_0 == v);
        }
        r
    }

    /// Moves consumer `c` to `to` when its barrier allows it; reports whether it did.
    pub fn commit_consumer(&self, c: usize, to: i64) -> (r: Result<bool, Busy>)
        ensures
            r is Err ==> self.lock_refused(),
            r is Ok ==> exists|p: PipelineView<E>| p.wf() && #[trigger] commit_reading(p, c, to, r->Ok_0),
    {
        let mut guard = match try_lock(&*self.inner) {
            Some(guard) => guard,
            None => {
                return Err(Busy);
            },
        };
        let g = guarded(&mut guard);
        let v = g.commit_consumer(c, to);
        let r = Ok(v);
        proof {
            assert(r->Ok_0 == v);
        }
        r
    }

    /// One step of sequential consumer `c`: a step taken is what
    /// [`Pipeline::process_batch`] returns with this handler on the pipeline
    /// the lock guards. `None` when `c` is not an active consumer or the
    /// pipeline was lost.
    pub fn process_batch<H: EventHandler<E>, X: ExceptionHandler<E>>(
        &self,
        c: usize,
        handler: &mut H,
        exceptions: Option<&X>,
        context: ConsumerContext,
    ) -> (r: Result<Option<ConsumerStep>, Busy>)
        ensures
            r is Err ==> self.lock_refused(),
            r is Ok ==> exists|p: PipelineView<E>| p.wf() && #[trigger] step_reading(p, c, r->Ok_0),
            r matches Ok(Some(step)) ==> exists|p: &mut Pipeline<E, W>, h: &mut H|
                #![trigger call_ensures(Pipeline::<E, W>::process_batch::<H, X>, (p, c, h, exceptions, context), step)]
                (*p).wf() && (*p)@.active(c as int) && *h == *old(handler) && *final(h) == *final(handler)
                    && call_ensures(Pipeline::<E, W>::process_batch::<H, X>, (p, c, h, exceptions, context), step),
    {
        let mut guard = match try_lock(&*self.inner) {
            Some(guard) => guard,
            None => {
                return Err(Busy);
            },
        };
        let g = guarded(&mut guard);
        let v = g.process_batch(c, handler, exceptions, context);
        let r = Ok(v);
        proof {
            assert(r->Ok_0 == v);
        }
        r
    }

    /// One probing step of sequential consumer `c`: a step taken is what
    /// [`Pipeline::probe_batch`] returns with this handler on the pipeline
    /// the lock guards. `None` when `c` is not an active consumer or the
    /// pipeline was lost.
    pub fn probe_batch<H: EventHandler<E>, X: ExceptionHandler<E>>(
        &self,
        c: usize,
        handler: &mut H,
        exceptions: Option<&X>,
    ) -> (r: Result<Option<ConsumerStep>, Busy>)
        ensures
            r is Err ==> self.lock_refused(),
            r is Ok ==> exists|p: PipelineView<E>| p.wf() && #[trigger] step_reading(p, c, r->Ok_0),
            r matches Ok(Some(step)) ==> exists|p: &mut Pipeline<E, W>, h: &mut H|
                #![trigger call_ensures(Pipeline::<E, W>::probe_batch::<H, X>, (p, c, h, exceptions), step)]
                (*p).wf() && (*p)@.active(c as int) && *h == *old(handler) && *final(h) == *final(handler)
                    && call_ensures(Pipeline::<E, W>::probe_batch::<H, X>, (p, c, h, exceptions), step),
    {
        let mut guard = match try_lock(&*self.inner) {
            Some(guard) => guard,
            None => {
                return Err(Busy);
            },
        };
        let g = guarded(&mut guard);
        let v = g.probe_batch(c, handler, exceptions);
        let r = Ok(v);
        proof {
            assert(r->Ok_0 == v);
        }
        r
    }

    /// One step of read-only consumer `c`: a step taken is what
    /// [`Pipeline::process_readonly_batch`] returns with this observer on the
    /// pipeline the lock guards.
    pub fn process_readonly_batch<F: Fn(&E, i64, bool) -> DisruptorResult<()>>(
        &self,
        c: usize,
        on_event: &F,
        context: ConsumerContext,
    ) -> (r: Result<Option<ConsumerStep>, Busy>)
        requires
            forall|e: &E, s: i64, b: bool| on_event.requires((e, s, b)),
        ensures
            r is Err ==> self.lock_refused(),
            r is Ok ==> exists|p: PipelineView<E>| p.wf() && #[trigger] step_reading(p, c, r->Ok_0),
            r matches Ok(Some(step)) ==> exists|p: &mut Pipeline<E, W>|
                #![trigger call_ensures(Pipeline::<E, W>::process_readonly_batch::<F>, (p, c, on_event, context), step)]
                (*p).wf() && (*p)@.active(c as int) && call_ensures(
                    Pipeline::<E, W>::process_readonly_batch::<F>,
                    (p, c, on_event, context),
                    step,
                ),
    {
        let mut guard = match try_lock(&*self.inner) {
            Some(guard) => guard,
            None => {
                return Err(Busy);
            },
        };
        let g = guarded(&mut guard);
        let v = g.process_readonly_batch(c, on_event, context);
        let r = Ok(v);
        proof {
            assert(r->Ok_0 == v);
        }
        r
    }

    /// One step of pool worker `c`: a step taken is what
    /// [`Pipeline::process_work_item`] returns with this handler on the
    /// pipeline the lock guards.
    pub fn process_work_item<H: EventHandler<E>>(
        &self,
        c: usize,
        handler: &mut H,
        context: ConsumerContext,
    ) -> (r: Result<Option<ConsumerStep>, Busy>)
        ensures
            r is Err ==> self.lock_refused(),
            r is Ok ==> exists|p: PipelineView<E>| p.wf() && #[trigger] work_reading(p, c, r->Ok_0),
            r matches Ok(Some(step)) ==> exists|p: &mut Pipeline<E, W>, h: &mut H|
                #![trigger call_ensures(Pipeline::<E, W>::process_work_item::<H>, (p, c, h, context), step)]
                (*p).wf() && (*p)@.active(c as int) && (*p)@.pools[c as int] is Some && *h == *old(handler)
                    && *final(h) == *final(handler) && call_ensures(
                    Pipeline::<E, W>::process_work_item::<H>,
                    (p, c, h, context),
                    step,
                ),
    {
        let mut guard = match try_lock(&*self.inner) {
            Some(guard) => guard,
            None => {
                return Err(Busy);
            },
        };
        let g = guarded(&mut guard);
        let v = g.process_work_item(c, handler, context);
        let r = Ok(v);
        proof {
            assert(r->Ok_0 == v);
        }
        r
    }

    /// Reads the event at `sequence` with `read` for consumer `c` when its
    /// barrier makes `sequence` available and `c` has not processed it yet;
    /// `None` when it does not.
    pub fn read_available<R, F: FnOnce(&E) -> R>(&self, c: usize, sequence: i64, read: F) -> (r: Result<
        Option<R>,
        Busy,
    >)
        requires
            forall|e: &E| read.requires((e,)),
        ensures
            r is Err ==> self.lock_refused(),
            r matches Ok(o) ==> exists|p: PipelineView<E>|
                p.wf() && #[trigger] update_reading(p, c, sequence, o is Some) && (o matches Some(v)
                    ==> read.ensures((&p.event_at(sequence as int),), v)),
    {
        let mut guard = match try_lock(&*self.inner) {
            Some(guard) => guard,
            None => {
                return Err(Busy);
            },
        };
        let g = guarded(&mut guard);
        let v = g.read_available(c, sequence, read);
        let r = Ok(v);
        proof {
            assert(r->Ok_0 == v);
        }
        r
    }

    /// Applies `update` to the event at `sequence` for consumer `c` when its
    /// barrier makes `sequence` available and `c` has not processed it yet;
    /// reports whether it did.
    pub fn update_available<F: FnOnce(&mut E)>(&self, c: usize, sequence: i64, update: F) -> (r: Result<bool, Busy>)
        requires
            forall|e: &mut E| update.requires((e,)),
        ensures
            r is Err ==> self.lock_refused(),
            r is Ok ==> exists|p: PipelineView<E>| p.wf() && #[trigger] update_reading(p, c, sequence, r->Ok_0),
    {
        let mut guard = match try_lock(&*self.inner) {
            Some(guard) => guard,
            None => {
                return Err(Busy);
            },
        };
        let g = guarded(&mut guard);
        let v = g.update_available(c, sequence, update);
        let r = Ok(v);
        proof {
            assert(r->Ok_0 == v);
        }
        r
    }

    /// Claims the next sequence, lets `translator` fill its event (given the
    /// sequence), and publishes it; refused as [`Self::try_publish`] is.
    pub fn try_publish_event<T: EventTranslator<E>>(&self, translator: T) -> (r: Result<
        i64,
        TryPublishError,
    >)
        ensures
            (r == Err::<i64, TryPublishError>(TryPublishError::Contended) && self.lock_refused()) || exists|p: PipelineView<E>, q: PipelineView<E>|
                #![trigger published_from(p, q, 1, ok_value(r))]
                p.wf() && p.try_publish_outcome(r) && published_from(p, q, 1, ok_value(r)),
    {
        let mut guard = match try_lock(&*self.inner) {
            Some(guard) => guard,
            None => {
                return Err(TryPublishError::Contended);
            },
        };
        let g = guarded(&mut guard);
        let fill = move |e: &mut E, s: i64| translator.translate_to(e, s);
        g.try_publish_sequenced(fill)
    }

    /// Claims the next sequence, lets `translator` fill its event (given the
    /// sequence), and publishes it, reporting a refusal as an error.
    pub fn publish_event<T: EventTranslator<E>>(&self, translator: T) -> (r: DisruptorResult<i64>)
        ensures
            (r == Err::<i64, DisruptorError>(DisruptorError::Timeout) && self.lock_refused()) || exists|p: PipelineView<E>, q: PipelineView<E>|
                #![trigger published_from(p, q, 1, ok_value(r))]
                p.wf() && p.publish_outcome(1, r) && published_from(p, q, 1, ok_value(r)),
    {
        let mut guard = match try_lock(&*self.inner) {
            Some(guard) => guard,
            None => {
                return Err(DisruptorError::Timeout);
            },
        };
        let g = guarded(&mut guard);
        let fill = move |e: &mut E, s: i64| translator.translate_to(e, s);
        g.publish_sequenced(fill)
    }

    /// Whether every active consumer has processed every claimed sequence.
    pub fn drained(&self) -> (r: Result<bool, Busy>)
        ensures
            r is Err ==> self.lock_refused(),
            r is Ok ==> exists|p: PipelineView<E>| p.wf() && r->Ok_0 == (#[trigger] p.seq.gate() == p.seq.claimed),
    {
        let mut guard = match try_lock(&*self.inner) {
            Some(guard) => guard,
            None => {
                return Err(Busy);
            },
        };
        let g = guarded(&mut guard);
        let v = g.drained();
        let r = Ok(v);
        proof {
            assert(r->Ok_0 == v);
        }
        r
    }
}

} // verus!
