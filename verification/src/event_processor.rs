//! Event processors in the LMAX style: a consumer with its own handler, its
//! exception policy and a running flag, stepped one batch at a time.

use vstd::prelude::*;
use core::sync::atomic::{AtomicBool, Ordering};
use crate::consumer_engine::{ConsumerContext, ConsumerStep};
use crate::error::{DisruptorError, DisruptorResult};
use crate::event_handler::EventHandler;
use crate::exception_handler::ExceptionHandler;
use crate::pipeline::{Pipeline, PipelineView};
use crate::ring_buffer::{slot_of, RingBuffer};
use crate::shared::{consumer_reading, step_reading, Busy, SharedPipeline};
use crate::sync::{new_handler_lock, try_with_lock};
use crate::wait_strategy::WaitStrategy;

verus! {

/// A source of events by sequence.
pub trait DataProvider<T> {
    /// Whether `sequence` may be read.
    spec fn provides(&self, sequence: i64) -> bool;

    /// The event stored for `sequence`.
    fn get(&self, sequence: i64) -> (e: &T)
        requires
            self.provides(sequence),
    ;

    /// Mutable access to the event stored for `sequence`.
    fn get_mut(&mut self, sequence: i64) -> (e: &mut T)
        requires
            old(self).provides(sequence),
    ;
}

impl<T> DataProvider<T> for RingBuffer<T> {
    open spec fn provides(&self, sequence: i64) -> bool {
        self.wf() && sequence >= 0
    }

    fn get(&self, sequence: i64) -> (e: &T)
        ensures
            *e == self.event_at(sequence as int),
    {
        RingBuffer::get(self, sequence)
    }

    fn get_mut(&mut self, sequence: i64) -> (e: &mut T)
        ensures
            *e == old(self).event_at(sequence as int),
            final(self)@ == old(self)@.update(slot_of(sequence as int, old(self).size()), *final(e)),
            final(self).wf(),
    {
        RingBuffer::get_mut(self, sequence)
    }
}

/// A consumer driven one batch at a time (the loop that drives it waits
/// between steps and belongs to the caller).
pub trait EventProcessor {
    /// The sequence this processor has processed up to.
    fn get_sequence(&self) -> Option<i64>;

    /// Asks the processor to stop.
    fn halt(&self);

    /// Whether the processor is running.
    fn is_running(&self) -> bool;

    /// Processes the events available now, if running; reports whether any were.
    fn try_run_once(&self) -> DisruptorResult<bool>;

    /// Passes a wait timeout at `sequence` on to the handler.
    fn notify_timeout(&self, sequence: i64);

    /// Runs the handler's start callback; a processor not halted since it
    /// was created is then running.
    fn on_start(&self);

    /// Runs the handler's shutdown callback and marks the processor stopped.
    fn on_shutdown(&self);
}

/// The processor's view of one step: what the pipeline reported for its
/// consumer, and what it returns.
pub open spec fn processed_as(step: Option<ConsumerStep>, r: DisruptorResult<bool>) -> bool {
    match step {
        None => r == Err::<bool, DisruptorError>(DisruptorError::Alert),
        Some(ConsumerStep::Idle) => r == Ok::<bool, DisruptorError>(false),
        Some(ConsumerStep::Processed { .. }) => r == Ok::<bool, DisruptorError>(true),
        Some(ConsumerStep::Stopped { .. }) => r == Err::<bool, DisruptorError>(DisruptorError::Poisoned),
    }
}

/// A sequential consumer of a shared pipeline with an owned handler.
#[verifier::reject_recursive_types(E)]
#[verifier::reject_recursive_types(W)]
#[verifier::reject_recursive_types(H)]
pub struct BatchEventProcessor<E, H, W: WaitStrategy, X> {
    shared: SharedPipeline<E, W>,
    consumer: usize,
    handler: parking_lot::Mutex<H>,
    exception_handler: X,
    running: AtomicBool,
    halted: AtomicBool,
}

impl<E, H: EventHandler<E>, W: WaitStrategy, X: ExceptionHandler<E>> BatchEventProcessor<E, H, W, X> {
    /// The consumer this processor drives.
    pub closed spec fn consumer_index(self) -> usize {
        self.consumer
    }

    /// The exception policy the processor steps with.
    pub closed spec fn exceptions(self) -> X {
        self.exception_handler
    }

    /// A processor, not yet running, for consumer `consumer` of `shared`.
    pub fn new(shared: SharedPipeline<E, W>, consumer: usize, event_handler: H, exception_handler: X) -> (p: Self)
        ensures
            p.consumer_index() == consumer,
    {
        BatchEventProcessor {
            shared,
            consumer,
            handler: new_handler_lock(event_handler),
            exception_handler,
            running: AtomicBool::new(false),
            halted: AtomicBool::new(false),
        }
    }

    /// Marks the processor running; refused when it already is.
    pub fn start_running(&self) -> (r: DisruptorResult<()>)
        ensures
            r is Err ==> r == Err::<(), DisruptorError>(DisruptorError::AlreadyRunning),
    {
        match self.running.compare_exchange(false, true, Ordering::AcqRel, Ordering::Acquire) {
            Ok(_) => Ok(()),
            Err(_) => Err(DisruptorError::AlreadyRunning),
        }
    }

    /// One step of the processor's run loop: when running and its handler is
    /// free, processes the batch its barrier makes available (see
    /// [`SharedPipeline::process_batch`]). A step taken is what
    /// [`Pipeline::process_batch`] returns with the processor's handler and
    /// exception policy; the handler's state when it ran is left unstated.
    /// A fatal stop also marks the processor stopped.
    pub fn step(&self) -> (r: DisruptorResult<bool>)
        ensures
            r != Ok::<bool, DisruptorError>(false) ==> exists|p: PipelineView<E>, s: Option<ConsumerStep>|
                p.wf() && #[trigger] step_reading(p, self.consumer_index(), s) && processed_as(s, r),
            r != Ok::<bool, DisruptorError>(false) && r != Err::<bool, DisruptorError>(DisruptorError::Alert)
                ==> exists|p: &mut Pipeline<E, W>, h: &mut H, step: ConsumerStep, context: ConsumerContext|
                #![trigger call_ensures(Pipeline::<E, W>::process_batch::<H, X>, (p, self.consumer_index(), h, Some(&self.exceptions()), context), step)]
                (*p).wf() && (*p)@.is_active_consumer(self.consumer_index()) && processed_as(Some(step), r)
                    && context.name() == "batch-event-processor"@ && context.stage() is None && call_ensures(
                    Pipeline::<E, W>::process_batch::<H, X>,
                    (p, self.consumer_index(), h, Some(&self.exceptions()), context),
                    step,
                ),
    {
        self.step_with(false)
    }

    /// A step that processes with the engine's rules, or, when `probing`, with
    /// those of a probe outside the run loop ([`SharedPipeline::probe_batch`]).
    fn step_with(&self, probing: bool) -> (r: DisruptorResult<bool>)
        ensures
            r != Ok::<bool, DisruptorError>(false) ==> exists|p: PipelineView<E>, s: Option<ConsumerStep>|
                p.wf() && #[trigger] step_reading(p, self.consumer_index(), s) && processed_as(s, r),
            probing && r != Ok::<bool, DisruptorError>(false) && r != Err::<bool, DisruptorError>(
                DisruptorError::Alert,
            ) ==> exists|p: &mut Pipeline<E, W>, h: &mut H, step: ConsumerStep|
                #![trigger call_ensures(Pipeline::<E, W>::probe_batch::<H, X>, (p, self.consumer_index(), h, Some(&self.exceptions())), step)]
                (*p).wf() && (*p)@.is_active_consumer(self.consumer_index()) && processed_as(Some(step), r)
                    && call_ensures(
                    Pipeline::<E, W>::probe_batch::<H, X>,
                    (p, self.consumer_index(), h, Some(&self.exceptions())),
                    step,
                ),
            !probing && r != Ok::<bool, DisruptorError>(false) && r != Err::<bool, DisruptorError>(
                DisruptorError::Alert,
            ) ==> exists|p: &mut Pipeline<E, W>, h: &mut H, step: ConsumerStep, context: ConsumerContext|
                #![trigger call_ensures(Pipeline::<E, W>::process_batch::<H, X>, (p, self.consumer_index(), h, Some(&self.exceptions()), context), step)]
                (*p).wf() && (*p)@.is_active_consumer(self.consumer_index()) && processed_as(Some(step), r)
                    && context.name() == "batch-event-processor"@ && context.stage() is None && call_ensures(
                    Pipeline::<E, W>::process_batch::<H, X>,
                    (p, self.consumer_index(), h, Some(&self.exceptions()), context),
                    step,
                ),
    {
        proof {
            assert(self.consumer_index() == self.consumer);
        }
        if !self.running.load(Ordering::Acquire) {
            return Ok(false);
        }
        let shared = &self.shared;
        let exceptions = &self.exception_handler;
        let consumer = self.consumer;
        let context = ConsumerContext::without_stage("batch-event-processor");
        let process = |handler: &mut H| -> (s: Result<Option<ConsumerStep>, Busy>)
            ensures
                s matches Ok(o) ==> exists|p: PipelineView<E>| p.wf() && #[trigger] step_reading(p, consumer, o),
                probing ==> (s matches Ok(Some(step)) ==> exists|p: &mut Pipeline<E, W>, h: &mut H|
                    #![trigger call_ensures(Pipeline::<E, W>::probe_batch::<H, X>, (p, consumer, h, Some(exceptions)), step)]
                    (*p).wf() && (*p)@.is_active_consumer(consumer) && call_ensures(
                        Pipeline::<E, W>::probe_batch::<H, X>,
                        (p, consumer, h, Some(exceptions)),
                        step,
                    )),
                !probing ==> (s matches Ok(Some(step)) ==> exists|p: &mut Pipeline<E, W>, h: &mut H|
                    #![trigger call_ensures(Pipeline::<E, W>::process_batch::<H, X>, (p, consumer, h, Some(exceptions), context), step)]
                    (*p).wf() && (*p)@.is_active_consumer(consumer) && call_ensures(
                        Pipeline::<E, W>::process_batch::<H, X>,
                        (p, consumer, h, Some(exceptions), context),
                        step,
                    )),
            {
                if probing {
                    shared.probe_batch(consumer, handler, Some(exceptions))
                } else {
                    shared.process_batch(consumer, handler, Some(exceptions), context)
                }
            };
        let outcome = try_with_lock(&self.handler, process);
        proof {
            assert(self.exceptions() == *exceptions);
            if outcome is Some {
                let t = choose|t: &mut H| process.ensures((t,), outcome->Some_0);
                assert(process.ensures((t,), outcome->Some_0));
            }
        }
        match outcome {
            None => Ok(false),
            Some(Err(Busy)) => Ok(false),
            Some(Ok(None)) => Err(DisruptorError::Alert),
            Some(Ok(Some(ConsumerStep::Idle))) => Ok(false),
            Some(Ok(Some(ConsumerStep::Processed { .. }))) => Ok(true),
            Some(Ok(Some(ConsumerStep::Stopped { .. }))) => {
                self.running.store(false, Ordering::Release);
                Err(DisruptorError::Poisoned)
            },
        }
    }
}

impl<E, H: EventHandler<E>, W: WaitStrategy, X: ExceptionHandler<E>> EventProcessor for BatchEventProcessor<
    E,
    H,
    W,
    X,
> {
    fn get_sequence(&self) -> (r: Option<i64>)
        ensures
            r is Some ==> exists|p: PipelineView<E>| p.wf() && #[trigger] consumer_reading(p, self.consumer_index(), r),
    {
        proof {
            assert(self.consumer_index() == self.consumer);
        }
        match self.shared.consumer_sequence(self.consumer) {
            Ok(r) => r,
            Err(Busy) => None,
        }
    }

    fn halt(&self) {
        self.halted.store(true, Ordering::Release);
        self.running.store(false, Ordering::Release);
    }

    fn is_running(&self) -> bool {
        self.running.load(Ordering::Acquire)
    }

    fn try_run_once(&self) -> (r: DisruptorResult<bool>)
        ensures
            r != Ok::<bool, DisruptorError>(false) ==> exists|p: PipelineView<E>, s: Option<ConsumerStep>|
                p.wf() && #[trigger] step_reading(p, self.consumer_index(), s) && processed_as(s, r),
            r != Ok::<bool, DisruptorError>(false) && r != Err::<bool, DisruptorError>(DisruptorError::Alert)
                ==> exists|p: &mut Pipeline<E, W>, h: &mut H, step: ConsumerStep|
                #![trigger call_ensures(Pipeline::<E, W>::probe_batch::<H, X>, (p, self.consumer_index(), h, Some(&self.exceptions())), step)]
                (*p).wf() && (*p)@.is_active_consumer(self.consumer_index()) && processed_as(Some(step), r)
                    && call_ensures(
                    Pipeline::<E, W>::probe_batch::<H, X>,
                    (p, self.consumer_index(), h, Some(&self.exceptions())),
                    step,
                ),
    {
        self.step_with(true)
    }

    fn notify_timeout(&self, sequence: i64) {
        let timeout = |handler: &mut H| {
            let _ = handler.on_timeout(sequence);
        };
        let _ = try_with_lock(&self.handler, timeout);
    }

    fn on_start(&self) {
        let start = |handler: &mut H| -> DisruptorResult<()> { handler.on_start() };
        match try_with_lock(&self.handler, start) {
            Some(outcome) => {
                match outcome {
                    Ok(()) => {},
                    Err(e) => self.exception_handler.handle_on_start_exception(e),
                }
                if !self.halted.load(Ordering::Acquire) {
                    self.running.store(true, Ordering::Release);
                }
            },
            None => {},
        }
    }

    fn on_shutdown(&self) {
        let stop = |handler: &mut H| -> DisruptorResult<()> { handler.on_shutdown() };
        match try_with_lock(&self.handler, stop) {
            Some(outcome) => {
                match outcome {
                    Ok(()) => {},
                    Err(e) => self.exception_handler.handle_on_shutdown_exception(e),
                }
                self.running.store(false, Ordering::Release);
            },
            None => {},
        }
    }
}

} // verus!
