//! Event handlers: the consumer-side callbacks of a pipeline.

use vstd::prelude::*;
use std::sync::Arc;
use crate::error::{DisruptorError, DisruptorResult};
use crate::sequence::Sequence;

verus! {

/// Processes the events of a pipeline; users implement it.
pub trait EventHandler<T> {
    /// Processes `event`, published at `sequence`; `end_of_batch` marks the
    /// last event of the batch being processed.
    fn on_event(&mut self, event: &mut T, sequence: i64, end_of_batch: bool) -> DisruptorResult<()>;

    /// Called once before the first event.
    fn on_start(&mut self) -> (r: DisruptorResult<()>)
        default_ensures
            r == Ok::<(), DisruptorError>(()),
    {
        Ok(())
    }

    /// Called once after the last event.
    fn on_shutdown(&mut self) -> (r: DisruptorResult<()>)
        default_ensures
            r == Ok::<(), DisruptorError>(()),
    {
        Ok(())
    }

    /// Called before each batch with its size and the queue depth behind it.
    fn on_batch_start(&mut self, batch_size: i64, queue_depth: i64) -> (r: DisruptorResult<()>)
        default_ensures
            r == Ok::<(), DisruptorError>(()),
    {
        Ok(())
    }

    /// Called when a bounded wait for `sequence` timed out.
    fn on_timeout(&mut self, sequence: i64) -> (r: DisruptorResult<()>)
        default_ensures
            r == Ok::<(), DisruptorError>(()),
    {
        Ok(())
    }

    /// Hands the handler a sequence it may advance early (optional).
    fn set_sequence_callback(&mut self, sequence_callback: Arc<Sequence>) {
    }
}

/// An event handler made from a closure.
#[verifier::reject_recursive_types(T)]
pub struct ClosureEventHandler<T, F> where F: Fn(&mut T, i64, bool) -> DisruptorResult<()> {
    handler: F,
    sequence_callback: Option<Arc<Sequence>>,
    _phantom: core::marker::PhantomData<T>,
}

impl<T, F> ClosureEventHandler<T, F> where F: Fn(&mut T, i64, bool) -> DisruptorResult<()> {
    #[verifier::type_invariant]
    spec fn callable(self) -> bool {
        forall|e: &mut T, s: i64, b: bool| self.handler.requires((e, s, b))
    }

    /// The closure that processes the events.
    pub closed spec fn handler_fn(self) -> F {
        self.handler
    }

    /// Whether a sequence callback has been set.
    pub closed spec fn has_callback(self) -> bool {
        self.sequence_callback is Some
    }

    /// A handler that calls `handler` for every event.
    pub fn new(handler: F) -> (r: Self)
        requires
            forall|e: &mut T, s: i64, b: bool| handler.requires((e, s, b)),
        ensures
            r.handler_fn() == handler,
            !r.has_callback(),
    {
        ClosureEventHandler { handler, sequence_callback: None, _phantom: core::marker::PhantomData }
    }

    /// Whether a sequence callback has been set.
    pub fn has_sequence_callback(&self) -> (r: bool)
        ensures
            r == self.has_callback(),
    {
        self.sequence_callback.is_some()
    }
}

impl<T, F> EventHandler<T> for ClosureEventHandler<T, F> where
    F: Fn(&mut T, i64, bool) -> DisruptorResult<()>,
 {
    fn on_event(&mut self, event: &mut T, sequence: i64, end_of_batch: bool) -> (r:
        DisruptorResult<()>)
        ensures
            final(self).handler_fn() == old(self).handler_fn(),
            final(self).has_callback() == old(self).has_callback(),
            exists|e: &mut T|
                *e == *old(event) && *final(e) == *final(event) && old(self).handler_fn().ensures(
                    (e, sequence, end_of_batch),
                    r,
                ),
    {
        proof {
            use_type_invariant(&*self);
        }
        (self.handler)(event, sequence, end_of_batch)
    }

    fn set_sequence_callback(&mut self, sequence_callback: Arc<Sequence>)
        ensures
            final(self).handler_fn() == old(self).handler_fn(),
            final(self).has_callback(),
    {
        proof {
            use_type_invariant(&*self);
        }
        self.sequence_callback = Some(sequence_callback);
    }
}

/// A handler that does nothing; measures the framework's own overhead.
pub struct NoOpEventHandler<T> {
    _phantom: core::marker::PhantomData<T>,
}

impl<T> NoOpEventHandler<T> {
    /// A new no-op handler.
    pub fn new() -> Self {
        NoOpEventHandler { _phantom: core::marker::PhantomData }
    }
}

impl<T> Default for NoOpEventHandler<T> {
    fn default() -> Self {
        NoOpEventHandler::new()
    }
}

impl<T> EventHandler<T> for NoOpEventHandler<T> {
    fn on_event(&mut self, event: &mut T, sequence: i64, end_of_batch: bool) -> (r:
        DisruptorResult<()>)
        ensures
            r is Ok,
            *final(event) == *old(event),
    {
        Ok(())
    }
}

/// Wraps a handler and resets each event to its default after processing,
/// whatever the inner handler returned.
pub struct ClearingEventHandler<T, H> where T: Default, H: EventHandler<T> {
    inner_handler: H,
    _phantom: core::marker::PhantomData<T>,
}

impl<T, H> ClearingEventHandler<T, H> where T: Default, H: EventHandler<T> {
    /// The wrapped handler.
    pub closed spec fn inner(self) -> H {
        self.inner_handler
    }

    /// A handler that runs `inner_handler`, then clears the event.
    pub fn new(inner_handler: H) -> (r: Self)
        ensures
            r.inner() == inner_handler,
    {
        ClearingEventHandler { inner_handler, _phantom: core::marker::PhantomData }
    }
}

impl<T, H> EventHandler<T> for ClearingEventHandler<T, H> where T: Default, H: EventHandler<T> {
    fn on_event(&mut self, event: &mut T, sequence: i64, end_of_batch: bool) -> (r:
        DisruptorResult<()>)
        ensures
            call_ensures(T::default, (), *final(event)),
            exists|h: &mut H, e: &mut T|
                *h == old(self).inner() && *final(h) == final(self).inner() && *e == *old(event) && call_ensures(
                    H::on_event,
                    (h, e, sequence, end_of_batch),
                    r,
                ),
    {
        let result = self.inner_handler.on_event(event, sequence, end_of_batch);
        *event = T::default();
        result
    }

    fn set_sequence_callback(&mut self, sequence_callback: Arc<Sequence>)
        ensures
            exists|h: &mut H|
                *h == old(self).inner() && *final(h) == final(self).inner() && call_ensures(
                    H::set_sequence_callback,
                    (h, sequence_callback),
                    (),
                ),
    {
        self.inner_handler.set_sequence_callback(sequence_callback);
    }
}

} // verus!
