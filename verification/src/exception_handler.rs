//! Policies for errors that event handlers report.

use vstd::prelude::*;
use crate::error::DisruptorError;

verus! {

/// What the consumer loop does after a handler error.
#[derive(Debug, Clone, Copy, PartialEq, Eq, Structural)]
pub enum ErrorDecision {
    /// Stop this consumer: its sequence freezes at the last fully processed
    /// event and the producers are poisoned so publishing fails fast.
    Stop,
    /// Skip the failing event and keep consuming.
    Continue,
}

/// Handler for errors that occur during event processing; users implement it
/// to choose a policy.
pub trait ExceptionHandler<T> {
    /// Decides what happens after `error` at `sequence` on `event`.
    fn handle_event_exception(&self, error: DisruptorError, sequence: i64, event: &T) -> ErrorDecision;

    /// Handles an error of the handler's start callback.
    fn handle_on_start_exception(&self, error: DisruptorError);

    /// Handles an error of the handler's shutdown callback.
    fn handle_on_shutdown_exception(&self, error: DisruptorError);
}

/// The fatal default: every event error stops the consumer.
#[derive(Debug, Default)]
pub struct DefaultExceptionHandler<T> {
    _phantom: core::marker::PhantomData<T>,
}

impl<T> DefaultExceptionHandler<T> {
    /// A new default exception handler.
    pub fn new() -> Self {
        DefaultExceptionHandler { _phantom: core::marker::PhantomData }
    }
}

impl<T> ExceptionHandler<T> for DefaultExceptionHandler<T> {
    fn handle_event_exception(&self, error: DisruptorError, sequence: i64, event: &T) -> (d:
        ErrorDecision)
        ensures
            d == ErrorDecision::Stop,
    {
        ErrorDecision::Stop
    }

    fn handle_on_start_exception(&self, error: DisruptorError) {
    }

    fn handle_on_shutdown_exception(&self, error: DisruptorError) {
    }
}

/// Skips every failing event and keeps consuming.
#[derive(Debug, Default)]
pub struct IgnoreExceptionHandler<T> {
    _phantom: core::marker::PhantomData<T>,
}

impl<T> IgnoreExceptionHandler<T> {
    /// A new ignoring exception handler.
    pub fn new() -> Self {
        IgnoreExceptionHandler { _phantom: core::marker::PhantomData }
    }
}

impl<T> ExceptionHandler<T> for IgnoreExceptionHandler<T> {
    fn handle_event_exception(&self, error: DisruptorError, sequence: i64, event: &T) -> (d:
        ErrorDecision)
        ensures
            d == ErrorDecision::Continue,
    {
        ErrorDecision::Continue
    }

    fn handle_on_start_exception(&self, error: DisruptorError) {
    }

    fn handle_on_shutdown_exception(&self, error: DisruptorError) {
    }
}

/// An exception handler made of three closures.
pub struct ClosureExceptionHandler<T, F, S, H> where
    F: Fn(DisruptorError, i64, &T) -> ErrorDecision,
    S: Fn(DisruptorError),
    H: Fn(DisruptorError),
 {
    event_handler: F,
    start_handler: S,
    shutdown_handler: H,
    _phantom: core::marker::PhantomData<T>,
}

impl<T, F, S, H> ClosureExceptionHandler<T, F, S, H> where
    F: Fn(DisruptorError, i64, &T) -> ErrorDecision,
    S: Fn(DisruptorError),
    H: Fn(DisruptorError),
 {
    #[verifier::type_invariant]
    spec fn callable(self) -> bool {
        &&& forall|e: DisruptorError, s: i64, ev: &T| self.event_handler.requires((e, s, ev))
        &&& forall|e: DisruptorError| self.start_handler.requires((e,))
        &&& forall|e: DisruptorError| self.shutdown_handler.requires((e,))
    }

    /// The event-error closure.
    pub closed spec fn event_fn(self) -> F {
        self.event_handler
    }

    /// The start-error closure.
    pub closed spec fn start_fn(self) -> S {
        self.start_handler
    }

    /// The shutdown-error closure.
    pub closed spec fn shutdown_fn(self) -> H {
        self.shutdown_handler
    }

    /// An exception handler that calls the three closures.
    pub fn new(event_handler: F, start_handler: S, shutdown_handler: H) -> (r: Self)
        requires
            forall|e: DisruptorError, s: i64, ev: &T| event_handler.requires((e, s, ev)),
            forall|e: DisruptorError| start_handler.requires((e,)),
            forall|e: DisruptorError| shutdown_handler.requires((e,)),
        ensures
            r.event_fn() == event_handler,
            r.start_fn() == start_handler,
            r.shutdown_fn() == shutdown_handler,
    {
        ClosureExceptionHandler {
            event_handler,
            start_handler,
            shutdown_handler,
            _phantom: core::marker::PhantomData,
        }
    }
}

impl<T, F, S, H> ExceptionHandler<T> for ClosureExceptionHandler<T, F, S, H> where
    F: Fn(DisruptorError, i64, &T) -> ErrorDecision,
    S: Fn(DisruptorError),
    H: Fn(DisruptorError),
 {
    fn handle_event_exception(&self, error: DisruptorError, sequence: i64, event: &T) -> (d:
        ErrorDecision)
        ensures
            self.event_fn().ensures((error, sequence, event), d),
    {
        proof {
            use_type_invariant(self);
        }
        (self.event_handler)(error, sequence, event)
    }

    fn handle_on_start_exception(&self, error: DisruptorError)
        ensures
            self.start_fn().ensures((error,), ()),
    {
        proof {
            use_type_invariant(self);
        }
        (self.start_handler)(error)
    }

    fn handle_on_shutdown_exception(&self, error: DisruptorError)
        ensures
            self.shutdown_fn().ensures((error,), ()),
    {
        proof {
            use_type_invariant(self);
        }
        (self.shutdown_handler)(error)
    }
}

} // verus!
