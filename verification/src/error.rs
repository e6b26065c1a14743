//! Errors of the pipeline, the initial cursor value and the power-of-two rule
//! for ring sizes.

use vstd::prelude::*;
use vstd::string::StringExecFns;
use crate::text::{decimal, decimal_digits, push_decimal, push_signed_decimal};

verus! {

/// The initial cursor value for sequences: nothing has been claimed or processed.
pub const INITIAL_CURSOR_VALUE: i64 = -1;

/// Errors that can occur in the pipeline.
#[derive(Debug, Clone, PartialEq, Eq)]
pub enum DisruptorError {
    /// A producer attempted to publish but the ring buffer is full.
    BufferFull,
    /// A sequence number or batch size outside the valid range was used.
    InvalidSequence(i64),
    /// A ring size that is not a power of two was requested.
    InvalidBufferSize(usize),
    /// A bounded wait gave up before the sequence became available.
    Timeout,
    /// The operation was attempted after the pipeline shut down.
    Shutdown,
    /// The requested capacity exceeds the available slots.
    InsufficientCapacity,
    /// The consumer was alerted to stop.
    Alert,
    /// A component was started twice.
    AlreadyRunning,
    /// Shutdown met an unrecoverable error.
    ShutdownError(String),
    /// A fatal producer or consumer failure poisoned the pipeline.
    Poisoned,
    /// A second driver tried to claim on a single-producer sequencer.
    ConcurrentClaimDriver,
    /// A nested publish from inside a single-producer translator.
    ReentrantPublish,
}

/// Result type of pipeline operations.
pub type DisruptorResult<T> = core::result::Result<T, DisruptorError>;

/// Result type of pipeline operations, under its short name.
pub type Result<T> = core::result::Result<T, DisruptorError>;

/// The human-readable message of an error.
pub open spec fn error_message(e: DisruptorError) -> Seq<char> {
    match e {
        DisruptorError::BufferFull => "Ring buffer is full"@,
        DisruptorError::InvalidSequence(s) => "Invalid sequence: "@ + decimal(s as int),
        DisruptorError::InvalidBufferSize(n) => "Buffer size must be a power of 2, got: "@
            + decimal_digits(n as nat),
        DisruptorError::Timeout => "Timeout waiting for sequence"@,
        DisruptorError::Shutdown => "Disruptor has been shut down"@,
        DisruptorError::InsufficientCapacity => "Insufficient capacity"@,
        DisruptorError::Alert => "Alert exception"@,
        DisruptorError::AlreadyRunning => "Already running"@,
        DisruptorError::ShutdownError(m) => "Shutdown error: "@ + m@,
        DisruptorError::Poisoned => "Pipeline poisoned by a fatal producer or consumer failure"@,
        DisruptorError::ConcurrentClaimDriver => "Concurrent claim on a single-producer sequencer"@,
        DisruptorError::ReentrantPublish => "Reentrant publish on a single-producer DSL disruptor"@,
    }
}

impl DisruptorError {
    /// The message of this error, as its display form shows it.
    pub fn describe(&self) -> (s: String)
        ensures
            s@ == error_message(*self),
    {
        match self {
            DisruptorError::BufferFull => String::from_str("Ring buffer is full"),
            DisruptorError::InvalidSequence(seq) => {
                let mut s = String::from_str("Invalid sequence: ");
                push_signed_decimal(&mut s, *seq);
                s
            },
            DisruptorError::InvalidBufferSize(n) => {
                let mut s = String::from_str("Buffer size must be a power of 2, got: ");
                push_decimal(&mut s, *n as u64);
                s
            },
            DisruptorError::Timeout => String::from_str("Timeout waiting for sequence"),
            DisruptorError::Shutdown => String::from_str("Disruptor has been shut down"),
            DisruptorError::InsufficientCapacity => String::from_str("Insufficient capacity"),
            DisruptorError::Alert => String::from_str("Alert exception"),
            DisruptorError::AlreadyRunning => String::from_str("Already running"),
            DisruptorError::ShutdownError(m) => {
                let s = String::from_str("Shutdown error: ");
                s.concat(m.as_str())
            },
            DisruptorError::Poisoned => String::from_str(
                "Pipeline poisoned by a fatal producer or consumer failure",
            ),
            DisruptorError::ConcurrentClaimDriver => String::from_str(
                "Concurrent claim on a single-producer sequencer",
            ),
            DisruptorError::ReentrantPublish => String::from_str(
                "Reentrant publish on a single-producer DSL disruptor",
            ),
        }
    }
}

/// `n` is a power of two: 1, or an even number whose half is a power of two.
pub open spec fn is_pow2(n: nat) -> bool
    decreases n,
{
    if n == 0 {
        false
    } else if n == 1 {
        true
    } else {
        n % 2 == 0 && is_pow2(n / 2)
    }
}

/// Whether `n` is a power of two.
pub fn is_power_of_two(n: usize) -> (r: bool)
    ensures
        r == is_pow2(n as nat),
{
    if n == 0 {
        return false;
    }
    let mut m: usize = n;
    while m > 1 && m % 2 == 0
        invariant
            m >= 1,
            is_pow2(m as nat) == is_pow2(n as nat),
        decreases m,
    {
        m = m / 2;
    }
    m == 1
}

} // verus!
