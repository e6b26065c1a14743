//! The consumer side: stop flags, failure context, and the outcome of one
//! consumer step. The steps themselves are transitions of [`crate::pipeline::Pipeline`].

use vstd::prelude::*;
use core::sync::atomic::{AtomicBool, Ordering};
use crate::failure::{FailurePhase, FailureRecord, FailureRecordView};

verus! {

/// The single stop source of a consumer loop.
#[derive(Clone, Copy)]
pub enum StopFlag<'a> {
    /// `true` in the flag means shut down.
    External(&'a AtomicBool),
    /// `false` in the flag means halt.
    Running(&'a AtomicBool),
}

/// Whether a loop continues, given the flag's kind and the value read from it.
pub open spec fn continues(external: bool, value: bool) -> bool {
    if external {
        !value
    } else {
        value
    }
}

impl<'a> StopFlag<'a> {
    /// Whether the consumer loop should keep processing.
    ///
    /// The flag is shared with the thread that stops the loop, so the value
    /// read is not known here; [`StopFlag::continues_with`] states the rule.
    pub fn should_continue(self) -> bool {
        match self {
            StopFlag::External(flag) => {
                let value = flag.load(Ordering::Acquire);
                StopFlag::continues_with(true, value)
            },
            StopFlag::Running(flag) => {
                let value = flag.load(Ordering::Acquire);
                StopFlag::continues_with(false, value)
            },
        }
    }

    /// The rule: an external flag stops the loop when set, a running flag
    /// when cleared.
    pub fn continues_with(external: bool, value: bool) -> (r: bool)
        ensures
            r == continues(external, value),
    {
        if external {
            !value
        } else {
            value
        }
    }
}

/// Where a consumer runs: its thread name and, for built pipelines, its stage.
#[derive(Clone, Copy)]
pub struct ConsumerContext<'a> {
    thread_name: &'a str,
    stage_index: Option<usize>,
}

impl<'a> ConsumerContext<'a> {
    /// The thread name.
    pub closed spec fn name(self) -> Seq<char> {
        self.thread_name@
    }

    /// The stage, when known.
    pub closed spec fn stage(self) -> Option<usize> {
        self.stage_index
    }

    /// A context for a consumer of the given pipeline stage.
    pub fn for_stage(thread_name: &'a str, stage_index: usize) -> (c: Self)
        ensures
            c.name() == thread_name@,
            c.stage() == Some(stage_index),
    {
        ConsumerContext { thread_name, stage_index: Some(stage_index) }
    }

    /// A context without a stage.
    pub fn without_stage(thread_name: &'a str) -> (c: Self)
        ensures
            c.name() == thread_name@,
            c.stage() is None,
    {
        ConsumerContext { thread_name, stage_index: None }
    }
}

/// The failure record of a consumer: phase, message, its thread, its stage
/// when known and the sequence when known.
pub open spec fn consumer_failure_view(
    phase: FailurePhase,
    message: Seq<char>,
    context: ConsumerContext,
    sequence: Option<i64>,
) -> FailureRecordView {
    FailureRecordView {
        phase,
        message,
        thread_name: Some(context.name()),
        stage_index: context.stage(),
        sequence,
    }
}

/// Builds the failure record of a consumer.
pub fn consumer_failure(
    phase: FailurePhase,
    message: &str,
    context: ConsumerContext,
    sequence: Option<i64>,
) -> (r: FailureRecord)
    ensures
        r@ == consumer_failure_view(phase, message@, context, sequence),
{
    let mut failure = FailureRecord::new(phase, message).with_thread_name(context.thread_name);
    match context.stage_index {
        Some(stage) => {
            failure = failure.with_stage_index(stage);
        },
        None => {},
    }
    match sequence {
        Some(s) => {
            failure = failure.with_sequence(s);
        },
        None => {},
    }
    failure
}

/// The failure record of a lifecycle event of a built pipeline's consumer.
pub fn lifecycle_failure(phase: FailurePhase, message: &str, thread_name: &str, stage_index: usize) -> (r:
    FailureRecord)
    ensures
        r@ == (FailureRecordView {
            phase,
            message: message@,
            thread_name: Some(thread_name@),
            stage_index: Some(stage_index),
            sequence: None,
        }),
{
    FailureRecord::new(phase, message).with_thread_name(thread_name).with_stage_index(stage_index)
}

/// What one consumer step did.
#[derive(Debug, Clone, Copy, PartialEq, Eq, Structural)]
pub enum ConsumerStep {
    /// Nothing new was available.
    Idle,
    /// The events `from..=to` were processed and the consumer advanced to `to`.
    Processed { from: i64, to: i64 },
    /// A fatal error at `at` stopped the consumer and poisoned the pipeline.
    Stopped { at: i64 },
}

} // verus!
