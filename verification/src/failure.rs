//! Structured failure records of a managed pipeline.

use vstd::prelude::*;
use vstd::string::StringExecFns;
use crate::text::{decimal, decimal_digits, push_decimal, push_signed_decimal};

verus! {

/// Lifecycle or processing phase in which a managed pipeline failed.
#[derive(Clone, Copy, Debug, PartialEq, Eq, Structural)]
#[non_exhaustive]
pub enum FailurePhase {
    /// A requested consumer-thread CPU affinity could not be applied.
    ThreadAffinity,
    /// The handler's start callback returned an error.
    HandlerStart,
    /// The handler's batch-start callback returned an error.
    BatchStart,
    /// Event processing returned an error and the policy stopped the consumer.
    EventProcessing,
    /// The handler's shutdown callback returned an error.
    HandlerShutdown,
    /// A consumer callback panicked.
    ConsumerPanic,
    /// A producer update panicked after its claim and before publishing.
    ProducerPanic,
    /// A managed processor thread returned an error or panicked while joining.
    ProcessorThread,
}

/// The stable lowercase name of a phase.
pub open spec fn phase_name(p: FailurePhase) -> Seq<char> {
    match p {
        FailurePhase::ThreadAffinity => "thread_affinity"@,
        FailurePhase::HandlerStart => "handler_start"@,
        FailurePhase::BatchStart => "batch_start"@,
        FailurePhase::EventProcessing => "event_processing"@,
        FailurePhase::HandlerShutdown => "handler_shutdown"@,
        FailurePhase::ConsumerPanic => "consumer_panic"@,
        FailurePhase::ProducerPanic => "producer_panic"@,
        FailurePhase::ProcessorThread => "processor_thread"@,
    }
}

impl FailurePhase {
    /// Stable lowercase name suitable for logs and metrics labels.
    pub fn as_str(self) -> (s: &'static str)
        ensures
            s@ == phase_name(self),
    {
        match self {
            FailurePhase::ThreadAffinity => "thread_affinity",
            FailurePhase::HandlerStart => "handler_start",
            FailurePhase::BatchStart => "batch_start",
            FailurePhase::EventProcessing => "event_processing",
            FailurePhase::HandlerShutdown => "handler_shutdown",
            FailurePhase::ConsumerPanic => "consumer_panic",
            FailurePhase::ProducerPanic => "producer_panic",
            FailurePhase::ProcessorThread => "processor_thread",
        }
    }
}

/// What the model of a failure record holds.
pub struct FailureRecordView {
    pub phase: FailurePhase,
    pub message: Seq<char>,
    pub thread_name: Option<Seq<char>>,
    pub stage_index: Option<usize>,
    pub sequence: Option<i64>,
}

/// The first structured failure observed by a managed pipeline.
#[derive(Clone, Debug, PartialEq, Eq)]
pub struct FailureRecord {
    phase: FailurePhase,
    message: String,
    thread_name: Option<String>,
    stage_index: Option<usize>,
    sequence: Option<i64>,
}

/// The view of an optional string.
pub open spec fn opt_text(s: Option<String>) -> Option<Seq<char>> {
    match s {
        Some(t) => Some(t@),
        None => None,
    }
}

impl View for FailureRecord {
    type V = FailureRecordView;

    closed spec fn view(&self) -> FailureRecordView {
        FailureRecordView {
            phase: self.phase,
            message: self.message@,
            thread_name: opt_text(self.thread_name),
            stage_index: self.stage_index,
            sequence: self.sequence,
        }
    }
}

/// The text that `{:?}` gives for a string: the string quoted, with the
/// characters that need it escaped.
pub uninterp spec fn debug_quoted(s: Seq<char>) -> Seq<char>;

/// A printable ASCII character that `{:?}` leaves as it is inside the quotes.
pub open spec fn plain_ascii(c: char) -> bool {
    ' ' <= c && c <= '~' && c != '"' && c != '\\'
}

/// Text made of plain printable ASCII characters only.
pub open spec fn plain_text(s: Seq<char>) -> bool {
    forall|i: int| 0 <= i < s.len() ==> plain_ascii(#[trigger] s[i])
}

/// `s` between two double quotes.
pub open spec fn quoted(s: Seq<char>) -> Seq<char> {
    seq!['"'] + s + seq!['"']
}

/// Formats `s` with `{:?}` (std's `Debug` for `str`).
///
/// The contract names the result; of its value it only states what std's
/// documentation of `char::escape_debug` gives for plain printable ASCII text:
/// such a text comes back between two double quotes, unchanged.
#[verifier::external_body]
fn debug_quote(s: &str) -> (r: String)
    ensures
        r@ == debug_quoted(s@),
        plain_text(s@) ==> r@ == quoted(s@),
{
    format!("{s:?}")
}

/// The display form of a failure record.
pub open spec fn record_text(r: FailureRecordView) -> Seq<char> {
    "phase="@ + phase_name(r.phase) + match r.thread_name {
        Some(t) => " thread="@ + debug_quoted(t),
        None => Seq::<char>::empty(),
    } + match r.stage_index {
        Some(s) => " stage="@ + decimal_digits(s as nat),
        None => Seq::<char>::empty(),
    } + match r.sequence {
        Some(q) => " sequence="@ + decimal(q as int),
        None => Seq::<char>::empty(),
    } + " error="@ + debug_quoted(r.message)
}

impl FailureRecord {
    /// A record with a phase and a human-readable error message.
    pub fn new(phase: FailurePhase, message: &str) -> (r: Self)
        ensures
            r@ == (FailureRecordView {
                phase,
                message: message@,
                thread_name: None,
                stage_index: None,
                sequence: None,
            }),
    {
        FailureRecord {
            phase,
            message: String::from_str(message),
            thread_name: None,
            stage_index: None,
            sequence: None,
        }
    }

    /// Attaches the managed thread name.
    pub fn with_thread_name(self, thread_name: &str) -> (r: Self)
        ensures
            r@ == (FailureRecordView { thread_name: Some(thread_name@), ..self@ }),
    {
        FailureRecord { thread_name: Some(String::from_str(thread_name)), ..self }
    }

    /// Attaches the zero-based pipeline stage.
    pub fn with_stage_index(self, stage_index: usize) -> (r: Self)
        ensures
            r@ == (FailureRecordView { stage_index: Some(stage_index), ..self@ }),
    {
        FailureRecord { stage_index: Some(stage_index), ..self }
    }

    /// Attaches the event sequence at which the failure occurred.
    pub fn with_sequence(self, sequence: i64) -> (r: Self)
        ensures
            r@ == (FailureRecordView { sequence: Some(sequence), ..self@ }),
    {
        FailureRecord { sequence: Some(sequence), ..self }
    }

    /// Failure phase.
    pub fn phase(&self) -> (p: FailurePhase)
        ensures
            p == self@.phase,
    {
        self.phase
    }

    /// Human-readable root error or panic message.
    pub fn message(&self) -> (m: &str)
        ensures
            m@ == self@.message,
    {
        self.message.as_str()
    }

    /// Managed thread name, when known.
    pub fn thread_name(&self) -> (t: Option<&str>)
        ensures
            match t {
                Some(s) => self@.thread_name == Some(s@),
                None => self@.thread_name is None,
            },
    {
        match &self.thread_name {
            Some(s) => Some(s.as_str()),
            None => None,
        }
    }

    /// Zero-based pipeline stage, when known.
    pub fn stage_index(&self) -> (s: Option<usize>)
        ensures
            s == self@.stage_index,
    {
        self.stage_index
    }

    /// Event sequence, when the failure is tied to one event or batch.
    pub fn sequence(&self) -> (s: Option<i64>)
        ensures
            s == self@.sequence,
    {
        self.sequence
    }

    /// A copy of this record with the same view.
    pub fn duplicate(&self) -> (r: Self)
        ensures
            r@ == self@,
    {
        let thread_name = match &self.thread_name {
            Some(s) => Some(s.clone()),
            None => None,
        };
        FailureRecord {
            phase: self.phase,
            message: self.message.clone(),
            thread_name,
            stage_index: self.stage_index,
            sequence: self.sequence,
        }
    }

    /// The display form: phase, then thread, stage and sequence when known,
    /// then the quoted error message. A message or thread name of plain
    /// printable ASCII text is quoted as it is.
    pub fn describe(&self) -> (s: String)
        ensures
            s@ == record_text(self@),
            plain_text(self@.message) ==> debug_quoted(self@.message) == quoted(self@.message),
            self@.thread_name matches Some(t) ==> (plain_text(t) ==> debug_quoted(t) == quoted(t)),
    {
        let mut out = String::from_str("phase=");
        out.append(self.phase.as_str());
        let ghost after_phase = out@;
        match &self.thread_name {
            Some(t) => {
                out.append(" thread=");
                let q = debug_quote(t.as_str());
                out.append(q.as_str());
            },
            None => {},
        }
        let ghost after_thread = out@;
        match self.stage_index {
            Some(stage) => {
                out.append(" stage=");
                push_decimal(&mut out, stage as u64);
            },
            None => {},
        }
        let ghost after_stage = out@;
        match self.sequence {
            Some(q) => {
                out.append(" sequence=");
                push_signed_decimal(&mut out, q);
            },
            None => {},
        }
        out.append(" error=");
        let m = debug_quote(self.message.as_str());
        out.append(m.as_str());
        proof {
            let v = self@;
            let t_part = match v.thread_name {
                Some(t) => " thread="@ + debug_quoted(t),
                None => Seq::<char>::empty(),
            };
            let s_part = match v.stage_index {
                Some(s) => " stage="@ + decimal_digits(s as nat),
                None => Seq::<char>::empty(),
            };
            let q_part = match v.sequence {
                Some(q) => " sequence="@ + decimal(q as int),
                None => Seq::<char>::empty(),
            };
            assert(after_thread =~= after_phase + t_part);
            assert(after_stage =~= after_thread + s_part);
            assert(out@ =~= record_text(v));
        }
        out
    }
}

/// Whether a recorded failure also poisons the pipeline.
#[derive(Clone, Copy, Debug, PartialEq, Eq, Structural)]
pub enum FailureDecision {
    /// Record the failure and poison the producers.
    Poison,
    /// Record the failure only.
    Record,
}

impl FailureDecision {
    /// The label of the decision in failure logs.
    pub fn as_str(self) -> (s: &'static str)
        ensures
            s@ == (if self == FailureDecision::Poison {
                "poison"@
            } else {
                "record"@
            }),
    {
        match self {
            FailureDecision::Poison => "poison",
            FailureDecision::Record => "record",
        }
    }
}

/// The message of a panic payload, given what it holds as `&str` and as `String`:
/// the `&str` first, then the `String`, otherwise a fixed text.
pub fn choose_panic_message(as_str: Option<String>, as_string: Option<String>) -> (m: String)
    ensures
        m@ == match (as_str, as_string) {
            (Some(s), _) => s@,
            (None, Some(s)) => s@,
            (None, None) => "non-string panic payload"@,
        },
{
    match as_str {
        Some(s) => s,
        None => match as_string {
            Some(s) => s,
            None => String::from_str("non-string panic payload"),
        },
    }
}

} // verus!
