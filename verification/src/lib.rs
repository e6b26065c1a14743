//! A ring-buffer event pipeline in the LMAX Disruptor style, with its sequencing
//! rules, claim arithmetic, consumer stepping and topology planning verified.

pub mod text;

pub use text::{decimal_string, push_decimal};
pub mod error;
pub use error::{is_power_of_two, DisruptorError, DisruptorResult, INITIAL_CURSOR_VALUE};
pub mod producer_type;
pub use producer_type::ProducerType;
pub mod failure;
pub use failure::{FailureDecision, FailurePhase, FailureRecord};
pub mod sequence;
pub use sequence::Sequence;
pub mod exception_handler;
pub use exception_handler::{
    ClosureExceptionHandler, DefaultExceptionHandler, ErrorDecision, ExceptionHandler,
    IgnoreExceptionHandler,
};
pub mod event_factory;
pub use event_factory::{
    event_factory, CloneEventFactory, ClosureEventFactory, DefaultEventFactory, EventFactory,
};
pub mod event_handler;
pub use event_handler::{ClearingEventHandler, ClosureEventHandler, EventHandler, NoOpEventHandler};
pub mod event_translator;
pub use event_translator::{
    event_translator, event_translator_one_arg, event_translator_two_arg, ClosureEventTranslator,
    ClosureEventTranslatorOneArg, ClosureEventTranslatorTwoArg, EventTranslator,
    EventTranslatorOneArg, EventTranslatorThreeArg, EventTranslatorTwoArg,
};
pub mod ring_buffer;
pub use ring_buffer::{RingBuffer, SlotPadding};
pub mod wait_strategy;
pub use wait_strategy::{
    BlockingWaitStrategy, BusySpinWaitStrategy, SleepingWaitStrategy, WaitKind, WaitStrategy,
    YieldingWaitStrategy,
};
pub mod sequencer;
pub use sequencer::{MultiProducerSequencer, SequencerCore, SequencerEnum, SingleProducerSequencer};
pub mod producer;
pub use producer::{CloneableProducer, MissingFreeSlots, Producer, RingBufferFull, SimpleProducer, TryPublishError};
pub mod pipeline;
pub use pipeline::Pipeline;
pub mod consumer_engine;
pub use consumer_engine::{ConsumerContext, ConsumerStep, StopFlag};
pub mod topology;
pub use topology::{
    create_pipeline, ConsumerAccess, ConsumerSpec, HasConsumers, MultiProducerMode, MultipleConsumers,
    NoConsumers, Placement, RunMode, SingleConsumer, SingleProducerMode, StageMode, TopologyPlan,
};
mod sync;
pub mod laws;
pub mod event_processor;
pub use event_processor::{BatchEventProcessor, DataProvider, EventProcessor};
pub mod event_poller;
pub use event_poller::{open_single_producer_poller, EventBatch, EventPoller, Polling, SingleProducerPollerBundle};
pub mod shared;
pub use shared::{Busy, SharedPipeline};
