use badbatch::event_processor::{BatchEventProcessor, DataProvider, EventProcessor};
use badbatch::{
    BlockingWaitStrategy, DefaultEventFactory, DefaultExceptionHandler, DisruptorError,
    DisruptorResult, ErrorDecision, EventHandler, ExceptionHandler, NoOpEventHandler, RingBuffer,
    SequencerEnum, SharedPipeline, SingleProducerSequencer, INITIAL_CURSOR_VALUE,
};
use std::sync::atomic::{AtomicI64, AtomicUsize, Ordering};
use std::sync::{Arc, Mutex};
use std::time::{Duration, Instant};

#[derive(Debug, Default)]
struct TestEvent {
    value: AtomicI64,
}

fn pipeline(size: usize) -> SharedPipeline<TestEvent, BlockingWaitStrategy> {
    let ring = RingBuffer::new(size, DefaultEventFactory::<TestEvent>::new()).unwrap();
    SharedPipeline::new(ring, SequencerEnum::Single(SingleProducerSequencer::new(size, BlockingWaitStrategy::new())))
}

fn noop_processor(
    size: usize,
) -> BatchEventProcessor<TestEvent, NoOpEventHandler<TestEvent>, BlockingWaitStrategy, DefaultExceptionHandler<TestEvent>> {
    let shared = pipeline(size);
    let consumer = shared.add_consumer(Vec::new()).unwrap().unwrap();
    BatchEventProcessor::new(shared, consumer, NoOpEventHandler::new(), DefaultExceptionHandler::new())
}

struct TestDataProvider {
    events: Vec<TestEvent>,
}

impl TestDataProvider {
    fn new(size: usize) -> Self {
        let mut events = Vec::with_capacity(size);
        for i in 0..size {
            events.push(TestEvent { value: AtomicI64::new(i64::try_from(i).expect("test index fits in i64")) });
        }
        Self { events }
    }

    fn index(&self, sequence: i64) -> usize {
        let len = i64::try_from(self.events.len()).expect("events length fits in i64");
        usize::try_from(sequence.rem_euclid(len)).expect("normalized index must fit")
    }
}

impl DataProvider<TestEvent> for TestDataProvider {
    fn provides(&self, _sequence: i64) -> bool {
        !self.events.is_empty()
    }

    fn get(&self, sequence: i64) -> &TestEvent {
        &self.events[self.index(sequence)]
    }

    fn get_mut(&mut self, sequence: i64) -> &mut TestEvent {
        let i = self.index(sequence);
        &mut self.events[i]
    }
}

#[derive(Default)]
struct HandlerState {
    successful_events: AtomicI64,
    processed_sequences: Mutex<Vec<i64>>,
    batch_starts: Mutex<Vec<(i64, i64)>>,
    start_calls: AtomicUsize,
    shutdown_calls: AtomicUsize,
    last_timeout_sequence: AtomicI64,
}

struct TrackingEventHandler {
    state: Arc<HandlerState>,
    fail_on_sequence: Option<i64>,
    fail_on_start: bool,
    fail_on_shutdown: bool,
}

impl TrackingEventHandler {
    fn new(state: Arc<HandlerState>) -> Self {
        Self { state, fail_on_sequence: None, fail_on_start: false, fail_on_shutdown: false }
    }

    fn failing_on_sequence(state: Arc<HandlerState>, sequence: i64) -> Self {
        Self { state, fail_on_sequence: Some(sequence), fail_on_start: false, fail_on_shutdown: false }
    }

    fn failing_lifecycle(state: Arc<HandlerState>, fail_on_start: bool, fail_on_shutdown: bool) -> Self {
        Self { state, fail_on_sequence: None, fail_on_start, fail_on_shutdown }
    }
}

impl EventHandler<TestEvent> for TrackingEventHandler {
    fn on_event(&mut self, event: &mut TestEvent, sequence: i64, _end_of_batch: bool) -> DisruptorResult<()> {
        if self.fail_on_sequence == Some(sequence) {
            return Err(DisruptorError::InvalidSequence(sequence));
        }
        self.state.successful_events.fetch_add(1, Ordering::Relaxed);
        self.state.processed_sequences.lock().unwrap().push(sequence);
        event.value.store(sequence, Ordering::Relaxed);
        Ok(())
    }

    fn on_start(&mut self) -> DisruptorResult<()> {
        self.state.start_calls.fetch_add(1, Ordering::Relaxed);
        if self.fail_on_start {
            return Err(DisruptorError::Shutdown);
        }
        Ok(())
    }

    fn on_shutdown(&mut self) -> DisruptorResult<()> {
        self.state.shutdown_calls.fetch_add(1, Ordering::Relaxed);
        if self.fail_on_shutdown {
            return Err(DisruptorError::Shutdown);
        }
        Ok(())
    }

    fn on_timeout(&mut self, available_sequence: i64) -> DisruptorResult<()> {
        self.state.last_timeout_sequence.store(available_sequence, Ordering::Relaxed);
        Ok(())
    }

    fn on_batch_start(&mut self, batch_size: i64, available_size: i64) -> DisruptorResult<()> {
        self.state.batch_starts.lock().unwrap().push((batch_size, available_size));
        Ok(())
    }
}

#[derive(Default)]
struct ExceptionState {
    event_error_sequences: Mutex<Vec<i64>>,
    start_errors: AtomicUsize,
    shutdown_errors: AtomicUsize,
}

struct RecordingExceptionHandler {
    state: Arc<ExceptionState>,
}

impl ExceptionHandler<TestEvent> for RecordingExceptionHandler {
    fn handle_event_exception(&self, _error: DisruptorError, sequence: i64, _event: &TestEvent) -> ErrorDecision {
        self.state.event_error_sequences.lock().unwrap().push(sequence);
        ErrorDecision::Continue
    }

    fn handle_on_start_exception(&self, _error: DisruptorError) {
        self.state.start_errors.fetch_add(1, Ordering::Relaxed);
    }

    fn handle_on_shutdown_exception(&self, _error: DisruptorError) {
        self.state.shutdown_errors.fetch_add(1, Ordering::Relaxed);
    }
}

#[test]
fn test_batch_event_processor_creation() {
    let processor = noop_processor(8);
    assert_eq!(processor.get_sequence(), Some(INITIAL_CURSOR_VALUE));
    assert!(!processor.is_running());
}

#[test]
fn test_event_processor_halt() {
    let processor = noop_processor(8);
    assert!(!processor.is_running());
    processor.halt();
    assert!(!processor.is_running());
}

#[test]
fn test_try_run_once_not_running() {
    let processor = noop_processor(8);
    let result = processor.try_run_once();
    assert!(result.is_ok());
    assert!(!result.unwrap());
}

#[test]
fn test_try_run_once_is_non_blocking_without_events() {
    let processor = noop_processor(8);
    processor.start_running().unwrap();

    let start = Instant::now();
    let result = processor.try_run_once();
    let elapsed = start.elapsed();

    assert!(matches!(result, Ok(false)));
    assert!(elapsed < Duration::from_millis(5), "try_run_once should probe immediately, elapsed={elapsed:?}");
}

#[test]
fn test_processor_sequence_management() {
    let processor = noop_processor(8);
    assert_eq!(processor.get_sequence(), Some(INITIAL_CURSOR_VALUE));
    let seq1 = processor.get_sequence();
    let seq2 = processor.get_sequence();
    assert_eq!(seq1, seq2);
}

#[test]
fn test_data_provider_interface() {
    let mut provider = TestDataProvider::new(4);

    let event0 = provider.get(0);
    assert_eq!(event0.value.load(Ordering::Relaxed), 0);

    let event1 = provider.get(1);
    assert_eq!(event1.value.load(Ordering::Relaxed), 1);

    let event4 = provider.get(4);
    assert_eq!(event4.value.load(Ordering::Relaxed), 0);

    let event_mut = provider.get_mut(2);
    event_mut.value.store(999, Ordering::Relaxed);

    let event2 = provider.get(2);
    assert_eq!(event2.value.load(Ordering::Relaxed), 999);
}

#[test]
fn test_try_run_once_processes_available_batch_and_updates_sequence() {
    let shared = pipeline(16);
    let consumer = shared.add_consumer(Vec::new()).unwrap().unwrap();
    let handler_state = Arc::new(HandlerState::default());
    let exception_state = Arc::new(ExceptionState::default());
    let processor = BatchEventProcessor::new(
        shared.handle(),
        consumer,
        TrackingEventHandler::new(handler_state.clone()),
        RecordingExceptionHandler { state: exception_state.clone() },
    );

    processor.on_start();

    for sequence in 0..=1 {
        let claimed = shared.publish(|e: &mut TestEvent| e.value.store(sequence, Ordering::Relaxed)).unwrap();
        assert_eq!(claimed, sequence);
    }

    assert!(processor.try_run_once().unwrap());
    assert_eq!(processor.get_sequence(), Some(1));
    assert_eq!(handler_state.successful_events.load(Ordering::Relaxed), 2);
    assert_eq!(*handler_state.processed_sequences.lock().unwrap(), vec![0, 1]);
    assert_eq!(*handler_state.batch_starts.lock().unwrap(), vec![(2, 2)]);
    assert!(exception_state.event_error_sequences.lock().unwrap().is_empty());

    processor.on_shutdown();
}

#[test]
fn test_try_run_once_forwards_event_exceptions_and_continues_batch() {
    let shared = pipeline(16);
    let consumer = shared.add_consumer(Vec::new()).unwrap().unwrap();
    let handler_state = Arc::new(HandlerState::default());
    let exception_state = Arc::new(ExceptionState::default());
    let processor = BatchEventProcessor::new(
        shared.handle(),
        consumer,
        TrackingEventHandler::failing_on_sequence(handler_state.clone(), 0),
        RecordingExceptionHandler { state: exception_state.clone() },
    );

    processor.on_start();

    for sequence in 0..=1 {
        shared.publish(|e: &mut TestEvent| e.value.store(sequence + 10, Ordering::Relaxed)).unwrap();
    }

    assert!(processor.try_run_once().unwrap());
    assert_eq!(processor.get_sequence(), Some(1));
    assert_eq!(handler_state.successful_events.load(Ordering::Relaxed), 1);
    assert_eq!(*handler_state.processed_sequences.lock().unwrap(), vec![1]);
    assert_eq!(*exception_state.event_error_sequences.lock().unwrap(), vec![0]);

    processor.on_shutdown();
}

#[test]
fn test_run_returns_already_running_when_invoked_twice() {
    let processor = noop_processor(8);
    processor.start_running().unwrap();
    assert!(matches!(processor.start_running(), Err(DisruptorError::AlreadyRunning)));
}

#[test]
fn test_notify_timeout_invokes_handler() {
    let shared = pipeline(8);
    let consumer = shared.add_consumer(Vec::new()).unwrap().unwrap();
    let handler_state = Arc::new(HandlerState::default());
    let processor = BatchEventProcessor::new(
        shared,
        consumer,
        TrackingEventHandler::new(handler_state.clone()),
        DefaultExceptionHandler::<TestEvent>::new(),
    );

    processor.notify_timeout(42);
    assert_eq!(handler_state.last_timeout_sequence.load(Ordering::Relaxed), 42);
}

#[test]
fn test_lifecycle_errors_are_forwarded_to_exception_handler() {
    let shared = pipeline(8);
    let consumer = shared.add_consumer(Vec::new()).unwrap().unwrap();
    let handler_state = Arc::new(HandlerState::default());
    let exception_state = Arc::new(ExceptionState::default());
    let processor = BatchEventProcessor::new(
        shared,
        consumer,
        TrackingEventHandler::failing_lifecycle(handler_state.clone(), true, true),
        RecordingExceptionHandler { state: exception_state.clone() },
    );

    processor.on_start();
    processor.on_shutdown();

    assert_eq!(handler_state.start_calls.load(Ordering::Relaxed), 1);
    assert_eq!(handler_state.shutdown_calls.load(Ordering::Relaxed), 1);
    assert_eq!(exception_state.start_errors.load(Ordering::Relaxed), 1);
    assert_eq!(exception_state.shutdown_errors.load(Ordering::Relaxed), 1);
}

#[test]
fn halted_processor_is_not_restarted_by_on_start() {
    let processor = noop_processor(8);
    processor.halt();
    processor.on_start();
    assert!(!processor.is_running());
}

#[test]
fn fatal_event_error_stops_the_processor() {
    let shared = pipeline(8);
    let consumer = shared.add_consumer(Vec::new()).unwrap().unwrap();
    let handler_state = Arc::new(HandlerState::default());
    let processor = BatchEventProcessor::new(
        shared.handle(),
        consumer,
        TrackingEventHandler::failing_on_sequence(handler_state, 1),
        DefaultExceptionHandler::<TestEvent>::new(),
    );
    processor.on_start();
    for _ in 0..3 {
        shared.publish(|_e: &mut TestEvent| {}).unwrap();
    }
    assert_eq!(processor.try_run_once(), Err(DisruptorError::Poisoned));
    assert!(!processor.is_running());
    assert_eq!(processor.get_sequence(), Some(0));
    assert_eq!(shared.is_poisoned(), Ok(true));
}
