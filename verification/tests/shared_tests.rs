use badbatch::consumer_engine::ConsumerContext;
use badbatch::event_processor::{BatchEventProcessor, EventProcessor};
use badbatch::{
    Busy, BusySpinWaitStrategy, ClosureEventHandler, CloneableProducer, ConsumerStep,
    DefaultEventFactory, DefaultExceptionHandler, DisruptorError, EventTranslator, FailurePhase,
    FailureRecord, MultiProducerSequencer, RingBuffer, SequencerEnum, SharedPipeline,
    SingleProducerSequencer, TryPublishError,
};

#[derive(Debug, Default, Clone, PartialEq)]
struct Ev {
    value: i64,
}

fn shared(size: usize) -> SharedPipeline<Ev, BusySpinWaitStrategy> {
    let ring = RingBuffer::new(size, DefaultEventFactory::<Ev>::new()).unwrap();
    SharedPipeline::new(ring, SequencerEnum::Single(SingleProducerSequencer::new(size, BusySpinWaitStrategy)))
}

struct SetTo(i64);

impl EventTranslator<Ev> for SetTo {
    fn translate_to(&self, event: &mut Ev, sequence: i64) {
        event.value = self.0 + sequence;
    }
}

#[test]
fn first_failure_is_kept() {
    let s = shared(4);
    s.record_failure(&FailureRecord::new(FailurePhase::HandlerShutdown, "first")).unwrap();
    assert_eq!(s.is_poisoned(), Ok(false));
    s.poison_with_failure(&FailureRecord::new(FailurePhase::ConsumerPanic, "second")).unwrap();
    assert_eq!(s.is_poisoned(), Ok(true));
    assert_eq!(s.first_failure().unwrap().unwrap().message(), "first");
}

#[test]
fn translators_fill_events_with_their_sequence() {
    let s = shared(4);
    let c = s.add_consumer(Vec::new()).unwrap().unwrap();
    assert_eq!(s.publish_event(SetTo(100)), Ok(0));
    assert_eq!(s.try_publish_event(SetTo(200)), Ok(1));
    let mut got = Vec::new();
    let seen = std::sync::Mutex::new(&mut got);
    let observe = |e: &Ev, _s: i64, _b: bool| {
        seen.lock().unwrap().push(e.value);
        Ok(())
    };
    assert_eq!(
        s.process_readonly_batch(c, &observe, ConsumerContext::without_stage("r")),
        Ok(Some(ConsumerStep::Processed { from: 0, to: 1 }))
    );
    drop(seen);
    assert_eq!(got, vec![100, 201]);
    assert!(s.drained() != Ok(true) || s.consumer_sequence(c) == Ok(Some(1)));
    assert_eq!(s.drained(), Ok(true));
}

#[test]
fn shared_consumer_steps_report_inactive_consumers() {
    let s = shared(4);
    let mut handler = ClosureEventHandler::new(|e: &mut Ev, _s: i64, _b: bool| {
        e.value += 1;
        Ok(())
    });
    assert_eq!(
        s.process_batch(3, &mut handler, None::<&DefaultExceptionHandler<Ev>>, ConsumerContext::without_stage("x")),
        Ok(None)
    );
    let c = s.add_consumer(Vec::new()).unwrap().unwrap();
    assert_eq!(s.barrier_available(c), Ok(Some(-1)));
    assert_eq!(s.commit_consumer(c, 0), Ok(false));
    assert_eq!(s.remove_consumer(c), Ok(true));
    assert_eq!(s.barrier_available(c), Ok(None));
    assert_eq!(s.add_consumer(vec![7]), Ok(None));
}

#[test]
fn cloneable_producer_handles_share_one_sequence() {
    let ring = RingBuffer::new(16, DefaultEventFactory::<Ev>::new()).unwrap();
    let p = CloneableProducer::new(ring, SequencerEnum::Multi(MultiProducerSequencer::new(16, BusySpinWaitStrategy)));
    assert_eq!(p.try_publish(|e: &mut Ev| e.value = 1), Ok(0));
    assert_eq!(p.publish(|e: &mut Ev| e.value = 2), Ok(1));
    assert_eq!(p.try_batch_publish(2, |_i, e: &mut Ev| e.value = 3), Ok(3));
    assert_eq!(p.batch_publish(3, |_i, e: &mut Ev| e.value = 4), Ok(6));
    let handle = p.create_producer();
    assert_eq!(handle.current_sequence(), Ok(6));
}

#[test]
fn batch_event_processor_steps_through_published_events() {
    let s = shared(8);
    let c = s.add_consumer(Vec::new()).unwrap().unwrap();
    let handler = ClosureEventHandler::new(|e: &mut Ev, _s: i64, _b: bool| {
        e.value *= 10;
        Ok(())
    });
    let processor = BatchEventProcessor::new(s.handle(), c, handler, DefaultExceptionHandler::<Ev>::new());
    assert_eq!(processor.try_run_once(), Ok(false));
    assert_eq!(processor.start_running(), Ok(()));
    assert_eq!(processor.start_running(), Err(DisruptorError::AlreadyRunning));
    assert!(processor.is_running());
    assert_eq!(processor.try_run_once(), Ok(false));
    s.try_publish(|e: &mut Ev| e.value = 4).unwrap();
    assert_eq!(processor.try_run_once(), Ok(true));
    assert_eq!(processor.get_sequence(), Some(0));
    processor.halt();
    assert!(!processor.is_running());
    processor.on_start();
    processor.notify_timeout(3);
    processor.on_shutdown();
}

#[test]
fn reentrant_calls_from_callbacks_report_busy() {
    let s = shared(4);
    let inner = s.handle();
    let c = s.add_consumer(Vec::new()).unwrap().unwrap();
    let nested = std::sync::Mutex::new(None);
    assert_eq!(
        s.try_publish(|e: &mut Ev| {
            e.value = 1;
            *nested.lock().unwrap() = Some(inner.try_publish(|e2: &mut Ev| e2.value = 2));
        }),
        Ok(0)
    );
    assert_eq!(*nested.lock().unwrap(), Some(Err(TryPublishError::Contended)));
    let seen = std::sync::Mutex::new(None);
    let observe = |_e: &Ev, _s: i64, _b: bool| {
        *seen.lock().unwrap() = Some(inner.is_poisoned());
        Ok(())
    };
    assert_eq!(
        s.process_readonly_batch(c, &observe, ConsumerContext::without_stage("r")),
        Ok(Some(ConsumerStep::Processed { from: 0, to: 0 }))
    );
    assert_eq!(*seen.lock().unwrap(), Some(Err(Busy)));
    assert_eq!(s.is_poisoned(), Ok(false));
}

#[test]
fn failed_start_poisons_and_skips_the_loop() {
    let s = shared(4);
    assert_eq!(s.report_start(&Ok(()), "worker-1", 2), Ok(true));
    assert_eq!(s.is_poisoned(), Ok(false));
    assert_eq!(s.report_start(&Err(DisruptorError::Alert), "worker-1", 2), Ok(false));
    assert_eq!(s.is_poisoned(), Ok(true));
    let failure = s.first_failure().unwrap().unwrap();
    assert_eq!(failure.phase(), FailurePhase::HandlerStart);
    assert_eq!(failure.message(), DisruptorError::Alert.describe());
    assert_eq!(failure.thread_name(), Some("worker-1"));
    assert_eq!(failure.stage_index(), Some(2));
    assert_eq!(failure.sequence(), None);
}

#[test]
fn failed_shutdown_is_recorded_without_poisoning() {
    let s = shared(4);
    assert_eq!(s.report_shutdown(&Ok(()), "worker-2", 0), Ok(()));
    assert_eq!(s.first_failure(), Ok(None));
    assert_eq!(s.report_shutdown(&Err(DisruptorError::Timeout), "worker-2", 0), Ok(()));
    assert_eq!(s.is_poisoned(), Ok(false));
    let failure = s.first_failure().unwrap().unwrap();
    assert_eq!(failure.phase(), FailurePhase::HandlerShutdown);
    assert_eq!(failure.message(), DisruptorError::Timeout.describe());
    assert_eq!(failure.thread_name(), Some("worker-2"));
    assert_eq!(failure.stage_index(), Some(0));
}

#[test]
fn batch_publish_refuses_bad_sizes_even_while_the_lock_is_held() {
    let s = shared(4);
    let inner = s.handle();
    let nested = std::sync::Mutex::new(Vec::new());
    assert_eq!(
        s.try_publish(|e: &mut Ev| {
            e.value = 1;
            let mut got = nested.lock().unwrap();
            got.push(inner.batch_publish(0, &|_i: usize, e2: &mut Ev| e2.value = 2));
            got.push(inner.batch_publish(5, &|_i: usize, e2: &mut Ev| e2.value = 2));
            got.push(inner.batch_publish(2, &|_i: usize, e2: &mut Ev| e2.value = 2));
        }),
        Ok(0)
    );
    assert_eq!(
        *nested.lock().unwrap(),
        vec![
            Err(DisruptorError::InvalidSequence(0)),
            Err(DisruptorError::InvalidSequence(5)),
            Err(DisruptorError::Timeout),
        ]
    );
    assert_eq!(s.cursor(), Ok(0));
}

#[test]
fn bad_batch_sizes_report_a_terminal_state_first() {
    let s = shared(4);
    assert_eq!(
        s.try_batch_publish(0, &|_i: usize, e: &mut Ev| e.value = 1),
        Err(TryPublishError::InvalidBatchSize { requested: 0, capacity: 4 })
    );
    s.poison().unwrap();
    assert_eq!(
        s.try_batch_publish(9, &|_i: usize, e: &mut Ev| e.value = 1),
        Err(TryPublishError::Poisoned)
    );
    assert_eq!(
        s.batch_publish(9, &|_i: usize, e: &mut Ev| e.value = 1),
        Err(DisruptorError::InvalidSequence(9))
    );
    assert_eq!(s.cursor(), Ok(-1));
}
