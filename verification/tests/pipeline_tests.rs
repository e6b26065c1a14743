use badbatch::consumer_engine::ConsumerContext;
use badbatch::{
    BusySpinWaitStrategy, ClosureEventHandler, ConsumerStep, DefaultEventFactory,
    DefaultExceptionHandler, DisruptorError, DisruptorResult, EventHandler, FailurePhase,
    IgnoreExceptionHandler, MultiProducerSequencer, Pipeline, RingBuffer, SequencerEnum,
    SingleProducerSequencer, TryPublishError,
};

#[derive(Debug, Default, Clone, PartialEq)]
struct Ev {
    value: i64,
    seen: i64,
}

fn single(size: usize) -> Pipeline<Ev, BusySpinWaitStrategy> {
    let ring = RingBuffer::new(size, DefaultEventFactory::<Ev>::new()).unwrap();
    Pipeline::new(ring, SequencerEnum::Single(SingleProducerSequencer::new(size, BusySpinWaitStrategy)))
}

fn multi(size: usize) -> Pipeline<Ev, BusySpinWaitStrategy> {
    let ring = RingBuffer::new(size, DefaultEventFactory::<Ev>::new()).unwrap();
    Pipeline::new(ring, SequencerEnum::Multi(MultiProducerSequencer::new(size, BusySpinWaitStrategy)))
}

struct Doubler;

impl EventHandler<Ev> for Doubler {
    fn on_event(&mut self, event: &mut Ev, sequence: i64, _end_of_batch: bool) -> DisruptorResult<()> {
        event.seen = sequence;
        event.value *= 2;
        Ok(())
    }
}

struct FailAt(i64);

impl EventHandler<Ev> for FailAt {
    fn on_event(&mut self, event: &mut Ev, sequence: i64, _end_of_batch: bool) -> DisruptorResult<()> {
        if sequence == self.0 {
            return Err(DisruptorError::Timeout);
        }
        event.seen = sequence;
        Ok(())
    }
}

#[test]
fn ring_sizes_must_be_powers_of_two() {
    assert!(RingBuffer::new(6, DefaultEventFactory::<Ev>::new()).is_err());
    assert_eq!(
        RingBuffer::new(0, DefaultEventFactory::<Ev>::new()).err(),
        Some(DisruptorError::InvalidBufferSize(0))
    );
    let ring = RingBuffer::new(8, DefaultEventFactory::<Ev>::new()).unwrap();
    assert_eq!(ring.buffer_size(), 8);
    assert_eq!(ring.index_of(13), 5);
}

#[test]
fn sequential_consumer_processes_everything_available_then_idles() {
    let mut p = single(8);
    let c = p.add_consumer(Vec::new());
    for v in 1..=3 {
        p.try_publish(|e: &mut Ev| e.value = v).unwrap();
    }
    let mut handler = Doubler;
    let step = p.process_batch(c, &mut handler, None::<&DefaultExceptionHandler<Ev>>, ConsumerContext::without_stage("t"));
    assert_eq!(step, ConsumerStep::Processed { from: 0, to: 2 });
    assert_eq!(p.event(1).value, 4);
    assert_eq!(p.event(2).seen, 2);
    assert_eq!(p.consumer_sequence(c), Some(2));
    let step = p.process_batch(c, &mut handler, None::<&DefaultExceptionHandler<Ev>>, ConsumerContext::without_stage("t"));
    assert_eq!(step, ConsumerStep::Idle);
}

#[test]
fn fatal_event_error_freezes_consumer_and_poisons() {
    let mut p = single(8);
    let c = p.add_consumer(Vec::new());
    for v in 0..4 {
        p.try_publish(|e: &mut Ev| e.value = v).unwrap();
    }
    let mut handler = FailAt(2);
    let step = p.process_batch(c, &mut handler, None::<&DefaultExceptionHandler<Ev>>, ConsumerContext::for_stage("worker", 1));
    assert_eq!(step, ConsumerStep::Stopped { at: 2 });
    assert_eq!(p.consumer_sequence(c), Some(1));
    assert!(p.is_poisoned());
    let failure = p.first_failure().unwrap();
    assert_eq!(failure.phase(), FailurePhase::EventProcessing);
    assert_eq!(failure.sequence(), Some(2));
    assert_eq!(failure.thread_name(), Some("worker"));
    assert_eq!(failure.stage_index(), Some(1));
    assert_eq!(p.try_publish(|e: &mut Ev| e.value = 9), Err(TryPublishError::Poisoned));
}

#[test]
fn ignoring_exception_handler_keeps_going() {
    let mut p = single(8);
    let c = p.add_consumer(Vec::new());
    for v in 0..4 {
        p.try_publish(|e: &mut Ev| e.value = v).unwrap();
    }
    let mut handler = FailAt(2);
    let ignore = IgnoreExceptionHandler::<Ev>::new();
    let step = p.process_batch(c, &mut handler, Some(&ignore), ConsumerContext::without_stage("t"));
    assert_eq!(step, ConsumerStep::Processed { from: 0, to: 3 });
    assert!(!p.is_poisoned());
}

#[test]
fn dependent_consumer_waits_for_upstream() {
    let mut p = multi(8);
    let up = p.add_consumer(Vec::new());
    let down = p.add_consumer(vec![up]);
    for v in 0..3 {
        p.try_publish(|e: &mut Ev| e.value = v).unwrap();
    }
    assert_eq!(p.barrier_available(up), 2);
    assert_eq!(p.barrier_available(down), -1);
    let mut handler = Doubler;
    let step = p.process_batch(down, &mut handler, None::<&DefaultExceptionHandler<Ev>>, ConsumerContext::without_stage("d"));
    assert_eq!(step, ConsumerStep::Idle);
    p.commit_consumer(up, 1);
    assert_eq!(p.barrier_available(down), 1);
    let step = p.process_batch(down, &mut handler, None::<&DefaultExceptionHandler<Ev>>, ConsumerContext::without_stage("d"));
    assert_eq!(step, ConsumerStep::Processed { from: 0, to: 1 });
}

#[test]
fn readonly_consumer_observes_without_changing_events() {
    let mut p = single(4);
    let c = p.add_consumer(Vec::new());
    p.try_publish(|e: &mut Ev| e.value = 5).unwrap();
    p.try_publish(|e: &mut Ev| e.value = 6).unwrap();
    let observe = |e: &Ev, s: i64, last: bool| -> DisruptorResult<()> {
        if e.value == 6 && s == 1 && last {
            Ok(())
        } else if e.value == 5 && s == 0 && !last {
            Ok(())
        } else {
            Err(DisruptorError::Timeout)
        }
    };
    let step = p.process_readonly_batch(c, &observe, ConsumerContext::without_stage("r"));
    assert_eq!(step, ConsumerStep::Processed { from: 0, to: 1 });
    assert_eq!(p.event(0).value, 5);
}

#[test]
fn worker_pool_hands_each_sequence_to_one_worker() {
    let mut p = single(8);
    let pool = p.add_worker_pool();
    let w1 = p.add_pool_worker(Vec::new(), pool);
    let w2 = p.add_pool_worker(Vec::new(), pool);
    for v in 0..3 {
        p.try_publish(|e: &mut Ev| e.value = v).unwrap();
    }
    let mut h1 = ClosureEventHandler::new(|e: &mut Ev, s: i64, _b: bool| {
        e.seen = 100 + s;
        Ok(())
    });
    let mut h2 = ClosureEventHandler::new(|e: &mut Ev, s: i64, _b: bool| {
        e.seen = 200 + s;
        Ok(())
    });
    assert_eq!(p.process_work_item(w1, &mut h1, ConsumerContext::without_stage("w1")), ConsumerStep::Processed { from: 0, to: 0 });
    assert_eq!(p.process_work_item(w2, &mut h2, ConsumerContext::without_stage("w2")), ConsumerStep::Processed { from: 1, to: 1 });
    assert_eq!(p.process_work_item(w1, &mut h1, ConsumerContext::without_stage("w1")), ConsumerStep::Processed { from: 2, to: 2 });
    assert_eq!(p.event(0).seen, 100);
    assert_eq!(p.event(1).seen, 201);
    assert_eq!(p.event(2).seen, 102);
}

#[test]
fn removed_consumer_stops_gating() {
    let mut p = single(2);
    let c = p.add_consumer(Vec::new());
    p.try_publish(|e: &mut Ev| e.value = 1).unwrap();
    p.try_publish(|e: &mut Ev| e.value = 2).unwrap();
    assert_eq!(p.remaining_capacity(), 0);
    p.remove_consumer(c);
    assert_eq!(p.consumer_sequence(c), None);
    assert_eq!(p.remaining_capacity(), 2);
    assert_eq!(p.cursor(), 1);
}

#[test]
fn batch_publish_writes_each_slot_with_its_index() {
    let mut p = single(8);
    assert_eq!(p.try_batch_publish(3, &|i: usize, e: &mut Ev| e.value = 10 * i as i64), Ok(2));
    assert_eq!(p.event(0).value, 0);
    assert_eq!(p.event(1).value, 10);
    assert_eq!(p.event(2).value, 20);
    assert_eq!(p.batch_publish(2, &|i: usize, e: &mut Ev| e.value = i as i64 + 1), Ok(4));
    assert_eq!(p.event(4).value, 2);
    assert_eq!(p.publish(|e: &mut Ev| e.value = 77), Ok(5));
    p.close();
    assert_eq!(p.claim(1), Err(DisruptorError::Shutdown));
}

struct RefuseBatches;

impl EventHandler<Ev> for RefuseBatches {
    fn on_event(&mut self, event: &mut Ev, sequence: i64, _end_of_batch: bool) -> DisruptorResult<()> {
        event.seen = sequence;
        Ok(())
    }

    fn on_batch_start(&mut self, _batch_size: i64, _queue_depth: i64) -> DisruptorResult<()> {
        Err(DisruptorError::Timeout)
    }
}

#[test]
fn batch_start_error_stops_the_engine_step() {
    let mut p = single(8);
    let c = p.add_consumer(Vec::new());
    for v in 0..3 {
        p.try_publish(|e: &mut Ev| e.value = v).unwrap();
    }
    let step = p.process_batch(c, &mut RefuseBatches, None::<&DefaultExceptionHandler<Ev>>, ConsumerContext::without_stage("t"));
    assert_eq!(step, ConsumerStep::Stopped { at: 0 });
    assert_eq!(p.consumer_sequence(c), Some(-1));
    assert!(p.is_poisoned());
    let failure = p.first_failure().unwrap();
    assert_eq!(failure.phase(), FailurePhase::BatchStart);
    assert_eq!(failure.sequence(), Some(0));
}

#[test]
fn probe_ignores_batch_start_errors() {
    let mut p = single(8);
    let c = p.add_consumer(Vec::new());
    for v in 0..3 {
        p.try_publish(|e: &mut Ev| e.value = v).unwrap();
    }
    let step = p.probe_batch(c, &mut RefuseBatches, None::<&DefaultExceptionHandler<Ev>>);
    assert_eq!(step, ConsumerStep::Processed { from: 0, to: 2 });
    assert_eq!(p.event(2).seen, 2);
    assert_eq!(p.consumer_sequence(c), Some(2));
    assert!(!p.is_poisoned());
    assert_eq!(p.probe_batch(c, &mut RefuseBatches, None::<&DefaultExceptionHandler<Ev>>), ConsumerStep::Idle);
}

#[test]
fn probe_stop_poisons_without_a_failure_record() {
    let mut p = single(8);
    let c = p.add_consumer(Vec::new());
    for v in 0..4 {
        p.try_publish(|e: &mut Ev| e.value = v).unwrap();
    }
    let step = p.probe_batch(c, &mut FailAt(1), None::<&DefaultExceptionHandler<Ev>>);
    assert_eq!(step, ConsumerStep::Stopped { at: 1 });
    assert_eq!(p.consumer_sequence(c), Some(0));
    assert!(p.is_poisoned());
    assert!(p.first_failure().is_none());
}
