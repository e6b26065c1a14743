use badbatch::consumer_engine::{ConsumerContext, StopFlag};
use badbatch::{
    BusySpinWaitStrategy, ConsumerStep, DefaultEventFactory, DefaultExceptionHandler,
    DisruptorResult, EventHandler, Pipeline, RingBuffer, SequencerEnum, SingleProducerSequencer,
};
use std::sync::atomic::{AtomicBool, AtomicUsize, Ordering};
use std::sync::Arc;

#[derive(Debug, Default)]
struct Ev {
    v: i64,
}

struct CountingHandler {
    count: Arc<AtomicUsize>,
}

impl EventHandler<Ev> for CountingHandler {
    fn on_event(&mut self, _event: &mut Ev, _sequence: i64, _end_of_batch: bool) -> DisruptorResult<()> {
        self.count.fetch_add(1, Ordering::SeqCst);
        Ok(())
    }
}

fn pipeline(size: usize) -> Pipeline<Ev, BusySpinWaitStrategy> {
    let ring = RingBuffer::new(size, DefaultEventFactory::<Ev>::new()).unwrap();
    Pipeline::new(ring, SequencerEnum::Single(SingleProducerSequencer::new(size, BusySpinWaitStrategy)))
}

#[test]
fn sequential_engine_drains_published_events() {
    let mut p = pipeline(8);
    let consumer = p.add_consumer(Vec::new());
    for i in 0..5 {
        let _ = p.publish(|e: &mut Ev| e.v = i);
    }
    let count = Arc::new(AtomicUsize::new(0));
    let mut handler = CountingHandler { count: Arc::clone(&count) };

    let step = p.process_batch(
        consumer,
        &mut handler,
        None::<&DefaultExceptionHandler<Ev>>,
        ConsumerContext::without_stage("engine-test"),
    );
    assert_eq!(step, ConsumerStep::Processed { from: 0, to: 4 });

    let running = AtomicBool::new(false);
    assert!(!StopFlag::Running(&running).should_continue());
    let shutdown = AtomicBool::new(true);
    assert!(!StopFlag::External(&shutdown).should_continue());

    assert_eq!(count.load(Ordering::SeqCst), 5);
    assert_eq!(p.consumer_sequence(consumer), Some(4));
}

#[test]
fn work_sequence_cas_claims_are_unique() {
    let mut p = pipeline(16);
    let pool = p.add_worker_pool();
    let worker = p.add_pool_worker(Vec::new(), pool);
    for i in 0..10 {
        p.publish(|e: &mut Ev| e.v = i).unwrap();
    }
    let count = Arc::new(AtomicUsize::new(0));
    let mut handler = CountingHandler { count: Arc::clone(&count) };
    let mut claimed = Vec::new();
    for _ in 0..10 {
        match p.process_work_item(worker, &mut handler, ConsumerContext::without_stage("w")) {
            ConsumerStep::Processed { from, to } => {
                assert_eq!(from, to);
                claimed.push(from);
            }
            other => panic!("unexpected step {other:?}"),
        }
    }
    assert_eq!(claimed, (0..10).collect::<Vec<_>>());
    assert_eq!(p.consumer_sequence(worker), Some(9));
}

#[test]
fn stop_flags_follow_their_convention() {
    let flag = AtomicBool::new(false);
    assert!(StopFlag::External(&flag).should_continue());
    assert!(!StopFlag::Running(&flag).should_continue());
    assert!(StopFlag::continues_with(true, false));
    assert!(!StopFlag::continues_with(false, false));
}
