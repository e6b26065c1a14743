use badbatch::{
    BusySpinWaitStrategy, DefaultEventFactory, MissingFreeSlots, MultiProducerSequencer, Producer,
    RingBuffer, RingBufferFull, SequencerEnum, SimpleProducer, SingleProducerSequencer,
    TryPublishError,
};

#[derive(Debug, Clone, PartialEq)]
struct TestEvent {
    value: i64,
    data: String,
}

impl Default for TestEvent {
    fn default() -> Self {
        Self { value: -1, data: String::new() }
    }
}

fn create_test_producer() -> SimpleProducer<TestEvent, BusySpinWaitStrategy> {
    let factory = DefaultEventFactory::<TestEvent>::new();
    let ring_buffer = RingBuffer::new(8, factory).expect("Failed to create ring buffer");
    let sequencer = SequencerEnum::Single(SingleProducerSequencer::new(8, BusySpinWaitStrategy));
    SimpleProducer::new(ring_buffer, sequencer)
}

fn create_multi_producer_test_producer() -> SimpleProducer<TestEvent, BusySpinWaitStrategy> {
    let factory = DefaultEventFactory::<TestEvent>::new();
    let ring_buffer = RingBuffer::new(16, factory).expect("Failed to create ring buffer");
    let sequencer = SequencerEnum::Multi(MultiProducerSequencer::new(16, BusySpinWaitStrategy));
    SimpleProducer::new(ring_buffer, sequencer)
}

#[test]
fn test_simple_producer_creation() {
    let producer = create_test_producer();
    assert_eq!(producer.current_sequence(), Ok(-1));
}

#[test]
fn test_try_publish_success() {
    let mut producer = create_test_producer();

    let result = producer.try_publish(|event| {
        event.value = 42;
        event.data = "test".to_string();
    });

    assert!(result.is_ok());
    assert_eq!(result.unwrap(), 0);
    assert_eq!(producer.current_sequence(), Ok(0));
}

#[test]
fn test_try_publish_multiple() {
    let mut producer = create_test_producer();

    for i in 0..5 {
        let result = producer.try_publish(|event| {
            event.value = i;
            event.data = format!("event_{i}");
        });

        assert!(result.is_ok());
        assert_eq!(result.unwrap(), i);
    }

    assert_eq!(producer.current_sequence(), Ok(4));
}

#[test]
fn test_publish_blocking() {
    let mut producer = create_test_producer();

    let _ = producer.publish(|event| {
        event.value = 100;
        event.data = "blocking_test".to_string();
    });

    assert_eq!(producer.current_sequence(), Ok(0));
}

#[test]
fn test_try_batch_publish_success() {
    let mut producer = create_test_producer();

    let result = producer.try_batch_publish(3, |i, event: &mut TestEvent| {
        event.value = i64::try_from(i).expect("index fits in i64");
        event.data = format!("batch_{i}");
    });

    assert!(result.is_ok());
    assert_eq!(result.unwrap(), 2);
    assert_eq!(producer.current_sequence(), Ok(2));
}

#[test]
fn test_try_batch_publish_zero_size() {
    let mut producer = create_test_producer();

    let err = producer
        .try_batch_publish(0, |_i, _event: &mut TestEvent| {
            panic!("invalid batch closure must not run")
        })
        .unwrap_err();

    assert_eq!(err, TryPublishError::InvalidBatchSize { requested: 0, capacity: 8 });
    assert!(!err.is_transient());
    assert!(!err.is_terminal());
    assert_eq!(producer.current_sequence(), Ok(-1));
}

#[test]
fn test_batch_publish_blocking() {
    let mut producer = create_test_producer();

    let _ = producer.batch_publish(2, |i, event: &mut TestEvent| {
        event.value = i64::try_from(i + 10).expect("index fits in i64");
        event.data = format!("blocking_batch_{i}");
    });

    assert_eq!(producer.current_sequence(), Ok(1));
}

#[test]
fn test_producer_with_multi_producer_sequencer() {
    let mut producer = create_multi_producer_test_producer();

    let result = producer.try_publish(|event| {
        event.value = 999;
        event.data = "multi_producer_test".to_string();
    });

    assert!(result.is_ok());
    assert_eq!(result.unwrap(), 0);
    assert_eq!(producer.current_sequence(), Ok(0));
}

#[test]
fn test_error_types() {
    let ring_buffer_full = RingBufferFull;
    assert_eq!(ring_buffer_full.describe(), "Ring Buffer is full");

    let missing_slots = MissingFreeSlots(5);
    assert_eq!(missing_slots.describe(), "Missing free slots in Ring Buffer: 5");
}

#[test]
fn test_try_publish_error_classification() {
    let full = TryPublishError::Full(RingBufferFull);
    assert!(full.is_transient());
    assert!(!full.is_terminal());
    assert_eq!(full.describe(), "Ring Buffer is full");

    let contended = TryPublishError::Contended;
    assert!(contended.is_transient());
    assert!(!contended.is_terminal());
    assert_eq!(contended.describe(), "Another producer won the claim race");

    let missing = TryPublishError::MissingFreeSlots(MissingFreeSlots(3));
    assert!(missing.is_transient());
    assert_eq!(missing.describe(), "Missing free slots in Ring Buffer: 3");

    let invalid = TryPublishError::InvalidBatchSize { requested: 9, capacity: 8 };
    assert!(!invalid.is_transient());
    assert!(!invalid.is_terminal());
    assert_eq!(invalid.describe(), "Invalid batch size 9; expected a value in 1..=8");

    let poisoned = TryPublishError::Poisoned;
    assert!(poisoned.is_terminal());
    assert!(!poisoned.is_transient());

    let shutdown = TryPublishError::Shutdown;
    assert!(shutdown.is_terminal());
    assert!(!shutdown.is_transient());

    let reentrant = TryPublishError::ReentrantPublish;
    assert!(!reentrant.is_terminal());
    assert!(!reentrant.is_transient());

    assert!(full.has_source());
    assert!(!contended.has_source());
    assert!(!invalid.has_source());
    assert!(!poisoned.has_source());

    let from_full: TryPublishError = RingBufferFull.into();
    assert!(matches!(from_full, TryPublishError::Full(_)));
    let from_missing: TryPublishError = MissingFreeSlots(2).into();
    assert!(matches!(from_missing, TryPublishError::MissingFreeSlots(_)));
}

#[test]
fn test_producer_trait_methods() {
    let mut producer = create_test_producer();

    let result1 = Producer::try_publish(&mut producer, |event: &mut TestEvent| {
        event.value = 1;
    });
    assert!(result1.is_ok());
    assert_eq!(result1.unwrap(), 0);

    let _ = Producer::publish(&mut producer, |event: &mut TestEvent| {
        event.value = 2;
    });
    assert_eq!(producer.current_sequence(), Ok(1));

    let result2 = Producer::try_batch_publish(&mut producer, 2, |i, event: &mut TestEvent| {
        event.value = i64::try_from(i + 10).expect("index fits in i64");
    });
    assert!(result2.is_ok());
    assert_eq!(result2.unwrap(), 3);

    let _ = Producer::batch_publish(&mut producer, 1, |_i, event: &mut TestEvent| {
        event.value = 99;
    });

    assert_eq!(producer.current_sequence(), Ok(4));
}

#[test]
fn test_large_batch_publish() {
    let factory = DefaultEventFactory::<TestEvent>::new();
    let ring_buffer = RingBuffer::new(1024, factory).expect("Failed to create ring buffer");
    let sequencer = SequencerEnum::Single(SingleProducerSequencer::new(1024, BusySpinWaitStrategy));
    let mut producer = SimpleProducer::new(ring_buffer, sequencer);

    let batch_size = 100;
    let result = producer.try_batch_publish(batch_size, |i, event: &mut TestEvent| {
        event.value = i64::try_from(i).expect("index fits in i64");
        event.data = format!("large_batch_{i}");
    });

    assert!(result.is_ok());
    let expected = i64::try_from(batch_size - 1).expect("batch size fits in i64");
    assert_eq!(result.unwrap(), expected);
    assert_eq!(producer.current_sequence(), Ok(expected));
}

#[test]
fn test_producer_sequence_consistency() {
    let mut producer = create_test_producer();
    let mut expected_sequence = 0i64;

    for i in 0_i64..5 {
        if i % 2 == 0 {
            let result = producer.try_publish(|event| {
                event.value = i;
            });
            assert_eq!(result.unwrap(), expected_sequence);
            expected_sequence += 1;
        } else {
            let result = producer.try_batch_publish(2, |j, event: &mut TestEvent| {
                event.value = i * 10 + i64::try_from(j).expect("index fits in i64");
            });
            expected_sequence += 1;
            assert_eq!(result.unwrap(), expected_sequence);
            expected_sequence += 1;
        }
    }

    assert_eq!(producer.current_sequence(), Ok(expected_sequence - 1));
}

#[test]
fn test_concurrent_access_safety() {
    let factory = DefaultEventFactory::<TestEvent>::new();
    let ring_buffer = RingBuffer::new(64, factory).expect("Failed to create ring buffer");
    let sequencer = SequencerEnum::Multi(MultiProducerSequencer::new(64, BusySpinWaitStrategy));
    let mut producer1 = SimpleProducer::new(ring_buffer, sequencer);
    let mut producer2 = producer1.duplicate();

    let result1 = producer1.try_publish(|event| event.value = 1);
    let result2 = producer2.try_publish(|event| event.value = 2);

    assert!(result1.is_ok());
    assert!(result2.is_ok());

    assert_ne!(result1.unwrap(), result2.unwrap());
}

#[test]
fn full_ring_refuses_with_full_then_missing_slots() {
    let factory = DefaultEventFactory::<TestEvent>::new();
    let ring_buffer = RingBuffer::new(4, factory).expect("ring");
    let sequencer = SequencerEnum::Single(SingleProducerSequencer::new(4, BusySpinWaitStrategy));
    let shared = badbatch::SharedPipeline::new(ring_buffer, sequencer);
    let consumer = shared.add_consumer(Vec::new()).unwrap().expect("consumer");
    assert_eq!(consumer, 0);
    let mut producer = SimpleProducer::from_shared(shared.handle());
    assert_eq!(producer.try_batch_publish(4, |_i, e: &mut TestEvent| e.value = 0), Ok(3));
    assert_eq!(producer.try_publish(|e| e.value = 5), Err(TryPublishError::Full(RingBufferFull)));
    assert_eq!(
        producer.try_batch_publish(2, |_i, e: &mut TestEvent| e.value = 0),
        Err(TryPublishError::MissingFreeSlots(MissingFreeSlots(2)))
    );
    assert_eq!(
        producer.publish(|e| e.value = 5),
        Err(badbatch::DisruptorError::InsufficientCapacity)
    );
    assert_eq!(shared.remaining_capacity(), Ok(0));
    assert_eq!(shared.commit_consumer(consumer, 1), Ok(true));
    assert_eq!(shared.remaining_capacity(), Ok(2));
    assert_eq!(producer.try_publish(|e| e.value = 5), Ok(4));
    assert_eq!(
        producer.try_batch_publish(9, |_i, e: &mut TestEvent| e.value = 0),
        Err(TryPublishError::InvalidBatchSize { requested: 9, capacity: 4 })
    );
    assert_eq!(
        producer.batch_publish(0, |_i, e: &mut TestEvent| e.value = 0),
        Err(badbatch::DisruptorError::InvalidSequence(0))
    );
}

#[test]
fn closed_and_poisoned_pipelines_refuse_terminally() {
    let mut producer = create_test_producer();
    producer.shared().close().unwrap();
    assert_eq!(producer.try_publish(|e| e.value = 1), Err(TryPublishError::Shutdown));
    assert_eq!(producer.publish(|e| e.value = 1), Err(badbatch::DisruptorError::Shutdown));
    producer.shared().poison().unwrap();
    assert_eq!(producer.try_publish(|e| e.value = 1), Err(TryPublishError::Poisoned));
    assert_eq!(
        producer.try_batch_publish(2, |_i, e: &mut TestEvent| e.value = 1),
        Err(TryPublishError::Poisoned)
    );
    assert_eq!(producer.current_sequence(), Ok(-1));
}
