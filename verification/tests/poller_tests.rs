use badbatch::{
    open_single_producer_poller, BusySpinWaitStrategy, DefaultEventFactory, DisruptorError,
    Polling, Producer,
};

#[derive(Debug, Default, Clone, Copy)]
struct Ev {
    v: i64,
}

#[test]
fn poller_reads_published_events_and_advances_gating() {
    let factory = DefaultEventFactory::<Ev>::new();
    let (mut producer, mut poller, shutdown) =
        open_single_producer_poller(8, factory, BusySpinWaitStrategy).unwrap();

    assert_eq!(poller.poll().err(), Some(Polling::Idle));

    producer.publish(|e| e.v = 7).unwrap();

    let mut batch = poller.poll().expect("events");
    assert_eq!(batch.len(), 1);
    assert_eq!(batch.from_sequence(), 0);
    assert_eq!(batch.to_sequence(), 0);
    assert_eq!(poller.get(&batch, 0, |e| e.v), Ok(Some(7)));
    assert_eq!(poller.get(&batch, 1, |e| e.v), Ok(None));
    let mut seen = 0;
    assert_eq!(poller.update_next(&mut batch, |e| seen = e.v), Ok(Some(0)));
    assert_eq!(seen, 7);
    assert_eq!(poller.update_next(&mut batch, |e| e.v = 0), Ok(None));
    assert_eq!(poller.commit(batch), Ok(true));

    assert_eq!(poller.sequence(), Ok(Some(0)));
    assert_eq!(poller.next_sequence(), 1);

    shutdown.store(true, std::sync::atomic::Ordering::Release);
    poller.halt();
    assert_eq!(poller.poll().err(), Some(Polling::Shutdown));
}

#[test]
fn poller_gates_the_producer_until_it_commits() {
    let (mut producer, mut poller, _shutdown) =
        open_single_producer_poller(4, DefaultEventFactory::<Ev>::new(), BusySpinWaitStrategy).unwrap();
    for i in 0..4 {
        assert_eq!(producer.try_publish(|e| e.v = i), Ok(i));
    }
    assert!(producer.try_publish(|e| e.v = 9).is_err());
    let batch = poller.take(2).expect("events");
    assert_eq!(batch.from_sequence(), 0);
    assert_eq!(batch.to_sequence(), 1);
    assert_eq!(batch.len(), 2);
    assert!(!batch.is_empty());
    assert_eq!(poller.commit(batch), Ok(true));
    assert_eq!(producer.try_publish(|e| e.v = 4), Ok(4));
    let empty = poller.take(0).expect("events");
    assert!(empty.is_empty());
    assert_eq!(empty.to_sequence(), 1);
}

#[test]
fn poller_refuses_invalid_sizes() {
    let r = open_single_producer_poller(6, DefaultEventFactory::<Ev>::new(), BusySpinWaitStrategy);
    assert_eq!(r.err().map(|e| e), Some(DisruptorError::InvalidBufferSize(6)));
}
