use badbatch::{ClearingEventHandler, ClosureEventHandler, EventHandler, NoOpEventHandler, Sequence};
use std::sync::Arc;

#[derive(Debug, Default, Clone, PartialEq)]
struct TestEvent {
    value: i64,
    processed: bool,
}

#[test]
fn event_handler_test_closure_event_handler() {
    let mut handler = ClosureEventHandler::new(|event: &mut TestEvent, sequence, _end_of_batch| {
        event.value = sequence;
        event.processed = true;
        Ok(())
    });

    let mut event = TestEvent::default();
    handler.on_event(&mut event, 42, false).unwrap();

    assert_eq!(event.value, 42);
    assert!(event.processed);
}

#[test]
fn test_no_op_event_handler() {
    let mut handler = NoOpEventHandler::<TestEvent>::new();
    let mut event = TestEvent { value: 123, processed: false };

    handler.on_event(&mut event, 42, false).unwrap();

    assert_eq!(event.value, 123);
    assert!(!event.processed);
}

#[test]
fn test_clearing_event_handler() {
    let inner_handler = ClosureEventHandler::new(|event: &mut TestEvent, sequence, _end_of_batch| {
        event.value = sequence;
        event.processed = true;
        Ok(())
    });

    let mut handler = ClearingEventHandler::new(inner_handler);
    let mut event = TestEvent { value: 999, processed: false };

    handler.on_event(&mut event, 42, false).unwrap();

    assert_eq!(event.value, 0);
    assert!(!event.processed);
}

#[test]
fn closure_handler_default_callbacks_succeed() {
    let mut handler =
        ClosureEventHandler::new(|_event: &mut TestEvent, _sequence, _end_of_batch| Ok(()));
    assert!(handler.on_start().is_ok());
    assert!(handler.on_batch_start(3, 3).is_ok());
    assert!(handler.on_timeout(7).is_ok());
    assert!(handler.on_shutdown().is_ok());
}

#[test]
fn test_sequence_callback() {
    let mut handler =
        ClosureEventHandler::new(|_event: &mut TestEvent, _sequence, _end_of_batch| Ok(()));

    let sequence = Arc::new(Sequence::new(0));
    handler.set_sequence_callback(Arc::clone(&sequence));

    assert!(handler.has_sequence_callback());
}
