use std::sync::{Arc, Mutex};
use badbatch::{
    ClosureExceptionHandler, DefaultExceptionHandler, DisruptorError, ErrorDecision,
    ExceptionHandler, IgnoreExceptionHandler,
};

#[derive(Debug, Clone)]
#[allow(dead_code)]
struct TestEvent {
    value: i64,
}

#[test]
fn test_default_exception_handler() {
    let handler = DefaultExceptionHandler::<TestEvent>::new();
    let event = TestEvent { value: 42 };

    assert_eq!(
        handler.handle_event_exception(DisruptorError::BufferFull, 1, &event),
        ErrorDecision::Stop
    );
    handler.handle_on_start_exception(DisruptorError::Shutdown);
    handler.handle_on_shutdown_exception(DisruptorError::Timeout);
}

#[test]
fn test_ignore_exception_handler() {
    let handler = IgnoreExceptionHandler::<TestEvent>::new();
    let event = TestEvent { value: 42 };

    assert_eq!(
        handler.handle_event_exception(DisruptorError::BufferFull, 1, &event),
        ErrorDecision::Continue
    );
    handler.handle_on_start_exception(DisruptorError::Shutdown);
    handler.handle_on_shutdown_exception(DisruptorError::Timeout);
}

#[test]
fn closure_exception_handler_returns_the_closure_decision() {
    let handler = ClosureExceptionHandler::new(
        |_error: DisruptorError, sequence: i64, event: &TestEvent| {
            if sequence == event.value {
                ErrorDecision::Stop
            } else {
                ErrorDecision::Continue
            }
        },
        |_error: DisruptorError| {},
        |_error: DisruptorError| {},
    );
    let event = TestEvent { value: 7 };
    assert_eq!(
        handler.handle_event_exception(DisruptorError::Timeout, 7, &event),
        ErrorDecision::Stop
    );
    assert_eq!(
        handler.handle_event_exception(DisruptorError::Timeout, 8, &event),
        ErrorDecision::Continue
    );
}

#[test]
fn test_closure_exception_handler() {
    #[derive(Debug, Default)]
    struct Recorded {
        event: Mutex<Vec<(String, i64, i64)>>,
        start: Mutex<Vec<String>>,
        shutdown: Mutex<Vec<String>>,
    }

    let calls = Arc::new(Recorded::default());
    let event_calls = calls.clone();
    let start_calls = calls.clone();
    let shutdown_calls = calls.clone();
    let handler = ClosureExceptionHandler::new(
        move |error, sequence, event: &TestEvent| {
            event_calls.event.lock().unwrap().push((format!("{error:?}"), sequence, event.value));
            ErrorDecision::Continue
        },
        move |error| {
            start_calls.start.lock().unwrap().push(format!("{error:?}"));
        },
        move |error| {
            shutdown_calls.shutdown.lock().unwrap().push(format!("{error:?}"));
        },
    );

    let event = TestEvent { value: 42 };
    assert_eq!(
        handler.handle_event_exception(DisruptorError::BufferFull, 1, &event),
        ErrorDecision::Continue
    );
    handler.handle_on_start_exception(DisruptorError::Shutdown);
    handler.handle_on_shutdown_exception(DisruptorError::Timeout);

    assert_eq!(*calls.event.lock().unwrap(), vec![("BufferFull".to_string(), 1, 42)]);
    assert_eq!(*calls.start.lock().unwrap(), vec!["Shutdown".to_string()]);
    assert_eq!(*calls.shutdown.lock().unwrap(), vec!["Timeout".to_string()]);
}
