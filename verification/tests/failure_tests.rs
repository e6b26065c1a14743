use badbatch::failure::choose_panic_message;
use badbatch::{FailurePhase, FailureRecord};

fn payload_message(payload: &(dyn std::any::Any + Send)) -> String {
    choose_panic_message(
        payload.downcast_ref::<&str>().map(|s| s.to_string()),
        payload.downcast_ref::<String>().cloned(),
    )
}

#[test]
fn display_uses_context_without_event_payload() {
    let record = FailureRecord::new(FailurePhase::EventProcessing, "handler rejected event")
        .with_thread_name("orders")
        .with_stage_index(2)
        .with_sequence(41);

    assert_eq!(
        record.describe(),
        "phase=event_processing thread=\"orders\" stage=2 sequence=41 error=\"handler rejected event\""
    );
}

#[test]
fn extracts_string_panic_payloads() {
    assert_eq!(payload_message(&"boom"), "boom");
    assert_eq!(payload_message(&String::from("owned")), "owned");
    assert_eq!(payload_message(&7_u8), "non-string panic payload");
}

#[test]
fn describe_omits_unknown_context() {
    let record = FailureRecord::new(FailurePhase::ProducerPanic, "x");
    assert_eq!(record.describe(), "phase=producer_panic error=\"x\"");
    let record = FailureRecord::new(FailurePhase::BatchStart, "y").with_sequence(-3);
    assert_eq!(record.describe(), "phase=batch_start sequence=-3 error=\"y\"");
}

#[test]
fn record_getters_return_what_was_attached() {
    let record = FailureRecord::new(FailurePhase::HandlerStart, "m")
        .with_thread_name("t")
        .with_stage_index(5)
        .with_sequence(9);
    assert_eq!(record.phase(), FailurePhase::HandlerStart);
    assert_eq!(record.message(), "m");
    assert_eq!(record.thread_name(), Some("t"));
    assert_eq!(record.stage_index(), Some(5));
    assert_eq!(record.sequence(), Some(9));
    assert_eq!(FailurePhase::ThreadAffinity.as_str(), "thread_affinity");
    assert_eq!(FailurePhase::ProcessorThread.as_str(), "processor_thread");
}
