use badbatch::{
    event_translator, event_translator_one_arg, event_translator_two_arg, ClosureEventTranslator,
    ClosureEventTranslatorOneArg, ClosureEventTranslatorTwoArg, EventTranslator,
    EventTranslatorOneArg, EventTranslatorTwoArg,
};

#[derive(Debug, Default, Clone, PartialEq)]
struct TestEvent {
    value: i64,
    name: String,
    count: u32,
}

#[test]
fn test_closure_event_translator() {
    let translator = ClosureEventTranslator::new(|event: &mut TestEvent, sequence| {
        event.value = sequence;
        event.name = format!("event_{sequence}");
    });

    let mut event = TestEvent::default();
    translator.translate_to(&mut event, 42);

    assert_eq!(event.value, 42);
    assert_eq!(event.name, "event_42");
}

#[test]
fn test_closure_event_translator_one_arg() {
    let translator =
        ClosureEventTranslatorOneArg::new(|event: &mut TestEvent, sequence, name: String| {
            event.value = sequence;
            event.name = name;
        });

    let mut event = TestEvent::default();
    translator.translate_to(&mut event, 42, "test_name".to_string());

    assert_eq!(event.value, 42);
    assert_eq!(event.name, "test_name");
}

#[test]
fn test_closure_event_translator_two_arg() {
    let translator = ClosureEventTranslatorTwoArg::new(
        |event: &mut TestEvent, sequence, name: String, count: u32| {
            event.value = sequence;
            event.name = name;
            event.count = count;
        },
    );

    let mut event = TestEvent::default();
    translator.translate_to(&mut event, 42, "test_name".to_string(), 100);

    assert_eq!(event.value, 42);
    assert_eq!(event.name, "test_name");
    assert_eq!(event.count, 100);
}

#[test]
fn test_convenience_functions() {
    let translator = event_translator(|event: &mut TestEvent, sequence| {
        event.value = sequence * 2;
    });

    let mut event = TestEvent::default();
    translator.translate_to(&mut event, 21);
    assert_eq!(event.value, 42);

    let translator_one =
        event_translator_one_arg(|event: &mut TestEvent, sequence, multiplier: i64| {
            event.value = sequence * multiplier;
        });

    let mut event = TestEvent::default();
    translator_one.translate_to(&mut event, 21, 3);
    assert_eq!(event.value, 63);
}

#[test]
fn two_arg_convenience_function_translates() {
    let translator = event_translator_two_arg(|event: &mut TestEvent, sequence, a: i64, b: u32| {
        event.value = sequence + a;
        event.count = b;
    });
    let mut event = TestEvent::default();
    translator.translate_to(&mut event, 40, 2, 9);
    assert_eq!(event.value, 42);
    assert_eq!(event.count, 9);
}
