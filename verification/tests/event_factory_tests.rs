use badbatch::{event_factory, ClosureEventFactory, CloneEventFactory, DefaultEventFactory, EventFactory};

#[derive(Debug, Default, Clone, PartialEq)]
struct TestEvent {
    value: i64,
    name: String,
}

impl TestEvent {
    fn new(value: i64, name: String) -> Self {
        Self { value, name }
    }
}

#[test]
fn test_default_event_factory() {
    let factory = DefaultEventFactory::<TestEvent>::new();
    let event = factory.new_instance();
    assert_eq!(event, TestEvent::default());

    let event1 = factory.new_instance();
    let event2 = factory.new_instance();
    assert_eq!(event1, event2);
}

#[test]
fn test_closure_event_factory() {
    let factory = ClosureEventFactory::new(|| TestEvent::new(42, "test".to_string()));
    let event = factory.new_instance();
    assert_eq!(event.value, 42);
    assert_eq!(event.name, "test");

    let event1 = factory.new_instance();
    let event2 = factory.new_instance();
    assert_eq!(event1, event2);
}

#[test]
fn test_clone_event_factory() {
    let prototype = TestEvent::new(100, "prototype".to_string());
    let factory = CloneEventFactory::new(prototype.clone());
    let event = factory.new_instance();
    assert_eq!(event, prototype);

    let mut event1 = factory.new_instance();
    let event2 = factory.new_instance();

    event1.value = 999;
    assert_ne!(event1, event2);
    assert_eq!(event2, prototype);
}

#[test]
fn test_event_factory_convenience_function() {
    let factory = event_factory(|| TestEvent::new(999, "convenience".to_string()));
    let event = factory.new_instance();
    assert_eq!(event.value, 999);
    assert_eq!(event.name, "convenience");
}

#[test]
fn test_multiple_instances_are_independent() {
    let factory = ClosureEventFactory::new(|| TestEvent::new(0, "initial".to_string()));

    let mut event1 = factory.new_instance();
    let mut event2 = factory.new_instance();

    event1.value = 1;
    event1.name = "first".to_string();

    event2.value = 2;
    event2.name = "second".to_string();

    assert_eq!(event1.value, 1);
    assert_eq!(event1.name, "first");
    assert_eq!(event2.value, 2);
    assert_eq!(event2.name, "second");
}
