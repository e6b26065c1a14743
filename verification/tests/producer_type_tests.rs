use badbatch::ProducerType;
use std::collections::HashMap;
use std::str::FromStr;

#[test]
fn test_producer_type_single() {
    let producer_type = ProducerType::Single;
    assert!(producer_type.is_single());
    assert!(!producer_type.is_multi());
    assert_eq!(producer_type.describe(), "Single");
}

#[test]
fn test_producer_type_multi() {
    let producer_type = ProducerType::Multi;
    assert!(!producer_type.is_single());
    assert!(producer_type.is_multi());
    assert_eq!(producer_type.describe(), "Multi");
}

#[test]
fn test_producer_type_default() {
    let producer_type = ProducerType::default();
    assert_eq!(producer_type, ProducerType::Multi);
    assert!(producer_type.is_multi());
}

#[test]
fn test_producer_type_equality() {
    assert_eq!(ProducerType::Single, ProducerType::Single);
    assert_eq!(ProducerType::Multi, ProducerType::Multi);
    assert_ne!(ProducerType::Single, ProducerType::Multi);
}

#[test]
fn test_producer_type_clone() {
    let first = ProducerType::Single;
    let cloned = first;
    assert_eq!(first, cloned);
}

#[test]
fn test_producer_type_from_str() {
    assert_eq!(ProducerType::from_str("single").unwrap(), ProducerType::Single);
    assert_eq!(ProducerType::from_str("Single").unwrap(), ProducerType::Single);
    assert_eq!(ProducerType::from_str("SINGLE").unwrap(), ProducerType::Single);

    assert_eq!(ProducerType::from_str("multi").unwrap(), ProducerType::Multi);
    assert_eq!(ProducerType::from_str("Multi").unwrap(), ProducerType::Multi);
    assert_eq!(ProducerType::from_str("MULTI").unwrap(), ProducerType::Multi);

    assert!(ProducerType::from_str("invalid").is_err());
    assert!(ProducerType::from_str("").is_err());
}

#[test]
fn producer_type_display_round_trips_and_errors_name_the_input() {
    for t in [ProducerType::Single, ProducerType::Multi] {
        assert_eq!(ProducerType::from_str(&t.describe()).unwrap(), t);
    }
    assert_eq!(
        ProducerType::parse("both").unwrap_err(),
        "Invalid producer type: 'both'. Valid values are 'single' or 'multi'"
    );
}

#[test]
fn test_producer_type_hash() {
    let mut map = HashMap::new();
    map.insert(ProducerType::Single, "single");
    map.insert(ProducerType::Multi, "multi");

    assert_eq!(map.get(&ProducerType::Single), Some(&"single"));
    assert_eq!(map.get(&ProducerType::Multi), Some(&"multi"));
}
