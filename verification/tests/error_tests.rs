use badbatch::{decimal_string, is_power_of_two, DisruptorError};

#[test]
fn test_is_power_of_two() {
    assert!(is_power_of_two(1));
    assert!(is_power_of_two(2));
    assert!(is_power_of_two(4));
    assert!(is_power_of_two(8));
    assert!(is_power_of_two(1024));

    assert!(!is_power_of_two(0));
    assert!(!is_power_of_two(3));
    assert!(!is_power_of_two(5));
    assert!(!is_power_of_two(1023));
}

#[test]
fn error_messages_name_their_values() {
    assert_eq!(
        DisruptorError::InvalidBufferSize(7).describe(),
        "Buffer size must be a power of 2, got: 7"
    );
    assert_eq!(decimal_string(-120), "-120");
    assert_eq!(decimal_string(0), "0");
    assert_eq!(decimal_string(i64::MIN), "-9223372036854775808");
}
