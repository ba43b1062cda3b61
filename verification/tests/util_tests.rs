use arcaferry::error::ArcaferryError;
use arcaferry::strutil::{
    chars_vec, clone_string_vec, concat2, i64_to_string, join_with, str_eq, u32_to_string,
    u64_to_string,
};

#[test]
fn test_decimal_rendering() {
    assert_eq!(u64_to_string(0), "0");
    assert_eq!(u64_to_string(7), "7");
    assert_eq!(u64_to_string(1234567890), "1234567890");
    assert_eq!(u64_to_string(u64::MAX), "18446744073709551615");
    assert_eq!(u32_to_string(65535), "65535");
    assert_eq!(i64_to_string(-42), "-42");
    assert_eq!(i64_to_string(i64::MIN), "-9223372036854775808");
    assert_eq!(i64_to_string(0), "0");
}

#[test]
fn test_string_helpers() {
    assert!(str_eq("abc", "abc"));
    assert!(!str_eq("abc", "abd"));
    assert!(!str_eq("abc", "ab"));
    assert_eq!(concat2("foo", "bar"), "foobar");
    let v = chars_vec("héllo");
    assert_eq!(v.len(), 5);
    assert_eq!(v[1], 'é');
    let parts = vec!["a".to_string(), "b".to_string(), "c".to_string()];
    assert_eq!(join_with(&parts, ", "), "a, b, c");
    assert_eq!(join_with(&Vec::new(), ", "), "");
    assert_eq!(clone_string_vec(&parts), parts);
}

#[test]
fn test_error_message_texts() {
    assert_eq!(
        ArcaferryError::Timeout("t".into()).message(),
        "Network timeout: t"
    );
    assert_eq!(
        ArcaferryError::MissingField("originSid in chat info".into()).message(),
        "Missing required field: originSid in chat info"
    );
    assert_eq!(
        ArcaferryError::VersionMismatch { expected: "1".into(), actual: "2".into() }.message(),
        "Arcamage version mismatch: expected 1, got 2"
    );
    assert_eq!(ArcaferryError::NoCardData.message(), "No card data found in PNG");
}
