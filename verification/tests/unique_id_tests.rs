use hound_cast::errors::UniqueIdError;
use hound_cast::unique_id::Identifier;
use hound_cast::unique_id::UniqueId;
use hound_cast::unique_id::UniqueIdParts;

#[test]
fn test_unique_id_creation() {
    let unique_id = UniqueId::new("test", Some(10)).unwrap();
    assert!(unique_id.get_id().as_str().starts_with("test:"));
}

#[test]
fn test_empty_prefix_error() {
    let result = UniqueId::new("", Some(10));
    assert!(matches!(result, Err(UniqueIdError::MissingPrefix)));
}

#[test]
fn test_parse_prefix() {
    let unique_id = UniqueId::new("test", Some(10)).unwrap();
    let prefix = unique_id.parse(UniqueIdParts::Prefix).unwrap();
    assert_eq!(prefix, "test");
}

#[test]
fn test_parse_timestamp() {
    let unique_id = UniqueId::new("test", Some(10)).unwrap();
    let timestamp = unique_id.parse(UniqueIdParts::Timestamp).unwrap();
    assert!(timestamp.parse::<i64>().is_ok());
}

#[test]
fn test_parse_key() {
    let unique_id = UniqueId::new("test", Some(10)).unwrap();
    let key = unique_id.parse(UniqueIdParts::Key).unwrap();
    assert_eq!(key.len(), 10);
}

#[test]
fn test_invalid_format_error() {
    let unique_id = UniqueId::from_string("invalid_format".to_string());
    let result = unique_id.parse(UniqueIdParts::Prefix);
    assert!(matches!(result, Err(UniqueIdError::WrongFormat(_))));
}

#[test]
fn test_default_key_length_is_eight() {
    let unique_id = UniqueId::new("test", None).unwrap();
    let key = unique_id.parse(UniqueIdParts::Key).unwrap();
    assert_eq!(key.len(), 8);
}

#[test]
fn test_key_is_alphanumeric() {
    let unique_id = UniqueId::new("pfx", Some(32)).unwrap();
    let key = unique_id.parse(UniqueIdParts::Key).unwrap();
    assert!(key.chars().all(|c| c.is_ascii_alphanumeric()));
}

#[test]
fn test_wrong_format_carries_part_count() {
    let two = UniqueId::from_string("a:b".to_string());
    assert!(matches!(two.parse(UniqueIdParts::Key), Err(UniqueIdError::WrongFormat(2))));
    let four = UniqueId::from_string("a:b:c:d".to_string());
    assert!(matches!(four.parse(UniqueIdParts::Prefix), Err(UniqueIdError::WrongFormat(4))));
}

#[test]
fn test_parse_returns_all_three_parts() {
    let unique_id = UniqueId::from_string("pre:123:abcdefgh".to_string());
    assert_eq!(unique_id.parse(UniqueIdParts::Prefix).unwrap(), "pre");
    assert_eq!(unique_id.parse(UniqueIdParts::Timestamp).unwrap(), "123");
    assert_eq!(unique_id.parse(UniqueIdParts::Key).unwrap(), "abcdefgh");
}
