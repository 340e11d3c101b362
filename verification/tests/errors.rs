//! The error taxonomy and its diagnostics.

use threatflux_cache::error::CacheError;

#[test]
fn test_cache_error_variants() {
    let io_err = CacheError::Io("oops".to_string());
    assert!(matches!(io_err, CacheError::Io(_)));

    let ser_err = CacheError::Serialization("ser".into());
    assert_eq!(ser_err.message(), "Serialization error: ser");

    let des_err = CacheError::Deserialization("de".into());
    assert_eq!(des_err.message(), "Deserialization error: de");

    let cap_err = CacheError::CapacityExceeded { message: "full".into() };
    assert!(matches!(cap_err, CacheError::CapacityExceeded { .. }));

    let backend_err = CacheError::StorageBackend("be".into());
    assert!(matches!(backend_err, CacheError::StorageBackend(_)));

    let not_found = CacheError::NotFound;
    assert_eq!(not_found.message(), "Entry not found for key");

    let custom = CacheError::Custom("c".into());
    assert_eq!(custom.message(), "Custom error: c");
}

#[test]
fn test_cache_error_from_json() {
    // malformed JSON triggers serialization error
    let result: Result<serde_json::Value, CacheError> =
        serde_json::from_str("{]").map_err(CacheError::from_json_error);
    assert!(matches!(result, Err(CacheError::Serialization(_))));
}

#[test]
fn semantically_wrong_json_is_a_deserialization_error() {
    // Well-formed JSON of the wrong shape is a data error, so it lands in
    // the decoding variant.
    let result: Result<u64, CacheError> =
        serde_json::from_str("\"text\"").map_err(CacheError::from_json_error);
    assert!(matches!(result, Err(CacheError::Deserialization(_))));
}

#[test]
fn other_error_messages() {
    assert_eq!(
        CacheError::Io("oops".to_string()).message(),
        "I/O error: oops"
    );
    assert_eq!(
        CacheError::CapacityExceeded { message: "full".to_string() }.message(),
        "Cache capacity exceeded: full"
    );
    assert_eq!(
        CacheError::StorageBackend("be".to_string()).message(),
        "Storage backend error: be"
    );
    assert_eq!(
        CacheError::InvalidConfiguration("why".to_string()).message(),
        "Invalid configuration: why"
    );
}
