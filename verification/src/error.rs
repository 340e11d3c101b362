//! The error taxonomy of cache operations.

use vstd::prelude::*;

verus! {

/// Everything a cache operation can fail with. Background paths swallow
/// these by design; only operations the caller awaits surface them.
#[derive(Debug)]
pub enum CacheError {
    /// An I/O failure in the backend, carrying its message.
    Io(String),
    /// A value could not be encoded for storage.
    Serialization(String),
    /// Stored bytes could not be decoded; distinguished from encoding
    /// failures because malformed input warrants different diagnostics.
    Deserialization(String),
    /// A backend refused a write outright instead of evicting.
    CapacityExceeded {
        /// What was exceeded.
        message: String,
    },
    /// A failure the storage backend reported on its own account.
    StorageBackend(String),
    /// The requested entry does not exist.
    NotFound,
    /// The cache was built with unusable settings.
    InvalidConfiguration(String),
    /// An extension point for embedding applications.
    Custom(String),
}

/// The serde_json error type, declared so that its classification methods
/// can be called from verified code.
#[verifier::external_type_specification]
#[verifier::external_body]
pub struct ExSerdeJsonError(serde_json::Error);

/// Relies on `serde_json::Error::is_data`: whether the error came from
/// semantically incorrect input. Which errors fall in that class is
/// serde_json's own affair, so nothing is promised of the result.
pub assume_specification[ serde_json::Error::is_data ](e: &serde_json::Error) -> bool
;

/// Relies on `serde_json::Error::is_eof`: whether the input ended
/// prematurely. Nothing is promised of the result.
pub assume_specification[ serde_json::Error::is_eof ](e: &serde_json::Error) -> bool
;

impl CacheError {
    /// The diagnostic line for this error.
    pub fn message(&self) -> (r: String)
        ensures
            match self {
                CacheError::Io(m) => r@ == "I/O error: "@ + m@,
                CacheError::Serialization(m) => r@ == "Serialization error: "@ + m@,
                CacheError::Deserialization(m) => r@ == "Deserialization error: "@ + m@,
                CacheError::CapacityExceeded { message } => r@ == "Cache capacity exceeded: "@
                    + message@,
                CacheError::StorageBackend(m) => r@ == "Storage backend error: "@ + m@,
                CacheError::NotFound => r@ == "Entry not found for key"@,
                CacheError::InvalidConfiguration(m) => r@ == "Invalid configuration: "@ + m@,
                CacheError::Custom(m) => r@ == "Custom error: "@ + m@,
            },
    {
        match self {
            CacheError::Io(m) => "I/O error: ".to_owned().concat(m.as_str()),
            CacheError::Serialization(m) => "Serialization error: ".to_owned().concat(m.as_str()),
            CacheError::Deserialization(m) => "Deserialization error: ".to_owned().concat(
                m.as_str(),
            ),
            CacheError::CapacityExceeded { message } => "Cache capacity exceeded: ".to_owned()
                .concat(message.as_str()),
            CacheError::StorageBackend(m) => "Storage backend error: ".to_owned().concat(
                m.as_str(),
            ),
            CacheError::NotFound => "Entry not found for key".to_owned(),
            CacheError::InvalidConfiguration(m) => "Invalid configuration: ".to_owned().concat(
                m.as_str(),
            ),
            CacheError::Custom(m) => "Custom error: ".to_owned().concat(m.as_str()),
        }
    }

    /// Sort a serialization failure into the taxonomy: semantically
    /// incorrect or truncated input (`is_data`, `is_eof`) is a decoding
    /// failure, anything else an encoding one, each carrying the
    /// diagnostic `msg`.
    pub fn classify_serialization_error(is_data: bool, is_eof: bool, msg: String) -> (r:
        CacheError)
        ensures
            r == if is_data || is_eof {
                CacheError::Deserialization(msg)
            } else {
                CacheError::Serialization(msg)
            },
    {
        if is_data || is_eof {
            CacheError::Deserialization(msg)
        } else {
            CacheError::Serialization(msg)
        }
    }

    /// Classify a serde_json failure through
    /// `classify_serialization_error`, handing it serde_json's own verdict
    /// and message; whichever way serde_json decides, the result is one of
    /// the two serialization variants.
    pub fn from_json_error(err: serde_json::Error) -> (r: CacheError)
        ensures
            r is Deserialization || r is Serialization,
    {
        let msg = err.to_string();
        Self::classify_serialization_error(err.is_data(), err.is_eof(), msg)
    }
}

} // verus!
