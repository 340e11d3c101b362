//! Storage backends.
//!
//! A backend persists the full entry map and answers simple queries about
//! what it holds. The in-memory backend is plain data and fully verified;
//! the filesystem backend's path and filename logic is verified here,
//! while its actual I/O lives with the embedding application.

use vstd::prelude::*;
use crate::cache::CacheKey;
use crate::cache::CacheValue;
use crate::entry::EntryMetadata;

verus! {

/// What a backend requires of keys.
pub trait BackendKey: CacheKey {

}

impl<T: CacheKey> BackendKey for T {

}

/// What a backend requires of values.
pub trait BackendValue: CacheValue {

}

impl<T: CacheValue> BackendValue for T {

}

/// What a backend requires of metadata.
pub trait BackendMeta: EntryMetadata {

}

impl<T: EntryMetadata> BackendMeta for T {

}

} // verus!

pub mod filesystem;
pub mod memory;
