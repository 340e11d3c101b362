//! A generic, embeddable cache engine.
//!
//! The engine keeps, for each key, an ordered history of versioned values
//! together with access metadata, bounds its size through pluggable eviction
//! policies, and exposes the decisions that drive a background persistence
//! schedule. Asynchronous plumbing and storage I/O live outside this crate;
//! the data model, the eviction algorithms, and the engine's state changes
//! are specified and verified here.

use vstd::prelude::*;

mod clock;
pub mod backends;
pub mod cache;
pub mod config;
pub mod entry;
pub mod error;
pub mod eviction;
pub mod search;
pub mod storage;

pub use cache::Cache;
pub use cache::CacheKey;
pub use cache::CacheStats;
pub use cache::CacheValue;
pub use config::CacheConfig;
pub use config::EvictionPolicy;
pub use config::PersistenceConfig;
pub use entry::CacheEntry;
pub use entry::EntryMetadata;
pub use error::CacheError;
pub use eviction::EvictionContext;
pub use eviction::EvictionStrategy;
pub use search::SearchQuery;
pub use search::Searchable;
pub use storage::EntryMap;
pub use storage::SerializationFormat;

verus! {

/// A millisecond count on the engine's time line.
///
/// Creation times, last-access times, and time-to-live windows are all
/// expressed as signed millisecond counts, as an absolute instant or as a
/// duration depending on context.
pub type Millis = i64;

} // verus!
