//! Per-cache configuration.

use vstd::prelude::*;

verus! {

/// The eviction policy a cache enforces when its total entry count
/// exceeds the configured cap.
#[derive(PartialEq, Eq, Structural, Clone, Copy, Debug)]
pub enum EvictionPolicy {
    /// Evict the key whose least recently used version is oldest.
    Lru,
    /// Evict the key whose versions were handed out the fewest times.
    Lfu,
    /// Evict the key whose oldest version was created first.
    Fifo,
    /// Drop expired versions first; fall back to FIFO if still over the cap.
    Ttl,
    /// No automatic eviction: capacity overruns are left to the caller.
    Disabled,
}

/// How, and how often, the cache is persisted to its storage backend.
#[derive(Clone, Debug)]
pub struct PersistenceConfig {
    /// Whether persistence is on at all.
    pub enabled: bool,
    /// Whether a freshly built cache tries one load from the backend.
    pub load_on_startup: bool,
    /// Whether a best-effort save is attempted when the cache is torn down.
    pub save_on_drop: bool,
    /// The number of mutating operations between scheduled background saves.
    pub sync_interval: u32,
    /// The backend location; meaningful only to file-based backends.
    pub path: String,
}

impl PersistenceConfig {
    /// A persistence configuration with everything switched on and the
    /// given backend location.
    pub fn with_path(path: String) -> (r: Self)
        ensures
            r.enabled,
            r.load_on_startup,
            r.save_on_drop,
            r.sync_interval == 100,
            r.path == path,
    {
        PersistenceConfig {
            enabled: true,
            load_on_startup: true,
            save_on_drop: true,
            sync_interval: 100,
            path,
        }
    }
}

impl Default for PersistenceConfig {
    /// Persistence is off by default; the interval and location hold
    /// placeholder values until it is switched on.
    fn default() -> (r: Self)
        ensures
            !r.enabled,
            !r.load_on_startup,
            !r.save_on_drop,
            r.sync_interval == 100,
            r.path@ == "cache"@,
    {
        PersistenceConfig {
            enabled: false,
            load_on_startup: false,
            save_on_drop: false,
            sync_interval: 100,
            path: "cache".to_owned(),
        }
    }
}

/// The immutable settings a cache is built with.
#[derive(Clone, Debug)]
pub struct CacheConfig {
    /// The cap on each key's history depth.
    pub max_entries_per_key: usize,
    /// The cap on the total entry count; exceeding it triggers eviction.
    pub max_total_entries: usize,
    /// Which eviction policy enforces the total cap.
    pub eviction_policy: EvictionPolicy,
    /// The persistence schedule.
    pub persistence: PersistenceConfig,
}

impl CacheConfig {
    /// Whether the settings are usable at all. A history cap of zero
    /// could keep no version of a freshly added entry, and a total cap of
    /// the largest machine integer would let the transient count just
    /// after an insertion overflow it, so both are rejected.
    pub open spec fn valid(self) -> bool {
        self.max_entries_per_key >= 1 && self.max_total_entries < usize::MAX
    }

    /// Decide whether the settings are usable.
    pub fn is_valid(&self) -> (r: bool)
        ensures
            r == self.valid(),
    {
        self.max_entries_per_key >= 1 && self.max_total_entries < usize::MAX
    }

    /// The same settings with another history-depth cap.
    pub fn with_max_entries_per_key(self, n: usize) -> (r: Self)
        ensures
            r == (CacheConfig { max_entries_per_key: n, ..self }),
    {
        CacheConfig { max_entries_per_key: n, ..self }
    }

    /// The same settings with another total-entry cap.
    pub fn with_max_total_entries(self, n: usize) -> (r: Self)
        ensures
            r == (CacheConfig { max_total_entries: n, ..self }),
    {
        CacheConfig { max_total_entries: n, ..self }
    }

    /// The same settings with another eviction policy.
    pub fn with_eviction_policy(self, policy: EvictionPolicy) -> (r: Self)
        ensures
            r == (CacheConfig { eviction_policy: policy, ..self }),
    {
        CacheConfig { eviction_policy: policy, ..self }
    }

    /// The same settings with another persistence schedule.
    pub fn with_persistence(self, persistence: PersistenceConfig) -> (r: Self)
        ensures
            r == (CacheConfig { persistence, ..self }),
    {
        CacheConfig { persistence, ..self }
    }
}

impl Default for CacheConfig {
    /// A small cache: ten versions per key, a thousand entries in all,
    /// least-recently-used eviction, persistence off.
    fn default() -> (r: Self)
        ensures
            r.max_entries_per_key == 10,
            r.max_total_entries == 1000,
            r.eviction_policy == EvictionPolicy::Lru,
            !r.persistence.enabled,
            !r.persistence.load_on_startup,
            !r.persistence.save_on_drop,
            r.persistence.sync_interval == 100,
            r.valid(),
    {
        CacheConfig {
            max_entries_per_key: 10,
            max_total_entries: 1000,
            eviction_policy: EvictionPolicy::Lru,
            persistence: Default::default(),
        }
    }
}

} // verus!
