//! The cache engine and the key/value contracts.
//!
//! The engine owns the live entry map and the configuration, applies the
//! configured eviction policy inline whenever a mutating operation pushes
//! the total entry count over its cap, and keeps the two pieces of state
//! that drive the persistence schedule: the operation counter that decides
//! when a background save is due, and the one-permit gate that keeps at
//! most one save in flight. The asynchronous plumbing around it — locks,
//! task spawning, backend I/O — lives outside this crate and only calls
//! the fully specified operations here.

use vstd::prelude::*;
use crate::clock;
use crate::config::CacheConfig;
use crate::config::EvictionPolicy;
use crate::entry::CacheEntry;
use crate::entry::EntryMetadata;
use crate::error::CacheError;
use crate::eviction;
use crate::eviction::EvictionMetric;
use crate::search::Searchable;
use crate::storage;
use crate::storage::map_contains_key;
use crate::storage::map_total;
use crate::storage::map_wf;
use crate::storage::EntryMap;
use crate::storage::MapModel;
use crate::Millis;

verus! {

/// The contract a cache key type must meet: a decidable equivalence on
/// keys, and copying that preserves the value.
///
/// The equivalence, not bare mathematical equality, is what the engine's
/// contracts are phrased over: for a type such as `String` the decidable
/// comparison equates exactly the values whose character sequences agree.
pub trait CacheKey: Sized {
    /// When two keys stand for the same cache slot.
    spec fn key_eqv(&self, other: &Self) -> bool;

    /// The equivalence relates every key to itself.
    proof fn lemma_eqv_reflexive(&self)
        ensures
            self.key_eqv(self),
    ;

    /// The equivalence is symmetric.
    proof fn lemma_eqv_symmetric(&self, other: &Self)
        requires
            self.key_eqv(other),
        ensures
            other.key_eqv(self),
    ;

    /// The equivalence is transitive.
    proof fn lemma_eqv_transitive(&self, b: &Self, c: &Self)
        requires
            self.key_eqv(b),
            b.key_eqv(c),
        ensures
            self.key_eqv(c),
    ;

    /// Decide whether two keys stand for the same slot.
    fn key_eq(&self, other: &Self) -> (r: bool)
        ensures
            r == self.key_eqv(other),
    ;

    /// Produce a copy equal to `self`.
    fn key_clone(&self) -> (r: Self)
        ensures
            r == *self,
    ;
}

/// The contract a cache value type must meet: copying that preserves the
/// value, so that lookups can hand out copies.
pub trait CacheValue: Sized {
    /// Produce a copy equal to `self`.
    fn value_clone(&self) -> (r: Self)
        ensures
            r == *self,
    ;
}

impl CacheKey for String {
    open spec fn key_eqv(&self, other: &Self) -> bool {
        self@ == other@
    }

    proof fn lemma_eqv_reflexive(&self) {
    }

    proof fn lemma_eqv_symmetric(&self, other: &Self) {
    }

    proof fn lemma_eqv_transitive(&self, b: &Self, c: &Self) {
    }

    fn key_eq(&self, other: &Self) -> (r: bool) {
        self.eq(other)
    }

    fn key_clone(&self) -> (r: Self) {
        self.clone()
    }
}

impl CacheKey for u64 {
    open spec fn key_eqv(&self, other: &Self) -> bool {
        self == other
    }

    proof fn lemma_eqv_reflexive(&self) {
    }

    proof fn lemma_eqv_symmetric(&self, other: &Self) {
    }

    proof fn lemma_eqv_transitive(&self, b: &Self, c: &Self) {
    }

    fn key_eq(&self, other: &Self) -> (r: bool) {
        *self == *other
    }

    fn key_clone(&self) -> (r: Self) {
        *self
    }
}

/// Derived counts over the live map, computed on demand and not stored.
#[derive(Debug, Clone)]
pub struct CacheStats {
    /// The total number of entries across all histories.
    pub total_entries: usize,
    /// The number of distinct keys.
    pub total_keys: usize,
    /// The summed access count of every entry, saturating at the largest
    /// machine value.
    pub total_access_count: u64,
    /// How many entries are expired at the time of the scan.
    pub expired_count: usize,
    /// Approximate memory usage; no estimation is implemented, so this is
    /// always zero.
    pub memory_usage_bytes: usize,
}

impl Default for CacheStats {
    /// All counts zero.
    fn default() -> (r: Self)
        ensures
            r.total_entries == 0,
            r.total_keys == 0,
            r.total_access_count == 0,
            r.expired_count == 0,
            r.memory_usage_bytes == 0,
    {
        CacheStats {
            total_entries: 0,
            total_keys: 0,
            total_access_count: 0,
            expired_count: 0,
            memory_usage_bytes: 0,
        }
    }
}

/// The cache engine: the live entry map, the immutable configuration, the
/// operation counter of the persistence schedule, and the one-permit save
/// gate.
pub struct Cache<K, V, M = ()> {
    entries: EntryMap<K, V, M>,
    config: CacheConfig,
    op_count: u64,
    save_in_flight: bool,
}

impl<K: CacheKey, V: CacheValue, M: EntryMetadata> Cache<K, V, M> {
    /// The model of the live entry map.
    pub closed spec fn model(self) -> MapModel<K, V, M> {
        self.entries@
    }

    /// The configuration the cache was built with.
    pub closed spec fn spec_config(self) -> CacheConfig {
        self.config
    }

    /// How many mutating operations have ticked since the last scheduled
    /// save.
    pub closed spec fn spec_op_count(self) -> u64 {
        self.op_count
    }

    /// Whether a save currently holds the one-permit gate.
    pub closed spec fn spec_save_in_flight(self) -> bool {
        self.save_in_flight
    }

    /// The engine invariant: the map is well formed, the configuration is
    /// usable, no history is deeper than the per-key cap, the total entry
    /// count respects its cap unless eviction is disabled, and the
    /// operation counter sits below its reset point.
    pub open spec fn wf(self) -> bool {
        &&& map_wf(self.model())
        &&& self.spec_config().valid()
        &&& (forall|i: int|
            0 <= i < self.model().len() ==> (#[trigger] self.model()[i]).1.len()
                <= self.spec_config().max_entries_per_key)
        &&& (self.spec_config().eviction_policy != EvictionPolicy::Disabled ==> map_total(
            self.model(),
        ) <= self.spec_config().max_total_entries)
        &&& self.spec_op_count() <= u32::MAX
    }

    /// Build a cache with the given settings and an empty map, or reject
    /// unusable settings.
    pub fn new(config: CacheConfig) -> (r: Result<Self, CacheError>)
        ensures
            match r {
                Ok(c) => {
                    &&& config.valid()
                    &&& c.wf()
                    &&& c.model().len() == 0
                    &&& c.spec_config() == config
                    &&& c.spec_op_count() == 0
                    &&& !c.spec_save_in_flight()
                },
                Err(e) => !config.valid() && e is InvalidConfiguration,
            },
    {
        if !config.is_valid() {
            return Err(
                CacheError::InvalidConfiguration(
                    "history depth cap must be positive and the total cap below the machine maximum".to_owned(),
                ),
            );
        }
        Ok(
            Cache {
                entries: EntryMap::new(),
                config,
                op_count: 0,
                save_in_flight: false,
            },
        )
    }

    /// The settings the cache runs with.
    pub fn config(&self) -> (r: &CacheConfig)
        ensures
            *r == self.spec_config(),
    {
        &self.config
    }

    /// Whether the cache holds a history for `key`.
    pub fn contains(&self, key: &K) -> (r: bool)
        ensures
            r == map_contains_key(self.model(), *key),
    {
        self.entries.contains_key(key)
    }

    /// The total number of entries across all keys.
    pub fn len(&self) -> (r: usize)
        requires
            map_total(self.model()) <= usize::MAX,
        ensures
            r == map_total(self.model()),
    {
        self.entries.total_entries()
    }

    /// Whether the cache holds no entry at all.
    pub fn is_empty(&self) -> (r: bool)
        requires
            self.wf(),
        ensures
            r == (map_total(self.model()) == 0),
            r == (self.model().len() == 0),
    {
        proof {
            lemma_total_zero_iff_no_keys(self.model());
        }
        self.entries.key_count() == 0
    }

    /// Drop every entry from memory. The caller is expected to clear the
    /// backend alongside.
    pub fn clear(&mut self)
        ensures
            final(self).model().len() == 0,
            map_total(final(self).model()) == 0,
            final(self).spec_config() == old(self).spec_config(),
            final(self).spec_op_count() == old(self).spec_op_count(),
            final(self).spec_save_in_flight() == old(self).spec_save_in_flight(),
            old(self).wf() ==> final(self).wf(),
    {
        self.entries.clear();
    }

    /// A copy of the live map, for a save snapshot taken outside the
    /// engine's critical path.
    pub fn snapshot(&self) -> (r: EntryMap<K, V, M>)
        ensures
            r@ == self.model(),
    {
        self.entries.deep_clone()
    }

    /// Try to take the one-permit save gate: the attempt succeeds exactly
    /// when persistence is on and no save is in flight, and a second
    /// trigger arriving while a save runs is simply dropped.
    pub fn try_begin_save(&mut self) -> (r: bool)
        ensures
            r == (old(self).spec_config().persistence.enabled && !old(self).spec_save_in_flight()),
            final(self).spec_save_in_flight() == (old(self).spec_save_in_flight() || r),
            final(self).model() == old(self).model(),
            final(self).spec_config() == old(self).spec_config(),
            final(self).spec_op_count() == old(self).spec_op_count(),
    {
        if self.config.persistence.enabled && !self.save_in_flight {
            self.save_in_flight = true;
            true
        } else {
            false
        }
    }

    /// Release the save gate once a save has finished, whatever its
    /// outcome was.
    pub fn end_save(&mut self)
        ensures
            !final(self).spec_save_in_flight(),
            final(self).model() == old(self).model(),
            final(self).spec_config() == old(self).spec_config(),
            final(self).spec_op_count() == old(self).spec_op_count(),
    {
        self.save_in_flight = false;
    }

    /// Record one mutating operation: when the counter reaches the sync
    /// interval it resets and a background save is due.
    fn op_tick(&mut self) -> (due: bool)
        requires
            old(self).spec_op_count() <= u32::MAX,
        ensures
            due == (old(self).spec_op_count() + 1
                >= old(self).spec_config().persistence.sync_interval),
            final(self).spec_op_count() == if due {
                0u64
            } else {
                (old(self).spec_op_count() + 1) as u64
            },
            final(self).spec_op_count() <= u32::MAX,
            final(self).model() == old(self).model(),
            final(self).spec_config() == old(self).spec_config(),
            final(self).spec_save_in_flight() == old(self).spec_save_in_flight(),
    {
        let next = self.op_count + 1;
        if next >= self.config.persistence.sync_interval as u64 {
            self.op_count = 0;
            true
        } else {
            self.op_count = next;
            false
        }
    }

    /// Run the configured policy once if the total entry count exceeds
    /// its cap; with eviction disabled, or within the cap, nothing
    /// happens. The total may stand at most one over the cap when this is
    /// called — the state right after a single insertion.
    fn apply_capacity_policy(&mut self, now: Millis)
        requires
            old(self).spec_config().valid(),
            map_wf(old(self).model()),
            old(self).spec_config().eviction_policy != EvictionPolicy::Disabled ==> map_total(
                old(self).model(),
            ) <= old(self).spec_config().max_total_entries + 1,
            forall|i: int|
                0 <= i < old(self).model().len() ==> (#[trigger] old(self).model()[i]).1.len()
                    <= old(self).spec_config().max_entries_per_key,
        ensures
            final(self).model() == (if old(self).spec_config().eviction_policy
                != EvictionPolicy::Disabled && map_total(old(self).model()) > old(
                self,
            ).spec_config().max_total_entries {
                spec_policy_evict(
                    old(self).model(),
                    old(self).spec_config().eviction_policy,
                    old(self).spec_config().max_total_entries as int,
                    now,
                )
            } else {
                old(self).model()
            }),
            map_wf(final(self).model()),
            forall|i: int|
                0 <= i < final(self).model().len() ==> (#[trigger] final(self).model()[i]).1.len()
                    <= old(self).spec_config().max_entries_per_key,
            old(self).spec_config().eviction_policy != EvictionPolicy::Disabled ==> map_total(
                final(self).model(),
            ) <= old(self).spec_config().max_total_entries,
            final(self).spec_config() == old(self).spec_config(),
            final(self).spec_op_count() == old(self).spec_op_count(),
            final(self).spec_save_in_flight() == old(self).spec_save_in_flight(),
    {
        let ghost m0 = self.entries@;
        let ghost cfg = self.config;
        let ghost cap = self.config.max_entries_per_key as int;
        let ghost max = self.config.max_total_entries as int;
        if self.config.eviction_policy == EvictionPolicy::Disabled {
            return ;
        }
        proof {
            storage::lemma_total_nonneg(m0);
        }
        let total = self.entries.total_entries();
        if total <= self.config.max_total_entries {
            return ;
        }
        proof {
            if m0.len() == 0 {
                eviction::lemma_total_zero_of_empty(m0);
            }
        }
        match self.config.eviction_policy {
            EvictionPolicy::Lru => {
                eviction::remove_key_by(&mut self.entries, EvictionMetric::OldestAccess);
                proof {
                    lemma_single_evict_agrees(m0, self.entries@, EvictionMetric::OldestAccess, cap);
                }
            },
            EvictionPolicy::Lfu => {
                eviction::remove_key_by(&mut self.entries, EvictionMetric::FewestAccesses);
                proof {
                    lemma_single_evict_agrees(m0, self.entries@, EvictionMetric::FewestAccesses, cap);
                }
            },
            EvictionPolicy::Fifo => {
                eviction::remove_key_by(&mut self.entries, EvictionMetric::OldestCreation);
                proof {
                    lemma_single_evict_agrees(m0, self.entries@, EvictionMetric::OldestCreation, cap);
                }
            },
            EvictionPolicy::Ttl => {
                eviction::ttl_evict_at(&mut self.entries, self.config.max_total_entries, now);
                proof {
                    let swept = eviction::spec_sweep(m0, now);
                    eviction::lemma_sweep_cap(m0, now, cap);
                    if map_total(swept) > max {
                        let i = eviction::victim_of(swept, EvictionMetric::OldestCreation);
                        assert(eviction::is_victim(swept, EvictionMetric::OldestCreation, i));
                        lemma_remove_cap(swept, i, cap);
                    }
                }
            },
            EvictionPolicy::Disabled => {
            },
        }
    }

    /// Append `entry` to its key's history against an explicit time: the
    /// history is capped at the configured depth (oldest version dropped
    /// first), the configured policy runs once if the total entry count
    /// exceeds its cap, and one operation is ticked on the persistence
    /// schedule. The result says whether a background save is now due.
    pub fn add_entry_at(&mut self, entry: CacheEntry<K, V, M>, now: Millis) -> (save_due: bool)
        requires
            old(self).wf(),
        ensures
            final(self).wf(),
            final(self).model() == spec_add_entry(
                old(self).model(),
                entry,
                old(self).spec_config(),
                now,
            ),
            final(self).spec_config() == old(self).spec_config(),
            final(self).spec_save_in_flight() == old(self).spec_save_in_flight(),
            save_due == (old(self).spec_op_count() + 1
                >= old(self).spec_config().persistence.sync_interval),
            final(self).spec_op_count() == if save_due {
                0u64
            } else {
                (old(self).spec_op_count() + 1) as u64
            },
    {
        let ghost m0 = self.entries@;
        let ghost cfg = self.config;
        let cap = self.config.max_entries_per_key;
        self.entries.push_version(entry, cap);
        proof {
            lemma_push_version_total(m0, entry, cap as int);
            lemma_push_version_cap(m0, entry, cap as int);
            if cfg.eviction_policy != EvictionPolicy::Disabled {
                storage::lemma_total_nonneg(m0);
            }
        }
        self.apply_capacity_policy(now);
        self.op_tick()
    }

    /// Append `entry` to its key's history against the wall clock. The
    /// resulting map is the `add_entry` map at some clock reading; for
    /// every policy but time-to-live the reading plays no part in it.
    pub fn add_entry(&mut self, entry: CacheEntry<K, V, M>) -> (save_due: bool)
        requires
            old(self).wf(),
        ensures
            final(self).wf(),
            exists|now: Millis|
                final(self).model() == #[trigger] spec_add_entry(
                    old(self).model(),
                    entry,
                    old(self).spec_config(),
                    now,
                ),
            final(self).spec_config() == old(self).spec_config(),
            final(self).spec_save_in_flight() == old(self).spec_save_in_flight(),
            save_due == (old(self).spec_op_count() + 1
                >= old(self).spec_config().persistence.sync_interval),
            final(self).spec_op_count() == if save_due {
                0u64
            } else {
                (old(self).spec_op_count() + 1) as u64
            },
    {
        let now = clock::now_millis();
        self.add_entry_at(entry, now)
    }

    /// Store `value` as the single version of `key` against an explicit
    /// time: the whole history is replaced, not appended to. The
    /// configured policy runs once if the total entry count then exceeds
    /// its cap, and one operation is ticked on the persistence schedule.
    pub fn put_at(&mut self, key: K, value: V, now: Millis) -> (save_due: bool)
        requires
            old(self).wf(),
        ensures
            final(self).wf(),
            final(self).model() == spec_put(
                old(self).model(),
                key,
                value,
                old(self).spec_config(),
                now,
            ),
            final(self).spec_config() == old(self).spec_config(),
            final(self).spec_save_in_flight() == old(self).spec_save_in_flight(),
            save_due == (old(self).spec_op_count() + 1
                >= old(self).spec_config().persistence.sync_interval),
            final(self).spec_op_count() == if save_due {
                0u64
            } else {
                (old(self).spec_op_count() + 1) as u64
            },
    {
        let ghost m0 = self.entries@;
        let k2 = key.key_clone();
        let entry = CacheEntry::<K, V, M>::new_at(k2, value, now);
        proof {
            key.lemma_eqv_reflexive();
        }
        self.entries.replace_history(key, entry);
        proof {
            lemma_replace_total(m0, entry.key, entry);
            lemma_replace_cap(
                m0,
                entry.key,
                entry,
                self.config.max_entries_per_key as int,
            );
        }
        self.apply_capacity_policy(now);
        self.op_tick()
    }

    /// Store `value` as the single version of `key` against the wall
    /// clock.
    pub fn put(&mut self, key: K, value: V) -> (save_due: bool)
        requires
            old(self).wf(),
        ensures
            final(self).wf(),
            exists|now: Millis|
                final(self).model() == #[trigger] spec_put(
                    old(self).model(),
                    key,
                    value,
                    old(self).spec_config(),
                    now,
                ),
            final(self).spec_config() == old(self).spec_config(),
            final(self).spec_save_in_flight() == old(self).spec_save_in_flight(),
            save_due == (old(self).spec_op_count() + 1
                >= old(self).spec_config().persistence.sync_interval),
            final(self).spec_op_count() == if save_due {
                0u64
            } else {
                (old(self).spec_op_count() + 1) as u64
            },
    {
        let now = clock::now_millis();
        self.put_at(key, value, now)
    }

    /// Copy the full history of `key`, marking every returned version as
    /// accessed at the explicit time `now`; absent keys leave the cache
    /// untouched.
    pub fn get_entries_at(&mut self, key: &K, now: Millis) -> (r: Option<
        Vec<CacheEntry<K, V, M>>,
    >)
        requires
            old(self).wf(),
        ensures
            final(self).wf(),
            final(self).spec_config() == old(self).spec_config(),
            final(self).spec_op_count() == old(self).spec_op_count(),
            final(self).spec_save_in_flight() == old(self).spec_save_in_flight(),
            match r {
                Some(h) => map_contains_key(old(self).model(), *key) && h@
                    == storage::accessed_history(
                    storage::map_history_of(old(self).model(), *key),
                    now,
                ) && final(self).model() == storage::map_update_history(
                    old(self).model(),
                    *key,
                    h@,
                ),
                None => !map_contains_key(old(self).model(), *key) && final(self).model() == old(
                    self,
                ).model(),
            },
    {
        let ghost m0 = self.entries@;
        let r = self.entries.access_all(key, now);
        proof {
            if map_contains_key(m0, *key) {
                let i = storage::map_index_of(m0, *key);
                let newh = storage::accessed_history(storage::map_history_of(m0, *key), now);
                storage::lemma_total_update(m0, i, (m0[i].0, newh));
            }
        }
        r
    }

    /// Copy the full history of `key`, marking every returned version as
    /// accessed against the wall clock.
    pub fn get_entries(&mut self, key: &K) -> (r: Option<Vec<CacheEntry<K, V, M>>>)
        requires
            old(self).wf(),
        ensures
            final(self).wf(),
            final(self).spec_config() == old(self).spec_config(),
            final(self).spec_op_count() == old(self).spec_op_count(),
            final(self).spec_save_in_flight() == old(self).spec_save_in_flight(),
            r is Some <==> map_contains_key(old(self).model(), *key),
            r is None ==> final(self).model() == old(self).model(),
            r is Some ==> exists|now: Millis|
                r->Some_0@ == #[trigger] storage::accessed_history(
                    storage::map_history_of(old(self).model(), *key),
                    now,
                ) && final(self).model() == storage::map_update_history(
                    old(self).model(),
                    *key,
                    r->Some_0@,
                ),
    {
        let now = clock::now_millis();
        self.get_entries_at(key, now)
    }

    /// Copy the latest version of `key`'s history — maximal creation
    /// time, the most recently appended among ties — marking only that
    /// version as accessed at the explicit time `now`.
    pub fn get_latest_at(&mut self, key: &K, now: Millis) -> (r: Option<CacheEntry<K, V, M>>)
        requires
            old(self).wf(),
        ensures
            final(self).wf(),
            final(self).spec_config() == old(self).spec_config(),
            final(self).spec_op_count() == old(self).spec_op_count(),
            final(self).spec_save_in_flight() == old(self).spec_save_in_flight(),
            match r {
                Some(e) => map_contains_key(old(self).model(), *key) && (exists|j: int|
                    {
                        &&& #[trigger] storage::is_latest_index(
                            storage::map_history_of(old(self).model(), *key),
                            j,
                        )
                        &&& e == storage::map_history_of(old(self).model(), *key)[j].spec_accessed(
                            now,
                        )
                        &&& final(self).model() == storage::map_update_history(
                            old(self).model(),
                            *key,
                            storage::map_history_of(old(self).model(), *key).update(
                                j,
                                storage::map_history_of(old(self).model(), *key)[j].spec_accessed(
                                    now,
                                ),
                            ),
                        )
                    }),
                None => !map_contains_key(old(self).model(), *key) && final(self).model() == old(
                    self,
                ).model(),
            },
    {
        let ghost m0 = self.entries@;
        let r = self.entries.access_latest(key, now);
        proof {
            if r is Some {
                let h = storage::map_history_of(m0, *key);
                let j = choose|j: int|
                    {
                        &&& #[trigger] storage::is_latest_index(h, j)
                        &&& r->Some_0 == h[j].spec_accessed(now)
                        &&& self.entries@ == storage::map_update_history(
                            m0,
                            *key,
                            h.update(j, h[j].spec_accessed(now)),
                        )
                    };
                let i = storage::map_index_of(m0, *key);
                storage::lemma_total_update(
                    m0,
                    i,
                    (m0[i].0, h.update(j, h[j].spec_accessed(now))),
                );
            }
        }
        r
    }

    /// Copy the latest version of `key`'s history, marking only that
    /// version as accessed against the wall clock: the result and the
    /// stored map are the `get_latest` outcome at some clock reading.
    pub fn get_latest(&mut self, key: &K) -> (r: Option<CacheEntry<K, V, M>>)
        requires
            old(self).wf(),
        ensures
            final(self).wf(),
            final(self).spec_config() == old(self).spec_config(),
            final(self).spec_op_count() == old(self).spec_op_count(),
            final(self).spec_save_in_flight() == old(self).spec_save_in_flight(),
            r is Some <==> map_contains_key(old(self).model(), *key),
            r is None ==> final(self).model() == old(self).model(),
            r is Some ==> exists|j: int, now: Millis|
                {
                    &&& storage::is_latest_index(
                        storage::map_history_of(old(self).model(), *key),
                        j,
                    )
                    &&& r->Some_0 == #[trigger] storage::map_history_of(
                        old(self).model(),
                        *key,
                    )[j].spec_accessed(now)
                    &&& final(self).model() == storage::map_update_history(
                        old(self).model(),
                        *key,
                        storage::map_history_of(old(self).model(), *key).update(
                            j,
                            storage::map_history_of(old(self).model(), *key)[j].spec_accessed(now),
                        ),
                    )
                },
    {
        let now = clock::now_millis();
        let r = self.get_latest_at(key, now);
        proof {
            if r is Some {
                let h = storage::map_history_of(old(self).model(), *key);
                let j = choose|j: int|
                    {
                        &&& #[trigger] storage::is_latest_index(h, j)
                        &&& r->Some_0 == h[j].spec_accessed(now)
                        &&& self.model() == storage::map_update_history(
                            old(self).model(),
                            *key,
                            h.update(j, h[j].spec_accessed(now)),
                        )
                    };
                assert(r->Some_0 == h[j].spec_accessed(now));
            }
        }
        r
    }

    /// The value of the latest version of `key`, whose access statistics
    /// are updated on the way, as a plain key-to-value lookup: the value
    /// is exactly the latest version's, and the stored map is that
    /// version's access update at some clock reading.
    pub fn get(&mut self, key: &K) -> (r: Option<V>)
        requires
            old(self).wf(),
        ensures
            final(self).wf(),
            final(self).spec_config() == old(self).spec_config(),
            final(self).spec_op_count() == old(self).spec_op_count(),
            final(self).spec_save_in_flight() == old(self).spec_save_in_flight(),
            r is Some <==> map_contains_key(old(self).model(), *key),
            r is None ==> final(self).model() == old(self).model(),
            r is Some ==> exists|j: int, now: Millis|
                {
                    &&& storage::is_latest_index(
                        storage::map_history_of(old(self).model(), *key),
                        j,
                    )
                    &&& r->Some_0 == storage::map_history_of(old(self).model(), *key)[j].value
                    &&& final(self).model() == storage::map_update_history(
                        old(self).model(),
                        *key,
                        storage::map_history_of(old(self).model(), *key).update(
                            j,
                            #[trigger] storage::map_history_of(
                                old(self).model(),
                                *key,
                            )[j].spec_accessed(now),
                        ),
                    )
                },
    {
        let latest = self.get_latest(key);
        let ghost l = latest;
        let r = match latest {
            Some(e) => Some(e.value),
            None => None,
        };
        proof {
            if r is Some {
                let h = storage::map_history_of(old(self).model(), *key);
                let (j, n): (int, Millis) = choose|j: int, n: Millis|
                    {
                        &&& storage::is_latest_index(h, j)
                        &&& l->Some_0 == #[trigger] h[j].spec_accessed(n)
                        &&& self.model() == storage::map_update_history(
                            old(self).model(),
                            *key,
                            h.update(j, h[j].spec_accessed(n)),
                        )
                    };
                assert(l->Some_0 == h[j].spec_accessed(n));
                assert(r->Some_0 == h[j].value);
            }
        }
        r
    }

    /// Replace the whole map by a loaded snapshot, tolerating partial or
    /// corrupt data: each pair is installed left to right as
    /// `install_fold` says, so histories are truncated to the newest
    /// versions within the per-key cap, and empty, duplicate-key,
    /// mismatched-key or cap-exceeding pairs are skipped rather than
    /// treated as fatal.
    pub fn install_loaded(&mut self, loaded: Vec<(K, Vec<CacheEntry<K, V, M>>)>)
        requires
            old(self).wf(),
        ensures
            final(self).wf(),
            final(self).model() == install_fold(
                Seq::empty(),
                pairs_view(loaded@),
                old(self).spec_config(),
            ),
            final(self).spec_config() == old(self).spec_config(),
            final(self).spec_op_count() == old(self).spec_op_count(),
            final(self).spec_save_in_flight() == old(self).spec_save_in_flight(),
    {
        let ghost cfg = self.config;
        let ghost pv = pairs_view(loaded@);
        let ghost target = install_fold(Seq::empty(), pv, cfg);
        let cap = self.config.max_entries_per_key;
        let max = self.config.max_total_entries;
        self.entries.clear();
        proof {
            assert(pv.skip(0) =~= pv);
            assert(self.model() =~= Seq::<(K, Seq<CacheEntry<K, V, M>>)>::empty());
        }
        let mut i: usize = 0;
        while i < loaded.len()
            invariant
                self.wf(),
                self.spec_config() == cfg,
                self.spec_op_count() == old(self).spec_op_count(),
                self.spec_save_in_flight() == old(self).spec_save_in_flight(),
                cap == cfg.max_entries_per_key,
                max == cfg.max_total_entries,
                pv == pairs_view(loaded@),
                i <= loaded@.len() == pv.len(),
                install_fold(self.model(), pv.skip(i as int), cfg) == target,
            decreases loaded.len() - i,
        {
            let ghost acc = self.model();
            let ghost p = pv[i as int];
            proof {
                assert(pv.skip(i as int).first() == p);
                assert(pv.skip(i as int).drop_first() =~= pv.skip(i as int + 1));
            }
            let h_full = &loaded[i].1;
            let start: usize = if h_full.len() > cap {
                h_full.len() - cap
            } else {
                0
            };
            let mut kept: Vec<CacheEntry<K, V, M>> = Vec::new();
            let mut j: usize = start;
            while j < h_full.len()
                invariant
                    start <= j <= h_full@.len(),
                    h_full@ == pv[i as int].1,
                    i < loaded@.len() == pv.len(),
                    pv == pairs_view(loaded@),
                    h_full == &loaded@[i as int].1,
                    kept@ =~= pv[i as int].1.subrange(start as int, j as int),
                decreases h_full.len() - j,
            {
                kept.push(h_full[j].entry_clone());
                j = j + 1;
            }
            let ghost ht = trunc_last(p.1, cap as int);
            proof {
                assert(kept@ =~= ht);
            }
            let ghost ok = ht.len() > 0 && !map_contains_key(acc, p.0) && all_keys_match(ht, p.0)
                && (cfg.eviction_policy == EvictionPolicy::Disabled || map_total(acc) + ht.len()
                <= cfg.max_total_entries);
            if kept.len() > 0 {
                let key = loaded[i].0.key_clone();
                if !self.entries.contains_key(&key) {
                    let mut keys_ok = true;
                    let mut l: usize = 0;
                    while l < kept.len()
                        invariant
                            l <= kept@.len(),
                            kept@ == ht,
                            key == p.0,
                            keys_ok ==> forall|a: int|
                                0 <= a < l ==> (#[trigger] ht[a]).key.key_eqv(&p.0),
                            !keys_ok ==> !all_keys_match(ht, p.0),
                        decreases kept.len() - l,
                    {
                        if !kept[l].key.key_eq(&key) {
                            keys_ok = false;
                            l = kept.len();
                        } else {
                            l = l + 1;
                        }
                    }
                    if keys_ok {
                        let fits: bool = if self.config.eviction_policy
                            == EvictionPolicy::Disabled {
                            true
                        } else {
                            proof {
                                storage::lemma_total_nonneg(self.model());
                            }
                            let total = self.entries.total_entries();
                            kept.len() <= max && total <= max - kept.len()
                        };
                        if fits {
                            proof {
                                assert(ok);
                            }
                            self.entries.push_pair(key, kept);
                            proof {
                                storage::lemma_total_push(acc, (p.0, ht));
                            }
                        } else {
                            proof {
                                assert(!ok);
                            }
                        }
                    } else {
                        proof {
                            assert(!ok);
                        }
                    }
                } else {
                    proof {
                        assert(!ok);
                    }
                }
            } else {
                proof {
                    assert(!ok);
                }
            }
            proof {
                if ok {
                    assert(self.model() == acc.push((p.0, ht)));
                } else {
                    assert(self.model() == acc);
                }
                assert(install_fold(self.model(), pv.skip(i as int + 1), cfg) == target);
            }
            i = i + 1;
        }
        proof {
            assert(pv.skip(pv.len() as int) =~= Seq::<(K, Seq<CacheEntry<K, V, M>>)>::empty());
        }
    }

    /// Copy every entry the query's matcher accepts, across all keys and
    /// versions, in map order. The scan is read-only: unlike lookups, it
    /// does not touch access statistics.
    pub fn search<Q>(&self, query: &Q) -> (r: Vec<CacheEntry<K, V, M>>) where
        CacheEntry<K, V, M>: crate::search::Searchable<Query = Q>,

        ensures
            r@ == search_spec(self.model(), query),
    {
        let ghost m = self.model();
        let mut out: Vec<CacheEntry<K, V, M>> = Vec::new();
        let n = self.entries.key_count();
        proof {
            assert(m.take(0) =~= Seq::<(K, Seq<CacheEntry<K, V, M>>)>::empty());
            assert(out@ =~= search_spec(m.take(0), query));
        }
        let mut i: usize = 0;
        while i < n
            invariant
                m == self.model(),
                i <= n == m.len(),
                out@ == search_spec(m.take(i as int), query),
            decreases n - i,
        {
            let h = self.entries.history_at(i);
            let ghost h0 = h@;
            let mut j: usize = 0;
            proof {
                assert(h0.take(0) =~= Seq::<CacheEntry<K, V, M>>::empty());
                assert(out@ =~= search_spec(m.take(i as int), query) + filter_matching(
                    h0.take(0),
                    query,
                ));
            }
            while j < h.len()
                invariant
                    m == self.model(),
                    i < m.len(),
                    h@ == h0,
                    h0 == m[i as int].1,
                    j <= h0.len(),
                    out@ == search_spec(m.take(i as int), query) + filter_matching(
                        h0.take(j as int),
                        query,
                    ),
                decreases h.len() - j,
            {
                proof {
                    assert(h0.take(j as int + 1).drop_last() =~= h0.take(j as int));
                    assert(h0.take(j as int + 1).last() == h0[j as int]);
                }
                if h[j].matches(query) {
                    out.push(h[j].entry_clone());
                    proof {
                        assert(filter_matching(h0.take(j as int + 1), query) == filter_matching(
                            h0.take(j as int),
                            query,
                        ).push(h0[j as int]));
                        assert(out@ =~= search_spec(m.take(i as int), query) + filter_matching(
                            h0.take(j as int + 1),
                            query,
                        ));
                    }
                } else {
                    proof {
                        assert(filter_matching(h0.take(j as int + 1), query) == filter_matching(
                            h0.take(j as int),
                            query,
                        ));
                    }
                }
                j = j + 1;
            }
            proof {
                assert(h0.take(h0.len() as int) =~= h0);
                assert(m.take(i as int + 1).drop_last() =~= m.take(i as int));
                assert(m.take(i as int + 1).last() == m[i as int]);
            }
            i = i + 1;
        }
        proof {
            assert(m.take(m.len() as int) =~= m);
        }
        out
    }

    /// Compute the derived counts against an explicit time: the exact
    /// total entry and key counts, the summed access count (saturating at
    /// the largest machine value), and how many entries are expired at
    /// `now`. The scan mutates nothing.
    pub fn get_stats_at(&self, now: Millis) -> (r: CacheStats)
        requires
            self.wf(),
            map_total(self.model()) <= usize::MAX,
        ensures
            r.total_entries == map_total(self.model()),
            r.total_keys == self.model().len(),
            r.total_access_count == sat64(sum_access_total(self.model())),
            r.expired_count == count_expired(self.model(), now),
            r.memory_usage_bytes == 0,
    {
        let ghost m = self.model();
        let total_entries = self.entries.total_entries();
        let total_keys = self.entries.key_count();
        let mut acc: u64 = 0;
        let mut expired: usize = 0;
        let mut i: usize = 0;
        proof {
            assert(m.take(0) =~= Seq::empty());
        }
        while i < total_keys
            invariant
                self.wf(),
                map_total(m) <= usize::MAX,
                m == self.model(),
                i <= total_keys == m.len(),
                acc == sat64(sum_access_total(m.take(i as int))),
                expired == count_expired(m.take(i as int), now),
            decreases total_keys - i,
        {
            let h = self.entries.history_at(i);
            let ghost h0 = h@;
            let mut j: usize = 0;
            proof {
                assert(h0.take(0) =~= Seq::empty());
            }
            while j < h.len()
                invariant
                    self.wf(),
                    map_total(m) <= usize::MAX,
                    m == self.model(),
                    i < m.len(),
                    h@ == h0,
                    h0 == m[i as int].1,
                    j <= h0.len(),
                    acc == sat64(
                        sum_access_total(m.take(i as int)) + eviction::sum_access_count(
                            h0.take(j as int),
                        ),
                    ),
                    expired == count_expired(m.take(i as int), now) + count_expired_hist(
                        h0.take(j as int),
                        now,
                    ),
                decreases h.len() - j,
            {
                proof {
                    assert(h0.take(j as int + 1).drop_last() =~= h0.take(j as int));
                    lemma_sum_access_total_nonneg(m.take(i as int));
                    eviction::lemma_sum_access_count_nonneg(h0.take(j as int));
                    lemma_count_expired_bound(m.take(i as int), now);
                    lemma_count_expired_hist_bound(h0.take(j as int + 1), now);
                    storage::lemma_total_take_step(m, i as int);
                    storage::lemma_total_take_bound(m, i as int + 1);
                    assert(count_expired(m.take(i as int), now) <= map_total(m.take(i as int)));
                    assert(count_expired_hist(h0.take(j as int + 1), now) <= h0.len());
                }
                acc = acc.saturating_add(h[j].access_count);
                if h[j].is_expired_at(now) {
                    expired = expired + 1;
                }
                j = j + 1;
            }
            proof {
                assert(h0.take(h0.len() as int) =~= h0);
                assert(m.take(i as int + 1).drop_last() =~= m.take(i as int));
                assert(m.take(i as int + 1).last() == m[i as int]);
            }
            i = i + 1;
        }
        proof {
            assert(m.take(m.len() as int) =~= m);
        }
        CacheStats {
            total_entries,
            total_keys,
            total_access_count: acc,
            expired_count: expired,
            memory_usage_bytes: 0,
        }
    }

    /// Compute the derived counts against the wall clock: every count but
    /// the expired one is independent of the clock and exact.
    pub fn get_stats(&self) -> (r: CacheStats)
        requires
            self.wf(),
            map_total(self.model()) <= usize::MAX,
        ensures
            r.total_entries == map_total(self.model()),
            r.total_keys == self.model().len(),
            r.total_access_count == sat64(sum_access_total(self.model())),
            exists|now: Millis| r.expired_count == #[trigger] count_expired(self.model(), now),
            r.expired_count <= r.total_entries,
            r.memory_usage_bytes == 0,
    {
        let now = clock::now_millis();
        let r = self.get_stats_at(now);
        proof {
            lemma_count_expired_bound(self.model(), now);
        }
        r
    }

    /// Remove the whole history of `key` from memory and hand back the
    /// value of its most recent version; an absent key is a no-op that
    /// returns nothing. The second component says whether the removal
    /// ticked the persistence schedule into a due save; the caller is
    /// expected to propagate the removal to the backend.
    pub fn remove(&mut self, key: &K) -> (r: (Option<V>, bool))
        requires
            old(self).wf(),
        ensures
            final(self).wf(),
            final(self).spec_config() == old(self).spec_config(),
            final(self).spec_save_in_flight() == old(self).spec_save_in_flight(),
            match r.0 {
                Some(v) => {
                    &&& map_contains_key(old(self).model(), *key)
                    &&& v == storage::map_history_of(old(self).model(), *key).last().value
                    &&& final(self).model() == old(self).model().remove(
                        storage::map_index_of(old(self).model(), *key),
                    )
                    &&& !map_contains_key(final(self).model(), *key)
                    &&& r.1 == (old(self).spec_op_count() + 1
                        >= old(self).spec_config().persistence.sync_interval)
                    &&& final(self).spec_op_count() == if r.1 {
                        0u64
                    } else {
                        (old(self).spec_op_count() + 1) as u64
                    }
                },
                None => {
                    &&& !map_contains_key(old(self).model(), *key)
                    &&& final(self).model() == old(self).model()
                    &&& r.1 == false
                    &&& final(self).spec_op_count() == old(self).spec_op_count()
                },
            },
    {
        let ghost m0 = self.entries@;
        match self.entries.remove_key(key) {
            Some(h) => {
                proof {
                    let i = storage::map_index_of(m0, *key);
                    storage::lemma_total_remove(m0, i);
                    lemma_remove_cap(m0, i, self.config.max_entries_per_key as int);
                    if self.config.eviction_policy != EvictionPolicy::Disabled {
                        storage::lemma_total_nonneg(self.entries@);
                    }
                    let m1 = m0.remove(i);
                    if map_contains_key(m1, *key) {
                        let a = choose|a: int|
                            0 <= a < m1.len() && (#[trigger] m1[a]).0.key_eqv(key);
                        let a0 = if a < i {
                            a
                        } else {
                            a + 1
                        };
                        assert(m0[a0].0.key_eqv(key));
                        storage::lemma_index_unique(m0, *key, a0, i);
                    }
                }
                let mut h = h;
                let e = match h.pop() {
                    Some(e) => e,
                    None => {
                        proof {
                            assert(false);
                        }
                        unreached()
                    },
                };
                let due = self.op_tick();
                (Some(e.value), due)
            },
            None => (None, false),
        }
    }
}

/// The newest `cap` versions of a history; the whole history when it is
/// within the cap.
pub open spec fn trunc_last<K, V, M>(h: Seq<CacheEntry<K, V, M>>, cap: int) -> Seq<
    CacheEntry<K, V, M>,
> {
    if h.len() <= cap {
        h
    } else {
        h.subrange(h.len() - cap, h.len() as int)
    }
}

/// Whether every version of a history carries (a key equivalent to) `k`.
pub open spec fn all_keys_match<K: CacheKey, V, M>(h: Seq<CacheEntry<K, V, M>>, k: K) -> bool {
    forall|j: int| 0 <= j < h.len() ==> (#[trigger] h[j]).key.key_eqv(&k)
}

/// The raw pairs of a loaded snapshot, as the map model they describe.
pub open spec fn pairs_view<K, V, M>(v: Seq<(K, Vec<CacheEntry<K, V, M>>)>) -> MapModel<K, V, M> {
    v.map_values(|p: (K, Vec<CacheEntry<K, V, M>>)| (p.0, p.1@))
}

/// What installing loaded pairs builds, left to right on top of `acc`: a
/// pair is taken when its history, truncated to the newest versions within
/// the per-key cap, is non-empty, carries its own key throughout, is not a
/// duplicate of a key taken before, and fits under the total cap (unless
/// eviction is disabled); anything else — the tolerated shape of partial
/// or corrupt data — is skipped.
pub open spec fn install_fold<K: CacheKey, V, M>(
    acc: MapModel<K, V, M>,
    pairs: MapModel<K, V, M>,
    config: CacheConfig,
) -> MapModel<K, V, M>
    decreases pairs.len(),
{
    if pairs.len() == 0 {
        acc
    } else {
        let p = pairs.first();
        let h = trunc_last(p.1, config.max_entries_per_key as int);
        let ok = h.len() > 0 && !map_contains_key(acc, p.0) && all_keys_match(h, p.0) && (
        config.eviction_policy == EvictionPolicy::Disabled || map_total(acc) + h.len()
            <= config.max_total_entries);
        let acc2 = if ok {
            acc.push((p.0, h))
        } else {
            acc
        };
        install_fold(acc2, pairs.drop_first(), config)
    }
}

/// Law: `add_entry` extends exactly its key's history — pushing the new
/// version and, once the history is at the per-key cap, dropping the
/// oldest version first. Together with `apply_adds` over a whole sequence
/// of versions this pins the history after any run of `add_entry` calls
/// on one key; the history can never exceed the cap. Stated for the adds
/// on which eviction does not fire, which could remove the key again:
/// either eviction is disabled, or the map after the push is within its
/// total cap.
pub proof fn lemma_add_entry_extends_history<K: CacheKey, V, M>(
    m: MapModel<K, V, M>,
    e: CacheEntry<K, V, M>,
    config: CacheConfig,
    now: Millis,
)
    requires
        map_wf(m),
        config.valid(),
        config.eviction_policy == EvictionPolicy::Disabled || map_total(
            storage::spec_push_version(m, e, config.max_entries_per_key as int),
        ) <= config.max_total_entries,
    ensures
        ({
            let m2 = spec_add_entry(m, e, config, now);
            let prior = if map_contains_key(m, e.key) {
                storage::map_history_of(m, e.key)
            } else {
                Seq::empty()
            };
            &&& map_contains_key(m2, e.key)
            &&& storage::map_history_of(m2, e.key) == storage::push_trunc(
                prior,
                e,
                config.max_entries_per_key as int,
            )
        }),
{
    let cap = config.max_entries_per_key as int;
    let m2 = spec_add_entry(m, e, config, now);
    let pushed = storage::spec_push_version(m, e, cap);
    assert(m2 == pushed);
    e.key.lemma_eqv_reflexive();
    if map_contains_key(m, e.key) {
        let i = storage::map_index_of(m, e.key);
        let newh = storage::push_trunc(m[i].1, e, cap);
        assert forall|j: int| 0 <= j < newh.len() implies (#[trigger] newh[j]).key.key_eqv(
            &m[i].0,
        ) by {
            if newh[j] == e {
                m[i].0.lemma_eqv_symmetric(&e.key);
                e.key.lemma_eqv_transitive(&e.key, &m[i].0);
            }
        }
        storage::lemma_wf_update(m, i, newh);
        assert(pushed[i].0.key_eqv(&e.key));
        assert(map_contains_key(pushed, e.key));
        let i2 = storage::map_index_of(pushed, e.key);
        storage::lemma_index_unique(pushed, e.key, i2, i);
    } else {
        storage::lemma_wf_push(m, e.key, seq![e]);
        let n = m.len() as int;
        assert(pushed[n].0.key_eqv(&e.key));
        assert(map_contains_key(pushed, e.key));
        let i2 = storage::map_index_of(pushed, e.key);
        storage::lemma_index_unique(pushed, e.key, i2, n);
        assert(storage::push_trunc(Seq::<CacheEntry<K, V, M>>::empty(), e, cap) =~= seq![e]);
    }
}

/// Law: the wall clock plays no part in `add_entry` except under the
/// time-to-live policy, whose sweep asks which versions are expired now.
pub proof fn lemma_add_entry_ignores_clock<K: CacheKey, V, M>(
    m: MapModel<K, V, M>,
    e: CacheEntry<K, V, M>,
    config: CacheConfig,
    n1: Millis,
    n2: Millis,
)
    requires
        config.eviction_policy != EvictionPolicy::Ttl,
    ensures
        spec_add_entry(m, e, config, n1) == spec_add_entry(m, e, config, n2),
{
}

/// Installing a suffix of a well-formed map on top of its own prefix
/// takes every remaining pair unchanged.
proof fn lemma_install_fold_extends<K: CacheKey, V, M>(
    m: MapModel<K, V, M>,
    i: int,
    config: CacheConfig,
)
    requires
        map_wf(m),
        config.valid(),
        forall|l: int| 0 <= l < m.len() ==> (#[trigger] m[l]).1.len() <= config.max_entries_per_key,
        config.eviction_policy != EvictionPolicy::Disabled ==> map_total(m)
            <= config.max_total_entries,
        0 <= i <= m.len(),
    ensures
        install_fold(m.take(i), m.skip(i), config) == m,
    decreases m.len() - i,
{
    if i == m.len() {
        assert(m.take(i) =~= m);
        assert(m.skip(i).len() == 0);
    } else {
        let acc = m.take(i);
        let rest = m.skip(i);
        assert(rest.first() == m[i]);
        let h = trunc_last(m[i].1, config.max_entries_per_key as int);
        assert(h == m[i].1);
        if map_contains_key(acc, m[i].0) {
            let a = choose|a: int| 0 <= a < acc.len() && (#[trigger] acc[a]).0.key_eqv(&m[i].0);
            assert(m[a].0.key_eqv(&m[i].0));
            assert(false);
        }
        assert(all_keys_match(h, m[i].0));
        if config.eviction_policy != EvictionPolicy::Disabled {
            storage::lemma_total_take_step(m, i);
            storage::lemma_total_take_bound(m, i + 1);
        }
        assert(acc.push(m[i]) =~= m.take(i + 1));
        assert(rest.drop_first() =~= m.skip(i + 1));
        lemma_install_fold_extends(m, i + 1, config);
    }
}

/// Law: a snapshot of a well-formed cache map, handed back unchanged by a
/// backend, installs to exactly the same map — the load after a save
/// reproduces every key with its history.
pub proof fn lemma_install_reproduces_snapshot<K: CacheKey, V, M>(
    m: MapModel<K, V, M>,
    config: CacheConfig,
)
    requires
        map_wf(m),
        config.valid(),
        forall|l: int| 0 <= l < m.len() ==> (#[trigger] m[l]).1.len() <= config.max_entries_per_key,
        config.eviction_policy != EvictionPolicy::Disabled ==> map_total(m)
            <= config.max_total_entries,
    ensures
        install_fold(Seq::empty(), m, config) == m,
{
    assert(m.take(0) =~= Seq::<(K, Seq<CacheEntry<K, V, M>>)>::empty());
    assert(m.skip(0) =~= m);
    lemma_install_fold_extends(m, 0, config);
}

/// The entry a `put` of `key` and `value` at time `now` stores.
pub open spec fn put_entry<K, V, M: EntryMetadata>(k: K, v: V, now: Millis) -> CacheEntry<
    K,
    V,
    M,
> {
    CacheEntry {
        key: k,
        value: v,
        metadata: M::spec_default(),
        timestamp: now,
        last_accessed: now,
        access_count: 0u64,
        ttl: None::<Millis>,
    }
}

/// Law: a `put` followed by a `get` of the same key returns the value just
/// put, and the key's history holds exactly that one fresh version — a
/// second `put` replaces rather than appends. Stated for the puts that do
/// not trigger eviction, which could remove the key again: either eviction
/// is disabled, or the map after the replacement is within its total cap.
pub proof fn lemma_put_then_get<K: CacheKey, V, M: EntryMetadata>(
    m: MapModel<K, V, M>,
    k: K,
    v: V,
    config: CacheConfig,
    now: Millis,
)
    requires
        map_wf(m),
        config.valid(),
        config.eviction_policy == EvictionPolicy::Disabled || map_total(
            storage::spec_replace(m, k, put_entry::<K, V, M>(k, v, now)),
        ) <= config.max_total_entries,
    ensures
        ({
            let m2 = spec_put(m, k, v, config, now);
            &&& map_contains_key(m2, k)
            &&& storage::map_history_of(m2, k) == seq![put_entry::<K, V, M>(k, v, now)]
            &&& storage::map_history_of(m2, k).len() == 1
            &&& storage::is_latest_index(storage::map_history_of(m2, k), 0)
            &&& storage::map_history_of(m2, k)[0].value == v
        }),
{
    let e = put_entry::<K, V, M>(k, v, now);
    let m2 = spec_put(m, k, v, config, now);
    let rep = storage::spec_replace(m, k, e);
    assert(m2 == rep);
    k.lemma_eqv_reflexive();
    if map_contains_key(m, k) {
        let i = storage::map_index_of(m, k);
        assert(m[i].0.key_eqv(&k));
        assert forall|j: int| 0 <= j < seq![e].len() implies (#[trigger] seq![e][j]).key.key_eqv(
            &m[i].0,
        ) by {
            m[i].0.lemma_eqv_symmetric(&k);
        }
        storage::lemma_wf_update(m, i, seq![e]);
        assert(rep[i].0.key_eqv(&k));
        assert(map_contains_key(rep, k));
        let i2 = storage::map_index_of(rep, k);
        storage::lemma_index_unique(rep, k, i2, i);
        assert(storage::map_history_of(rep, k) == seq![e]);
    } else {
        storage::lemma_wf_push(m, k, seq![e]);
        let n = m.len() as int;
        assert(rep[n].0.key_eqv(&k));
        assert(map_contains_key(rep, k));
        let i2 = storage::map_index_of(rep, k);
        storage::lemma_index_unique(rep, k, i2, n);
        assert(storage::map_history_of(rep, k) == seq![e]);
    }
    assert(seq![e][0] == e);
}

/// The versions of a history that a query accepts, in order.
pub open spec fn filter_matching<K, V, M, Q>(h: Seq<CacheEntry<K, V, M>>, q: &Q) -> Seq<
    CacheEntry<K, V, M>,
> where CacheEntry<K, V, M>: Searchable<Query = Q>
    decreases h.len(),
{
    if h.len() == 0 {
        Seq::empty()
    } else {
        let rest = filter_matching(h.drop_last(), q);
        if h.last().match_spec(q) {
            rest.push(h.last())
        } else {
            rest
        }
    }
}

/// Every entry of the map that a query accepts, across all keys and
/// versions, in map order.
pub open spec fn search_spec<K, V, M, Q>(m: MapModel<K, V, M>, q: &Q) -> Seq<
    CacheEntry<K, V, M>,
> where CacheEntry<K, V, M>: Searchable<Query = Q>
    decreases m.len(),
{
    if m.len() == 0 {
        Seq::empty()
    } else {
        search_spec(m.drop_last(), q) + filter_matching(m.last().1, q)
    }
}

/// The summed access count of every entry in the map.
pub open spec fn sum_access_total<K, V, M>(m: MapModel<K, V, M>) -> int
    decreases m.len(),
{
    if m.len() == 0 {
        0
    } else {
        sum_access_total(m.drop_last()) + eviction::sum_access_count(m.last().1)
    }
}

/// How many versions of a history are expired at time `now`.
pub open spec fn count_expired_hist<K, V, M>(h: Seq<CacheEntry<K, V, M>>, now: Millis) -> int
    decreases h.len(),
{
    if h.len() == 0 {
        0
    } else {
        count_expired_hist(h.drop_last(), now) + if h.last().spec_expired_at(now) {
            1int
        } else {
            0int
        }
    }
}

/// How many entries of the map are expired at time `now`.
pub open spec fn count_expired<K, V, M>(m: MapModel<K, V, M>, now: Millis) -> int
    decreases m.len(),
{
    if m.len() == 0 {
        0
    } else {
        count_expired(m.drop_last(), now) + count_expired_hist(m.last().1, now)
    }
}

/// An integer clamped from above to the largest `u64` value.
pub open spec fn sat64(x: int) -> int {
    if x > u64::MAX {
        u64::MAX as int
    } else {
        x
    }
}

/// A summed access count is never negative.
pub proof fn lemma_sum_access_total_nonneg<K, V, M>(m: MapModel<K, V, M>)
    ensures
        sum_access_total(m) >= 0,
    decreases m.len(),
{
    if m.len() > 0 {
        lemma_sum_access_total_nonneg(m.drop_last());
        eviction::lemma_sum_access_count_nonneg(m.last().1);
    }
}

/// A history's expired count never exceeds its length.
pub proof fn lemma_count_expired_hist_bound<K, V, M>(h: Seq<CacheEntry<K, V, M>>, now: Millis)
    ensures
        0 <= count_expired_hist(h, now) <= h.len(),
    decreases h.len(),
{
    if h.len() > 0 {
        lemma_count_expired_hist_bound(h.drop_last(), now);
    }
}

/// The map's expired count never exceeds its total entry count.
pub proof fn lemma_count_expired_bound<K, V, M>(m: MapModel<K, V, M>, now: Millis)
    ensures
        0 <= count_expired(m, now) <= map_total(m),
    decreases m.len(),
{
    if m.len() > 0 {
        lemma_count_expired_bound(m.drop_last(), now);
        lemma_count_expired_hist_bound(m.last().1, now);
    }
}

/// The map after `put`: a fresh single version of `key` replaces the
/// whole history, and if the total entry count then exceeds its cap, the
/// configured policy runs once.
pub open spec fn spec_put<K: CacheKey, V, M: EntryMetadata>(
    m: MapModel<K, V, M>,
    k: K,
    v: V,
    config: CacheConfig,
    now: Millis,
) -> MapModel<K, V, M> {
    let e = CacheEntry {
        key: k,
        value: v,
        metadata: M::spec_default(),
        timestamp: now,
        last_accessed: now,
        access_count: 0u64,
        ttl: None::<Millis>,
    };
    let rep = storage::spec_replace(m, k, e);
    if config.eviction_policy != EvictionPolicy::Disabled && map_total(rep)
        > config.max_total_entries {
        spec_policy_evict(rep, config.eviction_policy, config.max_total_entries as int, now)
    } else {
        rep
    }
}

/// Replacing a history by a single version grows the total entry count by
/// at most one.
pub proof fn lemma_replace_total<K: CacheKey, V, M>(
    m: MapModel<K, V, M>,
    k: K,
    e: CacheEntry<K, V, M>,
)
    requires
        map_wf(m),
    ensures
        map_total(storage::spec_replace(m, k, e)) <= map_total(m) + 1,
        storage::spec_replace(m, k, e).len() > 0,
{
    if map_contains_key(m, k) {
        let i = storage::map_index_of(m, k);
        storage::lemma_total_update(m, i, (m[i].0, seq![e]));
    } else {
        storage::lemma_total_push(m, (k, seq![e]));
    }
}

/// Replacing a history by a single version keeps every history within a
/// positive per-key cap.
pub proof fn lemma_replace_cap<K: CacheKey, V, M>(
    m: MapModel<K, V, M>,
    k: K,
    e: CacheEntry<K, V, M>,
    cap: int,
)
    requires
        map_wf(m),
        cap >= 1,
        forall|i: int| 0 <= i < m.len() ==> (#[trigger] m[i]).1.len() <= cap,
    ensures
        forall|i: int|
            0 <= i < storage::spec_replace(m, k, e).len() ==> (#[trigger] storage::spec_replace(
                m,
                k,
                e,
            )[i]).1.len() <= cap,
{
    let m2 = storage::spec_replace(m, k, e);
    assert forall|i: int| 0 <= i < m2.len() implies (#[trigger] m2[i]).1.len() <= cap by {
        if map_contains_key(m, k) {
            let j = storage::map_index_of(m, k);
            if i != j {
                assert(m2[i] == m[i]);
            }
        } else {
            if i < m.len() {
                assert(m2[i] == m[i]);
            }
        }
    }
}

/// What one run of a single-victim policy did to a map agrees with its
/// specification: the unique victim came out, and the caps survive.
proof fn lemma_single_evict_agrees<K: CacheKey, V, M>(
    m0: MapModel<K, V, M>,
    m1: MapModel<K, V, M>,
    metric: EvictionMetric,
    cap: int,
)
    requires
        m0.len() > 0,
        exists|i: int| #[trigger] eviction::is_victim(m0, metric, i) && m1 == m0.remove(i),
        storage::histories_nonempty(m0),
        forall|i: int| 0 <= i < m0.len() ==> (#[trigger] m0[i]).1.len() <= cap,
    ensures
        m1 == eviction::spec_evict_once(m0, metric),
        map_total(m1) <= map_total(m0) - 1,
        forall|i: int| 0 <= i < m1.len() ==> (#[trigger] m1[i]).1.len() <= cap,
{
    let i = choose|i: int| #[trigger] eviction::is_victim(m0, metric, i) && m1 == m0.remove(i);
    let v = eviction::victim_of(m0, metric);
    assert(eviction::is_victim(m0, metric, v));
    eviction::lemma_victim_unique(m0, metric, i, v);
    storage::lemma_total_remove(m0, i);
    lemma_remove_cap(m0, i, cap);
}

/// The map after one run of the configured policy.
pub open spec fn spec_policy_evict<K: CacheKey, V, M>(
    m: MapModel<K, V, M>,
    policy: EvictionPolicy,
    max_total: int,
    now: Millis,
) -> MapModel<K, V, M> {
    match policy {
        EvictionPolicy::Lru => eviction::spec_evict_once(m, EvictionMetric::OldestAccess),
        EvictionPolicy::Lfu => eviction::spec_evict_once(m, EvictionMetric::FewestAccesses),
        EvictionPolicy::Fifo => eviction::spec_evict_once(m, EvictionMetric::OldestCreation),
        EvictionPolicy::Ttl => eviction::spec_ttl_evict(m, max_total, now),
        EvictionPolicy::Disabled => m,
    }
}

/// The map after `add_entry`: the entry joins its key's history under the
/// per-key cap, and if the total entry count then exceeds its cap, the
/// configured policy runs once.
pub open spec fn spec_add_entry<K: CacheKey, V, M>(
    m: MapModel<K, V, M>,
    e: CacheEntry<K, V, M>,
    config: CacheConfig,
    now: Millis,
) -> MapModel<K, V, M> {
    let pushed = storage::spec_push_version(m, e, config.max_entries_per_key as int);
    if config.eviction_policy != EvictionPolicy::Disabled && map_total(pushed)
        > config.max_total_entries {
        spec_policy_evict(pushed, config.eviction_policy, config.max_total_entries as int, now)
    } else {
        pushed
    }
}

/// Appending a version grows the total entry count by at most one.
pub proof fn lemma_push_version_total<K: CacheKey, V, M>(
    m: MapModel<K, V, M>,
    e: CacheEntry<K, V, M>,
    cap: int,
)
    requires
        map_wf(m),
        cap >= 1,
    ensures
        map_total(storage::spec_push_version(m, e, cap)) <= map_total(m) + 1,
        storage::spec_push_version(m, e, cap).len() > 0,
    decreases 0int,
{
    if map_contains_key(m, e.key) {
        let i = storage::map_index_of(m, e.key);
        let newh = storage::push_trunc(m[i].1, e, cap);
        storage::lemma_total_update(m, i, (m[i].0, newh));
    } else {
        storage::lemma_total_push(m, (e.key, seq![e]));
    }
}

/// Appending a version under the per-key cap keeps every history within
/// that cap.
pub proof fn lemma_push_version_cap<K: CacheKey, V, M>(
    m: MapModel<K, V, M>,
    e: CacheEntry<K, V, M>,
    cap: int,
)
    requires
        map_wf(m),
        cap >= 1,
        forall|i: int| 0 <= i < m.len() ==> (#[trigger] m[i]).1.len() <= cap,
    ensures
        forall|i: int|
            0 <= i < storage::spec_push_version(m, e, cap).len()
                ==> (#[trigger] storage::spec_push_version(m, e, cap)[i]).1.len() <= cap,
{
    let m2 = storage::spec_push_version(m, e, cap);
    assert forall|i: int| 0 <= i < m2.len() implies (#[trigger] m2[i]).1.len() <= cap by {
        if map_contains_key(m, e.key) {
            let j = storage::map_index_of(m, e.key);
            if i != j {
                assert(m2[i] == m[i]);
            }
        } else {
            if i < m.len() {
                assert(m2[i] == m[i]);
            }
        }
    }
}

/// Removing one pair keeps every history within a cap it already met.
pub proof fn lemma_remove_cap<K, V, M>(m: MapModel<K, V, M>, i: int, cap: int)
    requires
        0 <= i < m.len(),
        forall|l: int| 0 <= l < m.len() ==> (#[trigger] m[l]).1.len() <= cap,
    ensures
        forall|l: int| 0 <= l < m.remove(i).len() ==> (#[trigger] m.remove(i)[l]).1.len() <= cap,
{
    assert forall|l: int| 0 <= l < m.remove(i).len() implies (#[trigger] m.remove(i)[l]).1.len()
        <= cap by {
        if l < i {
            assert(m.remove(i)[l] == m[l]);
        } else {
            assert(m.remove(i)[l] == m[l + 1]);
        }
    }
}

/// Under the map invariant, the map holds no entry exactly when it holds
/// no key.
pub proof fn lemma_total_zero_iff_no_keys<K: CacheKey, V, M>(m: MapModel<K, V, M>)
    requires
        map_wf(m),
    ensures
        (map_total(m) == 0) == (m.len() == 0),
{
    if m.len() > 0 {
        storage::lemma_total_nonneg(m.drop_last());
        assert(m.last().1.len() > 0);
    }
}

impl CacheValue for String {
    fn value_clone(&self) -> (r: Self) {
        self.clone()
    }
}

impl CacheValue for u64 {
    fn value_clone(&self) -> (r: Self) {
        *self
    }
}

} // verus!
