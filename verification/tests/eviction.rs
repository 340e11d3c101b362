//! The eviction policies, each on a two-key map.

use chrono::Duration;
use chrono::Utc;
use threatflux_cache::entry::CacheEntry;
use threatflux_cache::eviction::EvictionContext;
use threatflux_cache::eviction::EvictionStrategy;
use threatflux_cache::eviction::FifoEviction;
use threatflux_cache::eviction::LfuEviction;
use threatflux_cache::eviction::LruEviction;
use threatflux_cache::eviction::NoEviction;
use threatflux_cache::eviction::TtlEviction;
use threatflux_cache::eviction::create_strategy;
use threatflux_cache::config::EvictionPolicy;
use threatflux_cache::storage::EntryMap;

fn small_context() -> EvictionContext {
    EvictionContext {
        max_total_entries: 1,
        current_total_entries: 2,
    }
}

fn create_test_entry(key: &str, value: &str) -> CacheEntry<String, String, ()> {
    CacheEntry::new(key.to_string(), value.to_string())
}

fn setup_entries<F>(modifier: F) -> EntryMap<String, String, ()>
where
    F: FnOnce(&mut CacheEntry<String, String, ()>, &mut CacheEntry<String, String, ()>),
{
    let mut entry1 = create_test_entry("key1", "value1");
    let mut entry2 = create_test_entry("key2", "value2");
    modifier(&mut entry1, &mut entry2);

    let mut entries = EntryMap::new();
    entries.push_pair("key1".to_string(), vec![entry1]);
    entries.push_pair("key2".to_string(), vec![entry2]);
    entries
}

#[test]
fn test_lru_eviction() {
    let mut entries = setup_entries(|e1, e2| {
        e1.last_accessed = (Utc::now() - Duration::hours(1)).timestamp_millis();
        e2.last_accessed = Utc::now().timestamp_millis();
    });

    let eviction = LruEviction;
    let context = small_context();

    eviction.evict(&mut entries, &context);

    // Should have removed key1 (least recently used)
    assert!(!entries.contains_key(&"key1".to_string()));
    assert!(entries.contains_key(&"key2".to_string()));
}

#[test]
fn test_lfu_eviction() {
    let mut entries = setup_entries(|e1, e2| {
        e1.access_count = 1;
        e2.access_count = 5;
    });

    let eviction = LfuEviction;
    let context = small_context();

    eviction.evict(&mut entries, &context);

    // Should have removed key1 (least frequently used)
    assert!(!entries.contains_key(&"key1".to_string()));
    assert!(entries.contains_key(&"key2".to_string()));
}

#[test]
fn test_fifo_eviction() {
    let mut entries = setup_entries(|e1, e2| {
        e1.timestamp = (Utc::now() - Duration::hours(1)).timestamp_millis();
        e2.timestamp = Utc::now().timestamp_millis();
    });

    let eviction = FifoEviction;
    let context = small_context();

    eviction.evict(&mut entries, &context);

    // Should have removed key1 (first in)
    assert!(!entries.contains_key(&"key1".to_string()));
    assert!(entries.contains_key(&"key2".to_string()));
}

#[test]
fn test_ttl_eviction() {
    let mut entries = EntryMap::new();
    let entry1 = create_test_entry("key1", "value1")
        .with_ttl(Duration::hours(-1).num_milliseconds()); // Already expired
    let entry2 = create_test_entry("key2", "value2")
        .with_ttl(Duration::hours(1).num_milliseconds()); // Not expired

    entries.push_pair("key1".to_string(), vec![entry1]);
    entries.push_pair("key2".to_string(), vec![entry2]);

    let eviction = TtlEviction;
    let context = EvictionContext {
        max_total_entries: 10,
        current_total_entries: 2,
    };

    eviction.evict(&mut entries, &context);

    // Should have removed key1 (expired), even though capacity was not exceeded
    assert!(!entries.contains_key(&"key1".to_string()));
    assert!(entries.contains_key(&"key2".to_string()));
}

#[test]
fn no_eviction_leaves_everything() {
    let mut entries = setup_entries(|e1, _e2| {
        e1.access_count = 0;
    });

    let eviction = NoEviction;
    eviction.evict(&mut entries, &small_context());

    assert!(entries.contains_key(&"key1".to_string()));
    assert!(entries.contains_key(&"key2".to_string()));
    assert_eq!(entries.total_entries(), 2);
}

#[test]
fn created_strategy_enforces_its_policy() {
    let mut entries = setup_entries(|e1, e2| {
        e1.access_count = 7;
        e2.access_count = 3;
    });

    // Under LFU, key2 (fewer accesses) is the victim.
    let strategy = create_strategy(&EvictionPolicy::Lfu);
    strategy.evict(&mut entries, &small_context());
    assert!(entries.contains_key(&"key1".to_string()));
    assert!(!entries.contains_key(&"key2".to_string()));

    // The do-nothing strategy leaves the rest alone.
    let strategy = create_strategy(&EvictionPolicy::Disabled);
    strategy.evict(&mut entries, &small_context());
    assert!(entries.contains_key(&"key1".to_string()));
}

#[test]
fn eviction_tie_break_prefers_first_inserted() {
    // Both keys tie on every metric: the earlier inserted key goes first.
    let t = Utc::now().timestamp_millis();
    let mut e1 = create_test_entry("first", "v1");
    let mut e2 = create_test_entry("second", "v2");
    e1.timestamp = t;
    e1.last_accessed = t;
    e2.timestamp = t;
    e2.last_accessed = t;

    let mut entries = EntryMap::new();
    entries.push_pair("first".to_string(), vec![e1]);
    entries.push_pair("second".to_string(), vec![e2]);

    LruEviction.evict(&mut entries, &small_context());
    assert!(!entries.contains_key(&"first".to_string()));
    assert!(entries.contains_key(&"second".to_string()));
}
