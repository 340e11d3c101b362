//! The engine's key-value and versioned-history operations.

use chrono::Utc;
use threatflux_cache::cache::Cache;
use threatflux_cache::config::CacheConfig;
use threatflux_cache::config::EvictionPolicy;
use threatflux_cache::entry::CacheEntry;
use threatflux_cache::search::SearchQuery;

fn create_cache() -> Cache<String, String> {
    let config = CacheConfig::default();
    Cache::new(config).unwrap()
}

#[test]
fn test_cache_basic_operations() {
    let mut cache = create_cache();

    // Test put and get
    cache.put("key1".to_string(), "value1".to_string());
    let value = cache.get(&"key1".to_string());
    assert_eq!(value, Some("value1".to_string()));

    // Test contains
    assert!(cache.contains(&"key1".to_string()));
    assert!(!cache.contains(&"key2".to_string()));

    // Test len
    assert_eq!(cache.len(), 1);

    // Test remove
    let (removed, _) = cache.remove(&"key1".to_string());
    assert_eq!(removed, Some("value1".to_string()));
    assert_eq!(cache.len(), 0);
}

#[test]
fn test_cache_clear() {
    let mut cache = create_cache();

    cache.put("key1".to_string(), "value1".to_string());
    cache.put("key2".to_string(), "value2".to_string());

    assert_eq!(cache.len(), 2);

    cache.clear();
    assert_eq!(cache.len(), 0);
    assert!(!cache.contains(&"key1".to_string()));
}

#[test]
fn test_cache_entries_search_stats() {
    let mut cache = create_cache();

    let t = Utc::now().timestamp_millis();
    cache.add_entry(CacheEntry::new_at("key".to_string(), "v1".to_string(), t));
    cache.add_entry(CacheEntry::new_at("key".to_string(), "v2".to_string(), t + 5));

    let entries = cache.get_entries(&"key".to_string()).unwrap();
    assert_eq!(entries.len(), 2);
    let latest = cache.get_latest(&"key".to_string()).unwrap();
    assert_eq!(latest.value, "v2");

    let results = cache.search(&SearchQuery::new().with_pattern("key"));
    assert_eq!(results.len(), 2);

    // Add expired entry for stats
    let expired = CacheEntry::new("expired".to_string(), "v".to_string())
        .with_ttl(chrono::Duration::seconds(-1).num_milliseconds());
    cache.add_entry(expired);

    let stats = cache.get_stats();
    assert_eq!(stats.total_entries, 3);
    assert!(stats.expired_count >= 1);
    assert!(stats.total_access_count >= 2); // accesses from get_entries/get_latest
}

#[test]
fn put_replaces_rather_than_appends() {
    let mut cache = create_cache();

    cache.put("key".to_string(), "old".to_string());
    cache.put("key".to_string(), "new".to_string());

    // The history stays one version deep and holds the newest value.
    let entries = cache.get_entries(&"key".to_string()).unwrap();
    assert_eq!(entries.len(), 1);
    assert_eq!(cache.get(&"key".to_string()), Some("new".to_string()));
    assert_eq!(cache.len(), 1);
}

#[test]
fn remove_on_absent_key_is_a_no_op() {
    let mut cache = create_cache();
    cache.put("present".to_string(), "v".to_string());

    let (removed, save_due) = cache.remove(&"absent".to_string());
    assert_eq!(removed, None);
    assert!(!save_due);
    assert_eq!(cache.len(), 1);
    assert!(cache.contains(&"present".to_string()));
}

#[test]
fn remove_returns_the_most_recent_version() {
    let mut cache = create_cache();
    let t = Utc::now().timestamp_millis();
    cache.add_entry(CacheEntry::new_at("key".to_string(), "v1".to_string(), t));
    cache.add_entry(CacheEntry::new_at("key".to_string(), "v2".to_string(), t + 1));

    let (removed, _) = cache.remove(&"key".to_string());
    assert_eq!(removed, Some("v2".to_string()));
    assert!(!cache.contains(&"key".to_string()));
}

#[test]
fn history_keeps_only_the_newest_versions() {
    let config = CacheConfig::default().with_max_entries_per_key(3);
    let mut cache: Cache<String, String> = Cache::new(config).unwrap();

    let t = Utc::now().timestamp_millis();
    for i in 0..5u32 {
        let value = match i {
            0 => "v0",
            1 => "v1",
            2 => "v2",
            3 => "v3",
            _ => "v4",
        };
        cache.add_entry(CacheEntry::new_at(
            "key".to_string(),
            value.to_string(),
            t + i as i64,
        ));
    }

    // Of five appended versions only the newest three survive, oldest
    // dropped first.
    let entries = cache.get_entries(&"key".to_string()).unwrap();
    assert_eq!(entries.len(), 3);
    assert_eq!(entries[0].value, "v2");
    assert_eq!(entries[1].value, "v3");
    assert_eq!(entries[2].value, "v4");
}

#[test]
fn total_cap_is_enforced_inline() {
    let config = CacheConfig::default()
        .with_max_total_entries(2)
        .with_eviction_policy(EvictionPolicy::Fifo);
    let mut cache: Cache<String, String> = Cache::new(config).unwrap();

    let t = Utc::now().timestamp_millis();
    cache.add_entry(CacheEntry::new_at("a".to_string(), "1".to_string(), t));
    assert_eq!(cache.len(), 1);
    cache.add_entry(CacheEntry::new_at("b".to_string(), "2".to_string(), t + 1));
    assert_eq!(cache.len(), 2);
    cache.add_entry(CacheEntry::new_at("c".to_string(), "3".to_string(), t + 2));

    // The cap held before the operation returned: the oldest key left.
    assert_eq!(cache.len(), 2);
    assert!(!cache.contains(&"a".to_string()));
    assert!(cache.contains(&"b".to_string()));
    assert!(cache.contains(&"c".to_string()));
}

#[test]
fn invalid_configuration_is_rejected() {
    let config = CacheConfig::default().with_max_entries_per_key(0);
    let r: Result<Cache<String, String>, _> = Cache::new(config);
    assert!(matches!(
        r,
        Err(threatflux_cache::error::CacheError::InvalidConfiguration(_))
    ));
}

#[test]
fn get_latest_prefers_last_appended_among_ties() {
    let mut cache = create_cache();
    let t = Utc::now().timestamp_millis();
    cache.add_entry(CacheEntry::new_at("key".to_string(), "first".to_string(), t));
    cache.add_entry(CacheEntry::new_at("key".to_string(), "second".to_string(), t));

    let latest = cache.get_latest(&"key".to_string()).unwrap();
    assert_eq!(latest.value, "second");
}

#[test]
fn sync_interval_ticks_a_save_due() {
    let mut persistence = threatflux_cache::config::PersistenceConfig::default();
    persistence.enabled = true;
    persistence.sync_interval = 2;
    let config = CacheConfig::default().with_persistence(persistence);
    let mut cache: Cache<String, String> = Cache::new(config).unwrap();

    // Every second mutating operation makes a save due.
    assert!(!cache.put("a".to_string(), "1".to_string()));
    assert!(cache.put("b".to_string(), "2".to_string()));
    assert!(!cache.put("c".to_string(), "3".to_string()));
    assert!(cache.put("d".to_string(), "4".to_string()));
}

#[test]
fn save_gate_admits_one_save_at_a_time() {
    let mut persistence = threatflux_cache::config::PersistenceConfig::default();
    persistence.enabled = true;
    let config = CacheConfig::default().with_persistence(persistence);
    let mut cache: Cache<String, String> = Cache::new(config).unwrap();

    // One permit exists; an extra trigger is dropped, and the permit
    // comes back once the save ends.
    assert!(cache.try_begin_save());
    assert!(!cache.try_begin_save());
    cache.end_save();
    assert!(cache.try_begin_save());
    cache.end_save();

    // With persistence off, no save is ever permitted.
    let mut plain: Cache<String, String> = Cache::new(CacheConfig::default()).unwrap();
    assert!(!plain.try_begin_save());
}

#[test]
fn stats_exact_counts_at_a_fixed_time() {
    let mut cache = create_cache();
    let t = 1_000_000i64;
    cache.add_entry_at(CacheEntry::new_at("a".to_string(), "1".to_string(), t), t);
    let expiring = CacheEntry::new_at("b".to_string(), "2".to_string(), t).with_ttl(10);
    cache.add_entry_at(expiring, t);

    // At t + 11 the entry with a 10ms window is expired, the other is not.
    let stats = cache.get_stats_at(t + 11);
    assert_eq!(stats.total_entries, 2);
    assert_eq!(stats.total_keys, 2);
    assert_eq!(stats.total_access_count, 0);
    assert_eq!(stats.expired_count, 1);
    assert_eq!(stats.memory_usage_bytes, 0);
}
