//! The in-memory backend and the load-time installation path.

use chrono::Utc;
use threatflux_cache::backends::memory::MemoryBackend;
use threatflux_cache::cache::Cache;
use threatflux_cache::config::CacheConfig;
use threatflux_cache::entry::CacheEntry;
use threatflux_cache::storage::EntryMap;

#[test]
fn memory_backend_operations() {
    let mut backend: MemoryBackend<String, String> = MemoryBackend::new();

    // Test empty state
    let loaded = backend.load().unwrap();
    assert_eq!(loaded.key_count(), 0);

    // Test save and load
    let mut entries = EntryMap::new();
    let entry = CacheEntry::new("key1".to_string(), "value1".to_string());
    entries.push_pair("key1".to_string(), vec![entry]);

    backend.save(&entries).unwrap();
    let size = backend.size_bytes().unwrap();
    assert!(size > 0);

    let loaded = backend.load().unwrap();
    assert_eq!(loaded.key_count(), 1);
    assert!(loaded.contains_key(&"key1".to_string()));

    // Test contains
    assert!(backend.contains(&"key1".to_string()).unwrap());
    assert!(!backend.contains(&"key2".to_string()).unwrap());

    // Test remove
    backend.remove(&"key1".to_string()).unwrap();
    assert!(!backend.contains(&"key1".to_string()).unwrap());

    // Test clear and compaction
    backend.save(&entries).unwrap();
    backend.compact().unwrap();
    backend.clear().unwrap();
    let loaded = backend.load().unwrap();
    assert_eq!(loaded.key_count(), 0);
    let size_after_clear = backend.size_bytes().unwrap();
    assert!(size_after_clear <= size);
}

#[test]
fn save_then_load_reproduces_every_key() {
    // Round trip: a snapshot of N keys saved to a backend comes back with
    // all N keys and equal values after installing it in a fresh cache.
    let mut cache: Cache<String, String> = Cache::new(CacheConfig::default()).unwrap();
    let t = Utc::now().timestamp_millis();
    cache.add_entry(CacheEntry::new_at("a".to_string(), "1".to_string(), t));
    cache.add_entry(CacheEntry::new_at("b".to_string(), "2".to_string(), t + 1));
    cache.add_entry(CacheEntry::new_at("c".to_string(), "3".to_string(), t + 2));

    let mut backend: MemoryBackend<String, String> = MemoryBackend::new();
    backend.save(&cache.snapshot()).unwrap();

    let loaded = backend.load().unwrap();
    let mut raw: Vec<(String, Vec<CacheEntry<String, String, ()>>)> = Vec::new();
    let mut i = 0;
    while i < loaded.key_count() {
        let key = loaded.key_at(i).clone();
        let hist = threatflux_cache::storage::clone_history(loaded.history_at(i));
        raw.push((key, hist));
        i += 1;
    }

    let mut fresh: Cache<String, String> = Cache::new(CacheConfig::default()).unwrap();
    fresh.install_loaded(raw);

    assert_eq!(fresh.len(), 3);
    assert_eq!(fresh.get(&"a".to_string()), Some("1".to_string()));
    assert_eq!(fresh.get(&"b".to_string()), Some("2".to_string()));
    assert_eq!(fresh.get(&"c".to_string()), Some("3".to_string()));
}

#[test]
fn install_skips_what_cannot_be_held() {
    let mut cache: Cache<String, String> =
        Cache::new(CacheConfig::default().with_max_entries_per_key(2)).unwrap();

    let t = Utc::now().timestamp_millis();
    let e = |k: &str, v: &str, at: i64| CacheEntry::new_at(k.to_string(), v.to_string(), at);
    let raw = vec![
        // An empty history is dropped, never installed.
        ("empty".to_string(), vec![]),
        // A history over the per-key cap keeps only its newest versions.
        (
            "deep".to_string(),
            vec![e("deep", "v1", t), e("deep", "v2", t + 1), e("deep", "v3", t + 2)],
        ),
        // A duplicate key keeps its first occurrence.
        ("deep".to_string(), vec![e("deep", "other", t)]),
        // A history whose entries carry a different key is corrupt data.
        ("mismatch".to_string(), vec![e("not_mismatch", "v", t)]),
    ];
    cache.install_loaded(raw);

    assert!(!cache.contains(&"empty".to_string()));
    assert!(!cache.contains(&"mismatch".to_string()));
    let deep = cache.get_entries(&"deep".to_string()).unwrap();
    assert_eq!(deep.len(), 2);
    assert_eq!(deep[0].value, "v2");
    assert_eq!(deep[1].value, "v3");
}
