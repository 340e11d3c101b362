//! The entry type: construction, access recording, expiry, and search.

use chrono::Duration;
use chrono::Utc;
use threatflux_cache::entry::CacheEntry;
use threatflux_cache::search::SearchQuery;
use threatflux_cache::search::Searchable;
use threatflux_cache::search::str_contains;

#[test]
fn new_entry_starts_unaccessed() {
    let e: CacheEntry<String, String, ()> =
        CacheEntry::new("k".to_string(), "v".to_string());
    assert_eq!(e.access_count, 0);
    assert_eq!(e.last_accessed, e.timestamp);
    assert!(e.ttl.is_none());
    assert!(!e.is_expired());
}

#[test]
fn record_access_updates_the_statistics() {
    let mut e: CacheEntry<String, String, ()> =
        CacheEntry::new_at("k".to_string(), "v".to_string(), 100);
    e.record_access_at(250);
    e.record_access_at(300);
    assert_eq!(e.access_count, 2);
    assert_eq!(e.last_accessed, 300);
    assert_eq!(e.age_at(350), 250);
}

#[test]
fn negative_ttl_is_immediately_expired() {
    let e: CacheEntry<String, String, ()> =
        CacheEntry::new("k".to_string(), "v".to_string())
            .with_ttl(Duration::seconds(-1).num_milliseconds());
    // Expired from the very moment of creation.
    assert!(e.is_expired_at(e.timestamp));
    assert!(e.is_expired());
}

#[test]
fn ttl_expires_exactly_after_its_window() {
    let e: CacheEntry<String, String, ()> =
        CacheEntry::new_at("k".to_string(), "v".to_string(), 1000).with_ttl(50);
    assert!(!e.is_expired_at(1050));
    assert!(e.is_expired_at(1051));
}

#[test]
fn with_metadata_carries_the_metadata() {
    let e: CacheEntry<String, String, ()> =
        CacheEntry::with_metadata("k".to_string(), "v".to_string(), ());
    assert_eq!(e.value, "v");
    assert_eq!(e.access_count, 0);
}

#[test]
fn substring_search_is_exact() {
    assert!(str_contains("hello world", "lo wo"));
    assert!(str_contains("hello", "hello"));
    assert!(str_contains("hello", ""));
    assert!(!str_contains("hello", "hello!"));
    assert!(!str_contains("short", "much longer"));
    assert!(!str_contains("abcabd", "abe"));
    assert!(str_contains("abcabd", "abd"));
}

#[test]
fn query_matches_on_key_pattern() {
    let e: CacheEntry<String, String, ()> =
        CacheEntry::new("doc:1".to_string(), "body".to_string());

    assert!(e.matches(&SearchQuery::new()));
    assert!(e.matches(&SearchQuery::new().with_pattern("doc")));
    assert!(e.matches(&SearchQuery::new().with_pattern("oc:1")));
    assert!(!e.matches(&SearchQuery::new().with_pattern("doc:2")));
    // The unit metadata reports no category, so a category query fails.
    assert!(!e.matches(&SearchQuery::new().with_category("tutorial")));
}

#[test]
fn age_tracks_the_clock_argument() {
    let t = Utc::now().timestamp_millis();
    let e: CacheEntry<String, String, ()> =
        CacheEntry::new_at("k".to_string(), "v".to_string(), t);
    assert_eq!(e.age_at(t), 0);
    assert_eq!(e.age_at(t + 1234), 1234);
}
