use airp_core::idempotency::{IdempotencyCache, MAX_ENTRIES};

#[test]
fn audit_12_get_miss_returns_none() {
    let c = IdempotencyCache::new();
    assert!(c.get("append_message", "key1").is_none());
}

#[test]
fn audit_12_store_then_get_returns_value() {
    let mut c = IdempotencyCache::new();
    c.store("append_message", "key1", "result A".to_string());
    assert_eq!(c.get("append_message", "key1").as_deref(), Some("result A"));
}

#[test]
fn audit_12_namespace_isolated() {
    let mut c = IdempotencyCache::new();
    c.store("tool_a", "shared_key", "result A".to_string());
    c.store("tool_b", "shared_key", "result B".to_string());
    assert_eq!(c.get("tool_a", "shared_key").as_deref(), Some("result A"));
    assert_eq!(c.get("tool_b", "shared_key").as_deref(), Some("result B"));
}

#[test]
fn audit_12_store_refresh_does_not_duplicate_order() {
    let mut c = IdempotencyCache::new();
    c.store("ns", "key", "v1".to_string());
    c.store("ns", "key", "v2".to_string());
    assert_eq!(c.len(), 1);
    assert_eq!(c.get("ns", "key").as_deref(), Some("v2"));
}

#[test]
fn audit_12_eviction_at_capacity() {
    let mut c = IdempotencyCache::new();
    for i in 0..(MAX_ENTRIES + 5) {
        c.store("ns", &format!("k{}", i), format!("v{}", i));
    }
    assert_eq!(c.len(), MAX_ENTRIES);
    assert!(c.get("ns", "k0").is_none());
    assert!(c.get("ns", "k4").is_none());
    assert!(c.get("ns", &format!("k{}", MAX_ENTRIES + 4)).is_some());
}

#[test]
fn audit_12_empty_namespace_or_key_works() {
    let mut c = IdempotencyCache::new();
    c.store("", "", "result".to_string());
    assert_eq!(c.get("", "").as_deref(), Some("result"));
}

// ── explicit clock readings ───────────────────────────────────────────────

const DAY: u64 = 86_400_000_000_000;

#[test]
fn entries_go_stale_after_a_day() {
    let mut c = IdempotencyCache::new();
    c.store_at("ns", "k", "v".to_string(), 10);
    assert_eq!(c.get_at("ns", "k", 10 + DAY).as_deref(), Some("v"));
    assert!(c.get_at("ns", "k", 11 + DAY).is_none());
}

#[test]
fn stale_head_is_dropped_on_store() {
    let mut c = IdempotencyCache::new();
    c.store_at("ns", "old", "a".to_string(), 0);
    c.store_at("ns", "new", "b".to_string(), 5);
    assert_eq!(c.len(), 2);
    c.store_at("ns", "third", "c".to_string(), DAY + 1);
    assert_eq!(c.len(), 2);
    assert!(c.get_at("ns", "old", DAY + 1).is_none());
    assert_eq!(c.get_at("ns", "new", DAY + 1).as_deref(), Some("b"));
}

#[test]
fn refresh_keeps_position_and_size() {
    let mut c = IdempotencyCache::new();
    c.store_at("a", "1", "x".to_string(), 0);
    c.store_at("a", "2", "y".to_string(), 0);
    c.store_at("a", "1", "z".to_string(), 7);
    assert_eq!(c.len(), 2);
    assert_eq!(c.get_at("a", "1", 7).as_deref(), Some("z"));
    assert_eq!(c.get_at("a", "2", 7).as_deref(), Some("y"));
}

#[test]
fn shared_cache_starts_empty() {
    let c = IdempotencyCache::shared();
    assert_eq!(c.len(), 0);
}

#[test]
fn expired_entry_stays_gone_after_other_stores() {
    let day: u64 = 86_400_000_000_000;
    let mut c = IdempotencyCache::new();
    c.store_at("ns", "k", "r".to_string(), 10);
    c.store_at("ns", "other", "x".to_string(), 20);
    c.store_at("ns2", "k", "y".to_string(), day);
    let before = c.len();
    assert_eq!(c.get_at("ns", "k", 10 + day), Some("r".to_string()));
    assert_eq!(c.get_at("ns", "k", 11 + day), None);
    assert_eq!(c.len(), before);
}

#[test]
fn full_cache_evicts_the_earliest_key() {
    let mut c = IdempotencyCache::new();
    for i in 0..1000u64 {
        c.store_at("ns", &i.to_string(), "v".to_string(), 1);
    }
    c.store_at("ns", "0", "again".to_string(), 2);
    c.store_at("ns", "new", "n".to_string(), 3);
    assert_eq!(c.len(), 1000);
    assert_eq!(c.get_at("ns", "0", 3), None);
    assert_eq!(c.get_at("ns", "1", 3), Some("v".to_string()));
    assert_eq!(c.get_at("ns", "new", 3), Some("n".to_string()));
}
