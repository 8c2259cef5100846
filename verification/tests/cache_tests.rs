use testx::adapters::{TestCase, TestRunResult, TestStatus, TestSuite};
use testx::cache::{
    entry_from_result, format_cache_hit_at, hash_source_files, is_skipped_name,
    is_source_extension, CacheConfig, CacheEntry, CacheStore,
};
use testx::duration::Duration;

fn now_secs() -> u64 {
    std::time::SystemTime::now()
        .duration_since(std::time::UNIX_EPOCH)
        .unwrap_or_default()
        .as_secs()
}

fn make_result() -> TestRunResult {
    TestRunResult {
        suites: vec![TestSuite {
            name: "suite".to_string(),
            tests: vec![
                TestCase {
                    name: "test_1".to_string(),
                    status: TestStatus::Passed,
                    duration: Duration::from_millis(10),
                    error: None,
                },
                TestCase {
                    name: "test_2".to_string(),
                    status: TestStatus::Passed,
                    duration: Duration::from_millis(20),
                    error: None,
                },
            ],
        }],
        duration: Duration::from_millis(30),
        raw_exit_code: 0,
    }
}

fn entry(hash: &str, timestamp: u64) -> CacheEntry {
    CacheEntry {
        hash: hash.to_string(),
        adapter: "Rust".to_string(),
        timestamp,
        passed: true,
        total_passed: 1,
        total_failed: 0,
        total_skipped: 0,
        total_tests: 1,
        duration_ms: 10,
        extra_args: vec![],
    }
}

#[test]
fn cache_store_new_empty() {
    let store = CacheStore::new();
    assert!(store.is_empty());
    assert_eq!(store.len(), 0);
}

#[test]
fn cache_store_insert_and_lookup() {
    let config = CacheConfig::default();
    let mut store = CacheStore::new();
    let entry = CacheEntry {
        hash: "abc123".to_string(),
        adapter: "Rust".to_string(),
        timestamp: now_secs(),
        passed: true,
        total_passed: 5,
        total_failed: 0,
        total_skipped: 1,
        total_tests: 6,
        duration_ms: 123,
        extra_args: vec![],
    };
    store.insert(entry.clone(), &config);
    assert_eq!(store.len(), 1);
    let found = store.lookup("abc123", &config);
    assert!(found.is_some());
    assert_eq!(found.unwrap().adapter, "Rust");
}

#[test]
fn cache_store_lookup_miss() {
    let config = CacheConfig::default();
    let store = CacheStore::new();
    assert!(store.lookup("nonexistent", &config).is_none());
}

#[test]
fn cache_store_replaces_same_hash() {
    let config = CacheConfig::default();
    let mut store = CacheStore::new();
    let now = now_secs();
    let entry1 = CacheEntry {
        hash: "abc".to_string(),
        adapter: "Rust".to_string(),
        timestamp: now,
        passed: true,
        total_passed: 5,
        total_failed: 0,
        total_skipped: 0,
        total_tests: 5,
        duration_ms: 100,
        extra_args: vec![],
    };
    let entry2 = CacheEntry {
        hash: "abc".to_string(),
        adapter: "Rust".to_string(),
        timestamp: now + 1,
        passed: false,
        total_passed: 3,
        total_failed: 2,
        total_skipped: 0,
        total_tests: 5,
        duration_ms: 200,
        extra_args: vec![],
    };
    store.insert(entry1, &config);
    store.insert(entry2, &config);
    assert_eq!(store.len(), 1);
    let found = store.lookup("abc", &config).unwrap();
    assert!(!found.passed);
    assert_eq!(found.total_failed, 2);
}

#[test]
fn cache_entry_expiry() {
    let e = entry("abc", 0);
    assert!(e.is_expired(86400));
}

#[test]
fn cache_entry_not_expired() {
    let e = entry("abc", now_secs());
    assert!(!e.is_expired(86400));
}

#[test]
fn cache_store_prune_expired() {
    let config = CacheConfig {
        max_age_secs: 10,
        ..Default::default()
    };
    let mut store = CacheStore::new();
    store.entries.push(entry("old", 0));
    store.entries.push(entry("new", now_secs()));
    store.prune(&config);
    assert_eq!(store.len(), 1);
    assert_eq!(store.entries[0].hash, "new");
}

#[test]
fn cache_store_prune_excess() {
    let config = CacheConfig {
        max_entries: 2,
        ..Default::default()
    };
    let now = now_secs();
    let mut store = CacheStore::new();
    for i in 0..5 {
        store.entries.push(entry(&format!("hash_{}", i), now));
    }
    store.prune(&config);
    assert_eq!(store.len(), 2);
    assert_eq!(store.entries[0].hash, "hash_3");
    assert_eq!(store.entries[1].hash, "hash_4");
}

#[test]
fn cache_store_clear() {
    let mut store = CacheStore::new();
    store.entries.push(entry("abc", now_secs()));
    assert!(!store.is_empty());
    store.clear();
    assert!(store.is_empty());
}

#[test]
fn is_source_ext_coverage() {
    assert!(is_source_extension("rs"));
    assert!(is_source_extension("py"));
    assert!(is_source_extension("js"));
    assert!(is_source_extension("go"));
    assert!(is_source_extension("java"));
    assert!(!is_source_extension("png"));
    assert!(!is_source_extension("md"));
}

#[test]
fn format_cache_hit_display() {
    let now = 1_000_000;
    let mut e = entry("abc", now - 30);
    e.total_passed = 5;
    e.total_tests = 6;
    e.total_skipped = 1;
    e.duration_ms = 123;
    let s = format_cache_hit_at(&e, now);
    assert_eq!(
        s,
        "Cache hit (Rust) \u{2014} 6 tests: 5 passed, 0 failed, 1 skipped (123.0ms, cached 30s ago)"
    );
    let s2 = format_cache_hit_at(&e, now + 7200);
    assert!(s2.contains("2h ago"));
}

#[test]
fn cache_config_defaults() {
    let config = CacheConfig::default();
    assert!(config.enabled);
    assert_eq!(config.max_age_secs, 86400);
    assert_eq!(config.max_entries, 100);
}

#[test]
fn insert_then_lookup_same_time() {
    let config = CacheConfig::default();
    let mut store = CacheStore::new();
    store.insert_at(entry("k", 500), &config, 600);
    assert_eq!(store.lookup_at("k", &config, 600).unwrap().hash, "k");
    assert!(store.lookup_at("k", &config, 600 + 86400 + 1).is_none());
}

#[test]
fn entry_from_result_counts() {
    let result = make_result();
    let e = entry_from_result("h", "Rust", &result, &["--x".to_string()], 42);
    assert_eq!(e.total_tests, 2);
    assert_eq!(e.total_passed, 2);
    assert!(e.passed);
    assert_eq!(e.duration_ms, 30);
    assert_eq!(e.timestamp, 42);
    assert_eq!(e.extra_args, vec!["--x".to_string()]);
}

#[test]
fn skipped_names() {
    assert!(is_skipped_name(".git"));
    assert!(is_skipped_name("target"));
    assert!(is_skipped_name("node_modules"));
    assert!(!is_skipped_name("src"));
}

#[test]
fn project_hash_is_order_independent() {
    let a = vec![("b.rs".to_string(), 1u64, 2u64), ("a.rs".to_string(), 3, 4)];
    let b = vec![("a.rs".to_string(), 3u64, 4u64), ("b.rs".to_string(), 1, 2)];
    let ha = hash_source_files("Rust", &a);
    assert_eq!(ha, hash_source_files("Rust", &b));
    assert_eq!(ha.len(), 16);
    assert_ne!(ha, hash_source_files("Go", &a));
}

#[test]
fn project_hash_is_sixteen_lowercase_hex_digits() {
    let files = vec![("src/main.rs".to_string(), 1u64, 2u64), ("Cargo.toml".to_string(), 3u64, 4u64)];
    let h = hash_source_files("Rust", &files);
    assert_eq!(h.len(), 16);
    assert!(h.chars().all(|c| c.is_ascii_digit() || ('a'..='f').contains(&c)));
    let empty: Vec<(String, u64, u64)> = Vec::new();
    assert_eq!(hash_source_files("Rust", &empty).len(), 16);
}

#[test]
fn insert_keeps_one_entry_per_hash_last() {
    let config = CacheConfig::default();
    let mut store = CacheStore::new();
    let now = now_secs();
    let make = |hash: &str, t: u64| CacheEntry {
        hash: hash.to_string(),
        adapter: "Go".to_string(),
        timestamp: t,
        passed: true,
        total_passed: 1,
        total_failed: 0,
        total_skipped: 0,
        total_tests: 1,
        duration_ms: 1,
        extra_args: vec![],
    };
    store.insert_at(make("a", now), &config, now);
    store.insert_at(make("b", now), &config, now);
    store.insert_at(make("a", now + 1), &config, now + 1);
    assert_eq!(store.entries.len(), 2);
    assert_eq!(store.entries[0].hash, "b");
    assert_eq!(store.entries[1].hash, "a");
    assert_eq!(store.entries[1].timestamp, now + 1);
}

#[test]
fn cache_hit_duration_is_printed_as_its_f64() {
    let make = |ms: u64| CacheEntry {
        hash: "h".to_string(),
        adapter: "Rust".to_string(),
        timestamp: 1000,
        passed: true,
        total_passed: 1,
        total_failed: 0,
        total_skipped: 0,
        total_tests: 1,
        duration_ms: ms,
        extra_args: vec![],
    };
    assert!(format_cache_hit_at(&make(100), 1010).contains("(100.0ms, cached 10s ago)"));
    assert!(format_cache_hit_at(&make(9007199254740993), 1000).contains("(9007199254740992.0ms,"));
    assert!(format_cache_hit_at(&make(9007199254740995), 1000).contains("(9007199254740996.0ms,"));
    assert!(format_cache_hit_at(&make(u64::MAX), 1000).contains("(18446744073709551616.0ms,"));
    assert_eq!(format!("{:.1}", u64::MAX as f64), "18446744073709551616.0");
}
