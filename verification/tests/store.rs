use hydrogen::cache::{CacheEntry, CacheError, Hydrogen};

#[test]
fn set_get_round_trip() {
    let mut store = Hydrogen::new();
    store.set("k".to_string(), "hello world".to_string()).unwrap();
    assert_eq!(store.get("k").unwrap(), "hello world");
}

#[test]
fn get_missing_key_is_key_not_found() {
    let store = Hydrogen::new();
    match store.get("nope") {
        Err(CacheError::KeyNotFound(k)) => assert_eq!(k, "nope"),
        _ => panic!("a missing key is KeyNotFound"),
    }
}

#[test]
fn overwrite_keeps_last_value() {
    let mut store = Hydrogen::new();
    store.set("k".to_string(), "v1".to_string()).unwrap();
    store.set("k".to_string(), "v2".to_string()).unwrap();
    assert_eq!(store.get("k").unwrap(), "v2");
}

#[test]
fn delete_is_idempotent_on_absent_key() {
    let mut store = Hydrogen::new();
    assert!(!store.delete("k"));
    assert!(!store.delete("k"));
}

#[test]
fn delete_reports_existence_exactly_once() {
    let mut store = Hydrogen::new();
    store.set("k".to_string(), "v".to_string()).unwrap();
    assert!(store.delete("k"));
    assert!(!store.delete("k"));
    store.set("k".to_string(), "v".to_string()).unwrap();
    assert!(store.delete("k"));
}

#[test]
fn keys_snapshot() {
    let mut store = Hydrogen::new();
    assert!(store.keys().is_empty());
    store.set("a".to_string(), "1".to_string()).unwrap();
    store.set("b".to_string(), "2".to_string()).unwrap();
    let mut keys = store.keys();
    keys.sort();
    assert_eq!(keys, vec!["a".to_string(), "b".to_string()]);
    store.set("a".to_string(), "3".to_string()).unwrap();
    assert_eq!(store.keys().len(), 2);
}

#[test]
fn entry_round_trips_unicode_text() {
    let entry = CacheEntry::new("grüße, 世界 — line\twith\ttabs").unwrap();
    assert!(!entry.compressed_data.is_empty());
    assert_eq!(entry.get_value().unwrap(), "grüße, 世界 — line\twith\ttabs");
}

#[test]
fn entry_round_trips_large_repetitive_text() {
    let big = "abcdef".repeat(10_000);
    let entry = CacheEntry::new(&big).unwrap();
    // The payload is genuinely compressed, not the text handed back.
    assert!(entry.compressed_data.len() < big.len());
    assert_eq!(entry.get_value().unwrap(), big);
}

#[test]
fn entry_rejects_corrupt_payload() {
    let entry = CacheEntry {
        compressed_data: vec![0x00, 0x01, 0x02, 0x03],
    };
    match entry.get_value() {
        Err(CacheError::DecompressionError(_)) => {}
        _ => panic!("garbage bytes are a decompression fault"),
    }
}

#[test]
fn error_messages_name_the_fault() {
    assert_eq!(
        CacheError::KeyNotFound("k".to_string()).message(),
        "Key not found: k"
    );
    assert_eq!(
        CacheError::CompressionError("boom".to_string()).message(),
        "Compression failed: boom"
    );
    assert_eq!(
        CacheError::DecompressionError("boom".to_string()).message(),
        "Decompression failed: boom"
    );
}

#[test]
fn default_store_is_empty() {
    let store: Hydrogen = Default::default();
    assert!(store.keys().is_empty());
}
