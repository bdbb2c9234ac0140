use proxmox_backup::chunk_store::ChunkStore;
use proxmox_backup::json::{to_canonical_json, JsonError, JsonValue};

#[test]
fn gc_keeps_marked_and_fresh_chunks() {
    let day = 24 * 3600;
    let now = 10 * day;
    let old = openssl::sha::sha256(b"old");
    let kept = openssl::sha::sha256(b"kept");
    let fresh = openssl::sha::sha256(b"fresh");
    let mut store = ChunkStore::new();
    assert!(store.insert_chunk(&old, now - 3 * day));
    assert!(store.insert_chunk(&kept, now - 3 * day));
    // a running session uploads a chunk before the index referencing it closes
    assert!(store.insert_chunk(&fresh, now - 2 * day));
    assert!(!store.insert_chunk(&fresh, now));
    store.mark(&[kept], now);
    let removed = store.sweep(now - day);
    assert_eq!(removed, vec![old]);
    assert!(store.touch_chunk(&kept, now + 1));
    assert!(store.touch_chunk(&fresh, now + 1));
    assert!(!store.touch_chunk(&old, now + 1));
}

#[test]
fn canonical_json_sorts_keys() {
    let v = JsonValue::Object(vec![
        ("b".to_string(), JsonValue::Number("1".to_string())),
        ("a".to_string(), JsonValue::Array(vec![JsonValue::Bool(true), JsonValue::Str("x\"y".to_string())])),
        ("ab".to_string(), JsonValue::Object(vec![])),
    ]);
    let out = to_canonical_json(&v).unwrap();
    assert_eq!(String::from_utf8(out).unwrap(), r#"{"a":[true,"x\"y"],"ab":{},"b":1}"#);
    assert_eq!(to_canonical_json(&JsonValue::Array(vec![])).unwrap(), b"[]".to_vec());
    assert_eq!(to_canonical_json(&JsonValue::Null).unwrap_err(), JsonError::UnexpectedNull);
    let nested = JsonValue::Array(vec![JsonValue::Bool(false), JsonValue::Null]);
    assert!(to_canonical_json(&nested).is_err());
}

#[test]
fn canonical_json_string_escapes() {
    let v = JsonValue::Str("a\n\u{1}é\\\t".to_string());
    let out = String::from_utf8(to_canonical_json(&v).unwrap()).unwrap();
    assert_eq!(out, "\"a\\n\\u0001é\\\\\\t\"");
}
