//! The snapshot codec and the store's dump/restore round trip.

use horcrux::db::{DB, Value};
use horcrux::types::HorcruxError;

#[test]
fn test_restore() {
    let mut db = DB::new();
    db.insert(
        "key1".to_string(),
        Value {
            flags: 0,
            data: "data1".to_string(),
        },
    );
    db.insert(
        "key2".to_string(),
        Value {
            flags: 0,
            data: "data2".to_string(),
        },
    );

    let dumped = db.snapshot_bytes();

    let mut new_db = DB::new();
    new_db.restore_from_bytes(&dumped).unwrap();

    let actual_1 = new_db.get("key1").unwrap();
    assert_eq!(actual_1.flags, 0);
    assert_eq!(actual_1.data, "data1");

    let actual_2 = new_db.get("key2").unwrap();
    assert_eq!(actual_2.flags, 0);
    assert_eq!(actual_2.data, "data2");
}

#[test]
fn test_dump_bytes_exact() {
    // key_len:u8 | key | flags:u32_be | data_len:u32_be | data
    let mut db = DB::new();
    db.insert("k".to_string(), Value { flags: 1, data: "v".to_string() });
    let dumped = db.snapshot_bytes();
    assert_eq!(dumped, vec![1, b'k', 0, 0, 0, 1, 0, 0, 0, 1, b'v']);
}

#[test]
fn test_empty_store_dumps_no_bytes() {
    let db = DB::new();
    assert_eq!(db.snapshot_bytes(), Vec::<u8>::new());
    let mut restored = DB::new();
    restored.restore_from_bytes(&[]).unwrap();
    assert!(restored.get("anything").is_none());
}

#[test]
fn test_snapshot_is_idempotent() {
    let mut db = DB::new();
    db.insert("key".to_string(), Value { flags: 3, data: "value".to_string() });
    db.insert("key2".to_string(), Value { flags: 0, data: "value2".to_string() });
    let first = db.snapshot_bytes();
    let second = db.snapshot_bytes();
    assert_eq!(first, second);
}

#[test]
fn test_truncated_snapshot_is_an_error() {
    let mut db = DB::new();
    db.insert("key".to_string(), Value { flags: 0, data: "value".to_string() });
    let dumped = db.snapshot_bytes();
    let cut = &dumped[..dumped.len() - 1];
    let mut restored = DB::new();
    match restored.restore_from_bytes(cut) {
        Err(HorcruxError::RestoreDB(_)) => {}
        _ => panic!("Expected RestoreDB error"),
    }
}

#[test]
fn test_restore_keeps_entries_before_a_fault() {
    let mut db = DB::new();
    db.insert("key1".to_string(), Value { flags: 0, data: "data1".to_string() });
    let mut dumped = db.snapshot_bytes();
    // a second, truncated entry after the complete first one
    dumped.push(3);
    dumped.push(b'k');
    let mut restored = DB::new();
    assert!(restored.restore_from_bytes(&dumped).is_err());
    assert_eq!(restored.get("key1").unwrap().data, "data1");
}

#[test]
fn test_non_utf8_key_is_an_error() {
    // key_len 1, key byte 0xff (not UTF-8), flags 0, data_len 0
    let bytes = vec![1, 0xff, 0, 0, 0, 0, 0, 0, 0, 0];
    let mut restored = DB::new();
    match restored.restore_from_bytes(&bytes) {
        Err(HorcruxError::RestoreDB(_)) => {}
        _ => panic!("Expected RestoreDB error"),
    }
}

#[test]
fn test_non_utf8_data_is_an_error() {
    // key "k", flags 0, data_len 1, data byte 0xc0 (not UTF-8)
    let bytes = vec![1, b'k', 0, 0, 0, 0, 0, 0, 0, 1, 0xc0];
    let mut restored = DB::new();
    match restored.restore_from_bytes(&bytes) {
        Err(HorcruxError::RestoreDB(_)) => {}
        _ => panic!("Expected RestoreDB error"),
    }
}

#[test]
fn test_overwrite_then_round_trip() {
    let mut db = DB::new();
    db.insert("key".to_string(), Value { flags: 0, data: "first".to_string() });
    db.insert("key".to_string(), Value { flags: 9, data: "second".to_string() });
    let dumped = db.snapshot_bytes();
    let mut restored = DB::new();
    restored.restore_from_bytes(&dumped).unwrap();
    let v = restored.get("key").unwrap();
    assert_eq!(v.flags, 9);
    assert_eq!(v.data, "second");
}

#[test]
fn test_restore_overwrites_in_dump_order() {
    // two entries with the same key: the later one wins on restore
    let mut bytes = vec![1, b'k', 0, 0, 0, 1, 0, 0, 0, 1, b'a'];
    bytes.extend_from_slice(&[1, b'k', 0, 0, 0, 2, 0, 0, 0, 1, b'b']);
    let mut restored = DB::new();
    restored.restore_from_bytes(&bytes).unwrap();
    let v = restored.get("k").unwrap();
    assert_eq!(v.flags, 2);
    assert_eq!(v.data, "b");
}
