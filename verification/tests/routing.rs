//! Key routing across shards, and the dump/restore of a whole sharded store.

use horcrux::db::Value;
use horcrux::memcache::Response;
use horcrux::shards::{shard_index, Shards};

#[test]
fn test_set_and_get() {
    // set then get, dump every shard, restore into a fresh store of the
    // same shard count, and read both keys back through the router
    let mut shards = Shards::new(2);
    shards.insert("key".to_string(), Value { flags: 0, data: "value".to_string() });
    assert_eq!(
        Response::Value("key".to_string(), shards.get("key").cloned()).as_bytes(),
        b"VALUE key 0 5\r\nvalue\r\nEND\r\n".to_vec()
    );

    shards.insert("key2".to_string(), Value { flags: 0, data: "value2".to_string() });

    let dump_0 = shards.snapshot_bytes(0);
    let dump_1 = shards.snapshot_bytes(1);

    let mut restarted = Shards::new(2);
    restarted.restore_shard(0, &dump_0).unwrap();
    restarted.restore_shard(1, &dump_1).unwrap();

    assert_eq!(
        Response::Value("key".to_string(), restarted.get("key").cloned()).as_bytes(),
        b"VALUE key 0 5\r\nvalue\r\nEND\r\n".to_vec()
    );
    assert_eq!(
        Response::Value("key2".to_string(), restarted.get("key2").cloned()).as_bytes(),
        b"VALUE key2 0 6\r\nvalue2\r\nEND\r\n".to_vec()
    );
}

#[test]
fn test_shard_assignment_is_stable() {
    for n in 1..8usize {
        for i in 0..50usize {
            let key = format!("key{}", i);
            let first = shard_index(&key, n);
            let second = shard_index(&key, n);
            assert_eq!(first, second);
            assert!(first < n);
        }
    }
}

#[test]
fn test_single_shard_serves_every_key() {
    for i in 0..20usize {
        let key = format!("key{}", i);
        assert_eq!(shard_index(&key, 1), 0);
    }
}

#[test]
fn test_many_keys_round_trip_across_shards() {
    let n = 2usize;
    let mut shards = Shards::new(n);
    for i in 0..1000usize {
        let key = format!("key{}", i);
        let data = format!("value{}", i);
        shards.insert(key, Value { flags: (i % 7) as u32, data });
    }
    for i in 0..1000usize {
        let key = format!("key{}", i);
        let v = shards.get(&key).unwrap();
        assert_eq!(v.data, format!("value{}", i));
        assert_eq!(v.flags, (i % 7) as u32);
    }

    let mut restarted = Shards::new(n);
    for s in 0..n {
        let dump = shards.snapshot_bytes(s);
        restarted.restore_shard(s, &dump).unwrap();
    }
    for i in 0..1000usize {
        let key = format!("key{}", i);
        let v = restarted.get(&key).unwrap();
        assert_eq!(v.data, format!("value{}", i));
        assert_eq!(v.flags, (i % 7) as u32);
    }
}

#[test]
fn test_missing_key_misses_on_every_shard_count() {
    for n in 1..5usize {
        let shards = Shards::new(n);
        assert!(shards.get("absent").is_none());
    }
}

#[test]
fn test_shard_count_is_kept() {
    let shards = Shards::new(3);
    assert_eq!(shards.shard_count(), 3);
}
