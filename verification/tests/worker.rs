//! The worker step function and the handler's reply interpretation.

use horcrux::db::{DB, Value};
use horcrux::handler::{broadcast_result, get_reply, set_reply, snapshot_reply};
use horcrux::types::HorcruxError;
use horcrux::worker::{run_batch, snapshot_response, step, Request, Response};

#[test]
fn test_worker_set_and_get() {
    let mut db = DB::new();

    // Test set method
    let key = "key1".to_string();
    let value = Value {
        flags: 0,
        data: "value1".to_string(),
    };
    let _ = step(
        &mut db,
        &Request::Put { key: key.clone(), value: value.clone() },
        true,
        true,
    );

    // Test get method
    let get_res = step(&mut db, &Request::Get { key: key.clone() }, true, true);
    let actual = match get_res {
        Response::Value(Some(v)) => v,
        _ => panic!("Unexpected response"),
    };
    assert_eq!(actual.data, value.data);
}

#[test]
fn test_set_replies_stored() {
    let mut db = DB::new();
    let r = step(
        &mut db,
        &Request::Put { key: "k".to_string(), value: Value { flags: 0, data: "v".to_string() } },
        true,
        true,
    );
    assert!(matches!(r, Response::Stored));
}

#[test]
fn test_get_miss_replies_none() {
    let mut db = DB::new();
    let r = step(&mut db, &Request::Get { key: "absent".to_string() }, true, true);
    assert!(matches!(r, Response::Value(None)));
}

#[test]
fn test_double_set_overwrites() {
    let mut db = DB::new();
    step(
        &mut db,
        &Request::Put { key: "k".to_string(), value: Value { flags: 0, data: "a".to_string() } },
        true,
        true,
    );
    step(
        &mut db,
        &Request::Put { key: "k".to_string(), value: Value { flags: 1, data: "b".to_string() } },
        true,
        true,
    );
    let r = step(&mut db, &Request::Get { key: "k".to_string() }, true, true);
    match r {
        Response::Value(Some(v)) => {
            assert_eq!(v.flags, 1);
            assert_eq!(v.data, "b");
        }
        _ => panic!("Unexpected response"),
    }
}

#[test]
fn test_snapshot_replies_follow_the_fork() {
    // fork failed: failure whatever was asked
    assert!(matches!(snapshot_response(false, false, false), Response::SnapshotFailed));
    assert!(matches!(snapshot_response(true, false, true), Response::SnapshotFailed));
    // fire and forget: accepted as soon as the fork succeeds
    assert!(matches!(snapshot_response(false, true, false), Response::SnapshotAccepted));
    // awaited: the child's exit decides
    assert!(matches!(snapshot_response(true, true, true), Response::SnapshotFinished));
    assert!(matches!(snapshot_response(true, true, false), Response::SnapshotFailed));
}

#[test]
fn test_snapshot_request_leaves_the_store() {
    let mut db = DB::new();
    step(
        &mut db,
        &Request::Put { key: "k".to_string(), value: Value { flags: 0, data: "v".to_string() } },
        true,
        true,
    );
    let before = db.snapshot_bytes();
    let r = step(&mut db, &Request::Snapshot { wait: false }, true, true);
    assert!(matches!(r, Response::SnapshotAccepted));
    assert_eq!(db.snapshot_bytes(), before);
}

#[test]
fn test_batch_responses_in_request_order() {
    let mut db = DB::new();
    let reqs = vec![
        Request::Put { key: "k".to_string(), value: Value { flags: 2, data: "v".to_string() } },
        Request::Get { key: "k".to_string() },
        Request::Snapshot { wait: false },
        Request::Get { key: "missing".to_string() },
    ];
    let outcomes = vec![(true, true), (true, true), (true, true), (true, true)];
    let rs = run_batch(&mut db, &reqs, &outcomes);
    assert_eq!(rs.len(), 4);
    assert!(matches!(rs[0], Response::Stored));
    match &rs[1] {
        Response::Value(Some(v)) => {
            assert_eq!(v.flags, 2);
            assert_eq!(v.data, "v");
        }
        _ => panic!("Unexpected response"),
    }
    assert!(matches!(rs[2], Response::SnapshotAccepted));
    assert!(matches!(rs[3], Response::Value(None)));
}

#[test]
fn test_reply_interpretation() {
    assert!(set_reply(Some(Response::Stored)).is_ok());
    assert!(matches!(set_reply(None), Err(HorcruxError::Internal)));
    assert!(matches!(
        set_reply(Some(Response::SnapshotFailed)),
        Err(HorcruxError::Internal)
    ));

    let v = Value { flags: 0, data: "v".to_string() };
    let got = get_reply(Some(Response::Value(Some(v)))).unwrap();
    assert_eq!(got.data, "v");
    assert!(get_reply(Some(Response::Value(None))).is_none());
    assert!(get_reply(None).is_none());
    assert!(get_reply(Some(Response::Stored)).is_none());

    assert!(snapshot_reply(Some(Response::SnapshotAccepted)).is_ok());
    assert!(snapshot_reply(Some(Response::SnapshotFinished)).is_ok());
    assert!(matches!(
        snapshot_reply(Some(Response::SnapshotFailed)),
        Err(HorcruxError::Internal)
    ));
    assert!(matches!(snapshot_reply(None), Err(HorcruxError::Internal)));
}

#[test]
fn test_broadcast_needs_every_shard() {
    let all_good = vec![
        Some(Response::SnapshotAccepted),
        Some(Response::SnapshotFinished),
    ];
    assert!(broadcast_result(&all_good).is_ok());
    let one_bad = vec![
        Some(Response::SnapshotAccepted),
        Some(Response::SnapshotFailed),
    ];
    assert!(matches!(broadcast_result(&one_bad), Err(HorcruxError::Internal)));
    let one_missing = vec![Some(Response::SnapshotAccepted), None];
    assert!(matches!(broadcast_result(&one_missing), Err(HorcruxError::Internal)));
    let none: Vec<Option<Response>> = Vec::new();
    assert!(broadcast_result(&none).is_ok());
}
