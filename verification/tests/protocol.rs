//! Parsing and serializing the text protocol.

use horcrux::memcache::{Action, Parsed, Request, Response, action_after_set, action_after_snapshot,
    action_on_error, parse_request, set_from_data};
use horcrux::db::Value;
use horcrux::server::Config;
use horcrux::types::HorcruxError;

#[test]
fn test_read_request_set() {
    let data = "set key 0 0 5\r\nvalue\r\n";
    let request = match parse_request(data.as_bytes()).unwrap() {
        Parsed::Done(r) => r,
        _ => panic!("Expected a complete request"),
    };
    match request {
        Request::Put { key, flags, exptime, data } => {
            assert_eq!(key, "key");
            assert_eq!(flags, 0);
            assert_eq!(exptime, 0);
            assert_eq!(data, "value");
        }
        _ => panic!("Expected Set request"),
    }
}

#[test]
fn test_read_request_set_error() {
    let data = "set key 0 0\r\n";
    let result = parse_request(data.as_bytes());
    assert!(result.is_err());
    match result.err().unwrap() {
        HorcruxError::ParseRequest(_) => {} // expected
        _ => panic!("Expected ParseRequest error"),
    }
}

#[test]
fn test_read_request_get() {
    let data = "get key\r\n";
    let request = match parse_request(data.as_bytes()).unwrap() {
        Parsed::Done(r) => r,
        _ => panic!("Expected a complete request"),
    };
    match request {
        Request::Get { key } => {
            assert_eq!(key, "key");
        }
        _ => panic!("Expected Get request"),
    }
}

#[test]
fn test_read_request_get_error() {
    let data = "get\r\n";
    let result = parse_request(data.as_bytes());
    assert!(result.is_err());
    match result.err().unwrap() {
        HorcruxError::ParseRequest(_) => {} // expected
        _ => panic!("Expected ParseRequest error"),
    }
}

#[test]
fn test_read_request_snapshot() {
    let data = "snapshot\r\n";
    let request = match parse_request(data.as_bytes()).unwrap() {
        Parsed::Done(r) => r,
        _ => panic!("Expected a complete request"),
    };
    match request {
        Request::Snapshot => {}
        _ => panic!("Expected Snapshot request"),
    }
}

#[test]
fn test_read_request_invalid() {
    let data = "invalid request\r\n";
    let result = parse_request(data.as_bytes());
    assert!(result.is_err());
    match result.err().unwrap() {
        HorcruxError::ParseRequest(_) => {} // expected
        _ => panic!("Expected ParseRequest error"),
    }
}

#[test]
fn test_set_without_inline_payload_needs_data() {
    let result = parse_request(b"set key 7 0 5\r\n").unwrap();
    match result {
        Parsed::NeedData { key, flags, exptime, len } => {
            assert_eq!(key, "key");
            assert_eq!(flags, 7);
            assert_eq!(exptime, 0);
            assert_eq!(len, 5);
        }
        _ => panic!("Expected an incomplete set"),
    }
}

#[test]
fn test_set_from_data_completes_a_set() {
    let req = set_from_data("key".to_string(), 7, 0, b"value".to_vec()).unwrap();
    match req {
        Request::Put { key, flags, exptime, data } => {
            assert_eq!(key, "key");
            assert_eq!(flags, 7);
            assert_eq!(exptime, 0);
            assert_eq!(data, "value");
        }
        _ => panic!("Expected Set request"),
    }
}

#[test]
fn test_commands_are_case_insensitive() {
    match parse_request(b"GET key\r\n").unwrap() {
        Parsed::Done(Request::Get { key }) => assert_eq!(key, "key"),
        _ => panic!("Expected Get request"),
    }
    match parse_request(b"SeT k 0 0 1\r\nx\r\n").unwrap() {
        Parsed::Done(Request::Put { key, data, .. }) => {
            assert_eq!(key, "k");
            assert_eq!(data, "x");
        }
        _ => panic!("Expected Set request"),
    }
}

#[test]
fn test_quit_closes_the_connection() {
    match parse_request(b"quit\r\n") {
        Err(HorcruxError::Connection(m)) => assert_eq!(m, "Client quit"),
        _ => panic!("Expected Connection error"),
    }
}

#[test]
fn test_empty_and_whitespace_reads_are_ignorable() {
    assert!(matches!(parse_request(b""), Err(HorcruxError::Ignorable)));
    assert!(matches!(parse_request(b"  \r\n"), Err(HorcruxError::Ignorable)));
}

#[test]
fn test_non_numeric_fields_are_rejected() {
    assert!(matches!(
        parse_request(b"set key x 0 5\r\nvalue\r\n"),
        Err(HorcruxError::ParseRequest(_))
    ));
    assert!(matches!(
        parse_request(b"set key 0 x 5\r\nvalue\r\n"),
        Err(HorcruxError::ParseRequest(_))
    ));
    assert!(matches!(
        parse_request(b"set key 0 0 x\r\nvalue\r\n"),
        Err(HorcruxError::ParseRequest(_))
    ));
}

#[test]
fn test_flags_overflow_is_rejected() {
    // 4294967296 == u32::MAX + 1
    assert!(matches!(
        parse_request(b"set key 4294967296 0 5\r\nvalue\r\n"),
        Err(HorcruxError::ParseRequest(_))
    ));
    // a leading plus sign is accepted, as str::parse accepts it
    match parse_request(b"set key +4294967295 0 1\r\nx\r\n").unwrap() {
        Parsed::Done(Request::Put { flags, .. }) => assert_eq!(flags, u32::MAX),
        _ => panic!("Expected Set request"),
    }
}

#[test]
fn test_key_over_255_bytes_is_rejected() {
    let long_key = "k".repeat(256);
    let line = format!("set {} 0 0 1\r\nx\r\n", long_key);
    assert!(matches!(
        parse_request(line.as_bytes()),
        Err(HorcruxError::ParseRequest(_))
    ));
    let ok_key = "k".repeat(255);
    let line = format!("set {} 0 0 1\r\nx\r\n", ok_key);
    assert!(matches!(parse_request(line.as_bytes()), Ok(Parsed::Done(_))));
}

#[test]
fn test_invalid_utf8_key_is_replaced_not_dropped() {
    // a key byte that is not UTF-8 becomes U+FFFD, as from_utf8_lossy does
    let mut line = b"get ".to_vec();
    line.push(0xff);
    line.extend_from_slice(b"\r\n");
    match parse_request(&line).unwrap() {
        Parsed::Done(Request::Get { key }) => assert_eq!(key, "\u{fffd}"),
        _ => panic!("Expected Get request"),
    }
}

#[test]
fn test_any_ascii_whitespace_separates_tokens() {
    match parse_request(b"get\tkey\r\n").unwrap() {
        Parsed::Done(Request::Get { key }) => assert_eq!(key, "key"),
        _ => panic!("Expected Get request"),
    }
}

#[test]
fn test_response_bytes_exact() {
    assert_eq!(Response::Stored.as_bytes(), b"STORED\r\n".to_vec());
    assert_eq!(Response::Error.as_bytes(), b"ERROR\r\n".to_vec());
    assert_eq!(
        Response::SnapshotFinished.as_bytes(),
        b"SNAPSHOT FINISHED\r\n".to_vec()
    );
    assert_eq!(
        Response::Value("key".to_string(), None).as_bytes(),
        b"END\r\n".to_vec()
    );
    let v = Value { flags: 0, data: "value".to_string() };
    assert_eq!(
        Response::Value("key".to_string(), Some(v)).as_bytes(),
        b"VALUE key 0 5\r\nvalue\r\nEND\r\n".to_vec()
    );
    let v = Value { flags: 105, data: "ab".to_string() };
    assert_eq!(
        Response::Value("k2".to_string(), Some(v)).as_bytes(),
        b"VALUE k2 105 2\r\nab\r\nEND\r\n".to_vec()
    );
}

#[test]
fn test_error_actions() {
    let parse = HorcruxError::ParseRequest("bad".to_string());
    assert!(matches!(action_on_error(&parse), Action::Reply(Response::Error)));
    assert!(matches!(action_on_error(&HorcruxError::Ignorable), Action::Continue));
    let conn = HorcruxError::Connection("gone".to_string());
    assert!(matches!(action_on_error(&conn), Action::Close));
    assert!(matches!(action_on_error(&HorcruxError::Internal), Action::Close));
    assert!(matches!(action_after_set(&Ok(())), Action::Reply(Response::Stored)));
    assert!(matches!(action_after_set(&Err(HorcruxError::Internal)), Action::Close));
    assert!(matches!(
        action_after_snapshot(&Ok(())),
        Action::Reply(Response::SnapshotFinished)
    ));
    assert!(matches!(
        action_after_snapshot(&Err(HorcruxError::Internal)),
        Action::Reply(Response::Error)
    ));
}

#[test]
fn test_config_validation() {
    let c = Config::new("0.0.0.0:11211".to_string(), "/tmp/x".to_string(), 2, 180).unwrap();
    assert_eq!(c.addr, "0.0.0.0:11211");
    assert_eq!(c.snapshot_dir, "/tmp/x");
    assert_eq!(c.shards, 2);
    assert_eq!(c.snapshot_interval_secs, 180);
    let e = Config::new("a".to_string(), "".to_string(), 2, 180).unwrap_err();
    assert_eq!(e, "Snapshot directory cannot be empty");
    let e = Config::new("a".to_string(), "/tmp/x".to_string(), 2, 0).unwrap_err();
    assert_eq!(e, "Snapshot interval cannot be 0");
    let e = Config::new("a".to_string(), "/tmp/x".to_string(), 0, 180).unwrap_err();
    assert_eq!(e, "Shard count cannot be 0");
}

#[test]
fn test_error_descriptions() {
    let e = HorcruxError::ParseRequest("bad".to_string());
    assert_eq!(e.describe(), "Failed to parse request: bad");
    let e = HorcruxError::RestoreDB("gone".to_string());
    assert_eq!(e.describe(), "Failed to restore DB: gone");
    let e = HorcruxError::Connection("reset".to_string());
    assert_eq!(e.describe(), "Connection error: reset");
    assert_eq!(HorcruxError::Ignorable.describe(), "Ignorable error");
    assert_eq!(HorcruxError::Internal.describe(), "Internal error");
}
