use resp_kv::dispatch::{process_request, Processed};
use resp_kv::store::Store;

fn run(store: &mut Store, req: &[u8]) -> (Vec<u8>, usize, bool) {
    match process_request(store, req) {
        Processed::Done { response, consumed, close } => (response, consumed, close),
        Processed::NeedMore => panic!("expected a complete frame"),
    }
}

fn reply(store: &mut Store, req: &[u8]) -> Vec<u8> {
    run(store, req).0
}

/// Builds one frame: `*<N>\r\n` then each part as `$<len>\r\n<part>\r\n`.
fn frame(parts: &[&[u8]]) -> Vec<u8> {
    let mut out = Vec::new();
    out.extend_from_slice(format!("*{}\r\n", parts.len()).as_bytes());
    for p in parts {
        out.extend_from_slice(format!("${}\r\n", p.len()).as_bytes());
        out.extend_from_slice(p);
        out.extend_from_slice(b"\r\n");
    }
    out
}

#[test]
fn test_set_command() {
    let mut store = Store::new();
    let request = b"*3\r\n$3\r\nSET\r\n$3\r\nkey\r\n$5\r\nvalue\r\n";
    let response = reply(&mut store, request);
    assert_eq!(response, b"+OK\r\n");
}

#[test]
fn test_get_command() {
    let mut store = Store::new();
    let set_request = b"*3\r\n$3\r\nSET\r\n$3\r\nkey\r\n$5\r\nvalue\r\n";
    reply(&mut store, set_request);

    let request = b"*2\r\n$3\r\nGET\r\n$3\r\nkey\r\n";
    let response = reply(&mut store, request);
    assert_eq!(response, b"$5\r\nvalue\r\n");
}

#[test]
fn test_del_command() {
    let mut store = Store::new();
    let set_request = b"*3\r\n$3\r\nSET\r\n$3\r\nkey\r\n$5\r\nvalue\r\n";
    reply(&mut store, set_request);

    let request = b"*2\r\n$3\r\nDEL\r\n$3\r\nkey\r\n";
    let response = reply(&mut store, request);
    assert_eq!(response, b":1\r\n");
}

#[test]
fn test_exists_command() {
    let mut store = Store::new();
    let set_request = b"*3\r\n$3\r\nSET\r\n$3\r\nkey\r\n$5\r\nvalue\r\n";
    let response = reply(&mut store, set_request);
    assert_eq!(response, b"+OK\r\n");

    let request = b"*2\r\n$6\r\nEXISTS\r\n$3\r\nkey\r\n";
    let response = reply(&mut store, request);
    assert_eq!(response, b":1\r\n");
}

#[test]
fn test_quit_command() {
    let mut store = Store::new();
    let request = b"*1\r\n$4\r\nQUIT\r\n";
    let response = reply(&mut store, request);
    assert_eq!(response, b"+OK\r\n");
}

#[test]
fn quit_signals_close() {
    let mut store = Store::new();
    let (response, consumed, close) = run(&mut store, b"*1\r\n$4\r\nQUIT\r\n");
    assert_eq!(response, b"+OK\r\n");
    assert_eq!(consumed, 14);
    assert!(close);
}

#[test]
fn set_get_del_get_scenario() {
    let mut store = Store::new();
    assert_eq!(
        reply(&mut store, b"*3\r\n$3\r\nSET\r\n$3\r\nfoo\r\n$3\r\nbar\r\n"),
        b"+OK\r\n"
    );
    assert_eq!(reply(&mut store, b"*2\r\n$3\r\nGET\r\n$3\r\nfoo\r\n"), b"$3\r\nbar\r\n");
    assert_eq!(reply(&mut store, b"*2\r\n$3\r\nDEL\r\n$3\r\nfoo\r\n"), b":1\r\n");
    assert_eq!(reply(&mut store, b"*2\r\n$3\r\nGET\r\n$3\r\nfoo\r\n"), b"$-1\r\n");
}

#[test]
fn round_trip_binary_and_empty() {
    let mut store = Store::new();
    let cases: Vec<(&[u8], &[u8])> = vec![
        (b"", b""),
        (b"", b"v"),
        (b"k", b""),
        (b"a\r\nb", b"c\r\nd"),
        (b"\0", b"\0\0"),
        (b"nul\0key", b"va\rlu\ne"),
    ];
    for (key, value) in cases {
        assert_eq!(reply(&mut store, &frame(&[b"SET", key, value])), b"+OK\r\n");
        let expected = frame(&[value])[4..].to_vec();
        assert_eq!(reply(&mut store, &frame(&[b"GET", key])), expected);
    }
}

#[test]
fn idempotent_delete() {
    let mut store = Store::new();
    assert_eq!(reply(&mut store, &frame(&[b"DEL", b"absent"])), b":0\r\n");
    assert_eq!(reply(&mut store, &frame(&[b"SET", b"k", b"v"])), b"+OK\r\n");
    assert_eq!(reply(&mut store, &frame(&[b"DEL", b"k"])), b":1\r\n");
    assert_eq!(reply(&mut store, &frame(&[b"DEL", b"k"])), b":0\r\n");
}

#[test]
fn exists_tracks_last_mutation() {
    let mut store = Store::new();
    assert_eq!(reply(&mut store, &frame(&[b"EXISTS", b"k"])), b":0\r\n");
    assert_eq!(reply(&mut store, &frame(&[b"SET", b"k", b"v"])), b"+OK\r\n");
    assert_eq!(reply(&mut store, &frame(&[b"EXISTS", b"k"])), b":1\r\n");
    assert_eq!(reply(&mut store, &frame(&[b"SET", b"other", b"w"])), b"+OK\r\n");
    assert_eq!(reply(&mut store, &frame(&[b"EXISTS", b"k"])), b":1\r\n");
    assert_eq!(reply(&mut store, &frame(&[b"DEL", b"k"])), b":1\r\n");
    assert_eq!(reply(&mut store, &frame(&[b"EXISTS", b"k"])), b":0\r\n");
}

#[test]
fn distinct_keys_are_independent() {
    let mut store = Store::new();
    let n = 16;
    for i in 0..n {
        let key = format!("key-{}", i);
        let value = format!("value-{}", i);
        assert_eq!(
            reply(&mut store, &frame(&[b"SET", key.as_bytes(), value.as_bytes()])),
            b"+OK\r\n"
        );
    }
    for i in 0..n {
        let key = format!("key-{}", i);
        let value = format!("value-{}", i);
        let expected = frame(&[value.as_bytes()])[4..].to_vec();
        assert_eq!(reply(&mut store, &frame(&[b"GET", key.as_bytes()])), expected);
    }
}

#[test]
fn wrong_arity_is_reported_and_connection_stays_open() {
    let mut store = Store::new();
    let (response, consumed, close) = run(&mut store, b"*2\r\n$3\r\nSET\r\n$3\r\nfoo\r\n");
    assert_eq!(response, b"-WRONG_ARGS SET\r\n");
    assert_eq!(consumed, 22);
    assert!(!close);

    let (response, _, close) = run(&mut store, b"*2\r\n$4\r\nQUIT\r\n$1\r\nx\r\n");
    assert_eq!(response, b"-WRONG_ARGS QUIT\r\n");
    assert!(!close);
}

#[test]
fn unsupported_command_is_reported() {
    let mut store = Store::new();
    let (response, _, close) = run(&mut store, b"*1\r\n$4\r\nPING\r\n");
    assert_eq!(response, b"-UNSUPPORTED_COMMAND PING\r\n");
    assert!(!close);
}

#[test]
fn malformed_frames_close_the_connection() {
    let mut store = Store::new();
    for bad in [
        &b"+GET key\r\n"[..],
        b"*x\r\n",
        b"*-1\r\n",
        b"*1\r\nxxxx",
        b"*1\r\n$3x\r\nabc\r\n",
        b"*1\r\n$3\r\nabcX\n",
        b"*1\r\n$999999999999\r\n",
    ] {
        let (response, consumed, close) = run(&mut store, bad);
        assert_eq!(response, b"-INVALID_REQUEST malformed frame\r\n");
        assert_eq!(consumed, 0);
        assert!(close);
    }
}

#[test]
fn pipelined_requests_are_processed_in_order() {
    let mut store = Store::new();
    let first = frame(&[b"SET", b"k", b"v"]);
    let mut buf = first.clone();
    buf.extend_from_slice(&frame(&[b"GET", b"k"]));

    let (response, consumed, close) = run(&mut store, &buf);
    assert_eq!(response, b"+OK\r\n");
    assert_eq!(consumed, first.len());
    assert!(!close);

    let rest = buf[consumed..].to_vec();
    let (response, consumed2, _) = run(&mut store, &rest);
    assert_eq!(response, b"$1\r\nv\r\n");
    assert_eq!(consumed2, rest.len());
}

#[test]
fn request_fed_byte_by_byte() {
    let mut store = Store::new();
    let full = frame(&[b"SET", b"k", b"v"]);
    let mut buf = Vec::new();
    for (idx, b) in full.iter().enumerate() {
        buf.push(*b);
        if idx + 1 < full.len() {
            assert!(matches!(process_request(&mut store, &buf), Processed::NeedMore));
        }
    }
    let (response, consumed, _) = run(&mut store, &buf);
    assert_eq!(response, b"+OK\r\n");
    assert_eq!(consumed, full.len());
}

#[test]
fn need_more_on_empty_buffer() {
    let mut store = Store::new();
    assert!(matches!(process_request(&mut store, b""), Processed::NeedMore));
}
