use resp_kv::bytes::{bytes_eq, copy_bytes};
use resp_kv::command::Command;
use resp_kv::decoder::{decode, DecodeResult};
use resp_kv::encoder::{
    boolean_response, bulk_string_response, error_response, integer_response, ok_response,
};
use resp_kv::store::Store;

#[test]
fn partial_frames_need_more_bytes() {
    let full = b"*3\r\n$3\r\nSET\r\n$3\r\nfoo\r\n$3\r\nbar\r\n";
    for m in 0..full.len() {
        assert!(
            matches!(decode(&full[..m]), DecodeResult::NeedMore),
            "prefix of {} bytes must not decode",
            m
        );
    }
    match decode(full) {
        DecodeResult::Decoded { command, consumed } => {
            assert_eq!(consumed, full.len());
            match command {
                Command::Put { key, value } => {
                    assert_eq!(key, b"foo");
                    assert_eq!(value, b"bar");
                }
                _ => panic!("wrong command"),
            }
        }
        _ => panic!("full frame must decode"),
    }
}

#[test]
fn pipelined_frames_decode_in_order() {
    let first = b"*3\r\n$3\r\nSET\r\n$3\r\nfoo\r\n$3\r\nbar\r\n";
    let second = b"*2\r\n$3\r\nGET\r\n$3\r\nfoo\r\n";
    let mut buf = Vec::new();
    buf.extend_from_slice(first);
    buf.extend_from_slice(second);

    let consumed = match decode(&buf) {
        DecodeResult::Decoded { command, consumed } => {
            assert!(matches!(command, Command::Put { .. }));
            consumed
        }
        _ => panic!("first frame must decode"),
    };
    assert_eq!(consumed, first.len());
    match decode(&buf[consumed..]) {
        DecodeResult::Decoded { command, consumed: c2 } => {
            assert_eq!(c2, second.len());
            match command {
                Command::Get { key } => assert_eq!(key, b"foo"),
                _ => panic!("wrong command"),
            }
        }
        _ => panic!("second frame must decode"),
    }
}

#[test]
fn binary_payloads_are_framed_by_length() {
    // A value holding the frame's own control bytes decodes verbatim.
    let req = b"*3\r\n$3\r\nSET\r\n$4\r\n\r\n\0*\r\n$6\r\n \r\n$1\r\r\n";
    match decode(req) {
        DecodeResult::Decoded { command, consumed } => {
            assert_eq!(consumed, req.len());
            match command {
                Command::Put { key, value } => {
                    assert_eq!(key, b"\r\n\0*");
                    assert_eq!(value, b" \r\n$1\r");
                }
                _ => panic!("wrong command"),
            }
        }
        _ => panic!("frame must decode"),
    }
}

#[test]
fn command_names_are_case_sensitive() {
    match decode(b"*2\r\n$3\r\nget\r\n$3\r\nfoo\r\n") {
        DecodeResult::Decoded { command, .. } => match command {
            Command::Unrecognized { name } => assert_eq!(name, b"get"),
            _ => panic!("lower-case name must not match"),
        },
        _ => panic!("frame must decode"),
    }
}

#[test]
fn empty_array_is_malformed() {
    assert!(matches!(decode(b"*0\r\n"), DecodeResult::Malformed));
}

#[test]
fn arity_error_reports_name_and_consumed() {
    match decode(b"*1\r\n$3\r\nGET\r\n") {
        DecodeResult::ArityError { name, consumed } => {
            assert_eq!(name, b"GET");
            assert_eq!(consumed, 13);
        }
        _ => panic!("expected an arity error"),
    }
}

#[test]
fn ok_response_bytes() {
    assert_eq!(ok_response(), b"+OK\r\n");
}

#[test]
fn error_response_uppercases_category() {
    assert_eq!(error_response(b"wrong_args", b"SET"), b"-WRONG_ARGS SET\r\n");
    assert_eq!(error_response(b"E", b"m"), b"-E m\r\n");
}

#[test]
fn bulk_string_response_bytes() {
    assert_eq!(bulk_string_response(b"value"), b"$5\r\nvalue\r\n");
    assert_eq!(bulk_string_response(b""), b"$0\r\n\r\n");
    assert_eq!(bulk_string_response(b"\r\n"), b"$2\r\n\r\n\r\n");
}

#[test]
fn boolean_response_bytes() {
    assert_eq!(boolean_response(true), b":1\r\n");
    assert_eq!(boolean_response(false), b":0\r\n");
}

#[test]
fn integer_response_bytes() {
    assert_eq!(integer_response(0), b":0\r\n");
    assert_eq!(integer_response(1), b":1\r\n");
    assert_eq!(integer_response(-42), b":-42\r\n");
    assert_eq!(integer_response(1000), b":1000\r\n");
    assert_eq!(integer_response(i64::MAX), b":9223372036854775807\r\n");
    assert_eq!(integer_response(i64::MIN), b":-9223372036854775808\r\n");
}

#[test]
fn store_operations() {
    let mut store = Store::new();
    assert_eq!(store.get(b"k"), None);
    assert!(!store.exists_key(b"k"));
    assert!(!store.delete(b"k"));

    store.set(b"k".to_vec(), b"v1".to_vec());
    assert_eq!(store.get(b"k"), Some(b"v1".to_vec()));
    assert!(store.exists_key(b"k"));

    store.set(b"k".to_vec(), b"v2".to_vec());
    assert_eq!(store.get(b"k"), Some(b"v2".to_vec()));

    assert!(store.delete(b"k"));
    assert_eq!(store.get(b"k"), None);
    assert!(!store.delete(b"k"));
}

#[test]
fn byte_helpers() {
    assert!(bytes_eq(b"", b""));
    assert!(bytes_eq(b"abc", b"abc"));
    assert!(!bytes_eq(b"abc", b"abd"));
    assert!(!bytes_eq(b"abc", b"ab"));
    assert_eq!(copy_bytes(b"xyz"), b"xyz".to_vec());
}
