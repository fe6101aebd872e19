use mc_rust_server::types::string::McString;
use mc_rust_server::types::McRustRepr;
use mc_rust_server::types::ProtocolError;
use mc_rust_server::utils::{RWStreamWithLimit, StreamError};

#[test]
fn measure_size_counts_prefix_and_bytes() {
    assert_eq!(McString::<255>::measure_size(""), 1);
    assert_eq!(McString::<255>::measure_size("hello"), 6);
    assert_eq!(McString::<255>::measure_size("héllo"), 7);
    let long = "x".repeat(200);
    assert_eq!(McString::<255>::measure_size(&long), 202);
}

#[test]
fn written_string_is_prefixed_by_its_measured_size() {
    let s = McString::<255>::from_string("hello".to_string());
    let mut out = Vec::new();
    assert_eq!(s.write_stream(&mut out), 6);
    assert_eq!(out, vec![6, b'h', b'e', b'l', b'l', b'o']);
    let e = McString::<255>::from_string(String::new());
    let mut out = Vec::new();
    assert_eq!(e.write_stream(&mut out), 1);
    assert_eq!(out, vec![1]);
}

#[test]
fn reads_a_string() {
    let mut bytes = vec![9];
    bytes.extend_from_slice(b"localhost");
    let mut s = RWStreamWithLimit::new(bytes, 10);
    let r = McString::<255>::read_stream(&mut s).unwrap();
    assert_eq!(r.value, "localhost");
    assert_eq!(r.to_rs(), "localhost");
    assert_eq!(r.as_rs(), "localhost");
    assert_eq!(s.get_read_left(), 0);
    assert_eq!(r.into_rs(), "localhost".to_string());
}

#[test]
fn reads_utf8_string() {
    let text = "grüße";
    let mut bytes = vec![text.len() as u8];
    bytes.extend_from_slice(text.as_bytes());
    let n = bytes.len();
    let mut s = RWStreamWithLimit::new(bytes, n);
    let r = McString::<16>::read_stream(&mut s).unwrap();
    assert_eq!(r.value, text);
}

#[test]
fn too_long_string_is_refused() {
    // 3 * 2 + 3 = 9 bytes at most for a string of 2 characters
    let mut s = RWStreamWithLimit::new(vec![10, 0, 0, 0, 0, 0, 0, 0, 0, 0, 0], 11);
    assert!(matches!(McString::<2>::read_stream(&mut s), Err(ProtocolError::StringTooLong)));
    assert_eq!(s.get_read_left(), 10);
    // a negative length is far too long
    let mut s = RWStreamWithLimit::new(vec![0xff, 0xff, 0xff, 0xff, 0x0f], 5);
    assert!(matches!(McString::<2>::read_stream(&mut s), Err(ProtocolError::StringTooLong)));
}

#[test]
fn invalid_utf8_is_refused() {
    let mut s = RWStreamWithLimit::new(vec![2, 0xff, 0xfe], 3);
    assert!(matches!(McString::<255>::read_stream(&mut s), Err(ProtocolError::InvalidUtf8)));
}

#[test]
fn short_read_is_reported() {
    let mut s = RWStreamWithLimit::new(vec![5, b'h', b'i'], 3);
    assert!(matches!(McString::<255>::read_stream(&mut s), Err(ProtocolError::StringShortRead)));
}

#[test]
fn empty_string_needs_bytes_left() {
    let mut s = RWStreamWithLimit::new(vec![0], 1);
    assert!(matches!(
        McString::<255>::read_stream(&mut s),
        Err(ProtocolError::Stream(StreamError::LimitReached))
    ));
    let mut s = RWStreamWithLimit::new(vec![0, 7], 2);
    assert_eq!(McString::<255>::read_stream(&mut s).unwrap().value, "");
}

#[test]
fn written_string_prefix_counts_itself() {
    // the prefix holds the measured size, which counts the prefix too, so the
    // bytes of "a" announce one byte more than follow them
    let s = McString::<255>::from_string("a".to_string());
    let mut out = Vec::new();
    s.write_stream(&mut out);
    assert_eq!(out, vec![2, b'a']);
    let mut r = RWStreamWithLimit::new(out, 2);
    assert!(matches!(McString::<255>::read_stream(&mut r), Err(ProtocolError::StringShortRead)));
}
