use mc_rust_server::types::long::Long;
use mc_rust_server::types::McRustRepr;
use mc_rust_server::utils::{RWStreamWithLimit, StreamError};

#[test]
fn reads_stop_at_the_limit() {
    let mut s = RWStreamWithLimit::new(vec![1, 2, 3], 2);
    assert_eq!(s.get_read_left(), 2);
    assert_eq!(s.read_u8(), Ok(1));
    assert_eq!(s.read_u8(), Ok(2));
    assert_eq!(s.get_read_left(), 0);
    assert_eq!(s.read_u8(), Err(StreamError::LimitReached));
}

#[test]
fn reads_stop_at_the_end_of_the_stream() {
    let mut s = RWStreamWithLimit::new(vec![1], 5);
    assert_eq!(s.read_exact(2), Err(StreamError::UnexpectedEof));
    assert_eq!(s.get_read_left(), 4);
}

#[test]
fn one_read_takes_what_is_allowed() {
    let mut s = RWStreamWithLimit::new(vec![1, 2, 3, 4], 3);
    assert_eq!(s.read(10), Ok(vec![1, 2, 3]));
    assert_eq!(s.read(1), Err(StreamError::LimitReached));
    let mut s = RWStreamWithLimit::new(vec![], 3);
    assert_eq!(s.read(2), Ok(vec![]));
}

#[test]
fn big_endian_reads() {
    let mut s = RWStreamWithLimit::new(vec![0x63, 0xdd, 0xff, 0xff, 0xff, 0xff, 0xff, 0xff, 0xff, 0xfe], 10);
    assert_eq!(s.read_u16(), Ok(25565));
    assert_eq!(s.read_i64(), Ok(-2));
}

#[test]
fn writing_ends_reading() {
    let mut s = RWStreamWithLimit::new(vec![1, 2, 3], 3);
    s.write_all(&[]);
    assert_eq!(s.get_read_left(), 3);
    s.write_all(&[9, 8]);
    assert_eq!(s.get_read_left(), 0);
    assert_eq!(s.written_bytes(), &[9, 8]);
    assert_eq!(s.read_u8(), Err(StreamError::LimitReached));
}

#[test]
fn discarding_the_rest() {
    let mut s = RWStreamWithLimit::new(vec![1, 2, 3, 4], 3);
    assert_eq!(s.read_u8(), Ok(1));
    assert_eq!(s.discard_unread(), Ok(2));
    assert_eq!(s.get_read_left(), 0);
    assert_eq!(s.discard_unread(), Ok(0));

    let mut s = RWStreamWithLimit::new(vec![1], 3);
    assert_eq!(s.discard_unread(), Err(StreamError::NotAllReadInOneGo));
    assert_eq!(s.get_read_left(), 2);

    let mut s = RWStreamWithLimit::new(vec![], 3);
    assert_eq!(s.discard_unread(), Err(StreamError::CouldNotReadAByte));
    assert_eq!(s.get_read_left(), 3);
}

#[test]
fn long_is_eight_big_endian_bytes() {
    let mut out = Vec::new();
    assert_eq!(Long(0x0102030405060708).write_stream(&mut out), 8);
    assert_eq!(out, vec![1, 2, 3, 4, 5, 6, 7, 8]);
    let mut out = Vec::new();
    Long(-1).write_stream(&mut out);
    assert_eq!(out, vec![0xff; 8]);
}

#[test]
fn long_reads_back() {
    for v in [0i64, 1, -1, i64::MAX, i64::MIN, 1234567890123] {
        let mut out = Vec::new();
        Long(v).write_stream(&mut out);
        let mut s = RWStreamWithLimit::new(out, 8);
        let l = Long::read_stream(&mut s).unwrap();
        assert_eq!(*l, v);
        assert_eq!(l.to_rs(), v);
        assert_eq!(*l.as_rs(), v);
        assert_eq!(l.into_rs(), v);
    }
    let mut s = RWStreamWithLimit::new(vec![1, 2, 3], 8);
    assert!(Long::read_stream(&mut s).is_err());
}
