use mc_rust_server::types::var_int::{get_number_bytes_size, VarInt};
use mc_rust_server::types::var_long::VarLong;
use mc_rust_server::types::McRustRepr;
use mc_rust_server::utils::RWStreamWithLimit;
use mc_rust_server::varnum::{decode_var, ReadStep, VarNumError, VarNumReader};

#[test]
fn test_varint_read_stream() {
    let test_cases: [(Vec<u8>, i32); 11] = [
        (vec![0x00], 0),
        (vec![0x01], 1),
        (vec![0x02], 2),
        (vec![0x7f], 127),
        (vec![0x80, 0x01], 128),
        (vec![0xff, 0x01], 255),
        (vec![0xdd, 0xc7, 0x01], 25565),
        (vec![0xff, 0xff, 0x7f], 2097151),
        (vec![0xff, 0xff, 0xff, 0xff, 0x07], 2147483647),
        (vec![0xff, 0xff, 0xff, 0xff, 0x0f], -1),
        (vec![0x80, 0x80, 0x80, 0x80, 0x08], -2147483648),
    ];

    for (input_bytes, expected_value) in test_cases {
        let limit = input_bytes.len();
        let mut reader = RWStreamWithLimit::new(input_bytes.clone(), limit);
        let varint = VarInt::read_stream(&mut reader).unwrap();
        assert_eq!(
            varint.0, expected_value,
            "Decoding mismatch for bytes: {:?}",
            input_bytes
        );
        let mut reversed_bytes = Vec::new();
        varint.write_stream(&mut reversed_bytes);
        assert_eq!(
            input_bytes, reversed_bytes,
            "Back and forth did not work for {}",
            *varint
        )
    }
}

#[test]
fn test_varlong_read_stream() {
    let test_cases: [(Vec<u8>, i64); 11] = [
        (vec![0x00], 0),
        (vec![0x01], 1),
        (vec![0x02], 2),
        (vec![0x7f], 127),
        (vec![0x80, 0x01], 128),
        (vec![0xff, 0x01], 255),
        (vec![0xff, 0xff, 0xff, 0xff, 0x07], 2147483647),
        (
            vec![0xff, 0xff, 0xff, 0xff, 0xff, 0xff, 0xff, 0xff, 0x7f],
            9223372036854775807,
        ),
        (
            vec![0xff, 0xff, 0xff, 0xff, 0xff, 0xff, 0xff, 0xff, 0xff, 0x01],
            -1,
        ),
        (
            vec![0x80, 0x80, 0x80, 0x80, 0xf8, 0xff, 0xff, 0xff, 0xff, 0x01],
            -2147483648,
        ),
        (
            vec![0x80, 0x80, 0x80, 0x80, 0x80, 0x80, 0x80, 0x80, 0x80, 0x01],
            -9223372036854775808,
        ),
    ];

    for (input_bytes, expected_value) in test_cases {
        let limit = input_bytes.len();
        let mut reader = RWStreamWithLimit::new(input_bytes.clone(), limit);
        let varint = VarLong::read_stream(&mut reader).unwrap();
        assert_eq!(
            *varint, expected_value,
            "Decoding mismatch for bytes: {:?}",
            input_bytes
        );
        let mut reversed_bytes = Vec::new();
        varint.write_stream(&mut reversed_bytes);
        assert_eq!(
            input_bytes, reversed_bytes,
            "Back and forth did not work for {}",
            *varint
        )
    }
}

#[test]
fn varint_from_bytes_takes_only_its_bytes() {
    let (r, n) = VarInt::from_bytes(&[0xdd, 0xc7, 0x01, 0x42, 0x99]);
    assert_eq!(r, Ok(VarInt(25565)));
    assert_eq!(n, 3);
}

#[test]
fn varint_with_six_groups_is_too_big() {
    let (r, n) = VarInt::from_bytes(&[0xff, 0xff, 0xff, 0xff, 0xff, 0x01]);
    assert_eq!(r, Err(VarNumError::TooBig));
    assert_eq!(n, 5);
}

#[test]
fn varlong_with_eleven_groups_is_too_big() {
    let (r, n) = VarLong::from_bytes(&[0x80; 12]);
    assert_eq!(r, Err(VarNumError::TooBig));
    assert_eq!(n, 10);
}

#[test]
fn unfinished_varint_needs_more_bytes() {
    let (r, n) = VarInt::from_bytes(&[0x80, 0x80]);
    assert_eq!(r, Err(VarNumError::UnexpectedEnd));
    assert_eq!(n, 2);
    let (r, n) = VarInt::from_bytes(&[]);
    assert_eq!(r, Err(VarNumError::UnexpectedEnd));
    assert_eq!(n, 0);
}

#[test]
fn fifth_varint_group_keeps_only_its_low_bits() {
    // 0x7f in the fifth group carries bits beyond 32; they are cut off.
    let (r, _) = VarInt::from_bytes(&[0xff, 0xff, 0xff, 0xff, 0x7f]);
    assert_eq!(r, Ok(VarInt(-1)));
}

#[test]
fn reader_fed_byte_by_byte() {
    let mut reader = VarNumReader::new(32);
    assert_eq!(reader.push(0xdd), ReadStep::More);
    assert_eq!(reader.push(0xc7), ReadStep::More);
    assert_eq!(reader.push(0x01), ReadStep::Done(25565));
    let mut reader = VarNumReader::new(32);
    for _ in 0..4 {
        assert_eq!(reader.push(0x80), ReadStep::More);
    }
    assert_eq!(reader.push(0x80), ReadStep::TooBig);
    assert_eq!(VarInt::from_wire(0xFFFF_FFFF), VarInt(-1));
}

#[test]
fn decode_var_reports_value_and_length() {
    assert_eq!(decode_var(&[0xac, 0x02], 64), (Ok(300), 2));
    assert_eq!(decode_var(&[0x80, 0x01], 7), (Err(VarNumError::TooBig), 1));
}

#[test]
fn sizes_of_numbers() {
    assert_eq!(get_number_bytes_size(0), 1);
    assert_eq!(get_number_bytes_size(127), 1);
    assert_eq!(get_number_bytes_size(128), 2);
    assert_eq!(get_number_bytes_size(16383), 2);
    assert_eq!(get_number_bytes_size(16384), 3);
    assert_eq!(get_number_bytes_size(u64::MAX), 10);
    assert_eq!(VarInt(300).get_size(), 2);
    assert_eq!(VarInt(25565).get_size(), 3);
    // a negative VarInt is counted on its sign-extended 64 bits
    assert_eq!(VarInt(-1).get_size(), 10);
    assert_eq!(VarLong(-1).get_size(), 10);
    assert_eq!(VarLong(i64::MAX).get_size(), 9);
}

#[test]
fn negative_varint_writes_five_bytes() {
    let mut out = vec![0xaa];
    let n = VarInt(-1).write_stream(&mut out);
    assert_eq!(n, 5);
    assert_eq!(out, vec![0xaa, 0xff, 0xff, 0xff, 0xff, 0x0f]);
}

#[test]
fn varint_roundtrip_on_many_values() {
    for v in [0i32, 1, 63, 64, 127, 128, 255, 300, 16384, 25565, 1 << 28, i32::MAX, -1, -128, i32::MIN] {
        let mut out = Vec::new();
        let n = VarInt(v).write_stream(&mut out);
        out.extend_from_slice(&[0x00, 0x7f]);
        assert_eq!(VarInt::from_bytes(&out), (Ok(VarInt(v)), n));
    }
    for v in [0i64, 1, 300, i64::MAX, i64::MIN, -1, 1 << 62] {
        let mut out = Vec::new();
        let n = VarLong(v).write_stream(&mut out);
        out.push(0x33);
        assert_eq!(VarLong::from_bytes(&out), (Ok(VarLong(v)), n));
    }
}

#[test]
fn rust_representations() {
    let v = VarInt(42);
    assert_eq!(v.to_rs(), 42);
    assert_eq!(*v.as_rs(), 42);
    assert_eq!(v.into_rs(), 42);
    let l = VarLong(-7);
    assert_eq!(l.to_rs(), -7);
    assert_eq!(*l.as_rs(), -7);
    assert_eq!(l.into_rs(), -7);
}

#[test]
fn varint_read_from_stream_reports_the_limit() {
    let mut s = RWStreamWithLimit::new(vec![0x80, 0x80, 0x01], 2);
    assert_eq!(
        VarInt::read_stream(&mut s),
        Err(mc_rust_server::types::ProtocolError::Stream(mc_rust_server::utils::StreamError::LimitReached))
    );
    assert_eq!(s.get_read_left(), 0);
    let mut s = RWStreamWithLimit::new(vec![0x80], 5);
    assert_eq!(
        VarInt::read_stream(&mut s),
        Err(mc_rust_server::types::ProtocolError::Stream(mc_rust_server::utils::StreamError::UnexpectedEof))
    );
}
