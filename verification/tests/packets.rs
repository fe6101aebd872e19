use mc_rust_server::connection::{legacy_ping_response, Connection, ConnectionState, FrameAction};
use mc_rust_server::protocols::custom_report_details;
use mc_rust_server::protocols::handshake;
use mc_rust_server::protocols::ping;
use mc_rust_server::protocols::status;
use mc_rust_server::protocols::{NotImplementedData, ProtocolResponseId};
use mc_rust_server::types::long::Long;
use mc_rust_server::types::package::{
    IncomingPackage, IncomingPackageContent, OutgoingPackage, OutgoingPackageContent,
};
use mc_rust_server::types::var_int::VarInt;
use mc_rust_server::types::ProtocolError;
use mc_rust_server::utils::{RWStreamWithLimit, StreamError};

fn handshake_bytes(next_state: u8) -> Vec<u8> {
    let mut b = vec![0xff, 0x05, 9];
    b.extend_from_slice(b"localhost");
    b.extend_from_slice(&[0x63, 0xdd, next_state]);
    b
}

#[test]
fn reads_a_handshake() {
    let bytes = handshake_bytes(1);
    let n = bytes.len();
    let mut s = RWStreamWithLimit::new(bytes, n);
    let d = handshake::Data::read_stream(&mut s).unwrap();
    assert_eq!(d.protocol_version, VarInt(767));
    assert_eq!(d.server_address.value, "localhost");
    assert_eq!(d.server_port, 25565);
    assert_eq!(d.next_state, ConnectionState::Status);
    assert_eq!(s.get_read_left(), 0);
}

#[test]
fn handshake_with_unknown_state_fails() {
    let bytes = handshake_bytes(7);
    let n = bytes.len();
    let mut s = RWStreamWithLimit::new(bytes, n);
    assert!(matches!(handshake::Data::read_stream(&mut s), Err(ProtocolError::UnknownNextState(7))));
}

#[test]
fn handshake_cannot_ask_for_the_closed_state() {
    let bytes = vec![0x00, 0x00, 0x00, 0x00, 0xff, 0xff, 0xff, 0xff, 0x0f];
    let mut s = RWStreamWithLimit::new(bytes, 9);
    assert!(matches!(handshake::Data::read_stream(&mut s), Err(ProtocolError::UnknownNextState(-1))));
}

#[test]
fn connection_states_by_number() {
    assert_eq!(ConnectionState::from_i32(0), Some(ConnectionState::NotConnected));
    assert_eq!(ConnectionState::from_i32(2), Some(ConnectionState::Login));
    assert_eq!(ConnectionState::from_i32(5), Some(ConnectionState::Play));
    assert_eq!(ConnectionState::from_i32(-1), Some(ConnectionState::Closed));
    assert_eq!(ConnectionState::from_i32(6), None);
    assert_eq!(ConnectionState::Configuration.to_i32(), 4);
    assert_eq!(ProtocolResponseId::Ping.to_i32(), 1);
    assert_eq!(ProtocolResponseId::from_i32(0), Some(ProtocolResponseId::Status));
    assert_eq!(ProtocolResponseId::from_i32(2), None);
}

#[test]
fn handshake_packet_moves_to_the_asked_state() {
    let mut bytes = vec![0x00];
    bytes.extend(handshake_bytes(2));
    let n = bytes.len();
    let mut s = RWStreamWithLimit::new(bytes, n);
    let json = "{}".to_string();
    let r = Connection::handle_package(&mut s, ConnectionState::NotConnected, false, &json);
    assert_eq!(r, Ok(ConnectionState::Login));
    assert_eq!(s.get_read_left(), 0);
    assert!(s.written_bytes().is_empty());
}

#[test]
fn status_request_is_answered_with_the_status_text() {
    let mut s = RWStreamWithLimit::new(vec![0x00], 1);
    let json = "{\"a\":1}".to_string();
    let r = IncomingPackage::handle_incoming(&mut s, ConnectionState::Status, &json);
    assert_eq!(r, Ok(None));
    // length 10: id 0, then the string's measured size 8 and its 7 bytes
    let mut expected = vec![0x09, 0x00, 0x08];
    expected.extend_from_slice(json.as_bytes());
    assert_eq!(s.written_bytes(), expected.as_slice());
    assert_eq!(s.get_read_left(), 0);
}

#[test]
fn ping_is_answered_with_its_number() {
    let mut bytes = vec![0x01];
    bytes.extend_from_slice(&[0, 0, 0, 0, 0, 0, 0x30, 0x39]);
    let mut s = RWStreamWithLimit::new(bytes, 9);
    let json = String::new();
    let r = Connection::handle_package(&mut s, ConnectionState::Status, false, &json);
    assert_eq!(r, Ok(ConnectionState::Status));
    assert_eq!(
        s.written_bytes(),
        &[0x09, 0x01, 0, 0, 0, 0, 0, 0, 0x30, 0x39]
    );
}

#[test]
fn unknown_packet_is_refused_and_discarded() {
    let mut s = RWStreamWithLimit::new(vec![0x05, 1, 2, 3], 4);
    let json = String::new();
    let r = IncomingPackage::handle_incoming(&mut s, ConnectionState::Status, &json);
    assert_eq!(r, Err(ProtocolError::UnrecognizedPacket(ConnectionState::Status, 5)));
    assert_eq!(s.get_read_left(), 0);
    assert!(s.written_bytes().is_empty());
}

#[test]
fn login_packets_are_not_implemented() {
    let mut s = RWStreamWithLimit::new(vec![0x02, 7], 2);
    let json = String::new();
    let r = Connection::handle_package(&mut s, ConnectionState::Login, false, &json);
    assert_eq!(r, Err(ProtocolError::NotImplemented));
    assert_eq!(s.get_read_left(), 0);
}

#[test]
fn unreadable_packet_id_is_reported_without_discarding() {
    let mut s = RWStreamWithLimit::new(vec![0x80], 1);
    let json = String::new();
    let r = IncomingPackage::handle_incoming(&mut s, ConnectionState::Status, &json);
    assert_eq!(r, Err(ProtocolError::Stream(StreamError::LimitReached)));
}

#[test]
fn failed_discard_is_reported() {
    // a packet announced as 5 bytes of which the stream holds only 2
    let mut s = RWStreamWithLimit::new(vec![0x09, 1], 5);
    let json = String::new();
    let r = IncomingPackage::handle_incoming(&mut s, ConnectionState::Status, &json);
    assert_eq!(r, Err(ProtocolError::Stream(StreamError::NotAllReadInOneGo)));
}

#[test]
fn custom_report_details_use_up_the_packet() {
    let mut s = RWStreamWithLimit::new(vec![1, 2, 3, 4], 3);
    assert!(matches!(
        custom_report_details::Data::read_stream(&mut s),
        Err(ProtocolError::Stream(StreamError::LimitReached))
    ));
    assert_eq!(s.get_read_left(), 0);
    let mut s = RWStreamWithLimit::new(vec![2, 9], 2);
    assert_eq!(custom_report_details::Protocol::handle(&mut s), Err(true));
    assert_eq!(s.get_read_left(), 1);
}

#[test]
fn ping_protocol_echoes() {
    let mut s = RWStreamWithLimit::new(vec![0, 0, 0, 0, 0, 0, 0, 7], 8);
    assert_eq!(ping::Protocol::handle(&mut s), Ok(()));
    assert_eq!(s.written_bytes(), &[1, 0, 0, 0, 0, 0, 0, 0, 7]);
    let mut s = RWStreamWithLimit::new(vec![0, 0], 2);
    assert_eq!(ping::Protocol::handle(&mut s), Err(false));
}

#[test]
fn outgoing_packages_are_framed() {
    let p = OutgoingPackage {
        protocol: ProtocolResponseId::Ping,
        content: OutgoingPackageContent::PingResponse(ping::ResponseData { timespan: Long(-1) }),
    };
    let mut s = RWStreamWithLimit::new(vec![], 0);
    assert_eq!(p.write_stream(&mut s), 10);
    let mut expected = vec![0x09, 0x01];
    expected.extend_from_slice(&[0xff; 8]);
    assert_eq!(s.written_bytes(), expected.as_slice());

    let frame = s.written_bytes().to_vec();
    let (len, n) = VarInt::from_bytes(&frame);
    assert_eq!(len, Ok(VarInt((frame.len() - n) as i32)));
    assert_eq!(VarInt::from_bytes(&frame[n..]), (Ok(VarInt(1)), 1));

    let p = OutgoingPackage {
        protocol: ProtocolResponseId::Status,
        content: OutgoingPackageContent::StatusResponse(status::ResponseData::new("ok".to_string())),
    };
    let mut out = Vec::new();
    assert_eq!(p.content.write_stream(&mut out), 3);
    assert_eq!(out, vec![3, b'o', b'k']);
}

#[test]
fn reading_contents_by_state_and_id() {
    let mut s = RWStreamWithLimit::new(vec![9, 9], 2);
    let r = IncomingPackageContent::read_protocol_data(VarInt(0), ConnectionState::Status, &mut s);
    assert!(matches!(r, Ok(IncomingPackageContent::Status(_))));
    assert_eq!(s.get_read_left(), 2);
    let r = IncomingPackageContent::read_protocol_data(VarInt(0), ConnectionState::Play, &mut s);
    assert!(matches!(r, Err(ProtocolError::UnrecognizedPacket(ConnectionState::Play, 0))));
    let r = IncomingPackageContent::read_protocol_data(VarInt(3), ConnectionState::Login, &mut s);
    assert!(matches!(r, Err(ProtocolError::NotImplemented)));
    let mut s2 = RWStreamWithLimit::new(vec![], 0);
    assert_eq!(status::Data::read_stream(&mut s2), Ok(status::Data {}));
    assert_eq!(NotImplementedData::read_stream(&mut s2), Err(ProtocolError::NotImplemented));
}

#[test]
fn connection_decisions() {
    let mut c = Connection::new();
    assert_eq!(c.connection_state, ConnectionState::NotConnected);
    assert!(c.is_open());
    assert!(c.after_peek(Some(3)));
    assert!(c.after_peek(None));
    assert!(c.is_open());
    assert_eq!(Connection::frame_action(VarInt(0xFE)), FrameAction::LegacyPing);
    assert_eq!(Connection::frame_action(VarInt(17)), FrameAction::ReadPackage(17));
    c.finish_package(Ok(ConnectionState::Status), 0);
    assert_eq!(c.connection_state, ConnectionState::Status);
    c.finish_package(Err(ProtocolError::NotImplemented), 3);
    assert_eq!(c.connection_state, ConnectionState::Closed);
    assert!(!c.is_open());
    let mut c = Connection::new();
    assert!(!c.after_peek(Some(0)));
    assert_eq!(c.connection_state, ConnectionState::Closed);
    let mut c = Connection::new();
    c.shutdown();
    assert!(!c.is_open());
}

#[test]
fn legacy_ping_answer() {
    let r = legacy_ping_response();
    assert_eq!(r.len(), 40);
    assert_eq!(&r[..5], &[0xfe, 0x01, 0xfa, 0x00, 0x0b]);
    assert_eq!(&r[27..34], &[13, 0, 49, 0, 50, 0, 55]);
}
