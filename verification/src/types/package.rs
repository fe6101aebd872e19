//! Packets: which packet an id names in each connection state, how an
//! incoming packet is read and answered, and how an outgoing one is framed.
use vstd::prelude::*;
use crate::connection::ConnectionState;
use crate::protocols::{self, NotImplementedData, ProtocolResponseId, response_id};
use crate::protocols::handshake::{HandshakeView, spec_read_handshake};
use crate::types::ProtocolError;
use crate::types::long::{Long, long_bytes, lemma_long_bytes_of_read};
use crate::types::string::{mcstring_bytes, fits_memory};
use crate::types::var_int::{VarInt, varint_bytes, spec_read_varnum, lemma_varint_len, lemma_varint_roundtrip, lemma_read_one_byte_varnum};
use crate::varnum::spec_decode;
use crate::utils::{within_limit, lemma_consumed_within_limit, lemma_unread_within_limit, lemma_within_limit_trans, RWStreamWithLimit, available, end_error, spec_read_exact, spec_discard, be_value, lemma_consumed_trans};

verus! {

/// A packet, coming in or going out.
pub enum Package {
    Incoming(IncomingPackage),
    Outgoing(OutgoingPackage),
}

/// A packet from the client.
pub struct IncomingPackage {
    pub content: IncomingPackageContent,
}

/// A packet to the client.
pub struct OutgoingPackage {
    pub protocol: ProtocolResponseId,
    pub content: OutgoingPackageContent,
}

/// What a packet from the client holds.
pub enum IncomingPackageContent {
    Handshake(protocols::handshake::Data),
    Status(protocols::status::Data),
    Ping(protocols::ping::Data),
    CustomReportDetails(protocols::custom_report_details::Data),
    LoginStart(NotImplementedData),
    EncryptionResponse(NotImplementedData),
    LoginPluginResponse(NotImplementedData),
    CookieResponse(NotImplementedData),
}

/// What a packet to the client holds.
pub enum OutgoingPackageContent {
    StatusResponse(protocols::status::ResponseData),
    PingResponse(protocols::ping::ResponseData),
}

/// The kinds of packet the client can send.
#[derive(Debug, Clone, Copy, PartialEq, Eq, Structural)]
pub enum PacketKind {
    Handshake,
    Status,
    Ping,
    CustomReportDetails,
    LoginStart,
    EncryptionResponse,
    LoginPluginResponse,
    CookieResponse,
}

/// The packet that `id` names in `state`, if any.
pub open spec fn packet_kind(state: ConnectionState, id: i32) -> Option<PacketKind> {
    match state {
        ConnectionState::NotConnected => if id == 0x00 { Some(PacketKind::Handshake) } else { None },
        ConnectionState::Status => if id == 0x00 {
            Some(PacketKind::Status)
        } else if id == 0x01 {
            Some(PacketKind::Ping)
        } else {
            None
        },
        ConnectionState::Play => if id == 0x7a { Some(PacketKind::CustomReportDetails) } else { None },
        ConnectionState::Login => if id == 0x00 {
            Some(PacketKind::LoginStart)
        } else if id == 0x01 {
            Some(PacketKind::EncryptionResponse)
        } else if id == 0x02 {
            Some(PacketKind::LoginPluginResponse)
        } else if id == 0x03 {
            Some(PacketKind::CookieResponse)
        } else {
            None
        },
        _ => None,
    }
}

/// What a packet from the client holds, as plain values.
pub enum ContentView {
    Handshake(HandshakeView),
    Status,
    Ping(i64),
    Unhandled(PacketKind),
}

impl IncomingPackageContent {
    pub open spec fn view(&self) -> ContentView {
        match self {
            IncomingPackageContent::Handshake(d) => ContentView::Handshake(d.view()),
            IncomingPackageContent::Status(_) => ContentView::Status,
            IncomingPackageContent::Ping(d) => ContentView::Ping(d.timespan.0),
            IncomingPackageContent::CustomReportDetails(_) => ContentView::Unhandled(PacketKind::CustomReportDetails),
            IncomingPackageContent::LoginStart(_) => ContentView::Unhandled(PacketKind::LoginStart),
            IncomingPackageContent::EncryptionResponse(_) => ContentView::Unhandled(PacketKind::EncryptionResponse),
            IncomingPackageContent::LoginPluginResponse(_) => ContentView::Unhandled(PacketKind::LoginPluginResponse),
            IncomingPackageContent::CookieResponse(_) => ContentView::Unhandled(PacketKind::CookieResponse),
        }
    }
}

/// Reading the content of a packet of kind `kind`: handshakes, status requests
/// and pings are read; custom report details use up the packet and fail; the
/// login packets are not handled and fail without reading.
pub open spec fn spec_read_content(kind: PacketKind, p: Seq<u8>, l: nat) -> (Result<ContentView, ProtocolError>, nat) {
    match kind {
        PacketKind::Handshake => {
            let (r, n) = spec_read_handshake(p, l);
            (
                match r {
                    Ok(v) => Ok(ContentView::Handshake(v)),
                    Err(e) => Err(e),
                },
                n,
            )
        },
        PacketKind::Status => (Ok(ContentView::Status), 0),
        PacketKind::Ping => {
            let (r, n) = spec_read_exact(p, l, 8);
            (
                match r {
                    Ok(bytes) => Ok(ContentView::Ping((be_value(bytes) as u64) as i64)),
                    Err(e) => Err(ProtocolError::Stream(e)),
                },
                n,
            )
        },
        PacketKind::CustomReportDetails => (Err(ProtocolError::Stream(end_error(p, l))), available(p, l)),
        _ => (Err(ProtocolError::NotImplemented), 0),
    }
}

/// Reading the content of the packet `id` in `state`.
pub open spec fn spec_read_protocol_data(state: ConnectionState, id: i32, p: Seq<u8>, l: nat) -> (Result<ContentView, ProtocolError>, nat) {
    match packet_kind(state, id) {
        None => (Err(ProtocolError::UnrecognizedPacket(state, id)), 0),
        Some(kind) => spec_read_content(kind, p, l),
    }
}

/// A packet on the wire: the VarInt of the body's length, then the body,
/// which is the VarInt of the packet id followed by the content.
pub open spec fn frame_bytes(id: i32, content: Seq<u8>) -> Seq<u8> {
    let body = varint_bytes(id) + content;
    varint_bytes(body.len() as i32) + body
}

/// The bytes of an outgoing packet's content.
pub open spec fn content_bytes(c: OutgoingPackageContent) -> Seq<u8> {
    match c {
        OutgoingPackageContent::StatusResponse(r) => mcstring_bytes(r.json_response.value@),
        OutgoingPackageContent::PingResponse(r) => long_bytes(r.timespan.0),
    }
}

/// An outgoing content can be written.
pub open spec fn content_fits(c: OutgoingPackageContent) -> bool {
    match c {
        OutgoingPackageContent::StatusResponse(r) => fits_memory(r.json_response.value@),
        OutgoingPackageContent::PingResponse(_) => true,
    }
}

/// The answer to a packet: the state the connection moves to, if it changes,
/// and the bytes sent back. A handshake moves to the state it asks for; a status
/// request is answered with the status text; a ping with its own number.
pub open spec fn spec_answer(view: ContentView, status_json: Seq<char>) -> (Option<ConnectionState>, Seq<u8>) {
    match view {
        ContentView::Handshake(h) => (Some(h.next_state), Seq::empty()),
        ContentView::Status => (None, frame_bytes(response_id(ProtocolResponseId::Status), mcstring_bytes(status_json))),
        ContentView::Ping(t) => (None, frame_bytes(response_id(ProtocolResponseId::Ping), long_bytes(t))),
        ContentView::Unhandled(_) => (None, Seq::empty()),
    }
}

impl OutgoingPackageContent {
    /// Appends the content to `out`; returns how many bytes that is.
    pub fn write_stream(&self, out: &mut Vec<u8>) -> (r: usize)
        requires
            content_fits(*self),
        ensures
            final(out)@ == old(out)@ + content_bytes(*self),
            r == content_bytes(*self).len(),
    {
        match self {
            OutgoingPackageContent::StatusResponse(x) => x.write_stream(out),
            OutgoingPackageContent::PingResponse(x) => {
                proof { crate::types::long::lemma_long_roundtrip(x.timespan.0); }
                x.write_stream(out)
            },
        }
    }
}

impl OutgoingPackage {
    /// Writes the packet to the stream: its length, then its id and content.
    /// Returns how many bytes were written.
    pub fn write_stream(&self, stream: &mut RWStreamWithLimit) -> (r: usize)
        requires
            old(stream).wf(),
            content_fits(self.content),
        ensures
            final(stream).wf(),
            final(stream).written() == old(stream).written() + frame_bytes(response_id(self.protocol), content_bytes(self.content)),
            final(stream).pending() == old(stream).pending(),
            final(stream).read_left() == 0,
            r == frame_bytes(response_id(self.protocol), content_bytes(self.content)).len(),
    {
        let id = self.protocol;
        let mut total_size: usize = 0;
        let mut v: Vec<u8> = Vec::new();
        proof {
            lemma_varint_len(response_id(id));
            lemma_content_len(self.content);
        }
        total_size = total_size + VarInt(id.to_i32()).write_stream(&mut v);
        total_size = total_size + self.content.write_stream(&mut v);
        assert(v@ =~= varint_bytes(response_id(id)) + content_bytes(self.content));
        let mut size_bytes: Vec<u8> = Vec::new();
        let x = VarInt(total_size as i32).write_stream(&mut size_bytes);
        proof { lemma_varint_len(total_size as i32); }
        stream.write_all(size_bytes.as_slice());
        stream.write_all(v.as_slice());
        assert(final(stream).written() =~= old(stream).written() + (size_bytes@ + v@));
        total_size + x
    }
}

/// A written packet reads back: its length prefix gives the length of the
/// body that follows it, and the body starts with the packet id, followed by
/// the content.
pub proof fn lemma_frame_roundtrip(id: i32, content: Seq<u8>, rest: Seq<u8>)
    requires
        varint_bytes(id).len() + content.len() <= i32::MAX,
    ensures
        ({
            let body = varint_bytes(id) + content;
            let frame = frame_bytes(id, content);
            let (len, n) = spec_decode(frame + rest, 32);
            let (pid, m) = spec_decode(body + rest, 32);
            &&& len matches Ok(x) && x as i32 == body.len()
            &&& (frame + rest).skip(n as int) == body + rest
            &&& pid matches Ok(y) && y as i32 == id
            &&& (body + rest).skip(m as int) == content + rest
        }),
{
    let body = varint_bytes(id) + content;
    let prefix = varint_bytes(body.len() as i32);
    lemma_varint_roundtrip(body.len() as i32, body + rest);
    assert(prefix + body + rest =~= prefix + (body + rest));
    assert((prefix + (body + rest)).skip(prefix.len() as int) =~= body + rest);
    lemma_varint_roundtrip(id, content + rest);
    assert(body + rest =~= varint_bytes(id) + (content + rest));
    assert((varint_bytes(id) + (content + rest)).skip(varint_bytes(id).len() as int) =~= content + rest);
}

proof fn lemma_content_len(c: OutgoingPackageContent)
    requires
        content_fits(c),
    ensures
        content_bytes(c).len() <= isize::MAX + 5,
{
    match c {
        OutgoingPackageContent::StatusResponse(r) => {
            let s = r.json_response.value@;
            lemma_varint_len(crate::types::string::spec_measure_size(crate::types::string::utf8_bytes(s).len()) as i32);
        },
        OutgoingPackageContent::PingResponse(r) => {
            crate::types::long::lemma_long_roundtrip(r.timespan.0);
        },
    }
}

impl IncomingPackageContent {
    /// Reads the content of the packet `protocol_id` in `connection_state`:
    /// fails, reading nothing, when no packet has that id in that state.
    pub fn read_protocol_data(
        protocol_id: VarInt,
        connection_state: ConnectionState,
        stream: &mut RWStreamWithLimit,
    ) -> (r: Result<IncomingPackageContent, ProtocolError>)
        requires
            old(stream).wf(),
        ensures
            final(stream).wf(),
            ({
                let (res, n) = spec_read_protocol_data(connection_state, protocol_id.0, old(stream).pending(), old(stream).read_left());
                &&& final(stream).consumed_from(old(stream), n)
                &&& match res {
                    Ok(v) => r matches Ok(c) && c.view() == v,
                    Err(e) => r matches Err(x) && x == e,
                }
            }),
    {
        proof { crate::utils::lemma_consumed_none(stream); }
        let id = protocol_id.0;
        match connection_state {
            ConnectionState::NotConnected => {
                if id == 0x00 {
                    return match protocols::handshake::Data::read_stream(stream) {
                        Ok(d) => Ok(IncomingPackageContent::Handshake(d)),
                        Err(e) => Err(e),
                    };
                }
            },
            ConnectionState::Status => {
                if id == 0x00 {
                    return match protocols::status::Data::read_stream(stream) {
                        Ok(d) => Ok(IncomingPackageContent::Status(d)),
                        Err(e) => Err(e),
                    };
                } else if id == 0x01 {
                    return match protocols::ping::Data::read_stream(stream) {
                        Ok(d) => Ok(IncomingPackageContent::Ping(d)),
                        Err(e) => Err(e),
                    };
                }
            },
            ConnectionState::Play => {
                if id == 0x7a {
                    return match protocols::custom_report_details::Data::read_stream(stream) {
                        Ok(d) => Ok(IncomingPackageContent::CustomReportDetails(d)),
                        Err(e) => Err(e),
                    };
                }
            },
            ConnectionState::Login => {
                if 0x00 <= id && id <= 0x03 {
                    return match NotImplementedData::read_stream(stream) {
                        Ok(d) => Ok(if id == 0x00 {
                            IncomingPackageContent::LoginStart(d)
                        } else if id == 0x01 {
                            IncomingPackageContent::EncryptionResponse(d)
                        } else if id == 0x02 {
                            IncomingPackageContent::LoginPluginResponse(d)
                        } else {
                            IncomingPackageContent::CookieResponse(d)
                        }),
                        Err(e) => Err(e),
                    };
                }
            },
            _ => {},
        }
        Err(ProtocolError::UnrecognizedPacket(connection_state, id))
    }
}

/// The outcome of handling one packet on a stream that holds `p` and may
/// still read `l` bytes: the result, what the stream then holds, how much it
/// may still read, and the bytes written back. The packet id is read, then the
/// content; when the content cannot be read the rest of the packet is
/// discarded; else the answer is written.
pub open spec fn spec_handle_incoming(
    state: ConnectionState,
    status_json: Seq<char>,
    p: Seq<u8>,
    l: nat,
) -> (Result<Option<ConnectionState>, ProtocolError>, Seq<u8>, nat, Seq<u8>) {
    let (r1, n1) = spec_read_varnum(p, l, 32);
    match r1 {
        Err(e) => (Err(e), p.skip(n1 as int), (l - n1) as nat, Seq::empty()),
        Ok(raw) => {
            let pa = p.skip(n1 as int);
            let la = (l - n1) as nat;
            let (r2, n2) = spec_read_protocol_data(state, raw as i32, pa, la);
            match r2 {
                Err(e) => {
                    let pb = pa.skip(n2 as int);
                    let lb = (la - n2) as nat;
                    let (d, n3) = spec_discard(pb, lb);
                    (
                        match d {
                            Err(de) => Err(ProtocolError::Stream(de)),
                            Ok(_) => Err(e),
                        },
                        pb.skip(n3 as int),
                        (lb - n3) as nat,
                        Seq::empty(),
                    )
                },
                Ok(view) => {
                    let (change, out) = spec_answer(view, status_json);
                    (Ok(change), pa.skip(n2 as int), if out.len() == 0 { (la - n2) as nat } else { 0 }, out)
                },
            }
        },
    }
}

impl IncomingPackage {
    /// Handles one packet from the client: reads its id and content, answers it,
    /// and says which state the connection moves to, if it changes.
    pub fn handle_incoming(
        stream: &mut RWStreamWithLimit,
        connection_state: ConnectionState,
        status_json: &String,
    ) -> (r: Result<Option<ConnectionState>, ProtocolError>)
        requires
            old(stream).wf(),
            fits_memory(status_json@),
        ensures
            final(stream).wf(),
            ({
                let (res, p2, l2, out) = spec_handle_incoming(connection_state, status_json@, old(stream).pending(), old(stream).read_left());
                &&& r == res
                &&& final(stream).pending() == p2
                &&& final(stream).read_left() == l2
                &&& final(stream).written() == old(stream).written() + out
            }),
            within_limit(old(stream), final(stream)),
    {
        let ghost s0 = *stream;
        let ghost n1 = spec_read_varnum(s0.pending(), s0.read_left(), 32).1;
        let packet_id = match VarInt::read_stream(stream) {
            Ok(v) => v,
            Err(e) => {
                proof { lemma_consumed_within_limit(&s0, stream, n1); }
                return Err(e);
            },
        };
        let ghost s1 = *stream;
        proof { lemma_consumed_within_limit(&s0, &s1, n1); }
        let ghost n2 = spec_read_protocol_data(connection_state, packet_id.0, s1.pending(), s1.read_left()).1;
        let incoming_content = IncomingPackageContent::read_protocol_data(packet_id, connection_state, stream);
        let ghost s2 = *stream;
        proof {
            lemma_consumed_within_limit(&s1, &s2, n2);
            lemma_within_limit_trans(&s0, &s1, &s2);
        }
        let incoming = IncomingPackage {
            content: match incoming_content {
                Ok(incoming) => incoming,
                Err(e) => {
                    let d = stream.discard_unread();
                    proof {
                        lemma_consumed_within_limit(&s2, stream, spec_discard(s2.pending(), s2.read_left()).1);
                        lemma_within_limit_trans(&s0, &s2, stream);
                    }
                    return match d {
                        Err(de) => Err(ProtocolError::Stream(de)),
                        Ok(_) => Err(e),
                    };
                },
            },
        };
        let res = incoming.answer(stream, status_json);
        proof {
            lemma_unread_within_limit(&s2, stream);
            lemma_within_limit_trans(&s0, &s2, stream);
        }
        match res {
            Ok(connection_state_change) => {
                return Ok(connection_state_change);
            },
            Err(terminate_connection) => {
                if terminate_connection {
                    return Err(ProtocolError::Terminated);
                } else {
                    match stream.discard_unread() {
                        Err(de) => { return Err(ProtocolError::Stream(de)); },
                        Ok(_) => {},
                    }
                }
            },
        }
        Ok(None)
    }

    /// Answers the packet on the stream: a status request with the status text
    /// `status_json`, a ping with its number; a handshake moves the connection
    /// to the state it asks for.
    fn answer(&self, stream: &mut RWStreamWithLimit, status_json: &String) -> (r: Result<Option<ConnectionState>, bool>)
        requires
            old(stream).wf(),
            fits_memory(status_json@),
        ensures
            final(stream).wf(),
            ({
                let (change, out) = spec_answer(self.content.view(), status_json@);
                &&& r == Ok::<Option<ConnectionState>, bool>(change)
                &&& final(stream).pending() == old(stream).pending()
                &&& final(stream).read_left() == (if out.len() == 0 { old(stream).read_left() } else { 0 })
                &&& final(stream).written() == old(stream).written() + out
            }),
    {
        let (answer, changed_connection_state) = match &self.content {
            IncomingPackageContent::Handshake(handshake_data) => (None, Some(handshake_data.next_state)),
            IncomingPackageContent::Status(_) => (
                Some(OutgoingPackage {
                    protocol: ProtocolResponseId::Status,
                    content: OutgoingPackageContent::StatusResponse(protocols::status::ResponseData::new(status_json.clone())),
                }),
                None,
            ),
            IncomingPackageContent::Ping(ping_data) => (
                Some(OutgoingPackage {
                    protocol: ProtocolResponseId::Ping,
                    content: OutgoingPackageContent::PingResponse(protocols::ping::ResponseData { timespan: ping_data.timespan }),
                }),
                None,
            ),
            _ => (None, None),
        };
        if let Some(outgoing_package) = answer {
            outgoing_package.write_stream(stream);
        } else {
            assert(old(stream).written() + Seq::<u8>::empty() =~= old(stream).written());
        }
        Ok(changed_connection_state)
    }
}

/// A ping is answered with its own eight bytes: in the status state, a packet
/// with id 1 followed by eight bytes gets back a packet of nine bytes, id 1 and
/// exactly those eight bytes, and nothing more of it is read.
pub proof fn lemma_ping_echoed(status_json: Seq<char>, p: Seq<u8>, l: nat)
    requires
        p.len() >= 9,
        l >= 9,
        p[0] == 0x01,
    ensures
        spec_handle_incoming(ConnectionState::Status, status_json, p, l)
            == (Ok::<Option<ConnectionState>, ProtocolError>(None), p.skip(9), 0nat, seq![0x09u8, 0x01u8] + p.subrange(1, 9)),
{
    lemma_read_one_byte_varnum(p, l, 32);
    let pa = p.skip(1);
    let la = (l - 1) as nat;
    let b = pa.take(8);
    assert(b =~= p.subrange(1, 9));
    assert(spec_read_exact(pa, la, 8) == (Ok::<Seq<u8>, crate::utils::StreamError>(b), 8nat));
    let t = (be_value(b) as u64) as i64;
    lemma_long_bytes_of_read(b);
    assert(varint_bytes(1) =~= seq![0x01u8]);
    let body = varint_bytes(1) + long_bytes(t);
    assert(body =~= seq![0x01u8] + b);
    assert(varint_bytes(body.len() as i32) =~= seq![0x09u8]);
    assert(frame_bytes(1, long_bytes(t)) =~= seq![0x09u8, 0x01u8] + p.subrange(1, 9));
    assert(pa.skip(8) =~= p.skip(9));
}

} // verus!
