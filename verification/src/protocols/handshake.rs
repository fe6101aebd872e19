//! The handshake: the client names the protocol version, the address and port
//! it used, and the state it wants next.
use vstd::prelude::*;
use crate::connection::{ConnectionState, state_from_id};
use crate::types::ProtocolError;
use crate::types::var_int::{VarInt, spec_read_varnum, varint_bytes, lemma_read_varnum_of};
use crate::types::string::{McString, spec_read_mcstring, utf8_bytes, lemma_read_length_prefixed};
use crate::utils::{RWStreamWithLimit, spec_read_exact, be_value, lemma_consumed_trans};

verus! {

/// A handshake.
pub struct Data {
    pub protocol_version: VarInt,
    pub server_address: McString<255>,
    pub server_port: u16,
    pub next_state: ConnectionState,
}

/// What a handshake holds, as plain values.
pub struct HandshakeView {
    pub protocol_version: i32,
    pub server_address: Seq<char>,
    pub server_port: u16,
    pub next_state: ConnectionState,
}

impl Data {
    pub open spec fn view(&self) -> HandshakeView {
        HandshakeView {
            protocol_version: self.protocol_version.0,
            server_address: self.server_address.value@,
            server_port: self.server_port,
            next_state: self.next_state,
        }
    }
}

/// The state a client may ask for with the number `n`: any state but `Closed`,
/// which is for the server's own use.
pub open spec fn requestable_state(n: i32) -> Option<ConnectionState> {
    match state_from_id(n) {
        Some(ConnectionState::Closed) => None,
        other => other,
    }
}

/// Reading a handshake: a VarInt version, a string of at most 255 characters,
/// a big-endian port and a VarInt state, which must name a state a client may
/// ask for.
pub open spec fn spec_read_handshake(p: Seq<u8>, l: nat) -> (Result<HandshakeView, ProtocolError>, nat) {
    let (r1, n1) = spec_read_varnum(p, l, 32);
    match r1 {
        Err(e) => (Err(e), n1),
        Ok(version) => {
            let (r2, n2) = spec_read_mcstring(p.skip(n1 as int), (l - n1) as nat, 255);
            match r2 {
                Err(e) => (Err(e), n1 + n2),
                Ok(address) => {
                    let m = n1 + n2;
                    let (r3, n3) = spec_read_exact(p.skip(m as int), (l - m) as nat, 2);
                    match r3 {
                        Err(e) => (Err(ProtocolError::Stream(e)), m + n3),
                        Ok(port) => {
                            let k = m + n3;
                            let (r4, n4) = spec_read_varnum(p.skip(k as int), (l - k) as nat, 32);
                            match r4 {
                                Err(e) => (Err(e), k + n4),
                                Ok(state) => match requestable_state(state as i32) {
                                    None => (Err(ProtocolError::UnknownNextState(state as i32)), k + n4),
                                    Some(next) => (
                                        Ok(HandshakeView {
                                            protocol_version: version as i32,
                                            server_address: address,
                                            server_port: be_value(port) as u16,
                                            next_state: next,
                                        }),
                                        k + n4,
                                    ),
                                },
                            }
                        },
                    }
                },
            }
        },
    }
}

impl Data {
    /// Reads a handshake from a packet's stream.
    pub fn read_stream(b: &mut RWStreamWithLimit) -> (r: Result<Self, ProtocolError>)
        requires
            old(b).wf(),
        ensures
            final(b).wf(),
            ({
                let (res, n) = spec_read_handshake(old(b).pending(), old(b).read_left());
                &&& final(b).consumed_from(old(b), n)
                &&& match res {
                    Ok(v) => r matches Ok(d) && d.view() == v,
                    Err(e) => r matches Err(x) && x == e,
                }
            }),
    {
        let ghost s0 = *b;
        let protocol_version = match VarInt::read_stream(b) {
            Ok(v) => v,
            Err(e) => { return Err(e); },
        };
        let ghost s1 = *b;
        let ghost n1 = spec_read_varnum(s0.pending(), s0.read_left(), 32).1;
        let server_address = match McString::<255>::read_stream(b) {
            Ok(v) => v,
            Err(e) => {
                proof { lemma_consumed_trans(&s0, &s1, b, n1, spec_read_mcstring(s1.pending(), s1.read_left(), 255).1); }
                return Err(e);
            },
        };
        let ghost s2 = *b;
        let ghost n2 = spec_read_mcstring(s1.pending(), s1.read_left(), 255).1;
        proof { lemma_consumed_trans(&s0, &s1, &s2, n1, n2); }
        let server_port = match b.read_u16() {
            Ok(v) => v,
            Err(e) => {
                proof { lemma_consumed_trans(&s0, &s2, b, n1 + n2, spec_read_exact(s2.pending(), s2.read_left(), 2).1); }
                return Err(ProtocolError::Stream(e));
            },
        };
        let ghost s3 = *b;
        let ghost n3 = spec_read_exact(s2.pending(), s2.read_left(), 2).1;
        proof { lemma_consumed_trans(&s0, &s2, &s3, n1 + n2, n3); }
        let next_state_id = match VarInt::read_stream(b) {
            Ok(v) => v,
            Err(e) => {
                proof { lemma_consumed_trans(&s0, &s3, b, n1 + n2 + n3, spec_read_varnum(s3.pending(), s3.read_left(), 32).1); }
                return Err(e);
            },
        };
        proof { lemma_consumed_trans(&s0, &s3, b, n1 + n2 + n3, spec_read_varnum(s3.pending(), s3.read_left(), 32).1); }
        let next_state = match ConnectionState::from_i32(next_state_id.0) {
            Some(ConnectionState::Closed) | None => {
                return Err(ProtocolError::UnknownNextState(next_state_id.0));
            },
            Some(s) => s,
        };
        Ok(Data { protocol_version, server_address, server_port, next_state })
    }
}

/// The bytes of a handshake as a client sends it: the version, the address
/// behind the VarInt of its byte length, the two port bytes and the state.
pub open spec fn handshake_bytes(version: i32, address: Seq<char>, port: Seq<u8>, state: i32) -> Seq<u8> {
    varint_bytes(version) + (varint_bytes(utf8_bytes(address).len() as i32) + (utf8_bytes(address) + (port
        + varint_bytes(state))))
}

/// A handshake reads back as what the client sent, whatever follows it: every
/// address of at most `3 * 255 + 3` bytes, every port and every state a client
/// may ask for, when the packet's limit covers the handshake.
pub proof fn lemma_handshake_roundtrip(
    version: i32,
    address: Seq<char>,
    port: Seq<u8>,
    state: i32,
    rest: Seq<u8>,
    l: nat,
)
    requires
        utf8_bytes(address).len() <= 3 * 255 + 3,
        port.len() == 2,
        requestable_state(state) is Some,
        l >= handshake_bytes(version, address, port, state).len(),
    ensures
        spec_read_handshake(handshake_bytes(version, address, port, state) + rest, l) == (
            Ok::<HandshakeView, ProtocolError>(HandshakeView {
                protocol_version: version,
                server_address: address,
                server_port: be_value(port) as u16,
                next_state: requestable_state(state).unwrap(),
            }),
            handshake_bytes(version, address, port, state).len(),
        ),
{
    let len = utf8_bytes(address).len();
    let ev = varint_bytes(version);
    let el = varint_bytes(len as i32);
    let ek = varint_bytes(state);
    let tail = ek + rest;
    let after_string = port + tail;
    let after_version = el + (utf8_bytes(address) + after_string);
    let p = handshake_bytes(version, address, port, state) + rest;
    assert(p =~= ev + after_version);
    assert(handshake_bytes(version, address, port, state).len() == ev.len() + el.len() + len + 2 + ek.len());
    lemma_read_varnum_of(version, after_version, l);
    let n1 = ev.len();
    assert(spec_read_varnum(p, l, 32) == (Ok::<u64, ProtocolError>((version as u32) as u64), n1));
    assert(p.skip(n1 as int) =~= after_version);
    assert(((((version as u32) as u64) as i32)) == version) by (bit_vector);
    lemma_read_length_prefixed(address, after_string, (l - n1) as nat, 255);
    let n2 = el.len() + len;
    assert(spec_read_mcstring(p.skip(n1 as int), (l - n1) as nat, 255) == (Ok::<Seq<char>, ProtocolError>(address), n2));
    let m = n1 + n2;
    assert(p.skip(m as int) =~= after_string);
    assert(after_string.take(2) =~= port);
    assert(spec_read_exact(p.skip(m as int), (l - m) as nat, 2) == (Ok::<Seq<u8>, crate::utils::StreamError>(port), 2nat));
    let k = m + 2;
    assert(p.skip(k as int) =~= tail);
    lemma_read_varnum_of(state, rest, (l - k) as nat);
    assert(spec_read_varnum(p.skip(k as int), (l - k) as nat, 32) == (Ok::<u64, ProtocolError>((state as u32) as u64), ek.len()));
    assert(((((state as u32) as u64) as i32)) == state) by (bit_vector);
}

} // verus!
