//! The states of a connection and the decisions taken between its packets.
use vstd::prelude::*;
use crate::types::ProtocolError;
use crate::types::var_int::VarInt;
use crate::types::package::{IncomingPackage, spec_handle_incoming};
use crate::protocols::handshake::spec_read_handshake;
use crate::types::var_int::lemma_read_one_byte_varnum;
use crate::types::string::fits_memory;
use crate::utils::{RWStreamWithLimit, within_limit};

verus! {

/// Where a connection stands in the protocol.
#[derive(Debug, Clone, Copy, PartialEq, Eq, PartialOrd, Ord, Structural)]
pub enum ConnectionState {
    NotConnected,
    Status,
    Login,
    Transfer,
    Configuration,
    Play,
    /// Internal use: the connection is over.
    Closed,
}

/// The number that stands for each state on the wire.
pub open spec fn state_id(s: ConnectionState) -> i32 {
    match s {
        ConnectionState::NotConnected => 0,
        ConnectionState::Status => 1,
        ConnectionState::Login => 2,
        ConnectionState::Transfer => 3,
        ConnectionState::Configuration => 4,
        ConnectionState::Play => 5,
        ConnectionState::Closed => -1i32,
    }
}

/// The state with the number `n`, if there is one.
pub open spec fn state_from_id(n: i32) -> Option<ConnectionState> {
    if n == 0 {
        Some(ConnectionState::NotConnected)
    } else if n == 1 {
        Some(ConnectionState::Status)
    } else if n == 2 {
        Some(ConnectionState::Login)
    } else if n == 3 {
        Some(ConnectionState::Transfer)
    } else if n == 4 {
        Some(ConnectionState::Configuration)
    } else if n == 5 {
        Some(ConnectionState::Play)
    } else if n == -1 {
        Some(ConnectionState::Closed)
    } else {
        None
    }
}

/// Numbering the states and reading them back agree: each state is found
/// by its number, and a number names a state exactly when it is one's number.
pub proof fn lemma_state_id_roundtrip(s: ConnectionState, n: i32)
    ensures
        state_from_id(state_id(s)) == Some(s),
        state_from_id(n) == Some(s) <==> state_id(s) == n,
{
}

impl ConnectionState {
    /// The state with the number `n`, if there is one.
    pub fn from_i32(n: i32) -> (r: Option<ConnectionState>)
        ensures
            r == state_from_id(n),
    {
        match n {
            0 => Some(ConnectionState::NotConnected),
            1 => Some(ConnectionState::Status),
            2 => Some(ConnectionState::Login),
            3 => Some(ConnectionState::Transfer),
            4 => Some(ConnectionState::Configuration),
            5 => Some(ConnectionState::Play),
            -1 => Some(ConnectionState::Closed),
            _ => None,
        }
    }

    /// The number of this state.
    pub fn to_i32(&self) -> (r: i32)
        ensures
            r == state_id(*self),
    {
        match self {
            ConnectionState::NotConnected => 0,
            ConnectionState::Status => 1,
            ConnectionState::Login => 2,
            ConnectionState::Transfer => 3,
            ConnectionState::Configuration => 4,
            ConnectionState::Play => 5,
            ConnectionState::Closed => -1,
        }
    }
}

/// `num_traits::ToPrimitive::to_usize` on an `i32`: the number as a `usize`
/// when it is not negative. Trusted: num-traits converts a signed number to an
/// unsigned one of at least its width exactly when it is at least zero.
#[verifier::external_body]
fn i32_to_usize(x: i32) -> (r: Option<usize>)
    ensures
        r == (if x >= 0 { Some(x as usize) } else { None::<usize> }),
{
    num_traits::ToPrimitive::to_usize(&x)
}

/// What a connection does with the length that starts a frame.
#[derive(Debug, Clone, Copy, PartialEq, Eq, Structural)]
pub enum FrameAction {
    /// `0xFE` starts a legacy server list ping.
    LegacyPing,
    /// A packet of this many bytes follows.
    ReadPackage(usize),
}

/// A connection to one client: its state and whether packets are compressed.
#[derive(Debug, Clone, Copy, PartialEq, Eq, Structural)]
pub struct Connection {
    pub connection_state: ConnectionState,
    pub compression_active: bool,
}

/// The answer to a legacy server list ping: a kick packet carrying
/// "MC|PingHost", protocol version 127 so that the client knows it is too old,
/// an empty host name and port 0.
pub open spec fn legacy_ping_bytes() -> Seq<u8> {
    seq![
        0xfeu8, 0x01, 0xfa, 0x00, 0x0b,
        0x00, 0x4d, 0x00, 0x43, 0x00, 0x7c, 0x00, 0x50, 0x00, 0x69, 0x00, 0x6e, 0x00, 0x67,
        0x00, 0x48, 0x00, 0x6f, 0x00, 0x73, 0x00, 0x74,
        13,
        0, 49, 0, 50, 0, 55,
        0x00, 0x00,
        0x00, 0x00, 0x00, 0x00
    ]
}

/// The bytes sent back to a legacy server list ping.
pub fn legacy_ping_response() -> (r: Vec<u8>)
    ensures
        r@ == legacy_ping_bytes(),
{
    let r = vec![
        0xfeu8, 0x01, 0xfa, 0x00, 0x0b,
        0x00, 0x4d, 0x00, 0x43, 0x00, 0x7c, 0x00, 0x50, 0x00, 0x69, 0x00, 0x6e, 0x00, 0x67,
        0x00, 0x48, 0x00, 0x6f, 0x00, 0x73, 0x00, 0x74,
        13,
        0, 49, 0, 50, 0, 55,
        0x00, 0x00,
        0x00, 0x00, 0x00, 0x00
    ];
    assert(r@ =~= legacy_ping_bytes());
    r
}

/// The state after handling a packet in `state` that gave `change`: the new
/// state if there is one, else the same.
pub open spec fn next_state(state: ConnectionState, change: Option<ConnectionState>) -> ConnectionState {
    match change {
        Some(s) => s,
        None => state,
    }
}

impl Connection {
    /// A new connection: not connected yet, without compression.
    pub fn new() -> (r: Connection)
        ensures
            r.connection_state == ConnectionState::NotConnected,
            !r.compression_active,
    {
        Connection { connection_state: ConnectionState::NotConnected, compression_active: false }
    }

    /// The connection goes on until it is closed.
    pub fn is_open(&self) -> (r: bool)
        ensures
            r == (self.connection_state != ConnectionState::Closed),
    {
        self.connection_state != ConnectionState::Closed
    }

    /// Closes the connection.
    pub fn shutdown(&mut self)
        ensures
            final(self).connection_state == ConnectionState::Closed,
            final(self).compression_active == old(self).compression_active,
    {
        self.connection_state = ConnectionState::Closed;
    }

    /// Takes what a peek at the stream saw: how many bytes it got, or `None`
    /// when peeking failed. No byte means the stream ended: the connection
    /// closes and no frame is read. Returns whether a frame is to be read.
    pub fn after_peek(&mut self, peeked: Option<usize>) -> (go_on: bool)
        ensures
            peeked == Some(0usize) ==> !go_on && final(self).connection_state == ConnectionState::Closed,
            peeked != Some(0usize) ==> go_on && final(self).connection_state == old(self).connection_state,
            final(self).compression_active == old(self).compression_active,
    {
        match peeked {
            Some(size) => {
                if size == 0 {
                    self.connection_state = ConnectionState::Closed;
                    return false;
                }
                true
            },
            None => true,
        }
    }

    /// What to do with the length that starts a frame: `0xFE` is a legacy
    /// ping, any other length announces a packet of that many bytes.
    pub fn frame_action(length: VarInt) -> (r: FrameAction)
        requires
            length.0 >= 0,
        ensures
            r == (if length.0 == 0xFE { FrameAction::LegacyPing } else { FrameAction::ReadPackage(length.0 as usize) }),
    {
        if length.0 == 0xFE {
            return FrameAction::LegacyPing;
        }
        match i32_to_usize(length.0) {
            Some(n) => FrameAction::ReadPackage(n),
            None => {
                proof { assert(false); }
                FrameAction::ReadPackage(0)
            },
        }
    }

    /// Handles one packet in `connection_state` and gives the state the
    /// connection moves to.
    pub fn handle_package(
        stream: &mut RWStreamWithLimit,
        connection_state: ConnectionState,
        compression: bool,
        status_json: &String,
    ) -> (r: Result<ConnectionState, ProtocolError>)
        requires
            old(stream).wf(),
            fits_memory(status_json@),
        ensures
            final(stream).wf(),
            ({
                let (res, p2, l2, out) = spec_handle_incoming(connection_state, status_json@, old(stream).pending(), old(stream).read_left());
                &&& r == match res {
                    Ok(change) => Ok::<ConnectionState, ProtocolError>(next_state(connection_state, change)),
                    Err(e) => Err::<ConnectionState, ProtocolError>(e),
                }
                &&& final(stream).pending() == p2
                &&& final(stream).read_left() == l2
                &&& final(stream).written() == old(stream).written() + out
            }),
            within_limit(old(stream), final(stream)),
    {
        let res = match IncomingPackage::handle_incoming(stream, connection_state, status_json) {
            Ok(c) => c,
            Err(e) => { return Err(e); },
        };
        if let Some(new_connection_state) = res {
            return Ok(new_connection_state);
        }
        Ok(connection_state)
    }

    /// Takes the outcome of handling a packet: the connection moves to the new
    /// state, or closes when handling failed. A packet that was handled must
    /// have been read to its end.
    pub fn finish_package(&mut self, result: Result<ConnectionState, ProtocolError>, read_left: usize)
        requires
            result is Ok ==> read_left == 0,
        ensures
            final(self).connection_state == match result {
                Ok(s) => s,
                Err(_) => ConnectionState::Closed,
            },
            final(self).compression_active == old(self).compression_active,
    {
        match result {
            Ok(new_connection_state) => {
                self.connection_state = new_connection_state;
            },
            Err(_) => {
                self.shutdown();
            },
        }
    }
}

/// After a packet, the connection is in the state the packet asked for, and
/// stays where it was when it asked for none.
pub proof fn lemma_next_state_is_requested(state: ConnectionState, requested: ConnectionState)
    ensures
        next_state(state, Some(requested)) == requested,
        next_state(state, None) == state,
{
}

/// A handshake packet (id 0) on a connection not connected yet moves it to
/// exactly the state that the handshake asks for.
pub proof fn lemma_handshake_moves_to_requested(status_json: Seq<char>, p: Seq<u8>, l: nat)
    requires
        p.len() >= 1,
        l >= 1,
        p[0] == 0x00,
        spec_read_handshake(p.skip(1), (l - 1) as nat).0 is Ok,
    ensures
        ({
            let requested = spec_read_handshake(p.skip(1), (l - 1) as nat).0.unwrap().next_state;
            &&& spec_handle_incoming(ConnectionState::NotConnected, status_json, p, l).0
                == Ok::<Option<ConnectionState>, ProtocolError>(Some(requested))
            &&& next_state(ConnectionState::NotConnected, Some(requested)) == requested
        }),
{
    lemma_read_one_byte_varnum(p, l, 32);
}

} // verus!
