//! The data types of the protocol and how they are read and written.
use vstd::prelude::*;
use crate::connection::ConnectionState;
use crate::utils::StreamError;

pub mod long;
pub mod package;
pub mod string;
pub mod var_int;
pub mod var_long;

verus! {

/// Why reading or handling a packet failed.
#[derive(Debug, Clone, Copy, PartialEq, Eq, Structural)]
pub enum ProtocolError {
    /// The packet's stream gave no more bytes.
    Stream(StreamError),
    /// A variable-length number had more groups than allowed ("Number is too big").
    NumberTooBig,
    /// A string's length prefix exceeds what the string may take.
    StringTooLong,
    /// A string's bytes are not UTF-8.
    InvalidUtf8,
    /// Fewer bytes of a string arrived in one read than its prefix announced
    /// ("Did not read all that was to read"): the connection cannot go on.
    StringShortRead,
    /// The handshake asked for a connection state that does not exist.
    UnknownNextState(i32),
    /// The packet is known but not handled yet ("Did not implement this protocol yet").
    NotImplemented,
    /// No packet has this id in this connection state.
    UnrecognizedPacket(ConnectionState, i32),
    /// Answering failed in a way that ends the connection.
    Terminated,
}

/// The plain Rust value that a protocol type stands for.
pub trait McRustRepr {
    type RustRepresentation;

    fn into_rs(self) -> Self::RustRepresentation;

    fn to_rs(&self) -> Self::RustRepresentation;

    fn as_rs(&self) -> &Self::RustRepresentation;
}

} // verus!
