//! The packets of the protocol: their ids, contents and answers.
use vstd::prelude::*;
use crate::types::ProtocolError;
use crate::utils::RWStreamWithLimit;

pub mod custom_report_details;
pub mod handshake;
pub mod ping;
pub mod status;

verus! {

/// The ids of the packets the server sends.
#[derive(Debug, Clone, Copy, PartialEq, Eq, Structural)]
pub enum ProtocolResponseId {
    Status,
    Ping,
}

/// The packet id of each response.
pub open spec fn response_id(p: ProtocolResponseId) -> i32 {
    match p {
        ProtocolResponseId::Status => 0x00,
        ProtocolResponseId::Ping => 0x01,
    }
}

impl ProtocolResponseId {
    /// The packet id of the response.
    pub fn to_i32(&self) -> (r: i32)
        ensures
            r == response_id(*self),
    {
        match self {
            ProtocolResponseId::Status => 0x00,
            ProtocolResponseId::Ping => 0x01,
        }
    }

    /// The response with the packet id `n`, if there is one.
    pub fn from_i32(n: i32) -> (r: Option<ProtocolResponseId>)
        ensures
            match r {
                Some(p) => response_id(p) == n,
                None => n != 0 && n != 1,
            },
    {
        match n {
            0 => Some(ProtocolResponseId::Status),
            1 => Some(ProtocolResponseId::Ping),
            _ => None,
        }
    }
}

/// The content of a packet that is not handled yet.
#[derive(Debug, Clone, Copy, PartialEq, Eq, Structural)]
pub struct NotImplementedData {}

impl NotImplementedData {
    /// Reading such a packet always fails, and reads nothing.
    pub fn read_stream(stream: &mut RWStreamWithLimit) -> (r: Result<Self, ProtocolError>)
        ensures
            *final(stream) == *old(stream),
            r == Err::<Self, ProtocolError>(ProtocolError::NotImplemented),
    {
        Err(ProtocolError::NotImplemented)
    }
}

} // verus!
