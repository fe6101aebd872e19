//! The ping: the client sends a number and gets it back.
use vstd::prelude::*;
use crate::types::ProtocolError;
use crate::types::long::{Long, long_bytes};
use crate::types::var_int::{VarInt, varint_bytes};
use crate::utils::{RWStreamWithLimit, spec_read_exact, be_value};

verus! {

/// The answer of a ping.
pub struct Protocol();

/// A ping: the client's number.
#[derive(Debug, Clone, Copy, PartialEq, Eq, Structural)]
pub struct Data {
    pub timespan: Long,
}

impl Data {
    /// Reads a ping: one Long.
    pub fn read_stream(stream: &mut RWStreamWithLimit) -> (r: Result<Self, ProtocolError>)
        requires
            old(stream).wf(),
        ensures
            final(stream).wf(),
            ({
                let (res, c) = spec_read_exact(old(stream).pending(), old(stream).read_left(), 8);
                &&& final(stream).consumed_from(old(stream), c)
                &&& match res {
                    Ok(bytes) => r == Ok::<Self, ProtocolError>(Data { timespan: Long((be_value(bytes) as u64) as i64) }),
                    Err(e) => r == Err::<Self, ProtocolError>(ProtocolError::Stream(e)),
                }
            }),
    {
        match Long::read_stream(stream) {
            Ok(timespan) => Ok(Data { timespan }),
            Err(e) => Err(e),
        }
    }
}

/// The answer of a ping: the same number.
#[derive(Debug, Clone, Copy, PartialEq, Eq, Structural)]
pub struct ResponseData {
    pub timespan: Long,
}

impl ResponseData {
    /// Appends the answer to `out`: the Long; returns 8.
    pub fn write_stream(&self, out: &mut Vec<u8>) -> (r: usize)
        ensures
            final(out)@ == old(out)@ + long_bytes(self.timespan.0),
            r == 8,
    {
        self.timespan.write_stream(out)
    }
}

impl Protocol {
    /// Answers a ping on the stream: reads the client's number and writes the
    /// packet id 1 and the number back. Fails, without ending the connection,
    /// when the number cannot be read.
    pub fn handle(stream: &mut RWStreamWithLimit) -> (r: Result<(), bool>)
        requires
            old(stream).wf(),
        ensures
            final(stream).wf(),
            ({
                let (res, c) = spec_read_exact(old(stream).pending(), old(stream).read_left(), 8);
                match res {
                    Err(_) => r == Err::<(), bool>(false) && final(stream).consumed_from(old(stream), c),
                    Ok(bytes) => {
                        &&& r == Ok::<(), bool>(())
                        &&& final(stream).pending() == old(stream).pending().skip(8)
                        &&& final(stream).read_left() == 0
                        &&& final(stream).written() == old(stream).written() + varint_bytes(1)
                            + long_bytes((be_value(bytes) as u64) as i64)
                    },
                }
            }),
    {
        let v = match stream.read_i64() {
            Ok(v) => v,
            Err(_) => { return Err(false); },
        };
        let mut id_bytes: Vec<u8> = Vec::new();
        VarInt(0x01).write_stream(&mut id_bytes);
        stream.write_all(id_bytes.as_slice());
        let mut value_bytes: Vec<u8> = Vec::new();
        Long(v).write_stream(&mut value_bytes);
        stream.write_all(value_bytes.as_slice());
        proof {
            crate::types::var_int::lemma_varint_len(1);
        }
        Ok(())
    }
}

} // verus!
