//! Custom report details: not understood yet; reading them uses up the packet.
use vstd::prelude::*;
use crate::types::ProtocolError;
use crate::types::string::McString;
use crate::types::var_int::{VarInt, spec_read_varnum};
use crate::utils::{RWStreamWithLimit, available, end_error, lemma_consumed_trans, lemma_consumed_none};

verus! {

/// The handling of custom report details.
pub struct Protocol {}

/// Custom report details: pairs of a title and a description.
pub struct Data {
    pub details: Vec<(McString<128>, McString<4096>)>,
}

impl Data {
    /// Reads the packet byte by byte until no byte is left, then fails with the
    /// error of that last read: the details are never understood.
    pub fn read_stream(stream: &mut RWStreamWithLimit) -> (r: Result<Self, ProtocolError>)
        requires
            old(stream).wf(),
        ensures
            final(stream).wf(),
            final(stream).consumed_from(old(stream), available(old(stream).pending(), old(stream).read_left())),
            r matches Err(e) && e == ProtocolError::Stream(end_error(old(stream).pending(), old(stream).read_left())),
    {
        let ghost start = *stream;
        let ghost total = available(start.pending(), start.read_left());
        let ghost mut i: nat = 0;
        proof { lemma_consumed_none(stream); }
        loop
            invariant
                stream.wf(),
                start == *old(stream),
                i <= total,
                total == available(start.pending(), start.read_left()),
                stream.consumed_from(&start, i),
            decreases total - i,
        {
            let ghost before = *stream;
            match stream.read_u8() {
                Ok(_) => {
                    proof {
                        lemma_consumed_trans(&start, &before, stream, i, 1);
                        i = i + 1;
                    }
                },
                Err(e) => {
                    proof { lemma_consumed_trans(&start, &before, stream, i, 0); }
                    return Err(ProtocolError::Stream(e));
                },
            }
        }
    }
}

impl Protocol {
    /// Reads the number of details and gives up: the connection must end.
    pub fn handle(stream: &mut RWStreamWithLimit) -> (r: Result<(), bool>)
        requires
            old(stream).wf(),
        ensures
            final(stream).wf(),
            final(stream).consumed_from(old(stream), spec_read_varnum(old(stream).pending(), old(stream).read_left(), 32).1),
            r == Err::<(), bool>(true),
    {
        match VarInt::read_stream(stream) {
            Ok(_count) => Err(true),
            Err(_) => Err(true),
        }
    }
}

} // verus!
