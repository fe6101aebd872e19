//! The status request and the status response, which carries a JSON text.
use vstd::prelude::*;
use crate::types::ProtocolError;
use crate::types::string::{McString, mcstring_bytes, fits_memory};
use crate::utils::RWStreamWithLimit;

verus! {

/// A status request: it carries nothing.
#[derive(Debug, Clone, Copy, PartialEq, Eq, Structural)]
pub struct Data {}

impl Data {
    /// Reading a status request reads nothing and succeeds.
    pub fn read_stream(stream: &mut RWStreamWithLimit) -> (r: Result<Self, ProtocolError>)
        ensures
            *final(stream) == *old(stream),
            r == Ok::<Self, ProtocolError>(Data {}),
    {
        Ok(Data {})
    }
}

/// A status response: the server's status as JSON text.
pub struct ResponseData {
    pub json_response: McString<32767>,
}

impl ResponseData {
    /// The response that carries the JSON text `json`.
    pub fn new(json: String) -> (r: Self)
        ensures
            r.json_response.value == json,
    {
        ResponseData { json_response: McString::from_string(json) }
    }

    /// Appends the response to `out`: its text as a string.
    pub fn write_stream(&self, out: &mut Vec<u8>) -> (r: usize)
        requires
            fits_memory(self.json_response.value@),
        ensures
            final(out)@ == old(out)@ + mcstring_bytes(self.json_response.value@),
            r == mcstring_bytes(self.json_response.value@).len(),
    {
        self.json_response.write_stream(out)
    }
}

} // verus!
