//! VarLong: a 64-bit signed number in the variable-length format.
use vstd::prelude::*;
use vstd::arithmetic::div_mod::lemma_small_mod;
use vstd::arithmetic::power2::{pow2, lemma2_to64, lemma2_to64_rest, lemma_pow2_strictly_increases};
use core::ops::Deref;
use crate::varnum::{canonical, group_value, lemma_encode_canonical, lemma_decode_shape, VarNumError, spec_decode, spec_encode, decode_var, encode_var, get_number_bytes_size, lemma_encode_len, lemma_decode_encode};
use crate::utils::RWStreamWithLimit;
use crate::types::{McRustRepr, ProtocolError};
use crate::types::var_int::{read_stream, spec_read_varnum};

verus! {

/// A 64-bit signed number written in the variable-length format.
#[derive(Debug, Clone, Copy, PartialEq, Eq, Structural)]
pub struct VarLong(pub i64);

/// The bytes that write the VarLong `v`: its bits as an unsigned 64-bit number.
pub open spec fn varlong_bytes(v: i64) -> Seq<u8> {
    spec_encode((v as u64) as nat)
}

/// Appends the bytes of the VarLong `value` to `writer`: groups of its bits as an
/// unsigned 64-bit number, like Java's `>>>`. Returns how many bytes there are.
pub fn write_varlong(writer: &mut Vec<u8>, value: i64) -> (written: usize)
    ensures
        final(writer)@ == old(writer)@ + varlong_bytes(value),
        written == varlong_bytes(value).len(),
{
    encode_var(writer, value as u64)
}

impl Deref for VarLong {
    type Target = i64;

    fn deref(&self) -> (r: &i64)
        ensures
            *r == self.0,
    {
        &self.0
    }
}

impl VarLong {
    /// How many bytes the number takes.
    pub fn get_size(&self) -> (r: usize)
        ensures
            r == varlong_bytes(self.0).len(),
    {
        let value = self.0 as u64;
        get_number_bytes_size(value)
    }

    /// Appends the bytes of the number to `out`; returns how many there are.
    pub fn write_stream(&self, out: &mut Vec<u8>) -> (r: usize)
        ensures
            final(out)@ == old(out)@ + varlong_bytes(self.0),
            r == varlong_bytes(self.0).len(),
    {
        write_varlong(out, self.0)
    }

    /// Reads a VarLong from a packet's stream.
    pub fn read_stream(b: &mut RWStreamWithLimit) -> (r: Result<VarLong, ProtocolError>)
        requires
            old(b).wf(),
        ensures
            final(b).wf(),
            ({
                let (res, n) = spec_read_varnum(old(b).pending(), old(b).read_left(), 64);
                &&& final(b).consumed_from(old(b), n)
                &&& match res {
                    Ok(v) => r == Ok::<VarLong, ProtocolError>(VarLong(v as i64)),
                    Err(e) => r == Err::<VarLong, ProtocolError>(e),
                }
            }),
    {
        match read_stream(b, 64) {
            Ok(v) => Ok(VarLong(v as i64)),
            Err(e) => Err(e),
        }
    }

    /// Reads a VarLong from the front of `bytes`: the number or why it could not
    /// be read, and how many bytes that took.
    pub fn from_bytes(bytes: &[u8]) -> (r: (Result<VarLong, VarNumError>, usize))
        ensures
            ({
                let (res, n) = spec_decode(bytes@, 64);
                &&& r.1 == n
                &&& match res {
                    Ok(v) => r.0 == Ok::<VarLong, VarNumError>(VarLong(v as i64)),
                    Err(e) => r.0 == Err::<VarLong, VarNumError>(e),
                }
            }),
    {
        let (res, n) = decode_var(bytes, 64);
        match res {
            Ok(v) => (Ok(VarLong(v as i64)), n),
            Err(e) => (Err(e), n),
        }
    }
}

impl McRustRepr for VarLong {
    type RustRepresentation = i64;

    fn into_rs(self) -> (r: i64)
        ensures
            r == self.0,
    {
        self.0
    }

    fn to_rs(&self) -> (r: i64)
        ensures
            r == self.0,
    {
        self.0
    }

    fn as_rs(&self) -> (r: &i64)
        ensures
            *r == self.0,
    {
        &self.0
    }
}

/// Every VarLong reads back from its own bytes, whatever follows them, and
/// reading takes exactly those bytes.
pub proof fn lemma_varlong_roundtrip(v: i64, rest: Seq<u8>)
    ensures
        ({
            let (res, n) = spec_decode(varlong_bytes(v) + rest, 64);
            &&& res matches Ok(x) && x as i64 == v
            &&& n == varlong_bytes(v).len()
        }),
{
    let u = (v as u64) as nat;
    lemma2_to64();
    lemma2_to64_rest();
    lemma_pow2_strictly_increases(64, 70);
    lemma_encode_len(u, 10);
    lemma_decode_encode(u, rest, 64);
    assert((v as u64) as i64 == v) by (bit_vector);
}

/// Bytes that a VarLong is read from, when they hold no superfluous group and
/// spell a number of 64 bits, are exactly the bytes that write it back.
pub proof fn lemma_varlong_reencode(s: Seq<u8>)
    requires
        spec_decode(s, 64).0 is Ok,
        spec_decode(s, 64).1 == 1 || s[spec_decode(s, 64).1 - 1] != 0,
        group_value(s.take(spec_decode(s, 64).1 as int)) < pow2(64),
    ensures
        varlong_bytes(spec_decode(s, 64).0.unwrap() as i64) == s.take(spec_decode(s, 64).1 as int),
{
    let n = spec_decode(s, 64).1;
    let t = s.take(n as int);
    lemma_decode_shape(s, 64);
    assert(canonical(t));
    lemma_encode_canonical(t);
    lemma2_to64();
    lemma_small_mod(group_value(t), pow2(64));
    let x = spec_decode(s, 64).0.unwrap();
    assert(x as nat == group_value(t));
    assert(((x as i64) as u64) == x) by (bit_vector);
}

/// A VarLong takes at most ten bytes, and `get_size` counts exactly them.
pub proof fn lemma_varlong_len(v: i64)
    ensures
        1 <= varlong_bytes(v).len() <= 10,
{
    lemma2_to64();
    lemma2_to64_rest();
    lemma_pow2_strictly_increases(64, 70);
    lemma_encode_len((v as u64) as nat, 10);
}

} // verus!
