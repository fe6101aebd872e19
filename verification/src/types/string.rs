//! McString: a UTF-8 string behind a VarInt length prefix, with a bound on
//! how long it may be when read.
use vstd::prelude::*;
use vstd::utf8::{valid_utf8, decode_utf8, encode_utf8, encode_utf8_valid_utf8, encode_utf8_decode_utf8, decode_utf8_encode_utf8};
use vstd::arithmetic::power2::{pow2, lemma2_to64, lemma2_to64_rest, lemma_pow2_strictly_increases};
use vstd::string::StringSliceAdditionalSpecFns;
use crate::varnum::{spec_encode, spec_decode, lemma_encode_len, lemma_decode_encode, lemma_decode_len};
use crate::utils::{RWStreamWithLimit, spec_read_some, lemma_consumed_trans, available};
use crate::types::{McRustRepr, ProtocolError};
use crate::types::var_int::{VarInt, spec_read_varnum, varint_bytes, lemma_read_varnum_of};

verus! {

/// `String::from_utf8`: the string that the bytes spell, if they are UTF-8.
/// Trusted: its documentation promises exactly the UTF-8 check and decoding
/// that vstd's `valid_utf8` and `decode_utf8` describe.
#[verifier::external_body]
fn string_from_utf8(bytes: Vec<u8>) -> (r: Option<String>)
    ensures
        r is Some <==> valid_utf8(bytes@),
        r matches Some(s) ==> s@ == decode_utf8(bytes@),
{
    String::from_utf8(bytes).ok()
}

/// The UTF-8 bytes of a string.
pub open spec fn utf8_bytes(s: Seq<char>) -> Seq<u8> {
    encode_utf8(s)
}

/// A string whose bytes Rust can hold (at most `isize::MAX` of them).
pub open spec fn fits_memory(s: Seq<char>) -> bool {
    utf8_bytes(s).len() <= isize::MAX
}

/// What `measure_size` gives for a string of `len` UTF-8 bytes: the size of
/// `len` as a VarInt (its bits sign-extended) plus `len`.
pub open spec fn spec_measure_size(len: nat) -> nat {
    spec_encode(((len as i32) as u64) as nat).len() + len
}

/// The bytes that write a string: the VarInt of its measured size, then its bytes.
pub open spec fn mcstring_bytes(s: Seq<char>) -> Seq<u8> {
    varint_bytes(spec_measure_size(utf8_bytes(s).len()) as i32) + utf8_bytes(s)
}

/// `data` filled up with zero bytes to `size` bytes.
pub open spec fn zero_pad(data: Seq<u8>, size: nat) -> Seq<u8> {
    data + Seq::new((size - data.len()) as nat, |i: int| 0u8)
}

/// Reading a string of at most `max` characters from a packet's stream: its
/// length, checked against `3 * max + 3`; one read of that many bytes; then the
/// bytes, filled up with zeros, must be UTF-8 and must all have arrived.
pub open spec fn spec_read_mcstring(pending: Seq<u8>, left: nat, max: nat) -> (Result<Seq<char>, ProtocolError>, nat) {
    let (r1, n1) = spec_read_varnum(pending, left, 32);
    match r1 {
        Err(e) => (Err(e), n1),
        Ok(raw) => {
            let size = ((raw as i32) as usize) as nat;
            if size > max * 3 + 3 {
                (Err(ProtocolError::StringTooLong), n1)
            } else {
                let (r2, n2) = spec_read_some(pending.skip(n1 as int), (left - n1) as nat, size);
                match r2 {
                    Err(e) => (Err(ProtocolError::Stream(e)), n1 + n2),
                    Ok(data) => {
                        let padded = zero_pad(data, size);
                        if !valid_utf8(padded) {
                            (Err(ProtocolError::InvalidUtf8), n1 + n2)
                        } else if data.len() < size {
                            (Err(ProtocolError::StringShortRead), n1 + n2)
                        } else {
                            (Ok(decode_utf8(padded)), n1 + n2)
                        }
                    },
                }
            }
        },
    }
}

/// A string of at most `MAX_SIZE` characters.
pub struct McString<const MAX_SIZE: usize> {
    pub value: String,
}

impl<const MAX_SIZE: usize> McString<MAX_SIZE> {
    /// The size of the string when written: the VarInt of its byte length plus
    /// that length.
    pub fn measure_size(s: &str) -> (r: usize)
        requires
            s.spec_bytes().len() <= isize::MAX,
        ensures
            r == spec_measure_size(s.spec_bytes().len()),
    {
        let utf8_len = s.len();
        let varint_size = VarInt(utf8_len as i32).get_size();
        varint_size + utf8_len
    }

    /// The string `s`.
    pub fn from_string(s: String) -> (r: Self)
        ensures
            r.value == s,
    {
        Self { value: s }
    }

    /// Appends the string to `out`: the VarInt of its measured size, then its
    /// bytes; returns how many bytes that is.
    pub fn write_stream(&self, out: &mut Vec<u8>) -> (r: usize)
        requires
            fits_memory(self.value@),
        ensures
            final(out)@ == old(out)@ + mcstring_bytes(self.value@),
            r == mcstring_bytes(self.value@).len(),
    {
        let s = self.value.as_str();
        let buf = s.as_bytes();
        let length = Self::measure_size(s);
        let length_var_int = VarInt(length as i32);
        let written = length_var_int.write_stream(out);
        let ghost mid = out@;
        out.extend_from_slice(buf);
        assert(out@ =~= mid + buf@);
        buf.len() + written
    }

    /// Reads a string from a packet's stream.
    pub fn read_stream(b: &mut RWStreamWithLimit) -> (r: Result<Self, ProtocolError>)
        requires
            old(b).wf(),
            MAX_SIZE * 3 + 3 <= usize::MAX,
        ensures
            final(b).wf(),
            ({
                let (res, n) = spec_read_mcstring(old(b).pending(), old(b).read_left(), MAX_SIZE as nat);
                &&& final(b).consumed_from(old(b), n)
                &&& match res {
                    Ok(chars) => r matches Ok(s) && s.value@ == chars,
                    Err(e) => r matches Err(x) && x == e,
                }
            }),
    {
        let ghost start = *b;
        let max_size = match VarInt::read_stream(b) {
            Ok(v) => v,
            Err(e) => { return Err(e); },
        };
        let ghost mid = *b;
        let size = max_size.0 as usize;
        if size > MAX_SIZE * 3 + 3 {
            return Err(ProtocolError::StringTooLong);
        }
        let data = match b.read(size) {
            Ok(d) => d,
            Err(e) => {
                proof { lemma_consumed_trans(&start, &mid, b, spec_read_varnum(start.pending(), start.read_left(), 32).1, 0); }
                return Err(ProtocolError::Stream(e));
            },
        };
        let ghost n2 = data@.len();
        proof { lemma_consumed_trans(&start, &mid, b, spec_read_varnum(start.pending(), start.read_left(), 32).1, n2); }
        let actual_size = data.len();
        let mut bytes = data;
        while bytes.len() < size
            invariant
                actual_size <= size,
                bytes@.len() <= size,
                bytes@.len() >= actual_size,
                bytes@ == zero_pad(data@, bytes@.len() as nat),
                data@.len() == actual_size,
            decreases size - bytes@.len(),
        {
            bytes.push(0);
            assert(bytes@ =~= zero_pad(data@, bytes@.len() as nat));
        }
        let value = match string_from_utf8(bytes) {
            Some(v) => v,
            None => { return Err(ProtocolError::InvalidUtf8); },
        };
        if size != actual_size {
            return Err(ProtocolError::StringShortRead);
        }
        Ok(McString { value })
    }
}

impl<const MAX_SIZE: usize> McRustRepr for McString<MAX_SIZE> {
    type RustRepresentation = String;

    fn into_rs(self) -> (r: String)
        ensures
            r == self.value,
    {
        self.value
    }

    fn to_rs(&self) -> (r: String)
        ensures
            r == self.value,
    {
        self.value.clone()
    }

    fn as_rs(&self) -> (r: &String)
        ensures
            *r == self.value,
    {
        &self.value
    }
}

/// The bytes of a written string begin with the VarInt of its measured size,
/// followed by its UTF-8 bytes: reading a VarInt from them gives that size and
/// leaves exactly the string's bytes (and whatever followed).
pub proof fn lemma_mcstring_bytes_prefix(s: Seq<char>, rest: Seq<u8>)
    requires
        spec_measure_size(utf8_bytes(s).len()) <= i32::MAX,
    ensures
        ({
            let m = spec_measure_size(utf8_bytes(s).len());
            let (r, n) = spec_decode(mcstring_bytes(s) + rest, 32);
            &&& r == Ok::<u64, crate::varnum::VarNumError>(m as u64)
            &&& n == spec_encode(m).len()
            &&& (mcstring_bytes(s) + rest).skip(n as int) == utf8_bytes(s) + rest
        }),
{
    let m = spec_measure_size(utf8_bytes(s).len());
    assert(((m as i32) as u32) as nat == m);
    let e = spec_encode(m);
    lemma2_to64();
    lemma2_to64_rest();
    lemma_pow2_strictly_increases(32, 35);
    lemma_pow2_strictly_increases(32, 64);
    assert(pow2(35) == 0x800000000);
    lemma_encode_len(m, 5);
    assert(mcstring_bytes(s) + rest =~= e + (utf8_bytes(s) + rest));
    lemma_decode_encode(m, utf8_bytes(s) + rest, 32);
    assert((e + (utf8_bytes(s) + rest)).skip(e.len() as int) =~= utf8_bytes(s) + rest);
}

/// A string read successfully is exactly the UTF-8 text of all the bytes that
/// its length prefix announced, which follow the prefix, and the read takes
/// the prefix and those bytes.
pub proof fn lemma_read_mcstring_is_announced_bytes(p: Seq<u8>, l: nat, max: nat)
    requires
        spec_read_mcstring(p, l, max).0 is Ok,
    ensures
        ({
            let (r1, n1) = spec_read_varnum(p, l, 32);
            let size = ((r1.unwrap() as i32) as usize) as nat;
            &&& r1 is Ok
            &&& n1 + size <= p.len()
            &&& spec_read_mcstring(p, l, max).1 == n1 + size
            &&& utf8_bytes(spec_read_mcstring(p, l, max).0.unwrap()) == p.subrange(n1 as int, (n1 + size) as int)
        }),
{
    let (r1, n1) = spec_read_varnum(p, l, 32);
    let size = ((r1.unwrap() as i32) as usize) as nat;
    lemma_decode_len(p.take(available(p, l) as int), 32);
    let q = p.skip(n1 as int);
    let (r2, n2) = spec_read_some(q, (l - n1) as nat, size);
    let data = r2.unwrap();
    assert(data.len() == size);
    assert(zero_pad(data, size) =~= data);
    assert(data =~= p.subrange(n1 as int, (n1 + size) as int));
    decode_utf8_encode_utf8(data);
}

/// The bytes of a string behind the VarInt of their number, when the limit lets
/// them all be read and there are no more than `3 * max + 3`, read back as
/// that string.
pub proof fn lemma_read_length_prefixed(a: Seq<char>, rest: Seq<u8>, l: nat, max: nat)
    requires
        utf8_bytes(a).len() <= 3 * max + 3,
        utf8_bytes(a).len() <= i32::MAX,
        l >= varint_bytes(utf8_bytes(a).len() as i32).len() + utf8_bytes(a).len(),
        l > varint_bytes(utf8_bytes(a).len() as i32).len(),
    ensures
        spec_read_mcstring(
            varint_bytes(utf8_bytes(a).len() as i32) + (utf8_bytes(a) + rest),
            l,
            max,
        ) == (Ok::<Seq<char>, ProtocolError>(a), varint_bytes(utf8_bytes(a).len() as i32).len() + utf8_bytes(a).len()),
{
    let len = utf8_bytes(a).len();
    let e = varint_bytes(len as i32);
    let q = e + (utf8_bytes(a) + rest);
    lemma_read_varnum_of(len as i32, utf8_bytes(a) + rest, l);
    let raw = ((len as i32) as u32) as u64;
    assert(raw == len);
    assert(((raw as i32) as usize) as nat == len);
    let q2 = q.skip(e.len() as int);
    assert(q2 =~= utf8_bytes(a) + rest);
    let data = q2.take(len as int);
    assert(data =~= utf8_bytes(a));
    assert(zero_pad(data, len) =~= data);
    encode_utf8_valid_utf8(a);
    encode_utf8_decode_utf8(a);
}

} // verus!
