//! VarInt: a 32-bit signed number in the variable-length format.
use vstd::prelude::*;
use vstd::arithmetic::div_mod::lemma_small_mod;
use vstd::arithmetic::power2::{pow2, lemma2_to64, lemma2_to64_rest, lemma_pow2_strictly_increases};
use core::ops::Deref;
use crate::varnum::{scan, segment, canonical, group_value, lemma_encode_canonical, lemma_decode_shape, VarNumError, VarNumReader, ReadStep, spec_decode, spec_encode, decode_var, encode_var, lemma_decode_prefix, lemma_encode_len, lemma_decode_encode};
use crate::utils::{RWStreamWithLimit, available, end_error, lemma_consumed_trans, lemma_consumed_none};
use crate::types::{McRustRepr, ProtocolError};
pub use crate::varnum::get_number_bytes_size;

verus! {

/// A 32-bit signed number written in the variable-length format.
#[derive(Debug, Clone, Copy, PartialEq, Eq, Structural)]
pub struct VarInt(pub i32);

/// Reading a number of at most `max_bits` bits from a packet's stream that holds
/// `pending` and may still give `left` bytes: the result and the bytes taken.
pub open spec fn spec_read_varnum(pending: Seq<u8>, left: nat, max_bits: nat) -> (Result<u64, ProtocolError>, nat) {
    let (r, n) = spec_decode(pending.take(available(pending, left) as int), max_bits);
    (
        match r {
            Ok(v) => Ok(v),
            Err(VarNumError::TooBig) => Err(ProtocolError::NumberTooBig),
            Err(VarNumError::UnexpectedEnd) => Err(ProtocolError::Stream(end_error(pending, left))),
        },
        n,
    )
}

/// The bytes that write the VarInt `v`: its bits as an unsigned 32-bit number.
pub open spec fn varint_bytes(v: i32) -> Seq<u8> {
    spec_encode((v as u32) as nat)
}

/// Reads a number of at most `max_bits` bits from a packet's stream, byte by byte.
pub fn read_stream(b: &mut RWStreamWithLimit, max_size: u32) -> (r: Result<u64, ProtocolError>)
    requires
        old(b).wf(),
        max_size <= 64,
    ensures
        final(b).wf(),
        ({
            let (res, n) = spec_read_varnum(old(b).pending(), old(b).read_left(), max_size as nat);
            r == res && final(b).consumed_from(old(b), n)
        }),
{
    let ghost start = *b;
    let ghost w = start.window();
    let mut reader = VarNumReader::new(max_size);
    let mut i: usize = 0;
    proof {
        lemma_consumed_none(b);
        assert(w.take(0) =~= Seq::<u8>::empty());
        assert(spec_decode(Seq::<u8>::empty(), max_size as nat) == (Err::<u64, VarNumError>(VarNumError::UnexpectedEnd), 0nat));
    }
    loop
        invariant
            b.wf(),
            start.wf(),
            start == *old(b),
            max_size <= 64,
            b.consumed_from(&start, i as nat),
            i <= available(start.pending(), start.read_left()),
            w == start.pending().take(available(start.pending(), start.read_left()) as int),
            reader.wf(),
            reader.bit_limit() == max_size,
            reader.bytes_seen() == w.take(i as int),
            spec_decode(w.take(i as int), max_size as nat) == (Err::<u64, VarNumError>(VarNumError::UnexpectedEnd), i as nat),
        decreases available(start.pending(), start.read_left()) - i,
    {
        let ghost before = *b;
        match b.read_u8() {
            Err(e) => {
                proof {
                    assert(available(before.pending(), before.read_left()) == 0);
                    assert(i == available(start.pending(), start.read_left()));
                    assert(w.take(i as int) =~= w);
                    assert(e == end_error(start.pending(), start.read_left()));
                    lemma_consumed_trans(&start, &before, b, i as nat, 0);
                    assert(spec_decode(w, max_size as nat) == (Err::<u64, VarNumError>(VarNumError::UnexpectedEnd), i as nat));
                    assert(start == *old(b));
                }
                return Err(ProtocolError::Stream(e));
            },
            Ok(byte) => {
                proof {
                    assert(available(before.pending(), before.read_left()) >= 1);
                    assert(i < available(start.pending(), start.read_left()));
                    start.lemma_pending_len();
                    lemma_consumed_trans(&start, &before, b, i as nat, 1);
                    assert(byte == w[i as int]);
                }
                let step = reader.push(byte);
                assert(reader.bytes_seen() =~= w.take(i + 1));
                i = i + 1;
                match step {
                    ReadStep::Done(v) => {
                        proof {
                            lemma_decode_prefix(w, i as nat, max_size as nat);
                            assert(spec_decode(w, max_size as nat) == (Ok::<u64, VarNumError>(v), i as nat));
                            assert(start == *old(b));
                        }
                        return Ok(v);
                    },
                    ReadStep::TooBig => {
                        proof { lemma_decode_prefix(w, i as nat, max_size as nat); }
                        return Err(ProtocolError::NumberTooBig);
                    },
                    ReadStep::More => {},
                }
            },
        }
    }
}

/// Appends the bytes of the VarInt `value` to `writer`: groups of its bits as an
/// unsigned 32-bit number, like Java's `>>>`. Returns how many bytes there are.
pub fn write_varint(writer: &mut Vec<u8>, value: i32) -> (written: usize)
    ensures
        final(writer)@ == old(writer)@ + varint_bytes(value),
        written == varint_bytes(value).len(),
        written <= 5,
{
    proof {
        lemma2_to64();
        lemma2_to64_rest();
        assert(pow2(35) == 0x800000000);
        lemma_encode_len((value as u32) as nat, 5);
    }
    encode_var(writer, (value as u32) as u64)
}

impl Deref for VarInt {
    type Target = i32;

    fn deref(&self) -> (r: &i32)
        ensures
            *r == self.0,
    {
        &self.0
    }
}

impl VarInt {
    /// The VarInt that a read number of up to 32 bits stands for.
    pub fn from_wire(raw: u64) -> (r: VarInt)
        ensures
            r.0 == raw as i32,
    {
        VarInt(raw as i32)
    }

    /// How many bytes the number takes, counted on its bits sign-extended to 64.
    pub fn get_size(&self) -> (r: usize)
        ensures
            r == spec_encode((self.0 as u64) as nat).len(),
            1 <= r <= 10,
    {
        let value = self.0 as u64;
        get_number_bytes_size(value)
    }

    /// Appends the bytes of the number to `out`; returns how many there are.
    pub fn write_stream(&self, out: &mut Vec<u8>) -> (r: usize)
        ensures
            final(out)@ == old(out)@ + varint_bytes(self.0),
            r == varint_bytes(self.0).len(),
            r <= 5,
    {
        write_varint(out, self.0)
    }

    /// Reads a VarInt from a packet's stream.
    pub fn read_stream(b: &mut RWStreamWithLimit) -> (r: Result<VarInt, ProtocolError>)
        requires
            old(b).wf(),
        ensures
            final(b).wf(),
            ({
                let (res, n) = spec_read_varnum(old(b).pending(), old(b).read_left(), 32);
                &&& final(b).consumed_from(old(b), n)
                &&& match res {
                    Ok(v) => r == Ok::<VarInt, ProtocolError>(VarInt(v as i32)),
                    Err(e) => r == Err::<VarInt, ProtocolError>(e),
                }
            }),
    {
        match read_stream(b, 32) {
            Ok(v) => Ok(VarInt(v as i32)),
            Err(e) => Err(e),
        }
    }

    /// Reads a VarInt from the front of `bytes`: the number or why it could not
    /// be read, and how many bytes that took.
    pub fn from_bytes(bytes: &[u8]) -> (r: (Result<VarInt, VarNumError>, usize))
        ensures
            ({
                let (res, n) = spec_decode(bytes@, 32);
                &&& r.1 == n
                &&& match res {
                    Ok(v) => r.0 == Ok::<VarInt, VarNumError>(VarInt(v as i32)),
                    Err(e) => r.0 == Err::<VarInt, VarNumError>(e),
                }
            }),
    {
        let (res, n) = decode_var(bytes, 32);
        match res {
            Ok(v) => (Ok(VarInt(v as i32)), n),
            Err(e) => (Err(e), n),
        }
    }
}

impl McRustRepr for VarInt {
    type RustRepresentation = i32;

    fn into_rs(self) -> (r: i32)
        ensures
            r == self.0,
    {
        self.0
    }

    fn to_rs(&self) -> (r: i32)
        ensures
            r == self.0,
    {
        self.0
    }

    fn as_rs(&self) -> (r: &i32)
        ensures
            *r == self.0,
    {
        &self.0
    }
}

/// Every VarInt reads back from its own bytes, whatever follows them, and
/// reading takes exactly those bytes.
pub proof fn lemma_varint_roundtrip(v: i32, rest: Seq<u8>)
    ensures
        ({
            let (res, n) = spec_decode(varint_bytes(v) + rest, 32);
            &&& res matches Ok(x) && x as i32 == v
            &&& n == varint_bytes(v).len()
        }),
{
    let u = (v as u32) as nat;
    lemma2_to64();
    lemma2_to64_rest();
    lemma_pow2_strictly_increases(32, 35);
    lemma_pow2_strictly_increases(32, 64);
    assert(pow2(35) == 0x800000000);
    lemma_encode_len(u, 5);
    lemma_decode_encode(u, rest, 32);
    assert(((v as u32) as u64) as i32 == v) by (bit_vector);
    assert((u as u64) == (v as u32) as u64);
}

/// Bytes that a VarInt is read from, when they hold no superfluous group and
/// spell a number of 32 bits, are exactly the bytes that write it back.
pub proof fn lemma_varint_reencode(s: Seq<u8>)
    requires
        spec_decode(s, 32).0 is Ok,
        spec_decode(s, 32).1 == 1 || s[spec_decode(s, 32).1 - 1] != 0,
        group_value(s.take(spec_decode(s, 32).1 as int)) < pow2(32),
    ensures
        varint_bytes(spec_decode(s, 32).0.unwrap() as i32) == s.take(spec_decode(s, 32).1 as int),
{
    let n = spec_decode(s, 32).1;
    let t = s.take(n as int);
    lemma_decode_shape(s, 32);
    assert(canonical(t));
    lemma_encode_canonical(t);
    lemma2_to64();
    lemma_pow2_strictly_increases(32, 64);
    lemma_small_mod(group_value(t), pow2(64));
    let x = spec_decode(s, 32).0.unwrap();
    assert(x as nat == group_value(t));
    assert(x < 0x1_0000_0000 ==> ((x as i32) as u32) as u64 == x) by (bit_vector);
}

/// A single byte without the continuation bit reads as itself, taking one byte.
pub proof fn lemma_read_one_byte_varnum(p: Seq<u8>, l: nat, max_bits: nat)
    requires
        p.len() >= 1,
        l >= 1,
        p[0] < 128,
    ensures
        spec_read_varnum(p, l, max_bits) == (Ok::<u64, ProtocolError>(p[0] as u64), 1nat),
{
    let w = p.take(available(p, l) as int);
    assert(w[0] == p[0]);
    assert(scan(w, 0, max_bits) == (None::<VarNumError>, 1nat));
    let t = w.take(1);
    assert(t.drop_last() =~= Seq::<u8>::empty());
    assert(t.last() == p[0]);
    lemma2_to64();
    assert(group_value(t) == group_value(t.drop_last()) + segment(t.last()) * pow2(0));
    lemma_small_mod(p[0] as nat, pow2(64));
}

/// The bytes of a VarInt, followed by anything, read back from a packet's
/// stream as that VarInt when the limit lets them be read.
pub proof fn lemma_read_varnum_of(x: i32, rest: Seq<u8>, l: nat)
    requires
        l >= varint_bytes(x).len(),
    ensures
        spec_read_varnum(varint_bytes(x) + rest, l, 32)
            == (Ok::<u64, ProtocolError>((x as u32) as u64), varint_bytes(x).len()),
{
    let e = varint_bytes(x);
    let q = e + rest;
    let a = available(q, l);
    assert(q.take(a as int) =~= e + rest.take(a - e.len()));
    let u = (x as u32) as nat;
    lemma2_to64();
    lemma2_to64_rest();
    lemma_pow2_strictly_increases(32, 35);
    lemma_pow2_strictly_increases(32, 64);
    assert(pow2(35) == 0x800000000);
    lemma_encode_len(u, 5);
    lemma_decode_encode(u, rest.take(a - e.len()), 32);
}

/// A VarInt takes at most five bytes.
pub proof fn lemma_varint_len(v: i32)
    ensures
        1 <= varint_bytes(v).len() <= 5,
{
    lemma2_to64();
    lemma2_to64_rest();
    lemma_encode_len((v as u32) as nat, 5);
}

/// For a number that is not negative, the size that `get_size` reports is the
/// number of bytes written.
pub proof fn lemma_varint_size(v: i32)
    requires
        v >= 0,
    ensures
        spec_encode((v as u64) as nat) == varint_bytes(v),
{
    assert((v as u64) as nat == (v as u32) as nat);
}

} // verus!
