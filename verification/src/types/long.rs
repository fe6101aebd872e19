//! Long: a 64-bit signed number written as eight big-endian bytes.
use vstd::prelude::*;
use vstd::arithmetic::div_mod::{lemma_mod_breakdown, lemma_small_mod};
use core::ops::Deref;
use crate::utils::{RWStreamWithLimit, spec_read_exact, be_value, pow2_8n};
use crate::types::{McRustRepr, ProtocolError};

verus! {

/// A 64-bit signed number written as eight big-endian bytes.
#[derive(Debug, Clone, Copy, PartialEq, Eq, Structural)]
pub struct Long(pub i64);

/// The last `n` base-256 digits of `v`, most significant first.
pub open spec fn be_bytes(v: nat, n: nat) -> Seq<u8>
    decreases n,
{
    if n == 0 {
        Seq::empty()
    } else {
        be_bytes(v / 256, (n - 1) as nat).push((v % 256) as u8)
    }
}

/// The bytes that write the Long `v`.
pub open spec fn long_bytes(v: i64) -> Seq<u8> {
    be_bytes((v as u64) as nat, 8)
}

fn push_be(out: &mut Vec<u8>, v: u64, n: usize)
    requires
        n <= 8,
    ensures
        final(out)@ == old(out)@ + be_bytes(v as nat, n as nat),
    decreases n,
{
    if n == 0 {
        assert(old(out)@ + Seq::<u8>::empty() =~= old(out)@);
        return;
    }
    push_be(out, v / 256, n - 1);
    out.push((v % 256) as u8);
    assert(out@ =~= old(out)@ + be_bytes(v as nat, n as nat));
}

impl Deref for Long {
    type Target = i64;

    fn deref(&self) -> (r: &i64)
        ensures
            *r == self.0,
    {
        &self.0
    }
}

impl Long {
    /// Appends the eight bytes of the number to `out`; returns 8.
    pub fn write_stream(&self, out: &mut Vec<u8>) -> (r: usize)
        ensures
            final(out)@ == old(out)@ + long_bytes(self.0),
            r == 8,
    {
        push_be(out, self.0 as u64, 8);
        8
    }

    /// Reads a Long from a packet's stream.
    pub fn read_stream(b: &mut RWStreamWithLimit) -> (r: Result<Long, ProtocolError>)
        requires
            old(b).wf(),
        ensures
            final(b).wf(),
            ({
                let (res, c) = spec_read_exact(old(b).pending(), old(b).read_left(), 8);
                &&& final(b).consumed_from(old(b), c)
                &&& match res {
                    Ok(bytes) => r == Ok::<Long, ProtocolError>(Long((be_value(bytes) as u64) as i64)),
                    Err(e) => r == Err::<Long, ProtocolError>(ProtocolError::Stream(e)),
                }
            }),
    {
        match b.read_i64() {
            Ok(v) => Ok(Long(v)),
            Err(e) => Err(ProtocolError::Stream(e)),
        }
    }
}

impl McRustRepr for Long {
    type RustRepresentation = i64;

    fn into_rs(self) -> (r: i64)
        ensures
            r == self.0,
    {
        self.0
    }

    fn to_rs(&self) -> (r: i64)
        ensures
            r == self.0,
    {
        self.0
    }

    fn as_rs(&self) -> (r: &i64)
        ensures
            *r == self.0,
    {
        &self.0
    }
}

/// The `n` big-endian bytes of `v` spell `v` modulo `256^n`.
pub proof fn lemma_be_roundtrip(v: nat, n: nat)
    ensures
        be_bytes(v, n).len() == n,
        be_value(be_bytes(v, n)) == v % pow2_8n(n),
    decreases n,
{
    if n == 0 {
        assert(v % 1 == 0);
    } else {
        let s = be_bytes(v, n);
        lemma_be_roundtrip(v / 256, (n - 1) as nat);
        assert(s.drop_last() =~= be_bytes(v / 256, (n - 1) as nat));
        assert(pow2_8n(n) == 256 * pow2_8n((n - 1) as nat));
        lemma_pow2_8n_pos((n - 1) as nat);
        lemma_mod_breakdown(v as int, 256, pow2_8n((n - 1) as nat) as int);
    }
}

proof fn lemma_pow2_8n_pos(n: nat)
    ensures
        pow2_8n(n) > 0,
    decreases n,
{
    if n > 0 {
        lemma_pow2_8n_pos((n - 1) as nat);
    }
}

/// Any bytes are the big-endian digits of the number they spell.
pub proof fn lemma_be_bytes_of_value(s: Seq<u8>)
    ensures
        be_bytes(be_value(s), s.len()) == s,
    decreases s.len(),
{
    if s.len() > 0 {
        let d = s.drop_last();
        lemma_be_bytes_of_value(d);
        let v = be_value(s);
        let w = be_value(d);
        let b = s.last() as nat;
        assert(v == w * 256 + b);
        assert(v / 256 == w && v % 256 == b) by (nonlinear_arith)
            requires v == w * 256 + b, b < 256;
        assert(be_bytes(v, s.len()) == be_bytes(v / 256, d.len()).push((v % 256) as u8));
        assert(s =~= d.push(s.last()));
    }
}

/// The eight bytes of a Long read from any eight bytes are those bytes.
pub proof fn lemma_long_bytes_of_read(b: Seq<u8>)
    requires
        b.len() == 8,
    ensures
        long_bytes((be_value(b) as u64) as i64) == b,
{
    lemma_be_roundtrip(be_value(b), 8);
    lemma_be_bytes_of_value(b);
    reveal_with_fuel(pow2_8n, 9);
    lemma_be_value_bound(b);
    let x = be_value(b) as u64;
    assert(((x as i64) as u64) == x) by (bit_vector);
}

proof fn lemma_be_value_bound(b: Seq<u8>)
    ensures
        be_value(b) < pow2_8n(b.len()),
    decreases b.len(),
{
    if b.len() > 0 {
        let d = b.drop_last();
        lemma_be_value_bound(d);
        let w = be_value(d);
        let p = pow2_8n(d.len());
        assert(pow2_8n(b.len()) == 256 * p);
        assert(w * 256 + b.last() < 256 * p) by (nonlinear_arith)
            requires w < p, b.last() < 256;
    }
}

/// Every Long reads back from its eight bytes.
pub proof fn lemma_long_roundtrip(v: i64)
    ensures
        long_bytes(v).len() == 8,
        (be_value(long_bytes(v)) as u64) as i64 == v,
{
    lemma_be_roundtrip((v as u64) as nat, 8);
    reveal_with_fuel(pow2_8n, 9);
    lemma_small_mod((v as u64) as nat, pow2_8n(8));
    assert((v as u64) as i64 == v) by (bit_vector);
}

} // verus!
