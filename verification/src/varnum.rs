//! The variable-length number format of the protocol: little-endian groups of
//! seven bits, the high bit of each byte set while more groups follow.
use vstd::prelude::*;
use vstd::arithmetic::power2::{pow2, lemma_pow2_adds, lemma_pow2_pos, lemma_pow2_strictly_increases, lemma2_to64, lemma2_to64_rest};
use vstd::arithmetic::div_mod::{lemma_small_mod, lemma_mod_multiples_vanish};
use vstd::bits::lemma_u64_shl_is_mul;

verus! {

/// Why a variable-length number could not be read.
#[derive(Debug, Clone, Copy, PartialEq, Eq, Structural)]
pub enum VarNumError {
    /// The input ended before the last byte of the number.
    UnexpectedEnd,
    /// More groups followed than the number may have ("Number is too big").
    TooBig,
}

/// The seven payload bits of one byte.
pub open spec fn segment(b: u8) -> nat {
    (b % 128) as nat
}

/// The number that the groups of `s` spell, the first byte holding the lowest seven bits.
pub open spec fn group_value(s: Seq<u8>) -> nat
    decreases s.len(),
{
    if s.len() == 0 {
        0
    } else {
        group_value(s.drop_last()) + segment(s.last()) * pow2((7 * (s.len() - 1)) as nat)
    }
}

/// Scans `s` from index `i` for the end of a number of at most `max_bits` bits:
/// the error, if any, and the number of bytes the reader has taken by then.
pub open spec fn scan(s: Seq<u8>, i: nat, max_bits: nat) -> (Option<VarNumError>, nat)
    decreases s.len() - i,
{
    if i >= s.len() {
        (Some(VarNumError::UnexpectedEnd), s.len())
    } else if s[i as int] < 128 {
        (None, i + 1)
    } else if 7 * (i + 1) >= max_bits {
        (Some(VarNumError::TooBig), i + 1)
    } else {
        scan(s, i + 1, max_bits)
    }
}

/// What reading a number of at most `max_bits` bits from the front of `s` gives,
/// and how many bytes it takes: the groups accumulate into a 64-bit value.
pub open spec fn spec_decode(s: Seq<u8>, max_bits: nat) -> (Result<u64, VarNumError>, nat) {
    let (err, n) = scan(s, 0, max_bits);
    match err {
        None => (Ok((group_value(s.take(n as int)) % pow2(64)) as u64), n),
        Some(e) => (Err(e), n),
    }
}

/// The bytes that write `v`: all groups but the last carry the continuation bit.
pub open spec fn spec_encode(v: nat) -> Seq<u8>
    decreases v,
{
    if v < 128 {
        seq![v as u8]
    } else {
        seq![(v % 128 + 128) as u8] + spec_encode(v / 128)
    }
}

/// One step of a reader fed byte by byte.
#[derive(Debug, Clone, Copy, PartialEq, Eq, Structural)]
pub enum ReadStep {
    /// The number is complete.
    Done(u64),
    /// Another byte is needed.
    More,
    /// The number has more groups than allowed.
    TooBig,
}

proof fn lemma_pow2_7(k: nat)
    ensures
        pow2(7 * (k + 1)) == 128 * pow2(7 * k),
{
    lemma_pow2_adds(7 * k, 7);
    lemma2_to64();
    assert(7 * (k + 1) == 7 * k + 7) by (nonlinear_arith);
}

/// Appending a byte to an unfinished number continues the scan at that byte.
proof fn lemma_scan_push(s: Seq<u8>, b: u8, i: nat, max_bits: nat)
    requires
        i <= s.len(),
        scan(s, i, max_bits).0 == Some(VarNumError::UnexpectedEnd),
    ensures
        scan(s.push(b), i, max_bits) == scan(s.push(b), s.len(), max_bits),
    decreases s.len() - i,
{
    if i < s.len() {
        assert(s.push(b)[i as int] == s[i as int]);
        lemma_scan_push(s, b, i + 1, max_bits);
    }
}

/// The scan of a prefix that already decides the outcome is the scan of the whole.
proof fn lemma_scan_prefix(s: Seq<u8>, k: nat, i: nat, max_bits: nat)
    requires
        k <= s.len(),
        i <= k,
        scan(s.take(k as int), i, max_bits).0 != Some(VarNumError::UnexpectedEnd),
    ensures
        scan(s, i, max_bits) == scan(s.take(k as int), i, max_bits),
    decreases k - i,
{
    if i < k {
        assert(s.take(k as int)[i as int] == s[i as int]);
        if s[i as int] >= 128 && 7 * (i + 1) < max_bits {
            lemma_scan_prefix(s, k, i + 1, max_bits);
        }
    }
}

/// A number read from a prefix that decides it is the number read from the whole input.
pub proof fn lemma_decode_prefix(s: Seq<u8>, k: nat, max_bits: nat)
    requires
        k <= s.len(),
        spec_decode(s.take(k as int), max_bits).0 != Err::<u64, VarNumError>(VarNumError::UnexpectedEnd),
    ensures
        spec_decode(s, max_bits) == spec_decode(s.take(k as int), max_bits),
{
    lemma_scan_prefix(s, k, 0, max_bits);
    let n = scan(s, 0, max_bits).1;
    if scan(s, 0, max_bits).0 is None {
        lemma_scan_bound(s.take(k as int), 0, max_bits);
        assert(s.take(k as int).take(n as int) =~= s.take(n as int));
    }
}

proof fn lemma_scan_bound(s: Seq<u8>, i: nat, max_bits: nat)
    requires
        i <= s.len(),
    ensures
        i <= scan(s, i, max_bits).1 <= s.len(),
        scan(s, i, max_bits).0 != Some(VarNumError::UnexpectedEnd) ==> i < scan(s, i, max_bits).1,
    decreases s.len() - i,
{
    if i < s.len() && s[i as int] >= 128 && 7 * (i + 1) < max_bits {
        lemma_scan_bound(s, i + 1, max_bits);
    }
}

/// A read never takes more bytes than it is given.
pub proof fn lemma_decode_len(s: Seq<u8>, max_bits: nat)
    ensures
        spec_decode(s, max_bits).1 <= s.len(),
{
    lemma_scan_bound(s, 0, max_bits);
}

/// The value of `[a] + s` is the value of `a` plus 128 times the value of `s`.
proof fn lemma_group_value_cons(a: u8, s: Seq<u8>)
    ensures
        group_value(seq![a] + s) == segment(a) + 128 * group_value(s),
    decreases s.len(),
{
    let t = seq![a] + s;
    assert(pow2(0) == 1) by { lemma2_to64(); }
    if s.len() == 0 {
        assert(t.drop_last() =~= Seq::<u8>::empty());
        assert(t.last() == a);
        assert(group_value(Seq::<u8>::empty()) == 0);
        assert(group_value(t) == group_value(t.drop_last()) + segment(t.last()) * pow2(0));
    } else {
        assert(t.drop_last() =~= seq![a] + s.drop_last());
        assert(t.last() == s.last());
        lemma_group_value_cons(a, s.drop_last());
        let k = (s.len() - 1) as nat;
        lemma_pow2_7(k);
        let p = pow2(7 * k);
        let g = group_value(s.drop_last());
        let d = segment(s.last());
        assert(group_value(s) == g + d * p);
        assert(group_value(t) == group_value(t.drop_last()) + d * pow2(7 * (k + 1)));
        assert(128 * (g + d * p) == 128 * g + d * (128 * p)) by (nonlinear_arith);
    }
}

/// The value of a number's bytes is the number.
pub proof fn lemma_group_value_encode(v: nat)
    ensures
        group_value(spec_encode(v)) == v,
    decreases v,
{
    if v < 128 {
        let s = seq![v as u8];
        assert(s.drop_last() =~= Seq::<u8>::empty());
        assert(pow2(0) == 1) by { lemma2_to64(); }
        assert(s.last() == v as u8);
        assert(segment(v as u8) == v);
        assert(group_value(s) == group_value(s.drop_last()) + segment(s.last()) * pow2(0));
    } else {
        let b = (v % 128 + 128) as u8;
        lemma_group_value_encode(v / 128);
        lemma_group_value_cons(b, spec_encode(v / 128));
        assert(spec_encode(v) == seq![b] + spec_encode(v / 128));
        assert(segment(b) == v % 128);
        assert(v == v % 128 + 128 * (v / 128));
    }
}

/// A number below `2^(7k)` takes at most `k` bytes, and at least one.
pub proof fn lemma_encode_len(v: nat, k: nat)
    requires
        v < pow2(7 * k),
        k >= 1,
    ensures
        1 <= spec_encode(v).len() <= k,
    decreases v,
{
    lemma2_to64();
    if v >= 128 {
        if k == 1 {
            assert(pow2(7) == 128);
        }
        let k1 = (k - 1) as nat;
        lemma_pow2_7(k1);
        assert(k1 + 1 == k);
        let p = pow2(7 * k1);
        assert(v / 128 < p) by (nonlinear_arith)
            requires v < 128 * p;
        lemma_encode_len(v / 128, k1);
    }
}

proof fn lemma_encode_nonempty(v: nat)
    ensures
        spec_encode(v).len() >= 1,
        v >= 128 ==> spec_encode(v).len() == 1 + spec_encode(v / 128).len(),
    decreases v,
{
}

/// Scanning a number's bytes from index `i` of a longer input ends right after them.
proof fn lemma_scan_encode(pre: Seq<u8>, v: nat, rest: Seq<u8>, max_bits: nat)
    requires
        forall|j: int| 0 <= j < pre.len() ==> pre[j] >= 128,
        7 * (pre.len() + spec_encode(v).len() - 1) < max_bits,
    ensures
        scan(pre + spec_encode(v) + rest, pre.len(), max_bits)
            == (None::<VarNumError>, pre.len() + spec_encode(v).len()),
    decreases v,
{
    let s = pre + spec_encode(v) + rest;
    let i = pre.len();
    if v < 128 {
        assert(s[i as int] == v as u8);
    } else {
        let b = (v % 128 + 128) as u8;
        assert(s[i as int] == b);
        lemma_encode_nonempty(v / 128);
        let pre2 = pre.push(b);
        assert(pre2 + spec_encode(v / 128) + rest =~= s);
        lemma_scan_encode(pre2, v / 128, rest, max_bits);
    }
}

/// Whatever follows them, the bytes of `v` read back as `v` when they fit in `max_bits`.
pub proof fn lemma_decode_encode(v: nat, rest: Seq<u8>, max_bits: nat)
    requires
        v < pow2(64),
        7 * (spec_encode(v).len() - 1) < max_bits,
    ensures
        spec_decode(spec_encode(v) + rest, max_bits) == (Ok::<u64, VarNumError>(v as u64), spec_encode(v).len()),
{
    let e = spec_encode(v);
    let s = e + rest;
    lemma_encode_nonempty(v);
    assert(Seq::<u8>::empty() + e + rest =~= s);
    lemma_scan_encode(Seq::<u8>::empty(), v, rest, max_bits);
    assert(s.take(e.len() as int) =~= e);
    lemma_group_value_encode(v);
    lemma_small_mod(v, pow2(64));
}

/// The bytes of one number written without a superfluous group: all bytes but
/// the last carry the continuation bit, and the last is not zero unless it is
/// the only one.
pub open spec fn canonical(t: Seq<u8>) -> bool {
    &&& t.len() >= 1
    &&& forall|i: int| 0 <= i < t.len() - 1 ==> t[i] >= 128
    &&& t.last() < 128
    &&& (t.len() > 1 ==> t.last() != 0)
}

proof fn lemma_canonical_positive(t: Seq<u8>)
    requires
        canonical(t),
        t.len() > 1,
    ensures
        group_value(t) >= 1,
{
    lemma_pow2_pos((7 * (t.len() - 1)) as nat);
    assert(segment(t.last()) >= 1);
    assert(segment(t.last()) * pow2((7 * (t.len() - 1)) as nat) >= 1) by (nonlinear_arith)
        requires segment(t.last()) >= 1, pow2((7 * (t.len() - 1)) as nat) > 0;
}

/// A number's canonical bytes are exactly the bytes that write it.
pub proof fn lemma_encode_canonical(t: Seq<u8>)
    requires
        canonical(t),
    ensures
        spec_encode(group_value(t)) == t,
    decreases t.len(),
{
    if t.len() == 1 {
        assert(t.drop_last() =~= Seq::<u8>::empty());
        assert(pow2(0) == 1) by { lemma2_to64(); }
        assert(group_value(t) == group_value(t.drop_last()) + segment(t.last()) * pow2(0));
        assert(t =~= seq![t[0]]);
    } else {
        let a = t[0];
        let rest = t.drop_first();
        assert(t =~= seq![a] + rest);
        assert(rest.last() == t.last());
        assert forall|i: int| 0 <= i < rest.len() - 1 implies rest[i] >= 128 by {
            assert(rest[i] == t[i + 1]);
        }
        lemma_encode_canonical(rest);
        lemma_group_value_cons(a, rest);
        if rest.len() > 1 {
            lemma_canonical_positive(rest);
        } else {
            assert(rest.drop_last() =~= Seq::<u8>::empty());
            assert(pow2(0) == 1) by { lemma2_to64(); }
            assert(group_value(rest) == group_value(rest.drop_last()) + segment(rest.last()) * pow2(0));
        }
        let g = group_value(t);
        let gr = group_value(rest);
        assert(a >= 128);
        assert(g == segment(a) + 128 * gr);
        assert(g >= 128);
        assert(g % 128 == segment(a) && g / 128 == gr) by (nonlinear_arith)
            requires g == segment(a) + 128 * gr, segment(a) < 128;
        assert(spec_encode(g) == seq![(g % 128 + 128) as u8] + spec_encode(g / 128));
        assert((g % 128 + 128) as u8 == a);
    }
}

/// The bytes that a successful read took spell the number they give.
pub proof fn lemma_decode_shape(s: Seq<u8>, max_bits: nat)
    requires
        spec_decode(s, max_bits).0 is Ok,
    ensures
        ({
            let n = spec_decode(s, max_bits).1;
            let t = s.take(n as int);
            &&& 1 <= n <= s.len()
            &&& forall|i: int| 0 <= i < t.len() - 1 ==> t[i] >= 128
            &&& t.last() < 128
        }),
{
    lemma_scan_shape(s, 0, max_bits);
}

proof fn lemma_scan_shape(s: Seq<u8>, i: nat, max_bits: nat)
    requires
        i <= s.len(),
        scan(s, i, max_bits).0 is None,
    ensures
        ({
            let n = scan(s, i, max_bits).1;
            &&& i + 1 <= n <= s.len()
            &&& forall|j: int| i <= j < n - 1 ==> s[j] >= 128
            &&& s[n - 1] < 128
        }),
    decreases s.len() - i,
{
    if s[i as int] >= 128 {
        lemma_scan_shape(s, i + 1, max_bits);
    }
}

/// The bounds that make a 64-bit accumulation step exact.
proof fn lemma_or_shift(value: u64, d: u64, p: u64)
    requires
        p < 64,
        value < (1u64 << p),
        d < 128,
    ensures
        (value | (d << p)) as int == value as int + (d << p) as int,
{
    assert((value | (d << p)) as int == value as int + (d << p) as int) by (bit_vector)
        requires
            p < 64,
            value < (1u64 << p),
            d < 128;
}

proof fn lemma_one_shl(p: u64)
    requires
        p < 64,
    ensures
        (1u64 << p) == pow2(p as nat),
{
    lemma_pow2_strictly_increases(p as nat, 64);
    lemma2_to64();
    assert(1 * pow2(p as nat) == pow2(p as nat));
    lemma_u64_shl_is_mul(1, p);
}

/// One accumulation step of the reader: OR-ing in the next group at bit `7 * k`.
proof fn lemma_accumulate(value: u64, d: u64, k: nat)
    requires
        7 * k < 64,
        (value as nat) < pow2(7 * k),
        d < 128,
    ensures
        (value | (d << ((7 * k) as u64))) as nat == (value as nat + (d as nat) * pow2(7 * k)) % pow2(64),
        7 * k + 7 < 64 ==> (value as nat + (d as nat) * pow2(7 * k)) < pow2(7 * (k + 1)),
        7 * k + 7 < 64 ==> (value as nat + (d as nat) * pow2(7 * k)) < pow2(64),
{
    let p = (7 * k) as u64;
    let pp = pow2(7 * k);
    lemma_one_shl(p);
    lemma_or_shift(value, d, p);
    lemma2_to64();
    lemma2_to64_rest();
    lemma_pow2_7(k);
    assert(value as nat + (d as nat) * pp < pow2(7 * (k + 1))) by (nonlinear_arith)
        requires
            (value as nat) < pp,
            d < 128,
            pow2(7 * (k + 1)) == 128 * pp;
    if 7 * k + 7 < 64 {
        lemma_pow2_strictly_increases(7 * (k + 1), 64);
        assert(d * pp <= 127 * pp) by (nonlinear_arith)
            requires d < 128;
        assert(d * pp <= u64::MAX);
        lemma_u64_shl_is_mul(d, p);
        lemma_small_mod((value as nat + (d as nat) * pp) as nat, pow2(64));
    } else {
        // the group at bit 63: only its lowest bit survives in 64 bits
        assert(7 * k == 63);
        assert(pp == 0x8000000000000000);
        assert((d << 63u64) == (d % 2) * 0x8000000000000000) by (bit_vector)
            requires d < 128;
        let q = d / 2;
        let r = d % 2;
        assert(d == 2 * q + r);
        assert(d * pp == 0x10000000000000000 * q + r * 0x8000000000000000) by (nonlinear_arith)
            requires pp == 0x8000000000000000, d == 2 * q + r;
        assert(value as nat + (d as nat) * pp == 0x10000000000000000 * q + (value + r * 0x8000000000000000));
        lemma_mod_multiples_vanish(q as int, (value + r * 0x8000000000000000) as int, 0x10000000000000000);
        lemma_small_mod((value + r * 0x8000000000000000) as nat, 0x10000000000000000);
    }
}

/// Reads a variable-length number fed to it one byte at a time.
pub struct VarNumReader {
    value: u64,
    position: u32,
    max_bits: u32,
    seen: Ghost<Seq<u8>>,
}

impl VarNumReader {
    /// The bytes fed so far.
    pub closed spec fn bytes_seen(&self) -> Seq<u8> {
        self.seen@
    }

    /// The largest number of bits the number may take.
    pub closed spec fn bit_limit(&self) -> nat {
        self.max_bits as nat
    }

    /// The reader is waiting for the next byte of an unfinished number.
    pub closed spec fn wf(&self) -> bool {
        &&& self.max_bits <= 64
        &&& self.position == 7 * self.seen@.len()
        &&& self.position < 64
        &&& scan(self.seen@, 0, self.max_bits as nat) == (Some(VarNumError::UnexpectedEnd), self.seen@.len())
        &&& self.value as nat == group_value(self.seen@)
        &&& group_value(self.seen@) < pow2(self.position as nat)
    }

    /// A reader for a number of at most `max_bits` bits.
    pub fn new(max_bits: u32) -> (r: Self)
        requires
            max_bits <= 64,
        ensures
            r.wf(),
            r.bytes_seen() == Seq::<u8>::empty(),
            r.bit_limit() == max_bits,
    {
        proof { lemma2_to64(); }
        VarNumReader { value: 0, position: 0, max_bits, seen: Ghost(Seq::empty()) }
    }

    /// Feeds the next byte: the number is complete, needs more bytes, or is too big.
    pub fn push(&mut self, byte: u8) -> (r: ReadStep)
        requires
            old(self).wf(),
        ensures
            final(self).bytes_seen() == old(self).bytes_seen().push(byte),
            final(self).bit_limit() == old(self).bit_limit(),
            match r {
                ReadStep::More => final(self).wf()
                    && spec_decode(final(self).bytes_seen(), final(self).bit_limit())
                        == (Err::<u64, VarNumError>(VarNumError::UnexpectedEnd), final(self).bytes_seen().len()),
                ReadStep::Done(v) => spec_decode(final(self).bytes_seen(), final(self).bit_limit())
                    == (Ok::<u64, VarNumError>(v), final(self).bytes_seen().len()),
                ReadStep::TooBig => spec_decode(final(self).bytes_seen(), final(self).bit_limit())
                    == (Err::<u64, VarNumError>(VarNumError::TooBig), final(self).bytes_seen().len()),
            },
    {
        let ghost old_seen = self.seen@;
        let ghost k = old_seen.len();
        let ghost max = self.max_bits as nat;
        let digit = (byte & 0x7f) as u64;
        assert(digit == byte % 128) by (bit_vector)
            requires digit == (byte & 0x7f) as u64;
        proof {
            lemma_accumulate(self.value, digit, k);
        }
        self.value = self.value | (digit << (self.position as u64));
        self.seen = Ghost(old_seen.push(byte));
        let ghost s = self.seen@;
        proof {
            lemma_scan_push(old_seen, byte, 0, max);
            assert(s.drop_last() =~= old_seen);
            assert(s.take(s.len() as int) =~= s);
            assert(group_value(s) == group_value(old_seen) + (digit as nat) * pow2(7 * k));
        }
        if byte & 0x80 == 0 {
            assert(byte < 128) by (bit_vector)
                requires byte & 0x80 == 0;
            return ReadStep::Done(self.value);
        }
        assert(byte >= 128) by (bit_vector)
            requires byte & 0x80 != 0;
        self.position = self.position + 7;
        if self.position >= self.max_bits {
            return ReadStep::TooBig;
        }
        proof {
            lemma_small_mod(group_value(s), pow2(64));
            assert(scan(s, k, max) == scan(s, k + 1, max));
            assert(scan(s, k + 1, max) == (Some(VarNumError::UnexpectedEnd), s.len()));
            assert(self.position == 7 * s.len());
            assert(group_value(s) < pow2(7 * (k + 1)));
            assert(self.value as nat == group_value(s));
        }
        ReadStep::More
    }
}

/// Reads a number of at most `max_bits` bits from the front of `bytes`:
/// the value or the error, and how many bytes were taken.
pub fn decode_var(bytes: &[u8], max_bits: u32) -> (r: (Result<u64, VarNumError>, usize))
    requires
        max_bits <= 64,
    ensures
        (r.0, r.1 as nat) == spec_decode(bytes@, max_bits as nat),
{
    let mut reader = VarNumReader::new(max_bits);
    let mut i: usize = 0;
    while i < bytes.len()
        invariant
            i <= bytes.len(),
            reader.wf(),
            reader.bit_limit() == max_bits,
            reader.bytes_seen() == bytes@.take(i as int),
        decreases bytes.len() - i,
    {
        let step = reader.push(bytes[i]);
        assert(reader.bytes_seen() =~= bytes@.take(i + 1));
        match step {
            ReadStep::Done(v) => {
                proof { lemma_decode_prefix(bytes@, (i + 1) as nat, max_bits as nat); }
                return (Ok(v), i + 1);
            },
            ReadStep::TooBig => {
                proof { lemma_decode_prefix(bytes@, (i + 1) as nat, max_bits as nat); }
                return (Err(VarNumError::TooBig), i + 1);
            },
            ReadStep::More => {},
        }
        i = i + 1;
    }
    assert(bytes@.take(i as int) =~= bytes@);
    (Err(VarNumError::UnexpectedEnd), i)
}

/// Appends the bytes of `value` to `out` and returns how many there are.
pub fn encode_var(out: &mut Vec<u8>, value: u64) -> (written: usize)
    ensures
        final(out)@ == old(out)@ + spec_encode(value as nat),
        written == spec_encode(value as nat).len(),
        1 <= written <= 10,
{
    proof {
        lemma2_to64();
        lemma2_to64_rest();
        lemma_pow2_strictly_increases(64, 70);
        lemma_encode_len(value as nat, 10);
    }
    let mut v = value;
    let mut written: usize = 0;
    let ghost prefix: Seq<u8> = Seq::empty();
    while (v & !0x7Fu64) != 0
        invariant
            out@ == old(out)@ + prefix,
            prefix + spec_encode(v as nat) == spec_encode(value as nat),
            written == prefix.len(),
            spec_encode(value as nat).len() <= 10,
        decreases v,
    {
        assert(v >= 128) by (bit_vector)
            requires (v & !0x7Fu64) != 0;
        let byte = ((v & 0x7F) | 0x80) as u8;
        assert(byte == v % 128 + 128) by (bit_vector)
            requires byte == ((v & 0x7F) | 0x80) as u8;
        let ghost before = out@;
        out.push(byte);
        assert(out@ =~= old(out)@ + prefix.push(byte));
        assert(spec_encode(v as nat) == seq![byte] + spec_encode((v / 128) as nat));
        proof {
            assert(prefix.push(byte) + spec_encode((v / 128) as nat) =~= prefix + spec_encode(v as nat));
            prefix = prefix.push(byte);
        }
        assert(v >> 7 == v / 128) by (bit_vector);
        v = v >> 7;
        written = written + 1;
    }
    assert(v < 128) by (bit_vector)
        requires (v & !0x7Fu64) == 0;
    let ghost before = out@;
    out.push(v as u8);
    proof {
        assert(prefix.push(v as u8) =~= prefix + spec_encode(v as nat));
        assert(out@ =~= old(out)@ + (prefix + spec_encode(v as nat)));
    }
    written + 1
}

/// How many bytes the encoding of `value` takes.
pub fn get_number_bytes_size(value: u64) -> (size: usize)
    ensures
        size == spec_encode(value as nat).len(),
        1 <= size <= 10,
{
    proof {
        lemma2_to64();
        lemma2_to64_rest();
        lemma_pow2_strictly_increases(64, 70);
        lemma_encode_len(value as nat, 10);
    }
    let mut v = value;
    let mut size: usize = 1;
    while v >= 0x80
        invariant
            size + spec_encode(v as nat).len() == spec_encode(value as nat).len() + 1,
            spec_encode(value as nat).len() <= 10,
        decreases v,
    {
        assert(v >> 7 == v / 128) by (bit_vector);
        v = v >> 7;
        size = size + 1;
    }
    size
}

} // verus!
