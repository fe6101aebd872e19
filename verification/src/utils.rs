//! A read/write stream that lets at most a given number of bytes be read: the
//! bytes of one packet. Reads see the packet's bytes; writes go out to the peer.
use vstd::prelude::*;
use vstd::slice::slice_subrange;

verus! {

/// Why a read from a limited stream failed.
#[derive(Debug, Clone, Copy, PartialEq, Eq, Structural)]
pub enum StreamError {
    /// "There is nothing more to read in this package".
    LimitReached,
    /// The underlying stream ended before the bytes asked for.
    UnexpectedEof,
    /// Discarding the rest of a packet read no byte at all.
    CouldNotReadAByte,
    /// Discarding the rest of a packet did not read it all in one go.
    NotAllReadInOneGo,
}

/// How many bytes a reader can still get: the smaller of the limit and what
/// the underlying stream holds.
pub open spec fn available(pending: Seq<u8>, left: nat) -> nat {
    if left <= pending.len() {
        left
    } else {
        pending.len()
    }
}

/// The error of a read that needs more than is available: the limit is
/// reported when it is what ran out first.
pub open spec fn end_error(pending: Seq<u8>, left: nat) -> StreamError {
    if left <= pending.len() {
        StreamError::LimitReached
    } else {
        StreamError::UnexpectedEof
    }
}

/// One read of at most `n` bytes: fails when the limit is already used up,
/// else takes what is there, up to `n`.
pub open spec fn spec_read_some(pending: Seq<u8>, left: nat, n: nat) -> (Result<Seq<u8>, StreamError>, nat) {
    if left == 0 {
        (Err(StreamError::LimitReached), 0)
    } else {
        let c = if n <= available(pending, left) { n } else { available(pending, left) };
        (Ok(pending.take(c as int)), c)
    }
}

/// Reading exactly `n` bytes; on failure the bytes that were there are used up.
pub open spec fn spec_read_exact(pending: Seq<u8>, left: nat, n: nat) -> (Result<Seq<u8>, StreamError>, nat) {
    if n == 0 {
        (Ok(Seq::empty()), 0)
    } else if n <= available(pending, left) {
        (Ok(pending.take(n as int)), n)
    } else {
        (Err(end_error(pending, left)), available(pending, left))
    }
}

/// Discarding the rest of a packet: one read of what is left, which must get it all.
pub open spec fn spec_discard(pending: Seq<u8>, left: nat) -> (Result<usize, StreamError>, nat) {
    if left == 0 {
        (Ok(0), 0)
    } else if pending.len() == 0 {
        (Err(StreamError::CouldNotReadAByte), 0)
    } else if pending.len() < left {
        (Err(StreamError::NotAllReadInOneGo), pending.len())
    } else {
        (Ok(left as usize), left)
    }
}

/// The big-endian number that the bytes `s` spell.
pub open spec fn be_value(s: Seq<u8>) -> nat
    decreases s.len(),
{
    if s.len() == 0 {
        0
    } else {
        be_value(s.drop_last()) * 256 + s.last() as nat
    }
}

/// The stream of one packet: the bytes of the underlying stream that it may
/// read, how many it may still read, and what was written through it.
pub struct RWStreamWithLimit {
    input: Vec<u8>,
    pos: usize,
    read_bytes_left: usize,
    output: Vec<u8>,
}

impl RWStreamWithLimit {
    /// The read position lies within the underlying bytes.
    pub closed spec fn wf(&self) -> bool {
        self.pos <= self.input.len()
    }

    /// The bytes the underlying stream still holds.
    pub closed spec fn pending(&self) -> Seq<u8> {
        self.input@.subrange(self.pos as int, self.input@.len() as int)
    }

    /// How many more bytes may be read.
    pub closed spec fn read_left(&self) -> nat {
        self.read_bytes_left as nat
    }

    /// Everything written through the stream so far.
    pub closed spec fn written(&self) -> Seq<u8> {
        self.output@
    }

    /// The bytes a reader can still get.
    pub open spec fn window(&self) -> Seq<u8> {
        self.pending().take(available(self.pending(), self.read_left()) as int)
    }

    /// The bytes still held fit in memory.
    pub proof fn lemma_pending_len(&self)
        requires
            self.wf(),
        ensures
            self.pending().len() <= usize::MAX,
    {
    }

    /// `self` is `before` with `n` more bytes read and nothing written.
    pub open spec fn consumed_from(&self, before: &Self, n: nat) -> bool {
        &&& n <= before.read_left()
        &&& n <= before.pending().len()
        &&& self.pending() == before.pending().skip(n as int)
        &&& self.read_left() == before.read_left() - n
        &&& self.written() == before.written()
    }

    /// A stream over the bytes `input` of the underlying stream, of which at most
    /// `read_limit` may be read.
    pub fn new(input: Vec<u8>, read_limit: usize) -> (r: Self)
        ensures
            r.wf(),
            r.pending() == input@,
            r.read_left() == read_limit,
            r.written() == Seq::<u8>::empty(),
    {
        let r = RWStreamWithLimit { input, pos: 0, read_bytes_left: read_limit, output: Vec::new() };
        assert(r.pending() =~= r.input@);
        r
    }

    /// How many more bytes may be read.
    pub fn get_read_left(&self) -> (r: usize)
        ensures
            r == self.read_left(),
    {
        self.read_bytes_left
    }

    /// Everything written through the stream so far, for the peer.
    pub fn written_bytes(&self) -> (r: &[u8])
        ensures
            r@ == self.written(),
    {
        self.output.as_slice()
    }

    proof fn lemma_pending(&self)
        requires
            self.pos <= self.input.len(),
        ensures
            self.pending().len() == self.input@.len() - self.pos,
            forall|i: int| 0 <= i < self.pending().len() ==> self.pending()[i] == self.input@[self.pos + i],
    {
    }

    /// Takes the next `n` bytes, which must be there and be allowed.
    fn take_bytes(&mut self, n: usize) -> (r: Vec<u8>)
        requires
            old(self).wf(),
           
            n <= old(self).read_left(),
            n <= old(self).pending().len(),
        ensures
            final(self).wf(),
            r@ == old(self).pending().take(n as int),
            final(self).consumed_from(old(self), n as nat),
    {
        proof { self.lemma_pending(); }
        let end = self.pos + n;
        let part = slice_subrange(self.input.as_slice(), self.pos, end);
        let mut r: Vec<u8> = Vec::new();
        let mut i: usize = 0;
        while i < n
            invariant
                i <= n,
                part@.len() == n,
                part@ == self.input@.subrange(self.pos as int, self.pos + n),
                r@ == part@.take(i as int),
            decreases n - i,
        {
            r.push(part[i]);
            assert(r@ =~= part@.take(i + 1));
            i = i + 1;
        }
        let ghost before = self.pending();
        self.pos = end;
        self.read_bytes_left = self.read_bytes_left - n;
        assert(r@ =~= before.take(n as int));
        assert(self.pending() =~= before.skip(n as int));
        r
    }

    /// One read of at most `max_len` bytes through the limit.
    pub fn read(&mut self, max_len: usize) -> (r: Result<Vec<u8>, StreamError>)
        requires
            old(self).wf(),
        ensures
            final(self).wf(),
            ({
                let (res, n) = spec_read_some(old(self).pending(), old(self).read_left(), max_len as nat);
                &&& final(self).consumed_from(old(self), n)
                &&& match res {
                    Ok(bytes) => r matches Ok(v) && v@ == bytes,
                    Err(e) => r == Err::<Vec<u8>, StreamError>(e),
                }
            }),
    {
        proof { self.lemma_pending(); }
        if self.read_bytes_left == 0 {
            assert(self.pending() =~= self.pending().skip(0));
            return Err(StreamError::LimitReached);
        }
        let have = self.input.len() - self.pos;
        let mut n = if self.read_bytes_left < max_len { self.read_bytes_left } else { max_len };
        if have < n {
            n = have;
        }
        Ok(self.take_bytes(n))
    }

    /// Reads exactly `n` bytes through the limit.
    pub fn read_exact(&mut self, n: usize) -> (r: Result<Vec<u8>, StreamError>)
        requires
            old(self).wf(),
        ensures
            final(self).wf(),
            ({
                let (res, c) = spec_read_exact(old(self).pending(), old(self).read_left(), n as nat);
                &&& final(self).consumed_from(old(self), c)
                &&& match res {
                    Ok(bytes) => r matches Ok(v) && v@ == bytes,
                    Err(e) => r == Err::<Vec<u8>, StreamError>(e),
                }
            }),
    {
        proof { self.lemma_pending(); }
        let have = self.input.len() - self.pos;
        if n == 0 {
            assert(self.pending() =~= self.pending().skip(0));
            assert(Seq::<u8>::empty() =~= self.pending().take(0));
            return Ok(Vec::new());
        }
        let avail = if self.read_bytes_left <= have { self.read_bytes_left } else { have };
        if n <= avail {
            Ok(self.take_bytes(n))
        } else {
            let err = if self.read_bytes_left <= have { StreamError::LimitReached } else { StreamError::UnexpectedEof };
            let _ = self.take_bytes(avail);
            Err(err)
        }
    }

    /// Reads one byte.
    pub fn read_u8(&mut self) -> (r: Result<u8, StreamError>)
        requires
            old(self).wf(),
        ensures
            final(self).wf(),
            ({
                let (res, c) = spec_read_exact(old(self).pending(), old(self).read_left(), 1);
                &&& final(self).consumed_from(old(self), c)
                &&& match res {
                    Ok(bytes) => r == Ok::<u8, StreamError>(bytes[0]),
                    Err(e) => r == Err::<u8, StreamError>(e),
                }
            }),
    {
        match self.read_exact(1) {
            Ok(v) => Ok(v[0]),
            Err(e) => Err(e),
        }
    }

    /// Reads `n` bytes as a big-endian number.
    fn read_be(&mut self, n: usize) -> (r: Result<u64, StreamError>)
        requires
            old(self).wf(),
           
            n <= 8,
        ensures
            final(self).wf(),
            ({
                let (res, c) = spec_read_exact(old(self).pending(), old(self).read_left(), n as nat);
                &&& final(self).consumed_from(old(self), c)
                &&& match res {
                    Ok(bytes) => r == Ok::<u64, StreamError>(be_value(bytes) as u64) && be_value(bytes) < pow2_8n(n as nat),
                    Err(e) => r == Err::<u64, StreamError>(e),
                }
            }),
    {
        let bytes = match self.read_exact(n) {
            Ok(v) => v,
            Err(e) => { return Err(e); },
        };
        let mut value: u64 = 0;
        let mut i: usize = 0;
        while i < n
            invariant
                i <= n <= 8,
                bytes@.len() == n,
                value as nat == be_value(bytes@.take(i as int)),
                be_value(bytes@.take(i as int)) < pow2_8n(i as nat),
            decreases n - i,
        {
            proof {
                let t = bytes@.take(i + 1);
                assert(t.drop_last() =~= bytes@.take(i as int));
                lemma_pow2_8n_step(i as nat);
                lemma_pow2_8n_bound(i as nat);
                let b = bytes@[i as int];
                assert(t.last() == b);
                assert((value as nat) * 256 + b < pow2_8n((i + 1) as nat)) by (nonlinear_arith)
                    requires (value as nat) < pow2_8n(i as nat), b < 256, pow2_8n((i + 1) as nat) == 256 * pow2_8n(i as nat);
            }
            value = value * 256 + bytes[i] as u64;
            i = i + 1;
        }
        assert(bytes@.take(n as int) =~= bytes@);
        Ok(value)
    }

    /// Reads a big-endian unsigned 16-bit number.
    pub fn read_u16(&mut self) -> (r: Result<u16, StreamError>)
        requires
            old(self).wf(),
        ensures
            final(self).wf(),
            ({
                let (res, c) = spec_read_exact(old(self).pending(), old(self).read_left(), 2);
                &&& final(self).consumed_from(old(self), c)
                &&& match res {
                    Ok(bytes) => r == Ok::<u16, StreamError>(be_value(bytes) as u16),
                    Err(e) => r == Err::<u16, StreamError>(e),
                }
            }),
    {
        match self.read_be(2) {
            Ok(v) => {
                proof { lemma_pow2_8n_values(); }
                Ok(v as u16)
            },
            Err(e) => Err(e),
        }
    }

    /// Reads a big-endian signed 64-bit number.
    pub fn read_i64(&mut self) -> (r: Result<i64, StreamError>)
        requires
            old(self).wf(),
        ensures
            final(self).wf(),
            ({
                let (res, c) = spec_read_exact(old(self).pending(), old(self).read_left(), 8);
                &&& final(self).consumed_from(old(self), c)
                &&& match res {
                    Ok(bytes) => r == Ok::<i64, StreamError>((be_value(bytes) as u64) as i64),
                    Err(e) => r == Err::<i64, StreamError>(e),
                }
            }),
    {
        match self.read_be(8) {
            Ok(v) => Ok(v as i64),
            Err(e) => Err(e),
        }
    }

    /// Writes `bytes` to the peer. A write ends reading: the limit drops to zero.
    pub fn write_all(&mut self, bytes: &[u8])
        requires
            old(self).wf(),
        ensures
            final(self).wf(),
            final(self).written() == old(self).written() + bytes@,
            final(self).pending() == old(self).pending(),
            final(self).read_left() == (if bytes@.len() == 0 { old(self).read_left() } else { 0 }),
    {
        if bytes.len() > 0 {
            self.read_bytes_left = 0;
        }
        let mut i: usize = 0;
        let ghost start = self.output@;
        while i < bytes.len()
            invariant
                i <= bytes.len(),
                self.output@ == start + bytes@.take(i as int),
                self.input@ == old(self).input@,
                self.pos == old(self).pos,
                self.read_bytes_left == (if bytes@.len() == 0 { old(self).read_left() } else { 0 }),
            decreases bytes.len() - i,
        {
            self.output.push(bytes[i]);
            assert(self.output@ =~= start + bytes@.take(i + 1));
            i = i + 1;
        }
        assert(bytes@.take(bytes.len() as int) =~= bytes@);
    }

    /// Reads and drops what is left of the packet, which must come in one read.
    pub fn discard_unread(&mut self) -> (r: Result<usize, StreamError>)
        requires
            old(self).wf(),
        ensures
            final(self).wf(),
            ({
                let (res, c) = spec_discard(old(self).pending(), old(self).read_left());
                &&& final(self).consumed_from(old(self), c)
                &&& r == res
            }),
    {
        proof { self.lemma_pending(); }
        let mut total_read: usize = 0;
        if self.read_bytes_left > 0 {
            let have = self.input.len() - self.pos;
            let read = if have < self.read_bytes_left { have } else { self.read_bytes_left };
            let _ = self.take_bytes(read);
            total_read = read;
            if read == 0 {
                return Err(StreamError::CouldNotReadAByte);
            }
            if self.read_bytes_left > 0 {
                return Err(StreamError::NotAllReadInOneGo);
            }
        } else {
            assert(self.pending() =~= self.pending().skip(0));
        }
        Ok(total_read)
    }
}

/// From `before` to `after` the stream read no more than its limit allowed:
/// what it holds now is what it held, less a part at the front no longer than
/// the drop of the limit.
pub open spec fn within_limit(before: &RWStreamWithLimit, after: &RWStreamWithLimit) -> bool {
    &&& after.read_left() <= before.read_left()
    &&& after.pending().len() <= before.pending().len()
    &&& before.pending().len() - after.pending().len() <= before.read_left() - after.read_left()
    &&& after.pending() == before.pending().skip(before.pending().len() - after.pending().len())
}

/// Reading stays within the limit.
pub proof fn lemma_consumed_within_limit(a: &RWStreamWithLimit, b: &RWStreamWithLimit, n: nat)
    requires
        b.consumed_from(a, n),
    ensures
        within_limit(a, b),
{
}

/// Writing, which reads nothing and may end reading, stays within the limit.
pub proof fn lemma_unread_within_limit(a: &RWStreamWithLimit, b: &RWStreamWithLimit)
    requires
        b.pending() == a.pending(),
        b.read_left() <= a.read_left(),
    ensures
        within_limit(a, b),
{
    assert(a.pending().skip(0) =~= a.pending());
}

/// Staying within the limit twice stays within it.
pub proof fn lemma_within_limit_trans(a: &RWStreamWithLimit, b: &RWStreamWithLimit, c: &RWStreamWithLimit)
    requires
        within_limit(a, b),
        within_limit(b, c),
    ensures
        within_limit(a, c),
{
    let i = a.pending().len() - b.pending().len();
    let j = b.pending().len() - c.pending().len();
    assert(a.pending().skip(i).skip(j) =~= a.pending().skip(i + j));
}

/// Reading `n` bytes and then `m` more reads `n + m`.
pub proof fn lemma_consumed_trans(a: &RWStreamWithLimit, b: &RWStreamWithLimit, c: &RWStreamWithLimit, n: nat, m: nat)
    requires
        b.consumed_from(a, n),
        c.consumed_from(b, m),
    ensures
        c.consumed_from(a, n + m),
{
    assert(a.pending().skip(n as int).skip(m as int) =~= a.pending().skip((n + m) as int));
}

/// A stream has read nothing more than itself.
pub proof fn lemma_consumed_none(a: &RWStreamWithLimit)
    ensures
        a.consumed_from(a, 0),
{
    assert(a.pending().skip(0) =~= a.pending());
}

/// `256^n`.
pub open spec fn pow2_8n(n: nat) -> nat
    decreases n,
{
    if n == 0 {
        1
    } else {
        256 * pow2_8n((n - 1) as nat)
    }
}

proof fn lemma_pow2_8n_step(n: nat)
    ensures
        pow2_8n(n + 1) == 256 * pow2_8n(n),
{
}

proof fn lemma_pow2_8n_bound(n: nat)
    requires
        n <= 8,
    ensures
        pow2_8n(n) <= 0x1_0000_0000_0000_0000,
        n < 8 ==> pow2_8n(n) <= 0x100_0000_0000_0000,
{
    lemma_pow2_8n_values();
    assert(n == 0 || n == 1 || n == 2 || n == 3 || n == 4 || n == 5 || n == 6 || n == 7 || n == 8);
}

proof fn lemma_pow2_8n_values()
    ensures
        pow2_8n(0) == 1,
        pow2_8n(1) == 0x100,
        pow2_8n(2) == 0x1_0000,
        pow2_8n(3) == 0x100_0000,
        pow2_8n(4) == 0x1_0000_0000,
        pow2_8n(5) == 0x100_0000_0000,
        pow2_8n(6) == 0x1_0000_0000_0000,
        pow2_8n(7) == 0x100_0000_0000_0000,
        pow2_8n(8) == 0x1_0000_0000_0000_0000,
{
    reveal_with_fuel(pow2_8n, 9);
}

} // verus!
