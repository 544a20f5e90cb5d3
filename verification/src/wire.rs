//! The encoding that the agent protocol is written in: single bytes,
//! big-endian 32-bit numbers, and byte strings behind their length.

use vstd::prelude::*;
use vstd::slice::slice_subrange;

verus! {

// ---------------------------------------------------------------------------
// Model
// ---------------------------------------------------------------------------

/// One more than the largest 32-bit number.
pub const U32_RANGE: u64 = 0x1_0000_0000;

/// A 32-bit number as four bytes, most significant first.
pub open spec fn be32(n: int) -> Seq<u8> {
    seq![
        (n / 0x100_0000 % 0x100) as u8,
        (n / 0x1_0000 % 0x100) as u8,
        (n / 0x100 % 0x100) as u8,
        (n % 0x100) as u8,
    ]
}

/// The number that four bytes stand for, most significant first.
#[verifier::opaque]
pub open spec fn be32_value(b: Seq<u8>) -> u32 {
    (b[0] * 0x100_0000 + b[1] * 0x1_0000 + b[2] * 0x100 + b[3]) as u32
}

/// A byte string: its length as a 32-bit number, then its bytes.
///
/// The length field holds what fits into 32 bits of the length.
pub open spec fn string_bytes(b: Seq<u8>) -> Seq<u8> {
    be32(b.len() as int % 0x1_0000_0000) + b
}

/// What reading one byte takes off the front of `s`, and what it leaves.
pub open spec fn take_u8(s: Seq<u8>) -> Option<(u8, Seq<u8>)> {
    if s.len() < 1 {
        None
    } else {
        Some((s[0], s.skip(1)))
    }
}

/// What reading a number takes off the front of `s`, and what it leaves.
pub open spec fn take_u32(s: Seq<u8>) -> Option<(u32, Seq<u8>)> {
    if s.len() < 4 {
        None
    } else {
        Some((be32_value(s.take(4)), s.skip(4)))
    }
}

/// What reading a byte string takes off the front of `s`, and what it leaves.
pub open spec fn take_string(s: Seq<u8>) -> Option<(Seq<u8>, Seq<u8>)> {
    match take_u32(s) {
        Some((n, rest)) => if rest.len() < n {
            None
        } else {
            Some((rest.take(n as int), rest.skip(n as int)))
        },
        None => None,
    }
}

/// A message on the stream: its length as a 32-bit number, then its bytes.
pub open spec fn framed(payload: Seq<u8>) -> Seq<u8> {
    string_bytes(payload)
}

// ---------------------------------------------------------------------------
// Writing
// ---------------------------------------------------------------------------

/// A message under construction.
pub struct Writer {
    /// What was written so far.
    pub buf: Vec<u8>,
}

impl View for Writer {
    type V = Seq<u8>;

    open spec fn view(&self) -> Seq<u8> {
        self.buf@
    }
}

impl Writer {
    /// A writer with nothing in it.
    pub fn new() -> (w: Writer)
        ensures
            w@ == Seq::<u8>::empty(),
    {
        Writer { buf: Vec::new() }
    }

    /// Append one byte.
    pub fn u8(&mut self, b: u8)
        ensures
            final(self)@ == old(self)@.push(b),
    {
        self.buf.push(b);
    }

    /// Append a 32-bit number, most significant byte first.
    pub fn u32(&mut self, n: u32)
        ensures
            final(self)@ == old(self)@ + be32(n as int),
    {
        self.buf.push((n / 0x100_0000) as u8);
        self.buf.push((n / 0x1_0000 % 0x100) as u8);
        self.buf.push((n / 0x100 % 0x100) as u8);
        self.buf.push((n % 0x100) as u8);
        assert(self@ =~= old(self)@ + be32(n as int));
    }

    /// Append a byte string behind its length.
    pub fn string(&mut self, b: &[u8])
        ensures
            final(self)@ == old(self)@ + string_bytes(b@),
    {
        self.u32(low32(b.len()));
        let ghost mid = self@;
        self.buf.extend_from_slice(b);
        assert(self@ =~= mid + b@);
        assert(self@ =~= old(self)@ + string_bytes(b@));
    }
}

/// What fits into 32 bits of `n`.
pub fn low32(n: usize) -> (r: u32)
    ensures
        r == n as int % 0x1_0000_0000,
{
    ((n as u64) % U32_RANGE) as u32
}

/// A message as it goes over the stream.
pub fn frame(payload: &[u8]) -> (b: Vec<u8>)
    ensures
        b@ == framed(payload@),
{
    let mut w = Writer::new();
    w.string(payload);
    assert(w@ =~= framed(payload@));
    w.buf
}

// ---------------------------------------------------------------------------
// Reading
// ---------------------------------------------------------------------------

/// A message being read from its front.
///
/// A read that does not find what it asks for returns `None` and leaves the
/// position where it was.
pub struct Reader<'a> {
    data: &'a [u8],
    pos: usize,
}

impl<'a> View for Reader<'a> {
    type V = Seq<u8>;

    /// What is still to be read.
    closed spec fn view(&self) -> Seq<u8> {
        self.data@.skip(self.pos as int)
    }
}

impl<'a> Reader<'a> {
    /// The position lies within the message.
    pub closed spec fn wf(&self) -> bool {
        self.pos <= self.data@.len()
    }

    /// A reader at the front of `data`.
    pub fn new(data: &'a [u8]) -> (r: Reader<'a>)
        ensures
            r.wf(),
            r@ == data@,
    {
        let r = Reader { data, pos: 0 };
        assert(r@ =~= data@);
        r
    }

    /// Read one byte.
    pub fn u8(&mut self) -> (r: Option<u8>)
        requires
            old(self).wf(),
        ensures
            final(self).wf(),
            match take_u8(old(self)@) {
                Some((b, rest)) => r == Some(b) && final(self)@ == rest,
                None => r is None && final(self)@ == old(self)@,
            },
    {
        if self.pos >= self.data.len() {
            return None;
        }
        let b = self.data[self.pos];
        self.pos = self.pos + 1;
        assert(self@ =~= old(self)@.skip(1));
        Some(b)
    }

    /// Read a 32-bit number.
    pub fn u32(&mut self) -> (r: Option<u32>)
        requires
            old(self).wf(),
        ensures
            final(self).wf(),
            match take_u32(old(self)@) {
                Some((n, rest)) => r == Some(n) && final(self)@ == rest,
                None => r is None && final(self)@ == old(self)@,
            },
    {
        if self.data.len() - self.pos < 4 {
            return None;
        }
        let n = number_at(self.data, self.pos);
        self.pos = self.pos + 4;
        assert(self@ =~= old(self)@.skip(4));
        assert(old(self)@.take(4) =~= self.data@.subrange(self.pos - 4, self.pos as int));
        Some(n)
    }

    /// Read a byte string behind its length.
    pub fn string(&mut self) -> (r: Option<&'a [u8]>)
        requires
            old(self).wf(),
        ensures
            final(self).wf(),
            match take_string(old(self)@) {
                Some((b, rest)) => r is Some && r->0@ == b && final(self)@ == rest,
                None => r is None && final(self)@ == old(self)@,
            },
    {
        if self.data.len() - self.pos < 4 {
            return None;
        }
        let n: usize = number_at(self.data, self.pos) as usize;
        let start: usize = self.pos + 4;
        assert(old(self)@.take(4) =~= self.data@.subrange(self.pos as int, start as int));
        assert(old(self)@.skip(4) =~= self.data@.skip(start as int));
        if self.data.len() - start < n {
            return None;
        }
        let b = slice_subrange(self.data, start, start + n);
        self.pos = start + n;
        assert(b@ =~= old(self)@.skip(4).take(n as int));
        assert(self@ =~= old(self)@.skip(4).skip(n as int));
        Some(b)
    }
}

/// The number in the four bytes from `at` on.
pub fn number_at(b: &[u8], at: usize) -> (n: u32)
    requires
        at + 4 <= b@.len(),
    ensures
        n == be32_value(b@.subrange(at as int, at + 4)),
{
    proof {
        reveal(be32_value);
    }
    let i: usize = at;
    b[i] as u32 * 0x100_0000 + b[i + 1] as u32 * 0x1_0000 + b[i + 2] as u32 * 0x100 + b[i
        + 3] as u32
}

/// Whether two byte strings are the same.
pub fn same_bytes(a: &[u8], b: &[u8]) -> (r: bool)
    ensures
        r == (a@ == b@),
{
    if a.len() != b.len() {
        return false;
    }
    let mut i: usize = 0;
    while i < a.len()
        invariant
            a@.len() == b@.len(),
            0 <= i <= a@.len(),
            forall|k: int| 0 <= k < i ==> a@[k] == b@[k],
        decreases a@.len() - i,
    {
        if a[i] != b[i] {
            return false;
        }
        i = i + 1;
    }
    assert(a@ =~= b@);
    true
}

// ---------------------------------------------------------------------------
// Laws
// ---------------------------------------------------------------------------

/// Four bytes written for a number stand for that number.
pub proof fn number_reads_back(n: u32, rest: Seq<u8>)
    ensures
        take_u32(be32(n as int) + rest) == Some((n, rest)),
{
    let s = be32(n as int) + rest;
    reveal(be32_value);
    assert(s.skip(4) =~= rest);
    assert(s.take(4) =~= be32(n as int));
    assert(be32_value(be32(n as int)) == n);
}

/// A byte string whose length fits its length field is read back as it was
/// written, whatever follows it.
pub proof fn string_reads_back(b: Seq<u8>, rest: Seq<u8>)
    requires
        b.len() < U32_RANGE,
    ensures
        take_string(string_bytes(b) + rest) == Some((b, rest)),
{
    let n = b.len() as u32;
    number_reads_back(n, b + rest);
    assert(string_bytes(b) + rest =~= be32(n as int) + (b + rest));
    assert((b + rest).take(n as int) =~= b);
    assert((b + rest).skip(n as int) =~= rest);
}

/// Two byte strings that are written the same are the same.
pub proof fn string_is_injective(a: Seq<u8>, b: Seq<u8>)
    requires
        string_bytes(a) == string_bytes(b),
    ensures
        a == b,
{
    assert(a =~= string_bytes(a).skip(4));
    assert(b =~= string_bytes(b).skip(4));
}

/// Numbers are written most significant byte first: the last byte is what is left
/// of the number by 256, and the others are those of the number without it.
pub proof fn number_is_big_endian(n: int)
    requires
        0 <= n < 0x1_0000_0000,
    ensures
        be32(n).len() == 4,
        be32(n)[3] == n % 256,
        be32(n / 256) == seq![0u8] + be32(n).take(3),
        be32_value(be32(n)) == n,
{
    reveal(be32_value);
    assert(n / 256 / 0x1_0000 == n / 0x100_0000);
    assert(n / 256 / 0x100 == n / 0x1_0000);
    assert(n / 256 / 0x100_0000 == 0);
    assert(be32(n / 256) =~= seq![0u8] + be32(n).take(3));
}

/// Writing a byte string appends four bytes that stand for its length, then its
/// bytes, and leaves what was there.
pub proof fn string_is_appended(w: &mut Writer, b: &[u8])
    requires
        b@.len() < 0x1_0000_0000,
        call_ensures(Writer::string, (w, b), ()),
    ensures
        ({
            let before = old(w).buf@;
            let now = final(w).buf@;
            let at = before.len() as int;
            &&& now.len() == before.len() + 4 + b@.len()
            &&& now.take(at) == before
            &&& now[at] * 0x100_0000 + now[at + 1] * 0x1_0000 + now[at + 2] * 0x100 + now[at + 3]
                == b@.len()
            &&& now.skip(at + 4) == b@
        }),
{
    let before = old(w).buf@;
    let now = final(w).buf@;
    let at = before.len() as int;
    let n = b@.len() as int;
    assert(now == before + (be32(n % 0x1_0000_0000) + b@));
    assert(n % 0x1_0000_0000 == n);
    assert(now.take(at) =~= before);
    assert(now.skip(at + 4) =~= b@);
    lemma_be32_sum(n);
    assert(now[at] == be32(n)[0] && now[at + 1] == be32(n)[1] && now[at + 2] == be32(n)[2]
        && now[at + 3] == be32(n)[3]);
}

proof fn lemma_be32_sum(n: int)
    requires
        0 <= n < 0x1_0000_0000,
    ensures
        be32(n)[0] * 0x100_0000 + be32(n)[1] * 0x1_0000 + be32(n)[2] * 0x100 + be32(n)[3] == n,
{
    reveal(be32_value);
    number_reads_back(n as u32, seq![]);
    assert(be32(n) + seq![] =~= be32(n));
    assert(be32(n).take(4) =~= be32(n));
}

/// Writing a byte or a number appends it, and leaves what was there.
pub proof fn bytes_are_appended(w: &mut Writer, b: u8, v: &mut Writer, n: u32)
    requires
        call_ensures(Writer::u8, (w, b), ()),
        call_ensures(Writer::u32, (v, n), ()),
    ensures
        final(w).buf@ == old(w).buf@.push(b),
        final(v).buf@.len() == old(v).buf@.len() + 4,
        final(v).buf@.take(old(v).buf@.len() as int) == old(v).buf@,
        final(v).buf@.last() == n % 256,
        ({
            let now = final(v).buf@;
            let at = old(v).buf@.len() as int;
            now[at] * 0x100_0000 + now[at + 1] * 0x1_0000 + now[at + 2] * 0x100 + now[at + 3] == n
        }),
{
    lemma_be32_sum(n as int);
    let now = final(v).buf@;
    let at = old(v).buf@.len() as int;
    assert(now.take(at) =~= old(v).buf@);
    assert(now[at] == be32(n as int)[0] && now[at + 1] == be32(n as int)[1] && now[at + 2] == be32(
        n as int,
    )[2] && now[at + 3] == be32(n as int)[3]);
}

/// A message goes over the stream as four bytes that stand for its length, then
/// its bytes.
pub proof fn frame_is_length_and_payload(payload: &[u8], b: Vec<u8>)
    requires
        payload@.len() < 0x1_0000_0000,
        call_ensures(frame, (payload,), b),
    ensures
        b@.len() == payload@.len() + 4,
        b@[0] * 0x100_0000 + b@[1] * 0x1_0000 + b@[2] * 0x100 + b@[3] == payload@.len(),
        b@.skip(4) == payload@,
{
    let n = payload@.len() as int;
    assert(n % 0x1_0000_0000 == n);
    lemma_be32_sum(n);
    assert(b@ == be32(n) + payload@);
    assert(b@.skip(4) =~= payload@);
}

/// A byte string is read just where its length and as many bytes stand in front,
/// and what follows is left; otherwise nothing is taken.
pub proof fn string_is_taken(r: &mut Reader, out: Option<&[u8]>)
    requires
        old(r).wf(),
        call_ensures(Reader::string, (r,), out),
    ensures
        ({
            let s = old(r)@;
            let n = s[0] * 0x100_0000 + s[1] * 0x1_0000 + s[2] * 0x100 + s[3];
            &&& out is Some <==> s.len() >= 4 && s.len() - 4 >= n
            &&& out is Some ==> out->0@ == s.subrange(4, 4 + n) && final(r)@ == s.skip(4 + n)
            &&& out is None ==> final(r)@ == s
        }),
{
    reveal(be32_value);
    let s = old(r)@;
    if s.len() >= 4 {
        let n = be32_value(s.take(4)) as int;
        assert(n == s[0] * 0x100_0000 + s[1] * 0x1_0000 + s[2] * 0x100 + s[3]);
        if s.len() - 4 >= n {
            assert(s.skip(4).take(n) =~= s.subrange(4, 4 + n));
            assert(s.skip(4).skip(n) =~= s.skip(4 + n));
        }
    }
}

/// A byte and a number are read from the front just where there is enough, and
/// what follows is left.
pub proof fn bytes_are_taken(r: &mut Reader, b: Option<u8>, q: &mut Reader, n: Option<u32>)
    requires
        old(r).wf(),
        old(q).wf(),
        call_ensures(Reader::u8, (r,), b),
        call_ensures(Reader::u32, (q,), n),
    ensures
        b == (if old(r)@.len() > 0 {
            Some(old(r)@[0])
        } else {
            None
        }),
        final(r)@ == (if old(r)@.len() > 0 {
            old(r)@.skip(1)
        } else {
            old(r)@
        }),
        n is Some <==> old(q)@.len() >= 4,
        n is Some ==> n->0 == old(q)@[0] * 0x100_0000 + old(q)@[1] * 0x1_0000 + old(q)@[2] * 0x100
            + old(q)@[3],
        final(q)@ == (if old(q)@.len() >= 4 {
            old(q)@.skip(4)
        } else {
            old(q)@
        }),
{
    reveal(be32_value);
}

} // verus!
