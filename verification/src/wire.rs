//! Primitives of the binary formats: little-endian numbers and length-prefixed text.

use vstd::bytes::{
    spec_u32_from_le_bytes, spec_u32_to_le_bytes, spec_u64_from_le_bytes, spec_u64_to_le_bytes, u32_from_le_bytes,
    u32_to_le_bytes, u64_from_le_bytes, u64_to_le_bytes,
};
use vstd::prelude::*;
use vstd::string::StringSliceAdditionalSpecFns;
use vstd::utf8::{decode_utf8, encode_utf8, valid_utf8};
use crate::text::utf8_to_string;

verus! {

/// Why bytes could not be read.
#[derive(Debug, Clone, Copy, PartialEq, Eq, Structural)]
pub enum WireError {
    Eof,
    Utf8,
}

/// A 32-bit number, least significant byte first.
pub open spec fn u32_bytes(n: u32) -> Seq<u8> {
    spec_u32_to_le_bytes(n)
}

/// A 64-bit number, least significant byte first.
pub open spec fn u64_bytes(n: u64) -> Seq<u8> {
    spec_u64_to_le_bytes(n)
}

/// A text: the number of its UTF-8 bytes, cut to 32 bits, then the bytes.
#[verifier::opaque]
pub open spec fn text_bytes(s: Seq<char>) -> Seq<u8> {
    u32_bytes(encode_utf8(s).len() as u32) + encode_utf8(s)
}

/// Whether the length of a text is written in full.
pub open spec fn text_fits(s: Seq<char>) -> bool {
    encode_utf8(s).len() <= u32::MAX
}

/// Reads a number of bytes.
pub open spec fn read_bytes(b: Seq<u8>, n: nat) -> Result<(Seq<u8>, Seq<u8>), WireError> {
    if n <= b.len() {
        Ok((b.take(n as int), b.skip(n as int)))
    } else {
        Err(WireError::Eof)
    }
}

/// Reads one byte.
pub open spec fn read_u8(b: Seq<u8>) -> Result<(u8, Seq<u8>), WireError> {
    if b.len() > 0 {
        Ok((b[0], b.skip(1)))
    } else {
        Err(WireError::Eof)
    }
}

/// Reads a 32-bit number.
pub open spec fn read_u32(b: Seq<u8>) -> Result<(u32, Seq<u8>), WireError> {
    if b.len() >= 4 {
        Ok((spec_u32_from_le_bytes(b.take(4)), b.skip(4)))
    } else {
        Err(WireError::Eof)
    }
}

/// Reads a 64-bit number.
pub open spec fn read_u64(b: Seq<u8>) -> Result<(u64, Seq<u8>), WireError> {
    if b.len() >= 8 {
        Ok((spec_u64_from_le_bytes(b.take(8)), b.skip(8)))
    } else {
        Err(WireError::Eof)
    }
}

/// Reads a text.
#[verifier::opaque]
pub open spec fn read_text(b: Seq<u8>) -> Result<(Seq<char>, Seq<u8>), WireError> {
    match read_u32(b) {
        Err(e) => Err(e),
        Ok((len, b1)) => match read_bytes(b1, len as nat) {
            Err(e) => Err(e),
            Ok((bytes, b2)) => if valid_utf8(bytes) {
                Ok((decode_utf8(bytes), b2))
            } else {
                Err(WireError::Utf8)
            },
        },
    }
}

/// A byte is read back.
pub proof fn lemma_read_u8(n: u8, rest: Seq<u8>)
    ensures
        read_u8(seq![n] + rest) == Ok::<(u8, Seq<u8>), WireError>((n, rest)),
{
    assert((seq![n] + rest).skip(1) =~= rest);
}

/// A 32-bit number is read back.
pub proof fn lemma_read_u32(n: u32, rest: Seq<u8>)
    ensures
        read_u32(u32_bytes(n) + rest) == Ok::<(u32, Seq<u8>), WireError>((n, rest)),
        u32_bytes(n).len() == 4,
{
    vstd::bytes::lemma_auto_spec_u32_to_from_le_bytes();
    assert((u32_bytes(n) + rest).take(4) =~= u32_bytes(n));
    assert((u32_bytes(n) + rest).skip(4) =~= rest);
}

/// A 64-bit number is read back.
pub proof fn lemma_read_u64(n: u64, rest: Seq<u8>)
    ensures
        read_u64(u64_bytes(n) + rest) == Ok::<(u64, Seq<u8>), WireError>((n, rest)),
        u64_bytes(n).len() == 8,
{
    vstd::bytes::lemma_auto_spec_u64_to_from_le_bytes();
    assert((u64_bytes(n) + rest).take(8) =~= u64_bytes(n));
    assert((u64_bytes(n) + rest).skip(8) =~= rest);
}

/// A text is read back.
pub proof fn lemma_read_text(s: Seq<char>, rest: Seq<u8>)
    requires
        text_fits(s),
    ensures
        read_text(text_bytes(s) + rest) == Ok::<(Seq<char>, Seq<u8>), WireError>((s, rest)),
{
    reveal(text_bytes);
    reveal(read_text);
    let bytes = encode_utf8(s);
    lemma_assoc(u32_bytes(bytes.len() as u32), bytes, rest);
    lemma_read_u32(bytes.len() as u32, bytes + rest);
    assert((bytes + rest).take(bytes.len() as int) =~= bytes);
    assert((bytes + rest).skip(bytes.len() as int) =~= rest);
    vstd::utf8::encode_utf8_valid_utf8(s);
    vstd::utf8::encode_utf8_decode_utf8(s);
}

/// How reading the first `k` of some bytes relates to reading all of them: where what is read
/// lies within the first `k`, it is read all the same and less is left over, else the bytes
/// end too early.
pub open spec fn cut_short<T, E>(
    whole: Result<(T, Seq<u8>), E>,
    part: Result<(T, Seq<u8>), E>,
    eof: E,
    b: Seq<u8>,
    k: int,
) -> bool {
    match whole {
        Ok((value, rest)) => {
            let used = b.len() - rest.len();
            &&& used >= 0
            &&& 0 <= k < used ==> part == Err::<(T, Seq<u8>), E>(eof)
            &&& used <= k <= b.len() ==> part == Ok::<(T, Seq<u8>), E>((value, rest.take(k - used)))
        },
        Err(_) => true,
    }
}

/// Reading a byte from bytes that are cut short.
pub proof fn lemma_cut_u8(b: Seq<u8>, k: int)
    ensures
        cut_short(read_u8(b), read_u8(b.take(k)), WireError::Eof, b, k),
{
    if 1 <= k <= b.len() {
        assert(b.take(k).skip(1) =~= b.skip(1).take(k - 1));
    }
}

/// Reading a 32-bit number from bytes that are cut short.
pub proof fn lemma_cut_u32(b: Seq<u8>, k: int)
    ensures
        cut_short(read_u32(b), read_u32(b.take(k)), WireError::Eof, b, k),
{
    if 4 <= k <= b.len() {
        assert(b.take(k).take(4) =~= b.take(4));
        assert(b.take(k).skip(4) =~= b.skip(4).take(k - 4));
    }
}

/// Reading a 64-bit number from bytes that are cut short.
pub proof fn lemma_cut_u64(b: Seq<u8>, k: int)
    ensures
        cut_short(read_u64(b), read_u64(b.take(k)), WireError::Eof, b, k),
{
    if 8 <= k <= b.len() {
        assert(b.take(k).take(8) =~= b.take(8));
        assert(b.take(k).skip(8) =~= b.skip(8).take(k - 8));
    }
}

/// Reading a text from bytes that are cut short.
pub proof fn lemma_cut_text(b: Seq<u8>, k: int)
    ensures
        cut_short(read_text(b), read_text(b.take(k)), WireError::Eof, b, k),
{
    reveal(read_text);
    lemma_cut_u32(b, k);
    if b.len() >= 4 && 4 <= k <= b.len() {
        let (len, b1) = read_u32(b)->Ok_0;
        let n = len as int;
        if n <= k - 4 {
            assert(b1.take(k - 4).take(n) =~= b1.take(n));
            assert(b1.take(k - 4).skip(n) =~= b1.skip(n).take(k - 4 - n));
        }
    }
}

/// Concatenation is associative.
pub proof fn lemma_assoc(a: Seq<u8>, b: Seq<u8>, c: Seq<u8>)
    ensures
        (a + b) + c == a + (b + c),
{
    assert((a + b) + c =~= a + (b + c));
}

/// Appends bytes.
pub fn put_bytes(out: &mut Vec<u8>, bytes: &[u8])
    ensures
        final(out)@ == old(out)@ + bytes@,
{
    let mut i: usize = 0;
    while i < bytes.len()
        invariant
            i <= bytes.len(),
            out@ == old(out)@ + bytes@.take(i as int),
        decreases bytes.len() - i,
    {
        out.push(bytes[i]);
        assert(bytes@.take(i + 1) =~= bytes@.take(i as int).push(bytes@[i as int]));
        i += 1;
    }
    assert(bytes@.take(bytes@.len() as int) =~= bytes@);
}

/// Appends one byte.
pub fn put_u8(out: &mut Vec<u8>, n: u8)
    ensures
        final(out)@ == old(out)@ + seq![n],
{
    out.push(n);
    assert(out@ =~= old(out)@ + seq![n]);
}

/// Appends a 32-bit number.
pub fn put_u32(out: &mut Vec<u8>, n: u32)
    ensures
        final(out)@ == old(out)@ + u32_bytes(n),
{
    let bytes = u32_to_le_bytes(n);
    put_bytes(out, bytes.as_slice());
}

/// Appends a 64-bit number.
pub fn put_u64(out: &mut Vec<u8>, n: u64)
    ensures
        final(out)@ == old(out)@ + u64_bytes(n),
{
    let bytes = u64_to_le_bytes(n);
    put_bytes(out, bytes.as_slice());
}

/// Appends a text.
pub fn put_text(out: &mut Vec<u8>, text: &str)
    ensures
        final(out)@ == old(out)@ + text_bytes(text@),
{
    let bytes = text.as_bytes();
    put_u32(out, bytes.len() as u32);
    put_bytes(out, bytes);
    proof {
        reveal(text_bytes);
        lemma_assoc(old(out)@, u32_bytes(encode_utf8(text@).len() as u32), encode_utf8(text@));
    }
}

/// Copies part of a byte string.
pub fn copy_range(bytes: &[u8], from: usize, to: usize) -> (r: Vec<u8>)
    requires
        from <= to <= bytes.len(),
    ensures
        r@ == bytes@.subrange(from as int, to as int),
{
    let mut out: Vec<u8> = Vec::new();
    let mut i: usize = from;
    while i < to
        invariant
            from <= i <= to <= bytes.len(),
            out@ == bytes@.subrange(from as int, i as int),
        decreases to - i,
    {
        out.push(bytes[i]);
        assert(bytes@.subrange(from as int, i + 1) =~= bytes@.subrange(from as int, i as int).push(bytes@[i as int]));
        i += 1;
    }
    out
}

/// A position in a byte string from which values are read in turn.
pub struct Cursor<'a> {
    bytes: &'a [u8],
    position: usize,
}

/// The view of a cursor is what is left to read.
impl<'a> View for Cursor<'a> {
    type V = Seq<u8>;

    closed spec fn view(&self) -> Seq<u8> {
        self.bytes@.skip(self.position as int)
    }
}

impl<'a> Cursor<'a> {
    /// The position lies in the byte string.
    pub closed spec fn wf(&self) -> bool {
        self.position <= self.bytes@.len()
    }

    /// A cursor at the start of a byte string.
    pub fn new(bytes: &'a [u8]) -> (r: Self)
        ensures
            r.wf(),
            r@ == bytes@,
    {
        let r = Cursor { bytes, position: 0 };
        assert(r@ =~= bytes@);
        r
    }

    /// The number of bytes left to read.
    pub fn remaining(&self) -> (r: usize)
        requires
            self.wf(),
        ensures
            r == self@.len(),
    {
        self.bytes.len() - self.position
    }

    /// Reads a number of bytes.
    pub fn take(&mut self, n: usize) -> (r: Result<Vec<u8>, WireError>)
        requires
            old(self).wf(),
        ensures
            final(self).wf(),
            match read_bytes(old(self)@, n as nat) {
                Ok((bytes, rest)) => r matches Ok(v) && v@ == bytes && final(self)@ == rest,
                Err(e) => r == Err::<Vec<u8>, WireError>(e),
            },
    {
        if n > self.bytes.len() - self.position {
            return Err(WireError::Eof);
        }
        let end: usize = self.position + n;
        let bytes = copy_range(self.bytes, self.position, end);
        proof {
            assert(old(self)@.take(n as int) =~= bytes@);
            assert(old(self)@.skip(n as int) =~= self.bytes@.skip(end as int));
        }
        self.position = end;
        Ok(bytes)
    }

    /// Reads one byte.
    pub fn u8(&mut self) -> (r: Result<u8, WireError>)
        requires
            old(self).wf(),
        ensures
            final(self).wf(),
            match read_u8(old(self)@) {
                Ok((n, rest)) => r == Ok::<u8, WireError>(n) && final(self)@ == rest,
                Err(e) => r == Err::<u8, WireError>(e),
            },
    {
        if self.position >= self.bytes.len() {
            return Err(WireError::Eof);
        }
        let n: u8 = self.bytes[self.position];
        self.position = self.position + 1;
        assert(self@ =~= old(self)@.skip(1));
        Ok(n)
    }

    /// Reads a 32-bit number.
    pub fn u32(&mut self) -> (r: Result<u32, WireError>)
        requires
            old(self).wf(),
        ensures
            final(self).wf(),
            match read_u32(old(self)@) {
                Ok((n, rest)) => r == Ok::<u32, WireError>(n) && final(self)@ == rest,
                Err(e) => r == Err::<u32, WireError>(e),
            },
    {
        match self.take(4) {
            Ok(bytes) => Ok(u32_from_le_bytes(bytes.as_slice())),
            Err(e) => Err(e),
        }
    }

    /// Reads a 64-bit number.
    pub fn u64(&mut self) -> (r: Result<u64, WireError>)
        requires
            old(self).wf(),
        ensures
            final(self).wf(),
            match read_u64(old(self)@) {
                Ok((n, rest)) => r == Ok::<u64, WireError>(n) && final(self)@ == rest,
                Err(e) => r == Err::<u64, WireError>(e),
            },
    {
        match self.take(8) {
            Ok(bytes) => Ok(u64_from_le_bytes(bytes.as_slice())),
            Err(e) => Err(e),
        }
    }

    /// Reads a text.
    pub fn text(&mut self) -> (r: Result<String, WireError>)
        requires
            old(self).wf(),
        ensures
            final(self).wf(),
            match read_text(old(self)@) {
                Ok((s, rest)) => r matches Ok(t) && t@ == s && final(self)@ == rest,
                Err(e) => r == Err::<String, WireError>(e),
            },
    {
        proof {
            reveal(read_text);
        }
        match self.u32() {
            Err(e) => Err(e),
            Ok(len) => match self.take(len as usize) {
                Err(e) => Err(e),
                Ok(bytes) => match utf8_to_string(bytes.as_slice()) {
                    Some(text) => Ok(text),
                    None => Err(WireError::Utf8),
                },
            },
        }
    }
}

/// Numbers are written least significant byte first, in four or eight bytes, and a text is
/// the number of its UTF-8 bytes followed by them.
pub proof fn law_wire_layout(n: u32, m: u64, s: Seq<char>)
    ensures
        u32_bytes(n) == spec_u32_to_le_bytes(n),
        u64_bytes(m) == spec_u64_to_le_bytes(m),
        u32_bytes(n).len() == 4 && u64_bytes(m).len() == 8,
        text_fits(s) <==> encode_utf8(s).len() <= u32::MAX,
        text_bytes(s) == spec_u32_to_le_bytes(encode_utf8(s).len() as u32) + encode_utf8(s),
{
    reveal(text_bytes);
    lemma_read_u32(n, Seq::empty());
    lemma_read_u64(m, Seq::empty());
}

} // verus!
