//! A reader over length-prefixed big-endian fields, with its model: each
//! read takes from the front of the remaining bytes and advances the
//! position.

use vstd::prelude::*;
use vstd::utf8::{
    decode_utf8, decode_utf8_encode_utf8, encode_utf8, encode_utf8_decode_utf8,
    encode_utf8_valid_utf8, valid_utf8,
};

use crate::codec::{
    be16, be32, be64, from_be16, from_be32, from_be64, lemma_be16_canonical, lemma_be16_roundtrip,
    lemma_be32_canonical, lemma_be32_roundtrip, lemma_be64_canonical, lemma_be64_roundtrip,
};
use crate::error::{CoreError, Result};

verus! {

/// The result of a model read: the value, the remaining bytes, the new
/// position.
pub type Read<T> = core::result::Result<(T, Seq<u8>, int), CoreError>;

/// Takes `n` bytes from the front of `r` (read at position `pos`).
#[verifier::opaque]
pub open spec fn rd_take(r: Seq<u8>, pos: int, n: int) -> Read<Seq<u8>> {
    if pos + n > usize::MAX {
        Err(CoreError::Malformed("bundle length overflow"))
    } else if n > r.len() {
        Err(CoreError::Malformed("truncated pairing bundle"))
    } else {
        Ok((r.take(n), r.skip(n), pos + n))
    }
}

/// Reads one byte.
pub open spec fn rd_u8(r: Seq<u8>, pos: int) -> Read<u8> {
    match rd_take(r, pos, 1) {
        Ok((x, r2, p2)) => Ok((x[0], r2, p2)),
        Err(e) => Err(e),
    }
}

/// Reads a big-endian `u16`.
pub open spec fn rd_u16(r: Seq<u8>, pos: int) -> Read<u16> {
    match rd_take(r, pos, 2) {
        Ok((x, r2, p2)) => Ok((from_be16(x), r2, p2)),
        Err(e) => Err(e),
    }
}

/// Reads a big-endian `u32`.
pub open spec fn rd_u32(r: Seq<u8>, pos: int) -> Read<u32> {
    match rd_take(r, pos, 4) {
        Ok((x, r2, p2)) => Ok((from_be32(x), r2, p2)),
        Err(e) => Err(e),
    }
}

/// Reads a big-endian `u64`.
pub open spec fn rd_u64(r: Seq<u8>, pos: int) -> Read<u64> {
    match rd_take(r, pos, 8) {
        Ok((x, r2, p2)) => Ok((from_be64(x), r2, p2)),
        Err(e) => Err(e),
    }
}

/// Reads a `u16`-length-prefixed field.
pub open spec fn rd_field(r: Seq<u8>, pos: int) -> Read<Seq<u8>> {
    match rd_u16(r, pos) {
        Ok((len, r2, p2)) => rd_take(r2, p2, len as int),
        Err(e) => Err(e),
    }
}

/// UTF-8 text of a field's bytes.
pub open spec fn spec_utf8(b: Seq<u8>) -> core::result::Result<Seq<char>, CoreError> {
    if valid_utf8(b) {
        Ok(decode_utf8(b))
    } else {
        Err(CoreError::Malformed("field is not UTF-8"))
    }
}

/// Reads a length-prefixed UTF-8 field.
pub open spec fn rd_text_field(r: Seq<u8>, pos: int) -> Read<Seq<char>> {
    match rd_field(r, pos) {
        Ok((b, r2, p2)) => match spec_utf8(b) {
            Ok(s) => Ok((s, r2, p2)),
            Err(e) => Err(e),
        },
        Err(e) => Err(e),
    }
}

/// Reads `n` bytes of UTF-8 text.
pub open spec fn rd_text_fixed(r: Seq<u8>, pos: int, n: int) -> Read<Seq<char>> {
    match rd_take(r, pos, n) {
        Ok((b, r2, p2)) => match spec_utf8(b) {
            Ok(s) => Ok((s, r2, p2)),
            Err(e) => Err(e),
        },
        Err(e) => Err(e),
    }
}

/// A `u16`-length-prefixed field.
pub open spec fn var(f: Seq<u8>) -> Seq<u8> {
    be16(f.len() as u16) + f
}

/// A length-prefixed field followed by `rest`.
pub open spec fn var_then(f: Seq<u8>, rest: Seq<u8>) -> Seq<u8> {
    be16(f.len() as u16) + (f + rest)
}

/// A field followed by `rest` is the field's encoding, then `rest`.
pub proof fn lemma_var_then(f: Seq<u8>, rest: Seq<u8>)
    ensures
        var_then(f, rest) == var(f) + rest,
{
    vstd::seq_lib::lemma_concat_associative(be16(f.len() as u16), f, rest);
}

/// Reading from the front of `x + r` takes `x` and leaves `r`.
pub proof fn lemma_take_front(x: Seq<u8>, r: Seq<u8>, pos: int)
    requires
        pos + x.len() + r.len() <= usize::MAX,
    ensures
        rd_take(x + r, pos, x.len() as int) == Ok::<_, CoreError>((x, r, pos + x.len())),
{
    reveal(rd_take);
    assert((x + r).take(x.len() as int) =~= x);
    assert((x + r).skip(x.len() as int) =~= r);
}

/// A successful take splits the remaining bytes.
pub proof fn lemma_take_split(r: Seq<u8>, pos: int, n: int)
    requires
        rd_take(r, pos, n) is Ok,
        0 <= n,
    ensures
        rd_take(r, pos, n) matches Ok((x, r2, p2)) && r == x + r2 && x.len() == n && p2 == pos + n,
{
    reveal(rd_take);
    let x = r.take(n);
    assert(r =~= x + r.skip(n));
}

/// Reading a byte from `seq![b] + r`.
pub proof fn lemma_u8_front(b: u8, r: Seq<u8>, pos: int)
    requires
        pos + 1 + r.len() <= usize::MAX,
    ensures
        rd_u8(seq![b] + r, pos) == Ok::<_, CoreError>((b, r, pos + 1)),
{
    lemma_take_front(seq![b], r, pos);
}

/// A successful byte read splits off that byte.
pub proof fn lemma_u8_split(r: Seq<u8>, pos: int)
    requires
        rd_u8(r, pos) is Ok,
    ensures
        rd_u8(r, pos) matches Ok((b, r2, p2)) && r == seq![b] + r2 && p2 == pos + 1,
{
    reveal(rd_take);
    lemma_take_split(r, pos, 1);
    let x = r.take(1);
    assert(x =~= seq![x[0]]);
}

/// Reading a `u16` from `be16(n) + r`.
pub proof fn lemma_u16_front(n: u16, r: Seq<u8>, pos: int)
    requires
        pos + 2 + r.len() <= usize::MAX,
    ensures
        rd_u16(be16(n) + r, pos) == Ok::<_, CoreError>((n, r, pos + 2)),
{
    lemma_be16_roundtrip(n);
    lemma_take_front(be16(n), r, pos);
}

/// Reading a `u32` from `be32(n) + r`.
pub proof fn lemma_u32_front(n: u32, r: Seq<u8>, pos: int)
    requires
        pos + 4 + r.len() <= usize::MAX,
    ensures
        rd_u32(be32(n) + r, pos) == Ok::<_, CoreError>((n, r, pos + 4)),
{
    lemma_be32_roundtrip(n);
    lemma_take_front(be32(n), r, pos);
}

/// A successful `u32` read splits off its encoding.
pub proof fn lemma_u32_split(r: Seq<u8>, pos: int)
    requires
        rd_u32(r, pos) is Ok,
    ensures
        rd_u32(r, pos) matches Ok((n, r2, p2)) && r == be32(n) + r2 && p2 == pos + 4,
{
    reveal(rd_take);
    lemma_take_split(r, pos, 4);
    lemma_be32_canonical(r.take(4));
}

/// Reading a `u64` from `be64(n) + r`.
pub proof fn lemma_u64_front(n: u64, r: Seq<u8>, pos: int)
    requires
        pos + 8 + r.len() <= usize::MAX,
    ensures
        rd_u64(be64(n) + r, pos) == Ok::<_, CoreError>((n, r, pos + 8)),
{
    lemma_be64_roundtrip(n);
    lemma_take_front(be64(n), r, pos);
}

/// A successful `u64` read splits off its encoding.
pub proof fn lemma_u64_split(r: Seq<u8>, pos: int)
    requires
        rd_u64(r, pos) is Ok,
    ensures
        rd_u64(r, pos) matches Ok((n, r2, p2)) && r == be64(n) + r2 && p2 == pos + 8,
{
    reveal(rd_take);
    lemma_take_split(r, pos, 8);
    lemma_be64_canonical(r.take(8));
}

/// Reading a length-prefixed field from `var_then(f, r)`.
pub proof fn lemma_field_front(f: Seq<u8>, r: Seq<u8>, pos: int)
    requires
        f.len() <= u16::MAX,
        pos + 2 + f.len() + r.len() <= usize::MAX,
    ensures
        rd_field(var_then(f, r), pos) == Ok::<_, CoreError>((f, r, pos + 2 + f.len())),
{
    lemma_u16_front(f.len() as u16, f + r, pos);
    lemma_take_front(f, r, pos + 2);
}

/// A successful field read splits off the field and its prefix.
pub proof fn lemma_field_split(r: Seq<u8>, pos: int)
    requires
        rd_field(r, pos) is Ok,
    ensures
        rd_field(r, pos) matches Ok((f, r2, p2)) && f.len() <= u16::MAX && r == var_then(f, r2)
            && p2 == pos + 2 + f.len(),
{
    reveal(rd_take);
    lemma_take_split(r, pos, 2);
    let (len, r1, p1) = rd_u16(r, pos)->Ok_0;
    lemma_be16_canonical(r.take(2));
    lemma_take_split(r1, p1, len as int);
    let (f, r2, p2) = rd_field(r, pos)->Ok_0;
    assert(r =~= var_then(f, r2));
}

/// Reading a UTF-8 field written from text `s`.
pub proof fn lemma_text_field_front(s: Seq<char>, r: Seq<u8>, pos: int)
    requires
        encode_utf8(s).len() <= u16::MAX,
        pos + 2 + encode_utf8(s).len() + r.len() <= usize::MAX,
    ensures
        rd_text_field(var_then(encode_utf8(s), r), pos) == Ok::<_, CoreError>(
            (s, r, pos + 2 + encode_utf8(s).len()),
        ),
{
    lemma_field_front(encode_utf8(s), r, pos);
    encode_utf8_valid_utf8(s);
    encode_utf8_decode_utf8(s);
}

/// A successful UTF-8 field read splits off the encoded text.
pub proof fn lemma_text_field_split(r: Seq<u8>, pos: int)
    requires
        rd_text_field(r, pos) is Ok,
    ensures
        rd_text_field(r, pos) matches Ok((s, r2, p2)) && encode_utf8(s).len() <= u16::MAX && r
            == var_then(encode_utf8(s), r2) && p2 == pos + 2 + encode_utf8(s).len(),
{
    lemma_field_split(r, pos);
    let (b, r2, p2) = rd_field(r, pos)->Ok_0;
    decode_utf8_encode_utf8(b);
}

/// Reading fixed-length text written from `s`.
pub proof fn lemma_text_fixed_front(s: Seq<char>, r: Seq<u8>, pos: int)
    requires
        pos + encode_utf8(s).len() + r.len() <= usize::MAX,
    ensures
        rd_text_fixed(encode_utf8(s) + r, pos, encode_utf8(s).len() as int) == Ok::<_, CoreError>(
            (s, r, pos + encode_utf8(s).len()),
        ),
{
    lemma_take_front(encode_utf8(s), r, pos);
    encode_utf8_valid_utf8(s);
    encode_utf8_decode_utf8(s);
}

/// A successful fixed-length text read splits off the encoded text.
pub proof fn lemma_text_fixed_split(r: Seq<u8>, pos: int, n: int)
    requires
        rd_text_fixed(r, pos, n) is Ok,
        0 <= n,
    ensures
        rd_text_fixed(r, pos, n) matches Ok((s, r2, p2)) && r == encode_utf8(s) + r2 && p2 == pos
            + n && encode_utf8(s).len() == n,
{
    reveal(rd_take);
    lemma_take_split(r, pos, n);
    let (b, r2, p2) = rd_take(r, pos, n)->Ok_0;
    decode_utf8_encode_utf8(b);
}

/// A read from `r` as it reads from `r + t`: the same value and
/// position, with `t` after what it leaves.
pub open spec fn read_ext<T>(x: Read<T>, t: Seq<u8>) -> Read<T> {
    match x {
        Ok((a, r2, p2)) => Ok((a, r2 + t, p2)),
        Err(e) => Err(e),
    }
}

/// A read that fails fails with `Malformed`.
pub open spec fn read_malformed<T>(x: Read<T>) -> bool {
    x matches Err(e) ==> e matches CoreError::Malformed(_)
}

/// Every failed take is `Malformed`; a take that succeeds on `r` reads the
/// same from `r + t`.
pub proof fn lemma_take_ext(r: Seq<u8>, t: Seq<u8>, pos: int, n: int)
    requires
        0 <= n,
    ensures
        read_malformed(rd_take(r, pos, n)),
        rd_take(r, pos, n) is Ok ==> rd_take(r + t, pos, n) == read_ext(rd_take(r, pos, n), t),
{
    reveal(rd_take);
    if rd_take(r, pos, n) is Ok {
        assert((r + t).take(n) =~= r.take(n));
        assert((r + t).skip(n) =~= r.skip(n) + t);
    }
}

/// As [`lemma_take_ext`], for a byte.
pub proof fn lemma_u8_ext(r: Seq<u8>, t: Seq<u8>, pos: int)
    ensures
        read_malformed(rd_u8(r, pos)),
        rd_u8(r, pos) is Ok ==> rd_u8(r + t, pos) == read_ext(rd_u8(r, pos), t),
{
    lemma_take_ext(r, t, pos, 1);
}

/// As [`lemma_take_ext`], for a `u32`.
pub proof fn lemma_u32_ext(r: Seq<u8>, t: Seq<u8>, pos: int)
    ensures
        read_malformed(rd_u32(r, pos)),
        rd_u32(r, pos) is Ok ==> rd_u32(r + t, pos) == read_ext(rd_u32(r, pos), t),
{
    lemma_take_ext(r, t, pos, 4);
}

/// As [`lemma_take_ext`], for a length-prefixed field.
pub proof fn lemma_field_ext(r: Seq<u8>, t: Seq<u8>, pos: int)
    ensures
        read_malformed(rd_field(r, pos)),
        rd_field(r, pos) is Ok ==> rd_field(r + t, pos) == read_ext(rd_field(r, pos), t),
{
    lemma_take_ext(r, t, pos, 2);
    if rd_u16(r, pos) is Ok {
        let (len, r2, p2) = rd_u16(r, pos)->Ok_0;
        lemma_take_ext(r2, t, p2, len as int);
    }
}

/// As [`lemma_take_ext`], for a `u64`.
pub proof fn lemma_u64_ext(r: Seq<u8>, t: Seq<u8>, pos: int)
    ensures
        read_malformed(rd_u64(r, pos)),
        rd_u64(r, pos) is Ok ==> rd_u64(r + t, pos) == read_ext(rd_u64(r, pos), t),
{
    lemma_take_ext(r, t, pos, 8);
}

/// As [`lemma_take_ext`], for a length-prefixed UTF-8 field.
pub proof fn lemma_text_field_ext(r: Seq<u8>, t: Seq<u8>, pos: int)
    ensures
        read_malformed(rd_text_field(r, pos)),
        rd_text_field(r, pos) is Ok ==> rd_text_field(r + t, pos) == read_ext(rd_text_field(r, pos), t),
{
    lemma_field_ext(r, t, pos);
}

/// As [`lemma_take_ext`], for fixed-length UTF-8 text.
pub proof fn lemma_text_fixed_ext(r: Seq<u8>, t: Seq<u8>, pos: int, n: int)
    requires
        0 <= n,
    ensures
        read_malformed(rd_text_fixed(r, pos, n)),
        rd_text_fixed(r, pos, n) is Ok ==> rd_text_fixed(r + t, pos, n) == read_ext(
            rd_text_fixed(r, pos, n),
            t,
        ),
{
    lemma_take_ext(r, t, pos, n);
}

/// A reader over `bytes`, at `pos`.
pub struct Cursor<'a> {
    pub bytes: &'a [u8],
    pub pos: usize,
}

impl<'a> Cursor<'a> {
    /// The bytes not yet read.
    pub open spec fn rest(&self) -> Seq<u8> {
        self.bytes@.skip(self.pos as int)
    }

    /// The position is within the bytes.
    pub open spec fn wf(&self) -> bool {
        self.pos <= self.bytes@.len()
    }

    /// A reader at the start of `bytes`.
    pub fn new(bytes: &'a [u8]) -> (c: Self)
        ensures
            c.wf(),
            c.pos == 0,
            c.bytes@ == bytes@,
            c.rest() == bytes@,
    {
        let c = Cursor { bytes, pos: 0 };
        assert(c.rest() =~= bytes@);
        c
    }

    /// Whether every byte has been read.
    pub fn at_end(&self) -> (r: bool)
        requires
            self.wf(),
        ensures
            r == (self.rest().len() == 0),
    {
        self.pos == self.bytes.len()
    }

    /// Takes `n` bytes.
    pub fn take(&mut self, n: usize) -> (r: Result<&'a [u8]>)
        requires
            old(self).wf(),
        ensures
            final(self).wf(),
            final(self).bytes@ == old(self).bytes@,
            match rd_take(old(self).rest(), old(self).pos as int, n as int) {
                Ok((x, r2, p2)) => r matches Ok(s) && s@ == x && final(self).pos == p2
                    && final(self).rest() == r2,
                Err(e) => r matches Err(e2) && e2 == e,
            },
    {
        reveal(rd_take);
        let len = self.bytes.len();
        if n > usize::MAX - self.pos {
            return Err(CoreError::Malformed("bundle length overflow"));
        }
        let end = self.pos + n;
        if end > len {
            return Err(CoreError::Malformed("truncated pairing bundle"));
        }
        let slice = &self.bytes[self.pos..end];
        let ghost old_rest = self.rest();
        assert(slice@ =~= old_rest.take(n as int));
        self.pos = end;
        assert(self.rest() =~= old_rest.skip(n as int));
        Ok(slice)
    }

    /// Reads one byte.
    pub fn u8(&mut self) -> (r: Result<u8>)
        requires
            old(self).wf(),
        ensures
            final(self).wf(),
            final(self).bytes@ == old(self).bytes@,
            match rd_u8(old(self).rest(), old(self).pos as int) {
                Ok((x, r2, p2)) => r == Ok::<_, CoreError>(x) && final(self).pos == p2
                    && final(self).rest() == r2,
                Err(e) => r matches Err(e2) && e2 == e,
            },
    {
        reveal(rd_take);
        match self.take(1) {
            Ok(s) => Ok(s[0]),
            Err(e) => Err(e),
        }
    }

    /// Reads a big-endian `u16`.
    pub fn u16(&mut self) -> (r: Result<u16>)
        requires
            old(self).wf(),
        ensures
            final(self).wf(),
            final(self).bytes@ == old(self).bytes@,
            match rd_u16(old(self).rest(), old(self).pos as int) {
                Ok((x, r2, p2)) => r == Ok::<_, CoreError>(x) && final(self).pos == p2
                    && final(self).rest() == r2,
                Err(e) => r matches Err(e2) && e2 == e,
            },
    {
        reveal(rd_take);
        match self.take(2) {
            Ok(s) => {
                assert(s@.subrange(0, 2) =~= s@);
                Ok(crate::codec::read_be16(s, 0))
            },
            Err(e) => Err(e),
        }
    }

    /// Reads a big-endian `u32`.
    pub fn u32(&mut self) -> (r: Result<u32>)
        requires
            old(self).wf(),
        ensures
            final(self).wf(),
            final(self).bytes@ == old(self).bytes@,
            match rd_u32(old(self).rest(), old(self).pos as int) {
                Ok((x, r2, p2)) => r == Ok::<_, CoreError>(x) && final(self).pos == p2
                    && final(self).rest() == r2,
                Err(e) => r matches Err(e2) && e2 == e,
            },
    {
        reveal(rd_take);
        match self.take(4) {
            Ok(s) => {
                assert(s@.subrange(0, 4) =~= s@);
                Ok(crate::codec::read_be32(s, 0))
            },
            Err(e) => Err(e),
        }
    }

    /// Reads a big-endian `u64`.
    pub fn u64(&mut self) -> (r: Result<u64>)
        requires
            old(self).wf(),
        ensures
            final(self).wf(),
            final(self).bytes@ == old(self).bytes@,
            match rd_u64(old(self).rest(), old(self).pos as int) {
                Ok((x, r2, p2)) => r == Ok::<_, CoreError>(x) && final(self).pos == p2
                    && final(self).rest() == r2,
                Err(e) => r matches Err(e2) && e2 == e,
            },
    {
        reveal(rd_take);
        match self.take(8) {
            Ok(s) => {
                assert(s@.subrange(0, 8) =~= s@);
                Ok(crate::codec::read_be64(s, 0))
            },
            Err(e) => Err(e),
        }
    }

    /// Reads a `u16`-length-prefixed field.
    pub fn bytes_field(&mut self) -> (r: Result<&'a [u8]>)
        requires
            old(self).wf(),
        ensures
            final(self).wf(),
            final(self).bytes@ == old(self).bytes@,
            match rd_field(old(self).rest(), old(self).pos as int) {
                Ok((x, r2, p2)) => r matches Ok(s) && s@ == x && final(self).pos == p2
                    && final(self).rest() == r2,
                Err(e) => r matches Err(e2) && e2 == e,
            },
    {
        let len = match self.u16() {
            Ok(l) => l,
            Err(e) => return Err(e),
        };
        self.take(len as usize)
    }
}

/// UTF-8 text of `bytes`, or a malformed-field error.
pub fn utf8(bytes: &[u8]) -> (r: Result<String>)
    ensures
        match spec_utf8(bytes@) {
            Ok(s) => r matches Ok(t) && t@ == s,
            Err(e) => r matches Err(e2) && e2 == e,
        },
{
    match crate::text::utf8_string(bytes) {
        Some(s) => Ok(s),
        None => Err(CoreError::Malformed("field is not UTF-8")),
    }
}

/// Appends a `u16`-length-prefixed field.
pub fn put_bytes(out: &mut Vec<u8>, bytes: &[u8])
    requires
        bytes@.len() <= u16::MAX,
    ensures
        final(out)@ == old(out)@ + var(bytes@),
{
    crate::codec::push_be16(out, bytes.len() as u16);
    crate::codec::push_all(out, bytes);
    assert(out@ =~= old(out)@ + var(bytes@));
}

} // verus!
