//! Big-endian integer encodings shared by the wire formats.

use vstd::prelude::*;

verus! {

/// Big-endian encoding of a 16-bit value.
pub open spec fn be16(n: u16) -> Seq<u8> {
    seq![(n / 0x100) as u8, (n % 0x100) as u8]
}

/// Big-endian encoding of a 32-bit value.
pub open spec fn be32(n: u32) -> Seq<u8> {
    seq![
        (n / 0x100_0000) as u8,
        ((n / 0x1_0000) % 0x100) as u8,
        ((n / 0x100) % 0x100) as u8,
        (n % 0x100) as u8,
    ]
}

/// Big-endian encoding of a 64-bit value.
pub open spec fn be64(n: u64) -> Seq<u8> {
    be32((n / 0x1_0000_0000) as u32) + be32((n % 0x1_0000_0000) as u32)
}

/// The value of two big-endian bytes.
pub open spec fn from_be16(b: Seq<u8>) -> u16 {
    (b[0] as int * 0x100 + b[1] as int) as u16
}

/// The value of four big-endian bytes.
pub open spec fn from_be32(b: Seq<u8>) -> u32 {
    (b[0] as int * 0x100_0000 + b[1] as int * 0x1_0000 + b[2] as int * 0x100 + b[3] as int) as u32
}

/// The value of eight big-endian bytes.
pub open spec fn from_be64(b: Seq<u8>) -> u64 {
    (from_be32(b.subrange(0, 4)) as int * 0x1_0000_0000 + from_be32(b.subrange(4, 8)) as int) as u64
}

proof fn lemma_u16_split(n: u16)
    ensures
        (n / 0x100) as u8 as int * 0x100 + (n % 0x100) as u8 as int == n,
{
    assert((n / 0x100) as u8 as int * 0x100 + (n % 0x100) as u8 as int == n) by (bit_vector);
}

proof fn lemma_u32_split(n: u32)
    ensures
        (n / 0x100_0000) as u8 as int * 0x100_0000 + ((n / 0x1_0000) % 0x100) as u8 as int * 0x1_0000
            + ((n / 0x100) % 0x100) as u8 as int * 0x100 + (n % 0x100) as u8 as int == n,
{
    assert((n / 0x100_0000) as u8 as int * 0x100_0000 + ((n / 0x1_0000) % 0x100) as u8 as int
        * 0x1_0000 + ((n / 0x100) % 0x100) as u8 as int * 0x100 + (n % 0x100) as u8 as int == n)
        by (bit_vector);
}

proof fn lemma_u32_join(a: u8, b: u8, c: u8, d: u8)
    ensures
        ({
            let n = (a as int * 0x100_0000 + b as int * 0x1_0000 + c as int * 0x100 + d as int) as u32;
            &&& 0 <= a as int * 0x100_0000 + b as int * 0x1_0000 + c as int * 0x100 + d as int <= u32::MAX
            &&& (n / 0x100_0000) as u8 == a
            &&& ((n / 0x1_0000) % 0x100) as u8 == b
            &&& ((n / 0x100) % 0x100) as u8 == c
            &&& (n % 0x100) as u8 == d
        }),
{
    assert({
        let n = (a as int * 0x100_0000 + b as int * 0x1_0000 + c as int * 0x100 + d as int) as u32;
        &&& 0 <= a as int * 0x100_0000 + b as int * 0x1_0000 + c as int * 0x100 + d as int <= u32::MAX
        &&& (n / 0x100_0000) as u8 == a
        &&& ((n / 0x1_0000) % 0x100) as u8 == b
        &&& ((n / 0x100) % 0x100) as u8 == c
        &&& (n % 0x100) as u8 == d
    }) by (bit_vector);
}

proof fn lemma_u16_join(a: u8, b: u8)
    ensures
        ({
            let n = (a as int * 0x100 + b as int) as u16;
            &&& 0 <= a as int * 0x100 + b as int <= u16::MAX
            &&& (n / 0x100) as u8 == a
            &&& (n % 0x100) as u8 == b
        }),
{
    assert({
        let n = (a as int * 0x100 + b as int) as u16;
        &&& 0 <= a as int * 0x100 + b as int <= u16::MAX
        &&& (n / 0x100) as u8 == a
        &&& (n % 0x100) as u8 == b
    }) by (bit_vector);
}

/// Decoding undoes encoding (16 bits).
pub proof fn lemma_be16_roundtrip(n: u16)
    ensures
        be16(n).len() == 2,
        from_be16(be16(n)) == n,
{
    lemma_u16_split(n);
}

/// Encoding undoes decoding (16 bits).
pub proof fn lemma_be16_canonical(b: Seq<u8>)
    requires
        b.len() == 2,
    ensures
        be16(from_be16(b)) == b,
{
    lemma_u16_join(b[0], b[1]);
    assert(be16(from_be16(b)) =~= b);
}

/// Decoding undoes encoding (32 bits).
pub proof fn lemma_be32_roundtrip(n: u32)
    ensures
        be32(n).len() == 4,
        from_be32(be32(n)) == n,
{
    lemma_u32_split(n);
}

/// Encoding undoes decoding (32 bits).
pub proof fn lemma_be32_canonical(b: Seq<u8>)
    requires
        b.len() == 4,
    ensures
        be32(from_be32(b)) == b,
{
    lemma_u32_join(b[0], b[1], b[2], b[3]);
    assert(be32(from_be32(b)) =~= b);
}

proof fn lemma_u64_split(n: u64)
    ensures
        (n / 0x1_0000_0000) as u32 as int * 0x1_0000_0000 + (n % 0x1_0000_0000) as u32 as int == n,
{
    assert((n / 0x1_0000_0000) as u32 as int * 0x1_0000_0000 + (n % 0x1_0000_0000) as u32 as int
        == n) by (bit_vector);
}

proof fn lemma_u64_join(hi: u32, lo: u32)
    ensures
        ({
            let n = (hi as int * 0x1_0000_0000 + lo as int) as u64;
            &&& 0 <= hi as int * 0x1_0000_0000 + lo as int <= u64::MAX
            &&& (n / 0x1_0000_0000) as u32 == hi
            &&& (n % 0x1_0000_0000) as u32 == lo
        }),
{
    assert({
        let n = (hi as int * 0x1_0000_0000 + lo as int) as u64;
        &&& 0 <= hi as int * 0x1_0000_0000 + lo as int <= u64::MAX
        &&& (n / 0x1_0000_0000) as u32 == hi
        &&& (n % 0x1_0000_0000) as u32 == lo
    }) by (bit_vector);
}

/// Decoding undoes encoding (64 bits).
pub proof fn lemma_be64_roundtrip(n: u64)
    ensures
        be64(n).len() == 8,
        from_be64(be64(n)) == n,
{
    let hi = (n / 0x1_0000_0000) as u32;
    let lo = (n % 0x1_0000_0000) as u32;
    lemma_be32_roundtrip(hi);
    lemma_be32_roundtrip(lo);
    assert(be64(n).subrange(0, 4) =~= be32(hi));
    assert(be64(n).subrange(4, 8) =~= be32(lo));
    lemma_u64_split(n);
}

/// Encoding undoes decoding (64 bits).
pub proof fn lemma_be64_canonical(b: Seq<u8>)
    requires
        b.len() == 8,
    ensures
        be64(from_be64(b)) == b,
{
    let hi = from_be32(b.subrange(0, 4));
    let lo = from_be32(b.subrange(4, 8));
    lemma_u64_join(hi, lo);
    lemma_be32_canonical(b.subrange(0, 4));
    lemma_be32_canonical(b.subrange(4, 8));
    assert(be64(from_be64(b)) =~= b);
}

/// The two big-endian bytes of `n`.
pub fn u16_to_be(n: u16) -> (r: [u8; 2])
    ensures
        r@ == be16(n),
{
    let r = [(n / 0x100) as u8, (n % 0x100) as u8];
    assert(r@ =~= be16(n));
    r
}

/// The four big-endian bytes of `n`.
pub fn u32_to_be(n: u32) -> (r: [u8; 4])
    ensures
        r@ == be32(n),
{
    let r = [
        (n / 0x100_0000) as u8,
        ((n / 0x1_0000) % 0x100) as u8,
        ((n / 0x100) % 0x100) as u8,
        (n % 0x100) as u8,
    ];
    assert(r@ =~= be32(n));
    r
}

/// Appends the two big-endian bytes of `n`.
pub fn push_be16(out: &mut Vec<u8>, n: u16)
    ensures
        final(out)@ == old(out)@ + be16(n),
{
    out.push((n / 0x100) as u8);
    out.push((n % 0x100) as u8);
    assert(out@ =~= old(out)@ + be16(n));
}

/// Appends the four big-endian bytes of `n`.
pub fn push_be32(out: &mut Vec<u8>, n: u32)
    ensures
        final(out)@ == old(out)@ + be32(n),
{
    out.push((n / 0x100_0000) as u8);
    out.push(((n / 0x1_0000) % 0x100) as u8);
    out.push(((n / 0x100) % 0x100) as u8);
    out.push((n % 0x100) as u8);
    assert(out@ =~= old(out)@ + be32(n));
}

/// Appends the eight big-endian bytes of `n`.
pub fn push_be64(out: &mut Vec<u8>, n: u64)
    ensures
        final(out)@ == old(out)@ + be64(n),
{
    push_be32(out, (n / 0x1_0000_0000) as u32);
    push_be32(out, (n % 0x1_0000_0000) as u32);
    assert(out@ =~= old(out)@ + be64(n));
}

/// Appends every byte of `bytes`.
pub fn push_all(out: &mut Vec<u8>, bytes: &[u8])
    ensures
        final(out)@ == old(out)@ + bytes@,
{
    let mut i: usize = 0;
    while i < bytes.len()
        invariant
            i <= bytes@.len(),
            out@ == old(out)@ + bytes@.subrange(0, i as int),
        decreases bytes@.len() - i,
    {
        out.push(bytes[i]);
        i = i + 1;
        assert(out@ =~= old(out)@ + bytes@.subrange(0, i as int));
    }
    assert(bytes@.subrange(0, bytes@.len() as int) =~= bytes@);
}

/// Reads two big-endian bytes at `pos`.
pub fn read_be16(b: &[u8], pos: usize) -> (r: u16)
    requires
        pos + 2 <= b@.len(),
    ensures
        r == from_be16(b@.subrange(pos as int, pos + 2)),
{
    let r = (b[pos] as u16) * 0x100 + (b[pos + 1] as u16);
    r
}

/// Reads four big-endian bytes at `pos`.
pub fn read_be32(b: &[u8], pos: usize) -> (r: u32)
    requires
        pos + 4 <= b@.len(),
    ensures
        r == from_be32(b@.subrange(pos as int, pos + 4)),
{
    let r = (b[pos] as u32) * 0x100_0000 + (b[pos + 1] as u32) * 0x1_0000 + (b[pos + 2] as u32)
        * 0x100 + (b[pos + 3] as u32);
    r
}

/// Reads eight big-endian bytes at `pos`.
pub fn read_be64(b: &[u8], pos: usize) -> (r: u64)
    requires
        pos + 8 <= b@.len(),
    ensures
        r == from_be64(b@.subrange(pos as int, pos + 8)),
{
    let n = b.len();
    let hi = read_be32(b, pos);
    let lo = read_be32(b, pos + 4);
    assert(b@.subrange(pos as int, pos + 8).subrange(0, 4) =~= b@.subrange(pos as int, pos + 4));
    assert(b@.subrange(pos as int, pos + 8).subrange(4, 8) =~= b@.subrange(pos + 4, pos + 8));
    let r = (hi as u64) * 0x1_0000_0000 + (lo as u64);
    r
}

/// The 32 bytes of `b` as an array.
pub fn array32(b: &[u8]) -> (r: [u8; 32])
    requires
        b@.len() == 32,
    ensures
        r@ == b@,
{
    let mut r = [0u8; 32];
    let mut i: usize = 0;
    while i < 32
        invariant
            i <= 32,
            b@.len() == 32,
            r@.len() == 32,
            forall|k: int| 0 <= k < i ==> r@[k] == b@[k],
        decreases 32 - i,
    {
        r[i] = b[i];
        i = i + 1;
    }
    assert(r@ =~= b@);
    r
}

} // verus!
