//! The only parsers of the relay that touch client-controlled bytes, and
//! the frames it exchanges with subscribers.

use vstd::prelude::*;
use vstd::string::StringSliceAdditionalSpecFns;
use vstd::utf8::encode_utf8;

use crate::text::{ascii_bytes, ascii_chars, lemma_ascii_encode};

verus! {

/// Minimum well-formed envelope: 8-byte header and at least one ciphertext
/// byte.
pub const MIN_ENVELOPE: usize = 9;

/// Deposit admission: magic `"TZCA"`, version 1, and minimum length only;
/// nothing beyond offset 4 is looked at.
pub open spec fn spec_deposit_admissible(b: Seq<u8>) -> bool {
    &&& b.len() >= MIN_ENVELOPE
    &&& b[0] == 0x54u8
    &&& b[1] == 0x5Au8
    &&& b[2] == 0x43u8
    &&& b[3] == 0x41u8
    &&& b[4] == 0x01u8
}

/// Deposit admission check: magic, version, and minimum length only.
pub fn deposit_admissible(blob: &[u8]) -> (r: bool)
    ensures
        r == spec_deposit_admissible(blob@),
{
    blob.len() >= MIN_ENVELOPE && blob[0] == 0x54 && blob[1] == 0x5A && blob[2] == 0x43 && blob[3]
        == 0x41 && blob[4] == 0x01
}

/// The 16 bytes of `b` starting at `from`.
fn take16(b: &[u8], from: usize) -> (r: [u8; 16])
    requires
        from + 16 <= b@.len(),
    ensures
        r@ == b@.subrange(from as int, from + 16),
{
    let r = [
        b[from],
        b[from + 1],
        b[from + 2],
        b[from + 3],
        b[from + 4],
        b[from + 5],
        b[from + 6],
        b[from + 7],
        b[from + 8],
        b[from + 9],
        b[from + 10],
        b[from + 11],
        b[from + 12],
        b[from + 13],
        b[from + 14],
        b[from + 15],
    ];
    assert(r@ =~= b@.subrange(from as int, from + 16));
    r
}

/// The client-to-relay ack frame `0x02 || message_id`.
pub open spec fn spec_ack_frame(id: Seq<u8>) -> Seq<u8> {
    seq![0x02u8] + id
}

/// Client-to-relay ack frame: the acked message id, or `None` for anything
/// else.
pub fn parse_ack_frame(frame: &[u8]) -> (r: Option<[u8; 16]>)
    ensures
        r is Some <==> (frame@.len() == 17 && frame@[0] == 0x02),
        r matches Some(id) ==> frame@ == spec_ack_frame(id@),
{
    if frame.len() != 17 || frame[0] != 0x02 {
        return None;
    }
    let id = take16(frame, 1);
    assert(frame@ =~= spec_ack_frame(id@));
    Some(id)
}

/// Builds the ack frame for `message_id`.
pub fn ack_frame(message_id: &[u8; 16]) -> (out: Vec<u8>)
    ensures
        out@ == spec_ack_frame(message_id@),
{
    let mut out: Vec<u8> = Vec::new();
    out.push(0x02);
    crate::codec::push_all(&mut out, message_id.as_slice());
    assert(out@ =~= spec_ack_frame(message_id@));
    out
}

/// The relay-to-client delivery frame `0x01 || message_id || envelope`.
pub open spec fn spec_delivery_frame(id: Seq<u8>, envelope: Seq<u8>) -> Seq<u8> {
    seq![0x01u8] + id + envelope
}

/// Server-to-client delivery frame.
pub fn delivery_frame(message_id: &[u8; 16], envelope: &[u8]) -> (out: Vec<u8>)
    ensures
        out@ == spec_delivery_frame(message_id@, envelope@),
{
    let mut out: Vec<u8> = Vec::new();
    out.push(0x01);
    crate::codec::push_all(&mut out, message_id.as_slice());
    crate::codec::push_all(&mut out, envelope);
    assert(out@ =~= spec_delivery_frame(message_id@, envelope@));
    out
}

/// Reads a delivery frame: `(message_id, envelope)`, or a malformed-frame
/// error for anything shorter than 17 bytes or not tagged `0x01`.
pub fn parse_delivery_frame(data: &[u8]) -> (r: crate::error::Result<([u8; 16], Vec<u8>)>)
    ensures
        r is Ok <==> (data@.len() >= 17 && data@[0] == 0x01),
        r matches Ok((id, env)) ==> data@ == spec_delivery_frame(id@, env@),
        r matches Err(e) ==> e == crate::error::CoreError::Malformed("bad relay delivery frame"),
{
    if data.len() < 17 || data[0] != 0x01 {
        return Err(crate::error::CoreError::Malformed("bad relay delivery frame"));
    }
    let id = take16(data, 1);
    let env = vstd::slice::slice_to_vec(&data[17..data.len()]);
    assert(data@ =~= spec_delivery_frame(id@, env@));
    Ok((id, env))
}

/// Reading an ack frame gives back the acked id.
pub proof fn law_ack_frame_roundtrip(id: Seq<u8>)
    requires
        id.len() == 16,
    ensures
        spec_ack_frame(id).len() == 17,
        spec_ack_frame(id)[0] == 0x02,
        spec_ack_frame(id).subrange(1, 17) == id,
{
    assert(spec_ack_frame(id).subrange(1, 17) =~= id);
}

/// Reading a delivery frame gives back its id and envelope.
pub proof fn law_delivery_frame_roundtrip(id: Seq<u8>, envelope: Seq<u8>)
    requires
        id.len() == 16,
    ensures
        ({
            let f = spec_delivery_frame(id, envelope);
            &&& f.len() >= 17
            &&& f[0] == 0x01
            &&& f.subrange(1, 17) == id
            &&& f.subrange(17, f.len() as int) == envelope
        }),
{
    let f = spec_delivery_frame(id, envelope);
    assert(f.subrange(1, 17) =~= id);
    assert(f.subrange(17, f.len() as int) =~= envelope);
}

/// The base64url character of a 6-bit value, as a byte.
pub open spec fn b64url_byte(v: int) -> u8 {
    if v < 26 {
        (0x41 + v) as u8
    } else if v < 52 {
        (0x61 + v - 26) as u8
    } else if v < 62 {
        (0x30 + v - 52) as u8
    } else if v == 62 {
        0x2Du8
    } else {
        0x5Fu8
    }
}

/// A byte of the base64url alphabet.
pub open spec fn is_b64url_byte(b: u8) -> bool {
    (0x41 <= b <= 0x5A) || (0x61 <= b <= 0x7A) || (0x30 <= b <= 0x39) || b == 0x2D || b == 0x5F
}

/// The base64url characters of one chunk of `cnt` (1 to 3) bytes.
pub open spec fn b64url_chunk(b0: int, b1: int, b2: int, cnt: int) -> Seq<u8> {
    let n = b0 * 65536 + b1 * 256 + b2;
    let head = seq![b64url_byte(n / 262144), b64url_byte((n / 4096) % 64)];
    let head = if cnt > 1 { head.push(b64url_byte((n / 64) % 64)) } else { head };
    if cnt > 2 { head.push(b64url_byte(n % 64)) } else { head }
}

/// Unpadded base64url of `b`, as ASCII bytes.
pub open spec fn spec_b64url(b: Seq<u8>) -> Seq<u8>
    decreases b.len(),
{
    if b.len() == 0 {
        seq![]
    } else {
        let cnt = if b.len() >= 3 { 3 } else { b.len() as int };
        let b1 = if b.len() > 1 { b[1] as int } else { 0 };
        let b2 = if b.len() > 2 { b[2] as int } else { 0 };
        let head = b64url_chunk(b[0] as int, b1, b2, cnt);
        if b.len() <= 3 {
            head
        } else {
            head + spec_b64url(b.subrange(3, b.len() as int))
        }
    }
}

/// A 43-character base64url mailbox id.
pub open spec fn spec_mailbox_id_shape_ok(b: Seq<u8>) -> bool {
    b.len() == 43 && forall|i: int| 0 <= i < b.len() ==> is_b64url_byte(b[i])
}

proof fn lemma_b64url_byte(v: int)
    requires
        0 <= v < 64,
    ensures
        is_b64url_byte(b64url_byte(v)),
        b64url_byte(v) < 128,
{
}

proof fn lemma_chunk_shape(b0: int, b1: int, b2: int, cnt: int)
    requires
        0 <= b0 < 256,
        0 <= b1 < 256,
        0 <= b2 < 256,
        1 <= cnt <= 3,
    ensures
        b64url_chunk(b0, b1, b2, cnt).len() == cnt + 1,
        forall|i: int| 0 <= i < cnt + 1 ==> is_b64url_byte(#[trigger] b64url_chunk(b0, b1, b2, cnt)[i])
            && b64url_chunk(b0, b1, b2, cnt)[i] < 128,
{
    let n = b0 * 65536 + b1 * 256 + b2;
    assert(0 <= n < 16777216);
    lemma_b64url_byte(n / 262144);
    lemma_b64url_byte((n / 4096) % 64);
    lemma_b64url_byte((n / 64) % 64);
    lemma_b64url_byte(n % 64);
}

/// Every character of a base64url encoding is in the alphabet, and the
/// length is `4 * (n / 3)` plus 0, 2 or 3.
pub proof fn lemma_b64url_shape(b: Seq<u8>)
    ensures
        forall|i: int| 0 <= i < spec_b64url(b).len() ==> is_b64url_byte(spec_b64url(b)[i]),
        ascii_bytes(spec_b64url(b)),
        spec_b64url(b).len() == 4 * (b.len() / 3) + (if b.len() % 3 == 0 {
            0int
        } else {
            (b.len() % 3 + 1) as int
        }),
    decreases b.len(),
{
    if b.len() > 0 {
        let cnt = if b.len() >= 3 { 3 } else { b.len() as int };
        let b1 = if b.len() > 1 { b[1] as int } else { 0 };
        let b2 = if b.len() > 2 { b[2] as int } else { 0 };
        lemma_chunk_shape(b[0] as int, b1, b2, cnt);
        let head = b64url_chunk(b[0] as int, b1, b2, cnt);
        if b.len() > 3 {
            let rest = b.subrange(3, b.len() as int);
            lemma_b64url_shape(rest);
            let all = spec_b64url(b);
            assert(all == head + spec_b64url(rest));
            assert forall|i: int| 0 <= i < all.len() implies is_b64url_byte(all[i]) && all[i] < 128 by {
                if i < head.len() {
                    assert(all[i] == head[i]);
                } else {
                    assert(all[i] == spec_b64url(rest)[i - head.len()]);
                }
            }
        }
    }
}

fn alphabet_byte(v: u32) -> (r: u8)
    requires
        v < 64,
    ensures
        r == b64url_byte(v as int),
{
    if v < 26 {
        (0x41 + v) as u8
    } else if v < 52 {
        (0x61 + v - 26) as u8
    } else if v < 62 {
        (0x30 + v - 52) as u8
    } else if v == 62 {
        0x2D
    } else {
        0x5F
    }
}

/// The base64url characters of one chunk.
fn chunk_bytes(b0: u8, b1: u8, b2: u8, cnt: usize) -> (out: Vec<u8>)
    requires
        1 <= cnt <= 3,
    ensures
        out@ == b64url_chunk(b0 as int, b1 as int, b2 as int, cnt as int),
{
    let n = (b0 as u32) * 65536 + (b1 as u32) * 256 + (b2 as u32);
    let mut out: Vec<u8> = Vec::new();
    out.push(alphabet_byte(n / 262144));
    out.push(alphabet_byte((n / 4096) % 64));
    if cnt > 1 {
        out.push(alphabet_byte((n / 64) % 64));
    }
    if cnt > 2 {
        out.push(alphabet_byte(n % 64));
    }
    assert(out@ =~= b64url_chunk(b0 as int, b1 as int, b2 as int, cnt as int));
    out
}

/// Unpadded base64url bytes of `bytes`.
fn b64url_bytes(bytes: &[u8]) -> (out: Vec<u8>)
    ensures
        out@ == spec_b64url(bytes@),
{
    let mut out: Vec<u8> = Vec::new();
    let mut i: usize = 0;
    assert(bytes@.subrange(0, bytes@.len() as int) =~= bytes@);
    while i < bytes.len()
        invariant
            i <= bytes@.len(),
            spec_b64url(bytes@) == out@ + spec_b64url(bytes@.subrange(i as int, bytes@.len() as int)),
        decreases bytes@.len() - i,
    {
        let ghost rest = bytes@.subrange(i as int, bytes@.len() as int);
        let left = bytes.len() - i;
        let cnt: usize = if left >= 3 { 3 } else { left };
        let b1: u8 = if left > 1 { bytes[i + 1] } else { 0 };
        let b2: u8 = if left > 2 { bytes[i + 2] } else { 0 };
        let chunk = chunk_bytes(bytes[i], b1, b2, cnt);
        let ghost before = out@;
        crate::codec::push_all(&mut out, chunk.as_slice());
        proof {
            assert(rest[0] == bytes@[i as int]);
            if left > 1 {
                assert(rest[1] == bytes@[i + 1]);
            }
            if left > 2 {
                assert(rest[2] == bytes@[i + 2]);
            }
            if left > 3 {
                assert(rest.subrange(3, rest.len() as int) =~= bytes@.subrange(i + 3, bytes@.len() as int));
                assert(spec_b64url(rest) == chunk@ + spec_b64url(bytes@.subrange(i + 3, bytes@.len() as int)));
            } else {
                assert(spec_b64url(rest) == chunk@);
                assert(bytes@.subrange(bytes@.len() as int, bytes@.len() as int) =~= Seq::<u8>::empty());
            }
        }
        if left > 3 {
            i = i + 3;
        } else {
            i = bytes.len();
        }
        assert(spec_b64url(bytes@) =~= out@ + spec_b64url(
            bytes@.subrange(i as int, bytes@.len() as int),
        ));
    }
    assert(bytes@.subrange(bytes@.len() as int, bytes@.len() as int) =~= Seq::<u8>::empty());
    assert(out@ =~= out@ + spec_b64url(Seq::<u8>::empty()));
    out
}

/// The mailbox id of 32 bytes: their unpadded base64url (43 characters).
pub open spec fn spec_mailbox_id(bytes: Seq<u8>) -> Seq<char> {
    ascii_chars(spec_b64url(bytes))
}

/// Unpadded base64url of 32 bytes: a 43-character mailbox id.
pub fn encode_mailbox_id(bytes: &[u8; 32]) -> (id: String)
    ensures
        id@ == spec_mailbox_id(bytes@),
{
    let out = b64url_bytes(bytes.as_slice());
    proof {
        lemma_b64url_shape(bytes@);
    }
    crate::text::ascii_string(out.as_slice())
}

/// Shape check for a mailbox id: exactly 43 bytes, all in the base64url
/// alphabet.
pub fn mailbox_id_shape_ok(id: &str) -> (r: bool)
    ensures
        r == spec_mailbox_id_shape_ok(id.spec_bytes()),
{
    let b = id.as_bytes();
    if b.len() != 43 {
        return false;
    }
    let mut i: usize = 0;
    while i < b.len()
        invariant
            i <= b@.len(),
            b@ == id.spec_bytes(),
            b@.len() == 43,
            forall|k: int| 0 <= k < i ==> is_b64url_byte(b@[k]),
        decreases b@.len() - i,
    {
        let c = b[i];
        if !((0x41 <= c && c <= 0x5A) || (0x61 <= c && c <= 0x7A) || (0x30 <= c && c <= 0x39) || c
            == 0x2D || c == 0x5F) {
            return false;
        }
        i = i + 1;
    }
    true
}

/// Every id the relay mints passes its own shape check.
pub proof fn law_minted_mailbox_id_is_well_shaped(bytes: Seq<u8>)
    requires
        bytes.len() == 32,
    ensures
        spec_mailbox_id(bytes).len() == 43,
        spec_mailbox_id_shape_ok(encode_utf8(spec_mailbox_id(bytes))),
{
    lemma_b64url_shape(bytes);
    lemma_ascii_encode(spec_b64url(bytes));
}

proof fn lemma_b64url_byte_injective(v: int, w: int)
    requires
        0 <= v < 64,
        0 <= w < 64,
        b64url_byte(v) == b64url_byte(w),
    ensures
        v == w,
{
}

proof fn lemma_digits3(x0: u32, x1: u32, x2: u32, y0: u32, y1: u32, y2: u32)
    by (bit_vector)
    requires
        x0 < 256 && x1 < 256 && x2 < 256 && y0 < 256 && y1 < 256 && y2 < 256,
        (x0 * 65536 + x1 * 256 + x2) / 262144 == (y0 * 65536 + y1 * 256 + y2) / 262144,
        ((x0 * 65536 + x1 * 256 + x2) / 4096) % 64 == ((y0 * 65536 + y1 * 256 + y2) / 4096) % 64,
        ((x0 * 65536 + x1 * 256 + x2) / 64) % 64 == ((y0 * 65536 + y1 * 256 + y2) / 64) % 64,
        (x0 * 65536 + x1 * 256 + x2) % 64 == (y0 * 65536 + y1 * 256 + y2) % 64,
    ensures
        x0 == y0 && x1 == y1 && x2 == y2,
{
}

proof fn lemma_digits2(x0: u32, x1: u32, y0: u32, y1: u32)
    by (bit_vector)
    requires
        x0 < 256 && x1 < 256 && y0 < 256 && y1 < 256,
        (x0 * 65536 + x1 * 256) / 262144 == (y0 * 65536 + y1 * 256) / 262144,
        ((x0 * 65536 + x1 * 256) / 4096) % 64 == ((y0 * 65536 + y1 * 256) / 4096) % 64,
        ((x0 * 65536 + x1 * 256) / 64) % 64 == ((y0 * 65536 + y1 * 256) / 64) % 64,
    ensures
        x0 == y0 && x1 == y1,
{
}

proof fn lemma_digits1(x0: u32, y0: u32)
    by (bit_vector)
    requires
        x0 < 256 && y0 < 256,
        (x0 * 65536) / 262144 == (y0 * 65536) / 262144,
        ((x0 * 65536) / 4096) % 64 == ((y0 * 65536) / 4096) % 64,
    ensures
        x0 == y0,
{
}

/// Equal chunks have equal sextets.
proof fn lemma_chunk_sextets(n: int, m: int, cnt: int)
    requires
        0 <= n < 16777216,
        0 <= m < 16777216,
        1 <= cnt <= 3,
        ({
            let ca = seq![b64url_byte(n / 262144), b64url_byte((n / 4096) % 64)];
            let ca = if cnt > 1 { ca.push(b64url_byte((n / 64) % 64)) } else { ca };
            let ca = if cnt > 2 { ca.push(b64url_byte(n % 64)) } else { ca };
            let cb = seq![b64url_byte(m / 262144), b64url_byte((m / 4096) % 64)];
            let cb = if cnt > 1 { cb.push(b64url_byte((m / 64) % 64)) } else { cb };
            let cb = if cnt > 2 { cb.push(b64url_byte(m % 64)) } else { cb };
            ca == cb
        }),
    ensures
        n / 262144 == m / 262144,
        (n / 4096) % 64 == (m / 4096) % 64,
        cnt > 1 ==> (n / 64) % 64 == (m / 64) % 64,
        cnt > 2 ==> n % 64 == m % 64,
{
    let ca0 = seq![b64url_byte(n / 262144), b64url_byte((n / 4096) % 64)];
    let ca1 = if cnt > 1 { ca0.push(b64url_byte((n / 64) % 64)) } else { ca0 };
    let ca = if cnt > 2 { ca1.push(b64url_byte(n % 64)) } else { ca1 };
    let cb0 = seq![b64url_byte(m / 262144), b64url_byte((m / 4096) % 64)];
    let cb1 = if cnt > 1 { cb0.push(b64url_byte((m / 64) % 64)) } else { cb0 };
    let cb = if cnt > 2 { cb1.push(b64url_byte(m % 64)) } else { cb1 };
    assert(ca[0] == cb[0] && ca[1] == cb[1]);
    lemma_b64url_byte_injective(n / 262144, m / 262144);
    lemma_b64url_byte_injective((n / 4096) % 64, (m / 4096) % 64);
    if cnt > 1 {
        assert(ca[2] == cb[2]);
        lemma_b64url_byte_injective((n / 64) % 64, (m / 64) % 64);
    }
    if cnt > 2 {
        assert(ca[3] == cb[3]);
        lemma_b64url_byte_injective(n % 64, m % 64);
    }
}

proof fn lemma_chunk_injective(a0: u8, a1: u8, a2: u8, b0: u8, b1: u8, b2: u8, cnt: int)
    requires
        1 <= cnt <= 3,
        cnt < 3 ==> a2 == 0 && b2 == 0,
        cnt < 2 ==> a1 == 0 && b1 == 0,
        b64url_chunk(a0 as int, a1 as int, a2 as int, cnt) == b64url_chunk(
            b0 as int,
            b1 as int,
            b2 as int,
            cnt,
        ),
    ensures
        a0 == b0 && a1 == b1 && a2 == b2,
{
    let n = a0 * 65536 + a1 * 256 + a2;
    let m = b0 * 65536 + b1 * 256 + b2;
    lemma_chunk_sextets(n, m, cnt);
    let (x0, x1, x2, y0, y1, y2) = (a0 as u32, a1 as u32, a2 as u32, b0 as u32, b1 as u32, b2 as u32);
    if cnt == 3 {
        lemma_digits3(x0, x1, x2, y0, y1, y2);
    } else if cnt == 2 {
        lemma_digits2(x0, x1, y0, y1);
    } else {
        lemma_digits1(x0, y0);
    }
}

#[verifier::rlimit(60)]
proof fn lemma_b64url_injective(a: Seq<u8>, b: Seq<u8>)
    requires
        a.len() == b.len(),
        spec_b64url(a) == spec_b64url(b),
    ensures
        a == b,
    decreases a.len(),
{
    if a.len() > 0 {
        let cnt = if a.len() >= 3 { 3 } else { a.len() as int };
        let a1: u8 = if a.len() > 1 { a[1] } else { 0 };
        let a2: u8 = if a.len() > 2 { a[2] } else { 0 };
        let b1: u8 = if b.len() > 1 { b[1] } else { 0 };
        let b2: u8 = if b.len() > 2 { b[2] } else { 0 };
        let ha = b64url_chunk(a[0] as int, a1 as int, a2 as int, cnt);
        let hb = b64url_chunk(b[0] as int, b1 as int, b2 as int, cnt);
        lemma_chunk_shape(a[0] as int, a1 as int, a2 as int, cnt);
        lemma_chunk_shape(b[0] as int, b1 as int, b2 as int, cnt);
        if a.len() <= 3 {
            lemma_chunk_injective(a[0], a1, a2, b[0], b1, b2, cnt);
            assert(a =~= b);
        } else {
            let ra = a.subrange(3, a.len() as int);
            let rb = b.subrange(3, b.len() as int);
            assert(spec_b64url(a) == ha + spec_b64url(ra));
            assert(spec_b64url(b) == hb + spec_b64url(rb));
            assert(ha =~= spec_b64url(a).subrange(0, 4));
            assert(hb =~= spec_b64url(b).subrange(0, 4));
            lemma_chunk_injective(a[0], a1, a2, b[0], b1, b2, cnt);
            assert(spec_b64url(ra) =~= spec_b64url(a).subrange(4, spec_b64url(a).len() as int));
            assert(spec_b64url(rb) =~= spec_b64url(b).subrange(4, spec_b64url(b).len() as int));
            lemma_b64url_injective(ra, rb);
            assert forall|i: int| 0 <= i < a.len() implies a[i] == b[i] by {
                if i >= 3 {
                    assert(a[i] == ra[i - 3] && b[i] == rb[i - 3]);
                }
            }
            assert(a =~= b);
        }
    }
}

/// Different bytes give different mailbox ids: the encoding is injective.
pub proof fn law_mailbox_id_injective(a: Seq<u8>, b: Seq<u8>)
    requires
        a.len() == 32,
        b.len() == 32,
        a != b,
    ensures
        spec_mailbox_id(a) != spec_mailbox_id(b),
{
    if spec_mailbox_id(a) == spec_mailbox_id(b) {
        lemma_b64url_shape(a);
        lemma_b64url_shape(b);
        let ea = spec_b64url(a);
        let eb = spec_b64url(b);
        assert forall|i: int| 0 <= i < ea.len() implies ea[i] == eb[i] by {
            assert(spec_mailbox_id(a)[i] == spec_mailbox_id(b)[i]);
            assert(ascii_chars(ea)[i] == ea[i] as char);
        }
        assert(ea =~= eb);
        lemma_b64url_injective(a, b);
    }
}

} // verus!
