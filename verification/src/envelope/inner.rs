//! Inner frame: typed, versioned, padded plaintext fed into the ratchet.
//!
//! ```text
//! payload_type (1) | type_version (1) | payload_len u32 BE (4) | payload | 0x00 padding to bucket
//! ```

use vstd::prelude::*;
use vstd::string::StringSliceAdditionalSpecFns;
use vstd::utf8::{decode_utf8, valid_utf8};

use crate::codec::{be32, from_be32, lemma_be32_canonical};
use crate::config::{
    lemma_bucket_for_fits, profile_wf, spec_bucket_for, spec_max_payload, PaddingProfile,
    INNER_HEADER_LEN_U32,
};
use crate::error::{CoreError, Result};

verus! {

/// Inner-frame header length in bytes.
pub const INNER_HEADER_LEN: usize = 6;

/// Payload type registry.
#[derive(Debug, Clone, Copy, PartialEq, Eq, Structural)]
pub enum PayloadType {
    /// Human chat; `chat/1` payload is UTF-8 text.
    Chat,
    /// Device posture report (reserved, first-class).
    Posture,
    /// Policy push (reserved, first-class).
    Policy,
    /// Appliance alert (reserved, first-class).
    Alert,
}

/// The wire byte of a payload type.
pub open spec fn payload_type_byte(t: PayloadType) -> u8 {
    match t {
        PayloadType::Chat => 0x01,
        PayloadType::Posture => 0x02,
        PayloadType::Policy => 0x03,
        PayloadType::Alert => 0x04,
    }
}

/// The payload type a wire byte names.
pub open spec fn spec_payload_type(b: u8) -> core::result::Result<PayloadType, CoreError> {
    if b == 0x01 {
        Ok(PayloadType::Chat)
    } else if b == 0x02 {
        Ok(PayloadType::Posture)
    } else if b == 0x03 {
        Ok(PayloadType::Policy)
    } else if b == 0x04 {
        Ok(PayloadType::Alert)
    } else {
        Err(CoreError::UnknownPayloadType { got: b })
    }
}

impl PayloadType {
    /// The wire byte of this payload type.
    pub fn to_byte(self) -> (b: u8)
        ensures
            b == payload_type_byte(self),
    {
        match self {
            PayloadType::Chat => 0x01,
            PayloadType::Posture => 0x02,
            PayloadType::Policy => 0x03,
            PayloadType::Alert => 0x04,
        }
    }

    /// The payload type a wire byte names.
    pub fn from_byte(b: u8) -> (r: Result<PayloadType>)
        ensures
            r == spec_payload_type(b),
    {
        if b == 0x01 {
            Ok(PayloadType::Chat)
        } else if b == 0x02 {
            Ok(PayloadType::Posture)
        } else if b == 0x03 {
            Ok(PayloadType::Policy)
        } else if b == 0x04 {
            Ok(PayloadType::Alert)
        } else {
            Err(CoreError::UnknownPayloadType { got: b })
        }
    }
}

/// `n` zero bytes.
pub open spec fn zeros(n: int) -> Seq<u8> {
    Seq::new(n as nat, |i: int| 0u8)
}

/// The frame bytes for a payload padded to `bucket`.
pub open spec fn spec_frame_bytes(t: PayloadType, v: u8, payload: Seq<u8>, bucket: u32) -> Seq<u8> {
    seq![payload_type_byte(t), v] + be32(payload.len() as u32) + payload + zeros(
        bucket - INNER_HEADER_LEN - payload.len(),
    )
}

/// What encoding a frame with profile buckets `bs` gives.
pub open spec fn spec_encode_inner(t: PayloadType, v: u8, payload: Seq<u8>, bs: Seq<u32>) -> core::result::Result<
    Seq<u8>,
    CoreError,
> {
    if payload.len() > u32::MAX {
        Err(CoreError::Malformed("payload exceeds u32"))
    } else if payload.len() > spec_max_payload(bs) {
        Err(
            CoreError::PayloadTooLarge {
                len: payload.len() as u32,
                max: spec_max_payload(bs) as u32,
            },
        )
    } else {
        match spec_bucket_for(bs, INNER_HEADER_LEN + payload.len()) {
            None => Err(CoreError::Malformed("no bucket fits frame")),
            Some(bucket) => Ok(spec_frame_bytes(t, v, payload, bucket)),
        }
    }
}

/// Every byte from `from` on is zero.
pub open spec fn zero_from(b: Seq<u8>, from: int) -> bool {
    forall|i: int| from <= i < b.len() ==> b[i] == 0
}

/// What parsing a decrypted frame with profile buckets `bs` gives.
pub open spec fn spec_parse_inner(b: Seq<u8>, bs: Seq<u32>) -> core::result::Result<
    (PayloadType, u8, Seq<u8>),
    CoreError,
> {
    if b.len() > u32::MAX {
        Err(CoreError::Malformed("frame exceeds u32"))
    } else if !bs.contains(b.len() as u32) {
        Err(CoreError::InvalidBucket { frame_len: b.len() as u32 })
    } else {
        match spec_payload_type(b[0]) {
            Err(e) => Err(e),
            Ok(t) => {
                let end = INNER_HEADER_LEN + from_be32(b.subrange(2, 6));
                if end > usize::MAX {
                    Err(CoreError::Malformed("payload length overflow"))
                } else if end > b.len() {
                    Err(CoreError::Malformed("payload length exceeds frame"))
                } else if !zero_from(b, end) {
                    Err(CoreError::InvalidPadding)
                } else {
                    Ok((t, b[1], b.subrange(INNER_HEADER_LEN as int, end)))
                }
            },
        }
    }
}

/// Whether every byte from `from` on is zero.
fn all_zero_from(bytes: &[u8], from: usize) -> (r: bool)
    requires
        from <= bytes@.len(),
    ensures
        r == zero_from(bytes@, from as int),
{
    let mut i = from;
    while i < bytes.len()
        invariant
            from <= i <= bytes@.len(),
            forall|k: int| from <= k < i ==> bytes@[k] == 0,
        decreases bytes@.len() - i,
    {
        if bytes[i] != 0x00 {
            return false;
        }
        i = i + 1;
    }
    true
}

/// A typed, versioned payload frame (pre-padding representation).
#[derive(Debug, Clone, PartialEq, Eq)]
pub struct InnerFrame {
    /// Payload type from the registry.
    pub payload_type: PayloadType,
    /// Version of that payload type.
    pub type_version: u8,
    /// The payload bytes.
    pub payload: Vec<u8>,
}

impl InnerFrame {
    /// A `chat/1` frame carrying the UTF-8 bytes of `text`.
    pub fn chat_v1(text: &str) -> (f: Self)
        ensures
            f.payload_type == PayloadType::Chat,
            f.type_version == 1,
            f.payload@ == text.spec_bytes(),
    {
        InnerFrame {
            payload_type: PayloadType::Chat,
            type_version: 1,
            payload: vstd::slice::slice_to_vec(text.as_bytes()),
        }
    }

    /// Encodes and pads to the smallest fitting bucket of `profile`;
    /// an oversize payload fails before anything else runs.
    pub fn encode(&self, profile: &PaddingProfile) -> (r: Result<Vec<u8>>)
        ensures
            r matches Ok(out) ==> spec_encode_inner(
                self.payload_type,
                self.type_version,
                self.payload@,
                profile@,
            ) == Ok::<_, CoreError>(out@),
            r matches Err(e) ==> spec_encode_inner(
                self.payload_type,
                self.type_version,
                self.payload@,
                profile@,
            ) == Err::<Seq<u8>, _>(e),
    {
        profile.check_wf();
        if self.payload.len() > 0xFFFF_FFFFusize {
            return Err(CoreError::Malformed("payload exceeds u32"));
        }
        let len = self.payload.len() as u32;
        let max = profile.max_payload();
        if len > max {
            return Err(CoreError::PayloadTooLarge { len, max });
        }
        let frame_len = INNER_HEADER_LEN_U32 + len;
        let bucket = match profile.bucket_for(frame_len) {
            Some(b) => b,
            None => return Err(CoreError::Malformed("no bucket fits frame")),
        };
        proof {
            lemma_bucket_for_fits(profile@, frame_len as int);
        }
        let mut out: Vec<u8> = Vec::new();
        out.push(self.payload_type.to_byte());
        out.push(self.type_version);
        crate::codec::push_be32(&mut out, len);
        crate::codec::push_all(&mut out, self.payload.as_slice());
        let ghost body = out@;
        while out.len() < bucket as usize
            invariant
                body.len() <= out@.len() <= bucket,
                out@ == body + zeros(out@.len() - body.len()),
            decreases bucket - out@.len(),
        {
            out.push(0x00);
            assert(out@ =~= body + zeros(out@.len() - body.len()));
        }
        assert(out@ =~= spec_frame_bytes(self.payload_type, self.type_version, self.payload@, bucket));
        Ok(out)
    }

    /// Parses a decrypted frame: total length exactly one configured
    /// bucket, declared length within the frame, every padding byte zero.
    pub fn parse(bytes: &[u8], profile: &PaddingProfile) -> (r: Result<InnerFrame>)
        ensures
            r matches Ok(f) ==> spec_parse_inner(bytes@, profile@) == Ok::<_, CoreError>(
                (f.payload_type, f.type_version, f.payload@),
            ),
            r matches Err(e) ==> spec_parse_inner(bytes@, profile@) == Err::<
                (PayloadType, u8, Seq<u8>),
                _,
            >(e),
    {
        profile.check_wf();
        if bytes.len() > 0xFFFF_FFFFusize {
            return Err(CoreError::Malformed("frame exceeds u32"));
        }
        let frame_len = bytes.len() as u32;
        if !profile.is_bucket(frame_len) {
            return Err(CoreError::InvalidBucket { frame_len });
        }
        proof {
            let i = choose|i: int| 0 <= i < profile@.len() && profile@[i] == frame_len;
            if i > 0 {
                assert(profile@[0] < profile@[i]);
            }
        }
        let payload_type = match PayloadType::from_byte(bytes[0]) {
            Ok(t) => t,
            Err(e) => return Err(e),
        };
        let type_version = bytes[1];
        let declared = crate::codec::read_be32(bytes, 2) as usize;
        if declared > usize::MAX - INNER_HEADER_LEN {
            return Err(CoreError::Malformed("payload length overflow"));
        }
        let end = INNER_HEADER_LEN + declared;
        if end > bytes.len() {
            return Err(CoreError::Malformed("payload length exceeds frame"));
        }
        if !all_zero_from(bytes, end) {
            return Err(CoreError::InvalidPadding);
        }
        let payload = vstd::slice::slice_to_vec(&bytes[INNER_HEADER_LEN..end]);
        Ok(InnerFrame { payload_type, type_version, payload })
    }

    /// Extracts the UTF-8 text of a `chat/1` frame; registry-valid
    /// non-chat frames are recognized but unsupported.
    pub fn into_chat_v1(self) -> (r: Result<String>)
        ensures
            (self.payload_type == PayloadType::Chat && self.type_version == 1) ==> {
                &&& r is Ok <==> valid_utf8(self.payload@)
                &&& r matches Ok(s) ==> s@ == decode_utf8(self.payload@)
                &&& r matches Err(e) ==> e == CoreError::Malformed("chat payload is not valid UTF-8")
            },
            !(self.payload_type == PayloadType::Chat && self.type_version == 1) ==> (r matches Err(e)
                && e == (CoreError::RecognizedButUnsupported {
                payload_type: self.payload_type,
                type_version: self.type_version,
            })),
    {
        match (self.payload_type, self.type_version) {
            (PayloadType::Chat, 1) => match crate::text::utf8_string(self.payload.as_slice()) {
                Some(s) => Ok(s),
                None => Err(CoreError::Malformed("chat payload is not valid UTF-8")),
            },
            (payload_type, type_version) => Err(
                CoreError::RecognizedButUnsupported { payload_type, type_version },
            ),
        }
    }
}

/// The length of an encoded frame is exactly one of the profile's buckets.
pub proof fn law_inner_encoded_length_is_bucket(t: PayloadType, v: u8, payload: Seq<u8>, bs: Seq<u32>)
    requires
        profile_wf(bs),
    ensures
        spec_encode_inner(t, v, payload, bs) matches Ok(out) ==> out.len() <= u32::MAX && bs.contains(out.len() as u32),
{
    if let Ok(out) = spec_encode_inner(t, v, payload, bs) {
        lemma_bucket_for_fits(bs, INNER_HEADER_LEN + payload.len());
    }
}

/// Encoding fails exactly on payloads larger than the profile's maximum.
pub proof fn law_inner_encode_succeeds_within_max(t: PayloadType, v: u8, payload: Seq<u8>, bs: Seq<u32>)
    requires
        profile_wf(bs),
    ensures
        spec_encode_inner(t, v, payload, bs) is Ok <==> payload.len() <= spec_max_payload(bs),
{
    if payload.len() <= spec_max_payload(bs) {
        lemma_bucket_for_fits(bs, INNER_HEADER_LEN + payload.len());
    }
}

/// Parsing an encoded frame gives the frame back.
pub proof fn law_inner_roundtrip(t: PayloadType, v: u8, payload: Seq<u8>, bs: Seq<u32>)
    requires
        profile_wf(bs),
    ensures
        spec_encode_inner(t, v, payload, bs) matches Ok(out) ==> spec_parse_inner(out, bs)
            == Ok::<_, CoreError>((t, v, payload)),
{
    if let Ok(out) = spec_encode_inner(t, v, payload, bs) {
        lemma_bucket_for_fits(bs, INNER_HEADER_LEN + payload.len());
        let n = payload.len() as u32;
        crate::codec::lemma_be32_roundtrip(n);
        assert(out.subrange(2, 6) =~= be32(n));
        assert(out[0] == payload_type_byte(t));
        assert(out.subrange(INNER_HEADER_LEN as int, INNER_HEADER_LEN + payload.len()) =~= payload);
        assert(zero_from(out, INNER_HEADER_LEN + payload.len()));
    }
}

/// A frame that parses re-encodes, and the re-encoding parses to the same
/// frame.
pub proof fn law_inner_parsed_reencodes(b: Seq<u8>, bs: Seq<u32>)
    requires
        profile_wf(bs),
    ensures
        spec_parse_inner(b, bs) matches Ok((t, v, payload)) ==> {
            &&& spec_encode_inner(t, v, payload, bs) is Ok
            &&& spec_parse_inner(spec_encode_inner(t, v, payload, bs)->Ok_0, bs) == Ok::<_, CoreError>(
                (t, v, payload),
            )
        },
{
    if let Ok((t, v, payload)) = spec_parse_inner(b, bs) {
        let i = choose|i: int| 0 <= i < bs.len() && bs[i] == b.len() as u32;
        if i < bs.len() - 1 {
            assert(bs[i] < bs[bs.len() - 1]);
        }
        law_inner_encode_succeeds_within_max(t, v, payload, bs);
        law_inner_roundtrip(t, v, payload, bs);
    }
}

/// A frame parses only with every byte after its declared payload zero,
/// and a frame that parses is, byte for byte, the encoding of its parsed
/// fields padded to its own length.
pub proof fn law_inner_parse_needs_zero_padding(b: Seq<u8>, bs: Seq<u32>)
    ensures
        spec_parse_inner(b, bs) is Ok ==> forall|i: int|
            INNER_HEADER_LEN + from_be32(b.subrange(2, 6)) <= i < b.len() ==> #[trigger] b[i] == 0u8,
        spec_parse_inner(b, bs) matches Ok((t, v, payload)) ==> b == spec_frame_bytes(
            t,
            v,
            payload,
            b.len() as u32,
        ),
{
    if let Ok((t, v, payload)) = spec_parse_inner(b, bs) {
        let end = INNER_HEADER_LEN + from_be32(b.subrange(2, 6));
        lemma_be32_canonical(b.subrange(2, 6));
        assert(payload.len() == end - INNER_HEADER_LEN);
        let f = spec_frame_bytes(t, v, payload, b.len() as u32);
        assert(payload_type_byte(t) == b[0]);
        assert forall|i: int| 0 <= i < b.len() implies f[i] == b[i] by {
            if 2 <= i < 6 {
                assert(be32(payload.len() as u32)[i - 2] == b.subrange(2, 6)[i - 2]);
            }
        }
        assert(f =~= b);
    }
}

} // verus!
