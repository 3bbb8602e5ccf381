//! Outer envelope: the only bytes a relay or wire observer ever sees.
//!
//! ```text
//! magic "TZCA" (4) | version (1) | kind (1) | reserved 0x0000 (2) | ciphertext (..)
//! ```

mod inner;

pub use inner::{
    law_inner_encode_succeeds_within_max, law_inner_encoded_length_is_bucket, law_inner_parsed_reencodes,
    law_inner_roundtrip, payload_type_byte, spec_encode_inner, spec_frame_bytes, spec_parse_inner,
    spec_payload_type, zero_from, zeros, InnerFrame, PayloadType, INNER_HEADER_LEN,
};

use vstd::prelude::*;

use crate::error::{CoreError, Result};

verus! {

/// Protocol version implemented by this build.
pub const VERSION: u8 = 1;

/// Outer header length in bytes.
pub const OUTER_HEADER_LEN: usize = 8;

/// The envelope magic `"TZCA"`.
pub open spec fn magic() -> Seq<u8> {
    seq![0x54u8, 0x5Au8, 0x43u8, 0x41u8]
}

/// What the ciphertext is.
#[derive(Debug, Clone, Copy, PartialEq, Eq, Structural)]
pub enum EnvelopeKind {
    /// A session-setup message.
    SessionSetup,
    /// An established-session ratchet message.
    Ratchet,
}

/// The wire byte of a kind.
pub open spec fn kind_byte(k: EnvelopeKind) -> u8 {
    match k {
        EnvelopeKind::SessionSetup => 0x01,
        EnvelopeKind::Ratchet => 0x02,
    }
}

/// The kind a wire byte names.
pub open spec fn spec_kind_from_byte(b: u8) -> core::result::Result<EnvelopeKind, CoreError> {
    if b == 0x01 {
        Ok(EnvelopeKind::SessionSetup)
    } else if b == 0x02 {
        Ok(EnvelopeKind::Ratchet)
    } else {
        Err(CoreError::UnknownEnvelopeKind { got: b })
    }
}

impl EnvelopeKind {
    /// The wire byte of this kind.
    pub fn to_byte(self) -> (b: u8)
        ensures
            b == kind_byte(self),
    {
        match self {
            EnvelopeKind::SessionSetup => 0x01,
            EnvelopeKind::Ratchet => 0x02,
        }
    }

    /// The kind a wire byte names.
    pub fn from_byte(b: u8) -> (r: Result<EnvelopeKind>)
        ensures
            r == spec_kind_from_byte(b),
    {
        if b == 0x01 {
            Ok(EnvelopeKind::SessionSetup)
        } else if b == 0x02 {
            Ok(EnvelopeKind::Ratchet)
        } else {
            Err(CoreError::UnknownEnvelopeKind { got: b })
        }
    }
}

/// The wire bytes of an envelope.
pub open spec fn spec_envelope_bytes(k: EnvelopeKind, ciphertext: Seq<u8>) -> Seq<u8> {
    magic() + seq![VERSION, kind_byte(k), 0u8, 0u8] + ciphertext
}

/// What parsing `b` gives: kind and ciphertext, or the error.
pub open spec fn spec_parse_envelope(b: Seq<u8>) -> core::result::Result<
    (EnvelopeKind, Seq<u8>),
    CoreError,
> {
    if b.len() <= OUTER_HEADER_LEN {
        Err(CoreError::Malformed("envelope too short"))
    } else if b.subrange(0, 4) != magic() {
        Err(CoreError::Malformed("bad envelope magic"))
    } else if b[4] != VERSION {
        Err(CoreError::UnsupportedVersion { got: b[4] })
    } else {
        match spec_kind_from_byte(b[5]) {
            Err(e) => Err(e),
            Ok(k) => if b[6] != 0 || b[7] != 0 {
                Err(CoreError::ReservedMustBeZero)
            } else {
                Ok((k, b.subrange(OUTER_HEADER_LEN as int, b.len() as int)))
            },
        }
    }
}

/// A parsed (or to-be-encoded) outer envelope.
#[derive(Debug, Clone, PartialEq, Eq)]
pub struct Envelope {
    /// Ciphertext kind.
    pub kind: EnvelopeKind,
    /// The ciphertext bytes.
    pub ciphertext: Vec<u8>,
}

impl Envelope {
    /// Encodes the envelope to wire bytes.
    pub fn encode(&self) -> (out: Vec<u8>)
        ensures
            out@ == spec_envelope_bytes(self.kind, self.ciphertext@),
    {
        let mut out: Vec<u8> = Vec::new();
        out.push(0x54);
        out.push(0x5A);
        out.push(0x43);
        out.push(0x41);
        out.push(VERSION);
        out.push(self.kind.to_byte());
        out.push(0x00);
        out.push(0x00);
        crate::codec::push_all(&mut out, self.ciphertext.as_slice());
        assert(out@ =~= spec_envelope_bytes(self.kind, self.ciphertext@));
        out
    }

    /// Parses wire bytes; every failure is a typed rejection.
    pub fn parse(bytes: &[u8]) -> (r: Result<Envelope>)
        ensures
            r matches Ok(e) ==> spec_parse_envelope(bytes@) == Ok::<_, CoreError>((e.kind, e.ciphertext@)),
            r matches Err(e) ==> spec_parse_envelope(bytes@) == Err::<(EnvelopeKind, Seq<u8>), _>(e),
    {
        if bytes.len() <= OUTER_HEADER_LEN {
            return Err(CoreError::Malformed("envelope too short"));
        }
        if !(bytes[0] == 0x54 && bytes[1] == 0x5A && bytes[2] == 0x43 && bytes[3] == 0x41) {
            proof {
                if bytes@.subrange(0, 4) == magic() {
                    assert(bytes@[0] == bytes@.subrange(0, 4)[0]);
                    assert(bytes@[1] == bytes@.subrange(0, 4)[1]);
                    assert(bytes@[2] == bytes@.subrange(0, 4)[2]);
                    assert(bytes@[3] == bytes@.subrange(0, 4)[3]);
                }
            }
            return Err(CoreError::Malformed("bad envelope magic"));
        }
        assert(bytes@.subrange(0, 4) =~= magic());
        if bytes[4] != VERSION {
            return Err(CoreError::UnsupportedVersion { got: bytes[4] });
        }
        let kind = match EnvelopeKind::from_byte(bytes[5]) {
            Ok(k) => k,
            Err(e) => return Err(e),
        };
        if bytes[6] != 0 || bytes[7] != 0 {
            return Err(CoreError::ReservedMustBeZero);
        }
        let ciphertext = vstd::slice::slice_to_vec(&bytes[OUTER_HEADER_LEN..bytes.len()]);
        Ok(Envelope { kind, ciphertext })
    }
}

/// Parsing an encoded envelope gives it back (for a non-empty ciphertext).
pub proof fn law_envelope_roundtrip(k: EnvelopeKind, ciphertext: Seq<u8>)
    requires
        ciphertext.len() > 0,
    ensures
        spec_parse_envelope(spec_envelope_bytes(k, ciphertext)) == Ok::<_, CoreError>((k, ciphertext)),
{
    let b = spec_envelope_bytes(k, ciphertext);
    assert(b.subrange(0, 4) =~= magic());
    assert(b.subrange(OUTER_HEADER_LEN as int, b.len() as int) =~= ciphertext);
}

/// Whatever parses re-encodes to exactly the same bytes.
pub proof fn law_envelope_canonical(b: Seq<u8>)
    ensures
        spec_parse_envelope(b) matches Ok((k, ciphertext)) ==> spec_envelope_bytes(k, ciphertext)
            == b,
{
    if let Ok((k, ct)) = spec_parse_envelope(b) {
        assert(b.subrange(0, 4) == magic());
        assert(b[0] == b.subrange(0, 4)[0]);
        assert(b[1] == b.subrange(0, 4)[1]);
        assert(b[2] == b.subrange(0, 4)[2]);
        assert(b[3] == b.subrange(0, 4)[3]);
        assert(kind_byte(k) == b[5]);
        assert(spec_envelope_bytes(k, ct) =~= b);
    }
}

} // verus!
