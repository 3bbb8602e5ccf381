//! Typed errors: every malformed or unexpected wire input maps to a variant
//! here, never to a panic.

use vstd::prelude::*;

use vstd::string::StringExecFns;

use crate::envelope::PayloadType;
use crate::text::{ascii_bytes, ascii_chars, ascii_string};

verus! {

/// Why a pairing offer fell outside its embedded validity window.
#[derive(Debug, Clone, Copy, PartialEq, Eq, Structural)]
pub enum OfferExpiryDetail {
    /// `now >= issued_at + ttl_s`: the offer's lifetime has elapsed.
    Expired,
    /// `issued_at > now + FUTURE_SKEW_S`: dated beyond the future-skew grace.
    NotYetValid,
}

/// Errors produced by the library.
#[derive(Debug)]
#[non_exhaustive]
pub enum CoreError {
    /// A versioned payload carries a version this client does not speak.
    UnsupportedVersion {
        /// The version byte received.
        got: u8,
    },
    /// Outer envelope kind byte is not a known kind.
    UnknownEnvelopeKind {
        /// The kind byte received.
        got: u8,
    },
    /// Reserved header bytes were non-zero (must be zero in v1).
    ReservedMustBeZero,
    /// Structurally invalid input (truncated, bad magic, bad lengths).
    Malformed(&'static str),
    /// Inner frame payload type byte is outside the registry.
    UnknownPayloadType {
        /// The payload type byte received.
        got: u8,
    },
    /// A registry-valid payload type/version this build does not implement.
    RecognizedButUnsupported {
        /// The recognized payload type.
        payload_type: PayloadType,
        /// The version of that payload type.
        type_version: u8,
    },
    /// Inner frame padding contained non-zero bytes.
    InvalidPadding,
    /// Inner frame length is not exactly a configured bucket size.
    InvalidBucket {
        /// The decrypted frame length.
        frame_len: u32,
    },
    /// Payload exceeds the largest configured bucket.
    PayloadTooLarge {
        /// Requested payload length.
        len: u32,
        /// Maximum payload length for the active padding profile.
        max: u32,
    },
    /// Duplicate delivery of an already-decrypted message.
    Replay,
    /// The database could not be opened with the supplied key.
    BadDbKey,
    /// Underlying storage failure.
    Storage(String),
    /// The relay could not be reached.
    Network(String),
    /// The single-use pairing inbox referenced by a scanned payload is gone.
    PairingUnavailable,
    /// A scanned offer is outside its embedded validity window.
    OfferExpired {
        /// The offer's embedded mint time (Unix seconds, offerer clock).
        issued_at: u64,
        /// The offer's embedded time-to-live in seconds.
        ttl_s: u32,
        /// The acceptor clock at evaluation (Unix seconds).
        now: u64,
        /// Which validity bound failed.
        detail: OfferExpiryDetail,
    },
    /// An offer's trailing signature did not verify over the wire prefix.
    OfferSignatureInvalid,
    /// The proof-of-scan MAC over the responder's bundle did not verify.
    ProofOfScanFailed,
    /// Recovery has exhausted its generation window or its probe cycles.
    ConversationNeedsRepair,
    /// Underlying protocol-library failure.
    Signal(String),
}

/// Crate-wide result type.
pub type Result<T> = core::result::Result<T, CoreError>;

/// The ASCII decimal digits of `n`.
pub open spec fn decimal_digits(n: nat) -> Seq<u8>
    decreases n,
{
    if n < 10 {
        seq![(48 + n) as u8]
    } else {
        decimal_digits(n / 10).push((48 + n % 10) as u8)
    }
}

/// The decimal rendering of `n`.
pub open spec fn decimal(n: nat) -> Seq<char> {
    ascii_chars(decimal_digits(n))
}

proof fn lemma_decimal_ascii(n: nat)
    ensures
        ascii_bytes(decimal_digits(n)),
    decreases n,
{
    if n >= 10 {
        lemma_decimal_ascii(n / 10);
    }
}

fn push_decimal(out: &mut Vec<u8>, n: u64)
    ensures
        final(out)@ == old(out)@ + decimal_digits(n as nat),
    decreases n,
{
    if n < 10 {
        out.push((48 + n) as u8);
        assert(final(out)@ =~= old(out)@ + decimal_digits(n as nat));
    } else {
        push_decimal(out, n / 10);
        out.push((48 + n % 10) as u8);
        assert(out@ =~= old(out)@ + decimal_digits(n as nat));
    }
}

/// The decimal rendering of `n` as a string.
pub fn decimal_string(n: u64) -> (s: String)
    ensures
        s@ == decimal(n as nat),
{
    let mut digits: Vec<u8> = Vec::new();
    push_decimal(&mut digits, n);
    assert(digits@ =~= decimal_digits(n as nat));
    proof {
        lemma_decimal_ascii(n as nat);
    }
    ascii_string(digits.as_slice())
}

/// The name of a payload type, as its debug rendering shows it.
pub open spec fn payload_type_name(t: PayloadType) -> Seq<char> {
    match t {
        PayloadType::Chat => "Chat"@,
        PayloadType::Posture => "Posture"@,
        PayloadType::Policy => "Policy"@,
        PayloadType::Alert => "Alert"@,
    }
}

/// The name of an expiry detail, as its debug rendering shows it.
pub open spec fn expiry_detail_name(d: OfferExpiryDetail) -> Seq<char> {
    match d {
        OfferExpiryDetail::Expired => "Expired"@,
        OfferExpiryDetail::NotYetValid => "NotYetValid"@,
    }
}

/// The human-readable message of an error.
pub open spec fn spec_message(e: &CoreError) -> Seq<char> {
    match e {
        CoreError::UnsupportedVersion { got } => "unsupported version "@ + decimal(*got as nat),
        CoreError::UnknownEnvelopeKind { got } => "unknown envelope kind "@ + decimal(*got as nat),
        CoreError::ReservedMustBeZero => "reserved envelope bytes must be zero in v1"@,
        CoreError::Malformed(m) => "malformed input: "@ + m@,
        CoreError::UnknownPayloadType { got } => "unknown payload type "@ + decimal(*got as nat),
        CoreError::RecognizedButUnsupported { payload_type, type_version } =>
            "recognized but unsupported payload "@ + payload_type_name(*payload_type) + "/"@
                + decimal(*type_version as nat),
        CoreError::InvalidPadding => "invalid padding"@,
        CoreError::InvalidBucket { frame_len } => "frame length "@ + decimal(*frame_len as nat)
            + " is not a configured bucket"@,
        CoreError::PayloadTooLarge { len, max } => "payload of "@ + decimal(*len as nat)
            + " bytes exceeds maximum "@ + decimal(*max as nat),
        CoreError::Replay => "replayed message rejected"@,
        CoreError::BadDbKey => "database key rejected"@,
        CoreError::Storage(m) => "storage error: "@ + m@,
        CoreError::Network(m) => "network error: "@ + m@,
        CoreError::PairingUnavailable => "pairing inbox unavailable (consumed or expired)"@,
        CoreError::OfferExpired { issued_at, ttl_s, now, detail } =>
            "pairing offer outside validity (issued_at "@ + decimal(*issued_at as nat) + ", ttl "@
                + decimal(*ttl_s as nat) + " s, now "@ + decimal(*now as nat) + ", "@
                + expiry_detail_name(*detail) + ")"@,
        CoreError::OfferSignatureInvalid => "pairing offer signature invalid"@,
        CoreError::ProofOfScanFailed => "proof-of-scan verification failed"@,
        CoreError::ConversationNeedsRepair => "conversation needs repair (recovery exhausted)"@,
        CoreError::Signal(m) => "protocol error: "@ + m@,
    }
}

fn payload_type_name_string(t: PayloadType) -> (s: String)
    ensures
        s@ == payload_type_name(t),
{
    match t {
        PayloadType::Chat => "Chat".to_owned(),
        PayloadType::Posture => "Posture".to_owned(),
        PayloadType::Policy => "Policy".to_owned(),
        PayloadType::Alert => "Alert".to_owned(),
    }
}

fn expiry_detail_name_string(d: OfferExpiryDetail) -> (s: String)
    ensures
        s@ == expiry_detail_name(d),
{
    match d {
        OfferExpiryDetail::Expired => "Expired".to_owned(),
        OfferExpiryDetail::NotYetValid => "NotYetValid".to_owned(),
    }
}

/// `prefix` followed by `rest`.
fn joined(prefix: &str, rest: &str) -> (s: String)
    ensures
        s@ == prefix@ + rest@,
{
    let mut s = prefix.to_owned();
    s.append(rest);
    s
}

impl CoreError {
    /// The human-readable message of this error.
    pub fn to_string(&self) -> (s: String)
        ensures
            s@ == spec_message(self),
    {
        match self {
            CoreError::UnsupportedVersion { got } => joined(
                "unsupported version ",
                decimal_string(*got as u64).as_str(),
            ),
            CoreError::UnknownEnvelopeKind { got } => joined(
                "unknown envelope kind ",
                decimal_string(*got as u64).as_str(),
            ),
            CoreError::ReservedMustBeZero => "reserved envelope bytes must be zero in v1".to_owned(),
            CoreError::Malformed(m) => joined("malformed input: ", m),
            CoreError::UnknownPayloadType { got } => joined(
                "unknown payload type ",
                decimal_string(*got as u64).as_str(),
            ),
            CoreError::RecognizedButUnsupported { payload_type, type_version } => {
                let mut s = joined(
                    "recognized but unsupported payload ",
                    payload_type_name_string(*payload_type).as_str(),
                );
                s.append("/");
                s.append(decimal_string(*type_version as u64).as_str());
                s
            },
            CoreError::InvalidPadding => "invalid padding".to_owned(),
            CoreError::InvalidBucket { frame_len } => {
                let mut s = joined("frame length ", decimal_string(*frame_len as u64).as_str());
                s.append(" is not a configured bucket");
                s
            },
            CoreError::PayloadTooLarge { len, max } => {
                let mut s = joined("payload of ", decimal_string(*len as u64).as_str());
                s.append(" bytes exceeds maximum ");
                s.append(decimal_string(*max as u64).as_str());
                s
            },
            CoreError::Replay => "replayed message rejected".to_owned(),
            CoreError::BadDbKey => "database key rejected".to_owned(),
            CoreError::Storage(m) => joined("storage error: ", m.as_str()),
            CoreError::Network(m) => joined("network error: ", m.as_str()),
            CoreError::PairingUnavailable => "pairing inbox unavailable (consumed or expired)".to_owned(),
            CoreError::OfferExpired { issued_at, ttl_s, now, detail } => {
                let mut s = joined(
                    "pairing offer outside validity (issued_at ",
                    decimal_string(*issued_at).as_str(),
                );
                s.append(", ttl ");
                s.append(decimal_string(*ttl_s as u64).as_str());
                s.append(" s, now ");
                s.append(decimal_string(*now).as_str());
                s.append(", ");
                s.append(expiry_detail_name_string(*detail).as_str());
                s.append(")");
                s
            },
            CoreError::OfferSignatureInvalid => "pairing offer signature invalid".to_owned(),
            CoreError::ProofOfScanFailed => "proof-of-scan verification failed".to_owned(),
            CoreError::ConversationNeedsRepair => "conversation needs repair (recovery exhausted)".to_owned(),
            CoreError::Signal(m) => joined("protocol error: ", m.as_str()),
        }
    }
}

} // verus!
