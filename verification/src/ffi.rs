//! The host-facing surface's values: the flattened error, and the mirrors
//! of connection states, messages and offer validity that cross to the
//! host, with their conversions.

use vstd::prelude::*;
use vstd::std_specs::convert::FromSpecImpl;

use crate::client::{ConnectionState, ConversationId};
use crate::codec::{array32, push_all};
use crate::error::{spec_message, CoreError, OfferExpiryDetail};
use crate::storage::{blob16, DbKey, Direction, StoredMessage};

verus! {

/// Which validity bound a rejected offer failed.
#[derive(Debug, Clone, Copy, PartialEq, Eq, Structural)]
pub enum FfiOfferExpiryDetail {
    Expired,
    NotYetValid,
}

/// Error surfaced to the host, flattened from [`CoreError`] into four
/// user-facing classes (network, expired, malformed, crypto) and an
/// internal one.
#[derive(Debug)]
pub enum TitlanError {
    /// The pairing inbox is gone (stale QR).
    PairingUnavailable,
    /// A scanned offer is outside its embedded validity window.
    OfferExpired { issued_at: u64, ttl_s: u32, now: u64, detail: FfiOfferExpiryDetail },
    /// The offer's signature did not verify.
    OfferSignatureInvalid,
    /// The responder's proof-of-scan did not verify.
    ProofOfScanFailed,
    /// Structurally invalid input, or an unsupported version.
    Malformed { msg: String },
    /// Underlying protocol-library failure.
    Protocol { msg: String },
    /// The relay could not be reached.
    Network { msg: String },
    /// Device-local faults and everything else.
    Other { msg: String },
}

/// The host-side detail of an expiry detail.
pub open spec fn ffi_detail(d: OfferExpiryDetail) -> FfiOfferExpiryDetail {
    match d {
        OfferExpiryDetail::Expired => FfiOfferExpiryDetail::Expired,
        OfferExpiryDetail::NotYetValid => FfiOfferExpiryDetail::NotYetValid,
    }
}

/// How an error is flattened for the host.
pub open spec fn ffi_error_of(e: &CoreError, t: &TitlanError) -> bool {
    match e {
        CoreError::PairingUnavailable => t matches TitlanError::PairingUnavailable,
        CoreError::OfferExpired { issued_at, ttl_s, now, detail } => t == &TitlanError::OfferExpired {
            issued_at: *issued_at,
            ttl_s: *ttl_s,
            now: *now,
            detail: ffi_detail(*detail),
        },
        CoreError::OfferSignatureInvalid => t matches TitlanError::OfferSignatureInvalid,
        CoreError::ProofOfScanFailed => t matches TitlanError::ProofOfScanFailed,
        CoreError::Malformed(m) => t matches TitlanError::Malformed { msg } && msg@ == m@,
        CoreError::UnsupportedVersion { .. } => t matches TitlanError::Malformed { msg } && msg@
            == spec_message(e),
        CoreError::Signal(m) => t matches TitlanError::Protocol { msg } && msg@ == m@,
        CoreError::Network(m) => t matches TitlanError::Network { msg } && msg@ == m@,
        _ => t matches TitlanError::Other { msg } && msg@ == spec_message(e),
    }
}

impl TitlanError {
    /// Flattens a core error for the host.
    pub fn from_core(e: CoreError) -> (t: TitlanError)
        ensures
            ffi_error_of(&e, &t),
    {
        match e {
            CoreError::PairingUnavailable => TitlanError::PairingUnavailable,
            CoreError::OfferExpired { issued_at, ttl_s, now, detail } => TitlanError::OfferExpired {
                issued_at,
                ttl_s,
                now,
                detail: match detail {
                    OfferExpiryDetail::Expired => FfiOfferExpiryDetail::Expired,
                    OfferExpiryDetail::NotYetValid => FfiOfferExpiryDetail::NotYetValid,
                },
            },
            CoreError::OfferSignatureInvalid => TitlanError::OfferSignatureInvalid,
            CoreError::ProofOfScanFailed => TitlanError::ProofOfScanFailed,
            CoreError::Malformed(m) => TitlanError::Malformed { msg: m.to_owned() },
            CoreError::UnsupportedVersion { got } => TitlanError::Malformed {
                msg: CoreError::UnsupportedVersion { got }.to_string(),
            },
            CoreError::Signal(m) => TitlanError::Protocol { msg: m },
            CoreError::Network(m) => TitlanError::Network { msg: m },
            other => TitlanError::Other { msg: other.to_string() },
        }
    }
}

impl From<CoreError> for TitlanError {
    fn from(e: CoreError) -> (t: TitlanError)
        ensures
            ffi_error_of(&e, &t),
    {
        TitlanError::from_core(e)
    }
}

impl FromSpecImpl<CoreError> for TitlanError {
    open spec fn obeys_from_spec() -> bool {
        false
    }

    open spec fn from_spec(v: CoreError) -> TitlanError {
        vstd::pervasive::arbitrary()
    }
}

/// Connection state pushed to the host.
#[derive(Debug, Clone, Copy, PartialEq, Eq, Structural)]
pub enum FfiConnectionState {
    Connecting,
    Online,
    Offline,
    Backoff { secs: u32 },
    Recovering,
    RePairRequired,
}

/// The host mirror of a connection state.
pub open spec fn ffi_state(s: ConnectionState) -> FfiConnectionState {
    match s {
        ConnectionState::Connecting => FfiConnectionState::Connecting,
        ConnectionState::Online => FfiConnectionState::Online,
        ConnectionState::Offline => FfiConnectionState::Offline,
        ConnectionState::Backoff { secs } => FfiConnectionState::Backoff { secs },
        ConnectionState::Recovering => FfiConnectionState::Recovering,
        ConnectionState::RePairRequired => FfiConnectionState::RePairRequired,
    }
}

impl From<ConnectionState> for FfiConnectionState {
    fn from(s: ConnectionState) -> (r: FfiConnectionState) {
        match s {
            ConnectionState::Connecting => FfiConnectionState::Connecting,
            ConnectionState::Online => FfiConnectionState::Online,
            ConnectionState::Offline => FfiConnectionState::Offline,
            ConnectionState::Backoff { secs } => FfiConnectionState::Backoff { secs },
            ConnectionState::Recovering => FfiConnectionState::Recovering,
            ConnectionState::RePairRequired => FfiConnectionState::RePairRequired,
        }
    }
}

impl FromSpecImpl<ConnectionState> for FfiConnectionState {
    open spec fn obeys_from_spec() -> bool {
        true
    }

    open spec fn from_spec(v: ConnectionState) -> FfiConnectionState {
        ffi_state(v)
    }
}

/// A stored message delivered to the host.
pub struct FfiMessage {
    pub id: Vec<u8>,
    pub conversation_id: Vec<u8>,
    pub incoming: bool,
    pub payload_type: u8,
    pub type_version: u8,
    pub body: Vec<u8>,
}

impl FfiMessage {
    /// The host mirror of a stored message.
    pub fn from_stored(m: StoredMessage) -> (f: FfiMessage)
        ensures
            f.id@ == m.id@,
            f.conversation_id@ == m.conversation_id@,
            f.incoming == (m.direction == Direction::Incoming),
            f.payload_type == m.payload_type,
            f.type_version == m.type_version,
            f.body@ == m.body@,
    {
        FfiMessage {
            id: vstd::slice::slice_to_vec(m.id.as_slice()),
            conversation_id: vstd::slice::slice_to_vec(m.conversation_id.as_slice()),
            incoming: match m.direction {
                Direction::Incoming => true,
                Direction::Outgoing => false,
            },
            payload_type: m.payload_type,
            type_version: m.type_version,
            body: m.body,
        }
    }
}

impl From<StoredMessage> for FfiMessage {
    fn from(m: StoredMessage) -> (f: FfiMessage)
        ensures
            f.id@ == m.id@,
            f.conversation_id@ == m.conversation_id@,
            f.incoming == (m.direction == Direction::Incoming),
            f.payload_type == m.payload_type,
            f.type_version == m.type_version,
            f.body@ == m.body@,
    {
        FfiMessage::from_stored(m)
    }
}

impl FromSpecImpl<StoredMessage> for FfiMessage {
    open spec fn obeys_from_spec() -> bool {
        false
    }

    open spec fn from_spec(v: StoredMessage) -> FfiMessage {
        vstd::pervasive::arbitrary()
    }
}

/// The host implements this to receive delivered messages.
pub trait FfiMessageReceiver: Send + Sync {
    fn on_message(&self, conversation_id: Vec<u8>, message: FfiMessage);
}

/// The host implements this to observe connection states and failures.
pub trait FfiConnectionObserver: Send + Sync {
    fn on_state(&self, conversation_id: Vec<u8>, state: FfiConnectionState);

    /// Recovery is exhausted; re-pair is the last resort.
    fn on_conversation_needs_repair(&self, conversation_id: Vec<u8>);

    /// A queued send permanently failed (the relay rejected the blob).
    fn on_permanent_send_failure(&self, conversation_id: Vec<u8>, message_id: Vec<u8>);

    /// The encrypted store could not be read or written.
    fn on_storage_error(&self, detail: String);
}

/// The embedded validity window of an offer.
#[derive(Debug, Clone, Copy, PartialEq, Eq, Structural)]
pub struct FfiOfferValidity {
    /// Mint time embedded in the offer (Unix seconds, offerer clock).
    pub issued_at: u64,
    /// Time-to-live embedded in the offer, in seconds.
    pub ttl_s: u32,
}

/// A fresh 32-byte store key for the host to wrap, or none when the
/// random source fails.
pub fn generate_db_key() -> (k: Option<Vec<u8>>)
    ensures
        k matches Some(v) ==> v@.len() == 32,
{
    match DbKey::generate() {
        Some(key) => {
            let mut v: Vec<u8> = Vec::new();
            push_all(&mut v, key.as_bytes().as_slice());
            Some(v)
        },
        None => None,
    }
}

/// A conversation id from host bytes: exactly 16 of them, else
/// `Other { "conversation id must be 16 bytes" }`.
pub fn conv_id(bytes: &[u8]) -> (r: core::result::Result<ConversationId, TitlanError>)
    ensures
        r is Ok <==> bytes@.len() == 16,
        r matches Ok(id) ==> id@ == bytes@,
        r matches Err(e) ==> e matches TitlanError::Other { msg } && msg@
            == "conversation id must be 16 bytes"@,
{
    if bytes.len() != 16 {
        return Err(TitlanError::Other { msg: "conversation id must be 16 bytes".to_owned() });
    }
    let id = blob16(bytes);
    assert(id@ =~= bytes@);
    Ok(id)
}

/// The store key from host bytes, as the host opens a client: exactly 32
/// of them, else `Other { "db key must be 32 bytes" }`.
pub fn host_db_key(bytes: &[u8]) -> (r: core::result::Result<DbKey, TitlanError>)
    ensures
        r is Ok <==> bytes@.len() == 32,
        r matches Ok(k) ==> k@ == bytes@,
        r matches Err(e) ==> e matches TitlanError::Other { msg } && msg@ == "db key must be 32 bytes"@,
{
    if bytes.len() != 32 {
        return Err(TitlanError::Other { msg: "db key must be 32 bytes".to_owned() });
    }
    Ok(DbKey::from_bytes(array32(bytes)))
}

} // verus!
