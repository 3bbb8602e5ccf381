//! The client surface's plain values: connection states, the callbacks a
//! host implements, and the pairing payload.

use vstd::prelude::*;

use crate::storage::StoredMessage;

verus! {

/// Opaque per-conversation identifier (16 random bytes).
pub type ConversationId = [u8; 16];

/// Connection state for one conversation's receive-sync.
#[derive(Debug, Clone, Copy, PartialEq, Eq, Structural)]
pub enum ConnectionState {
    /// Establishing the WebSocket / subscribing.
    Connecting,
    /// Subscribed and receiving.
    Online,
    /// No network; backing off.
    Offline,
    /// Waiting `secs` before the next reconnect attempt.
    Backoff {
        /// Seconds until the next attempt.
        secs: u32,
    },
    /// One-sided mailbox loss; recovering in-band.
    Recovering,
    /// Total mailbox loss: the user must re-pair.
    RePairRequired,
}

/// Sink for decrypted, persisted incoming messages.
pub trait MessageReceiver: Send + Sync {
    /// Called once per delivered message, after it is decrypted and stored.
    fn on_message(&self, conversation_id: ConversationId, message: StoredMessage);
}

/// Sink for per-conversation connection-state changes.
pub trait ConnectionObserver: Send + Sync {
    /// Called on every connection-state transition.
    fn on_state(&self, conversation_id: ConversationId, state: ConnectionState);

    /// Recovery is exhausted; re-pair is the last resort.
    fn on_conversation_needs_repair(&self, _conversation_id: ConversationId) {
    }

    /// A queued send has permanently failed.
    fn on_permanent_send_failure(&self, _conversation_id: ConversationId, _message_id: [u8; 16]) {
    }

    /// The encrypted store could not be read or written.
    fn on_storage_error(&self, _detail: &str) {
    }
}

/// The bytes shown as a pairing QR (or shared as a link fragment).
pub struct PairingPayload {
    bytes: Vec<u8>,
}

impl View for PairingPayload {
    type V = Seq<u8>;

    closed spec fn view(&self) -> Seq<u8> {
        self.bytes@
    }
}

impl PairingPayload {
    /// Wraps raw payload bytes.
    pub fn from_bytes(bytes: Vec<u8>) -> (p: Self)
        ensures
            p@ == bytes@,
    {
        PairingPayload { bytes }
    }

    /// The raw payload bytes.
    pub fn as_bytes(&self) -> (b: &[u8])
        ensures
            b@ == self@,
    {
        self.bytes.as_slice()
    }
}

} // verus!
