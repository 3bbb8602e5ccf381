//! The plain values of the encrypted store: the database key, stored
//! messages and conversation rows, and the fixed-width blob readers.

use vstd::prelude::*;

verus! {

/// A 32-byte database key.
pub struct DbKey {
    bytes: [u8; 32],
}

impl View for DbKey {
    type V = Seq<u8>;

    closed spec fn view(&self) -> Seq<u8> {
        self.bytes@
    }
}

impl DbKey {
    /// A fresh key of 32 random bytes, or none when the operating system's
    /// random source fails.
    pub fn generate() -> (k: Option<Self>) {
        match crate::random::random_32() {
            Some(bytes) => Some(DbKey { bytes }),
            None => None,
        }
    }

    /// Wraps existing key bytes.
    pub fn from_bytes(bytes: [u8; 32]) -> (k: Self)
        ensures
            k@ == bytes@,
    {
        DbKey { bytes }
    }

    /// The key bytes.
    pub fn as_bytes(&self) -> (b: &[u8; 32])
        ensures
            b@ == self@,
    {
        &self.bytes
    }
}

/// Direction of a stored message.
#[derive(Debug, Clone, Copy, PartialEq, Eq, Structural)]
pub enum Direction {
    /// Sent by the local identity.
    Outgoing,
    /// Received from the peer.
    Incoming,
}

impl Direction {
    /// The stored column value: 0 outgoing, 1 incoming.
    pub fn to_u8(self) -> (b: u8)
        ensures
            b == (if self == Direction::Outgoing {
                0u8
            } else {
                1u8
            }),
    {
        match self {
            Direction::Outgoing => 0,
            Direction::Incoming => 1,
        }
    }

    /// The direction a stored column value names: 0 is outgoing, anything
    /// else incoming.
    pub fn from_stored(b: u8) -> (d: Direction)
        ensures
            d == (if b == 0 {
                Direction::Outgoing
            } else {
                Direction::Incoming
            }),
    {
        if b == 0 {
            Direction::Outgoing
        } else {
            Direction::Incoming
        }
    }
}

/// Message status column: queued for sending.
pub const STATUS_PENDING: u8 = 0;

/// Message status column: deposited at the relay.
pub const STATUS_SENT: u8 = 1;

/// Message status column: received.
pub const STATUS_RECEIVED: u8 = 2;

/// A message row read back from storage.
#[derive(Debug, Clone, PartialEq, Eq)]
pub struct StoredMessage {
    /// Message id (16 random bytes).
    pub id: [u8; 16],
    /// Owning conversation id.
    pub conversation_id: [u8; 16],
    /// Direction.
    pub direction: Direction,
    /// Payload type byte as stored.
    pub payload_type: u8,
    /// Payload type version.
    pub type_version: u8,
    /// Payload bytes.
    pub body: Vec<u8>,
}

/// A conversation's routing row.
#[derive(Debug, Clone, PartialEq, Eq)]
pub struct Conversation {
    /// Conversation id.
    pub id: [u8; 16],
    /// Peer's pairing address.
    pub peer_address: String,
    /// Peer's relay URL: where this side deposits to reach them.
    pub relay_url: String,
    /// Peer's inbox on their relay, once learned.
    pub mailbox_send: Option<String>,
    /// This side's inbox, where the peer deposits.
    pub mailbox_recv: Option<String>,
    /// Optional TLS SPKI pin for the peer's relay.
    pub relay_pin: Option<[u8; 32]>,
}

/// The first `n` bytes of `v`, zero-padded to `n`.
pub open spec fn padded(v: Seq<u8>, n: int) -> Seq<u8> {
    Seq::new(n as nat, |i: int| if i < v.len() { v[i] } else { 0u8 })
}

/// A 16-byte id column: the first 16 bytes, zero-padded.
pub fn blob16(v: &[u8]) -> (out: [u8; 16])
    ensures
        out@ == padded(v@, 16),
{
    let mut out = [0u8; 16];
    let mut i: usize = 0;
    while i < 16
        invariant
            i <= 16,
            out@.len() == 16,
            forall|k: int| 0 <= k < i ==> out@[k] == padded(v@, 16)[k],
            forall|k: int| i <= k < 16 ==> out@[k] == 0,
        decreases 16 - i,
    {
        if i < v.len() {
            out[i] = v[i];
        }
        i = i + 1;
    }
    assert(out@ =~= padded(v@, 16));
    out
}

/// A 32-byte pin column: the first 32 bytes, zero-padded.
pub fn blob32(v: &[u8]) -> (out: [u8; 32])
    ensures
        out@ == padded(v@, 32),
{
    let mut out = [0u8; 32];
    let mut i: usize = 0;
    while i < 32
        invariant
            i <= 32,
            out@.len() == 32,
            forall|k: int| 0 <= k < i ==> out@[k] == padded(v@, 32)[k],
            forall|k: int| i <= k < 32 ==> out@[k] == 0,
        decreases 32 - i,
    {
        if i < v.len() {
            out[i] = v[i];
        }
        i = i + 1;
    }
    assert(out@ =~= padded(v@, 32));
    out
}

/// The newest schema version; migrations `1..=SCHEMA_VERSION` run in order.
pub const SCHEMA_VERSION: u32 = 3;

/// The schema versions after `current`, up to the newest.
pub open spec fn migrations_after(current: u32) -> Seq<u32> {
    Seq::new(
        (if current < SCHEMA_VERSION { SCHEMA_VERSION - current } else { 0 }) as nat,
        |i: int| (current + 1 + i) as u32,
    )
}

/// The migrations to run, in order, on a database whose recorded schema
/// version is `current` (0 for a fresh database).
pub fn pending_migrations(current: u32) -> (v: Vec<u32>)
    ensures
        v@ == migrations_after(current),
{
    let mut v: Vec<u32> = Vec::new();
    let mut next: u32 = 1;
    while next <= SCHEMA_VERSION
        invariant
            1 <= next <= SCHEMA_VERSION + 1,
            v@ =~= migrations_after(current).take(
                (if current < next { next - 1 - current } else { 0 }) as int,
            ),
        decreases SCHEMA_VERSION + 1 - next,
    {
        if current < next {
            v.push(next);
        }
        next = next + 1;
    }
    v
}

/// Trust on first use: a peer's first identity key is trusted; afterwards
/// only the stored key is.
pub open spec fn spec_identity_trusted(stored: Option<Seq<u8>>, presented: Seq<u8>) -> bool {
    match stored {
        None => true,
        Some(known) => known == presented,
    }
}

/// Whether saving a peer's identity key replaced a different one.
#[derive(Debug, Clone, Copy, PartialEq, Eq, Structural)]
pub enum IdentityChange {
    /// First contact, or the same key again.
    NewOrUnchanged,
    /// A different key was stored before.
    ReplacedExisting,
}

/// The stored key, as a value.
pub open spec fn stored_view(stored: Option<&[u8]>) -> Option<Seq<u8>> {
    match stored {
        Some(k) => Some(k@),
        None => None,
    }
}

/// Whether `presented` is trusted for a peer whose stored key is `stored`.
pub fn identity_trusted(stored: Option<&[u8]>, presented: &[u8]) -> (r: bool)
    ensures
        r == spec_identity_trusted(stored_view(stored), presented@),
{
    match stored {
        None => true,
        Some(known) => crate::relay::table::bytes_eq(known, presented),
    }
}

/// What saving `presented` over a stored key reports.
pub open spec fn spec_identity_change(stored: Option<Seq<u8>>, presented: Seq<u8>) -> IdentityChange {
    match stored {
        Some(known) => if known != presented {
            IdentityChange::ReplacedExisting
        } else {
            IdentityChange::NewOrUnchanged
        },
        None => IdentityChange::NewOrUnchanged,
    }
}

/// What saving `presented` over `stored` reports (the key saved is
/// `presented` either way).
pub fn identity_change(stored: Option<&[u8]>, presented: &[u8]) -> (c: IdentityChange)
    ensures
        c == spec_identity_change(stored_view(stored), presented@),
{
    match stored {
        Some(known) => if crate::relay::table::bytes_eq(known, presented) {
            IdentityChange::NewOrUnchanged
        } else {
            IdentityChange::ReplacedExisting
        },
        None => IdentityChange::NewOrUnchanged,
    }
}

/// A key just saved is trusted, and saving reports a replacement exactly
/// when the presented key was not trusted before.
pub proof fn law_identity_tofu(stored: Option<Seq<u8>>, presented: Seq<u8>)
    ensures
        spec_identity_trusted(Some(presented), presented),
        spec_identity_change(stored, presented) == IdentityChange::ReplacedExisting
            <==> !spec_identity_trusted(stored, presented),
{
}

} // verus!
