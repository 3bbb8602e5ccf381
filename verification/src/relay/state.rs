//! In-memory relay state: mailboxes of opaque blobs with their byte
//! accounting, and the request rules that decide each answer. Nothing is
//! kept but blobs and timing.
//!
//! Time comes in as values: `now_secs` is wall-clock Unix seconds (for
//! rate windows), `tick` a monotonic millisecond count (for expiry).

use std::collections::{HashSet, VecDeque};

use vstd::prelude::*;
use vstd::string::StringSliceAdditionalSpecFns;

use crate::relay::config::Config;
use crate::relay::limits::{
    spec_box_admit, spec_source_admit, without_idle, BoxLimiter, SourceAddr, SourceLimiter,
    SLOT_BOX_DEPOSIT, SLOT_WS,
};
use crate::relay::table::{bytes_eq, KeyedTable};
use crate::relay::wire::{
    deposit_admissible, mailbox_id_shape_ok, parse_ack_frame, spec_deposit_admissible,
    spec_mailbox_id_shape_ok,
};

verus! {

/// One queued opaque blob.
pub struct QueuedMsg {
    pub id: [u8; 16],
    pub bytes: Vec<u8>,
    /// Deposit time, monotonic milliseconds.
    pub deposited_at: u64,
}

/// The total size of the blobs in `q`.
pub open spec fn total_bytes(q: Seq<QueuedMsg>) -> int
    decreases q.len(),
{
    if q.len() == 0 {
        0
    } else {
        total_bytes(q.drop_last()) + q.last().bytes@.len()
    }
}

proof fn lemma_total_nonneg(q: Seq<QueuedMsg>)
    ensures
        total_bytes(q) >= 0,
        forall|i: int| 0 <= i < q.len() ==> q[i].bytes@.len() <= total_bytes(q),
    decreases q.len(),
{
    if q.len() > 0 {
        lemma_total_nonneg(q.drop_last());
        assert forall|i: int| 0 <= i < q.len() implies q[i].bytes@.len() <= total_bytes(q) by {
            if i < q.len() - 1 {
                assert(q.drop_last()[i] == q[i]);
            }
        }
    }
}

proof fn lemma_total_remove(q: Seq<QueuedMsg>, i: int)
    requires
        0 <= i < q.len(),
    ensures
        total_bytes(q.remove(i)) == total_bytes(q) - q[i].bytes@.len(),
    decreases q.len(),
{
    if i == q.len() - 1 {
        assert(q.remove(i) =~= q.drop_last());
    } else {
        lemma_total_remove(q.drop_last(), i);
        assert(q.remove(i).drop_last() =~= q.drop_last().remove(i));
        assert(q.remove(i).last() == q.last());
    }
}

/// Whether two message ids are equal.
fn id_eq(a: &[u8; 16], b: &[u8; 16]) -> (r: bool)
    ensures
        r == (a@ == b@),
{
    bytes_eq(a.as_slice(), b.as_slice())
}

/// Whether an event at `at` is more than `ttl` old at `tick`.
pub open spec fn older_than(at: u64, tick: u64, ttl: u64) -> bool {
    (if tick >= at {
        tick - at
    } else {
        0
    }) > ttl
}

fn older_than_exec(at: u64, tick: u64, ttl: u64) -> (r: bool)
    ensures
        r == older_than(at, tick, ttl),
{
    let d = if tick >= at {
        tick - at
    } else {
        0
    };
    d > ttl
}

/// The blobs that stay after expiry: `q` without its leading run of blobs
/// older than `ttl`.
pub open spec fn expired_queue(q: Seq<QueuedMsg>, tick: u64, ttl: u64) -> Seq<QueuedMsg>
    decreases q.len(),
{
    if q.len() > 0 && older_than(q[0].deposited_at, tick, ttl) {
        expired_queue(q.subrange(1, q.len() as int), tick, ttl)
    } else {
        q
    }
}

/// The TTL in monotonic milliseconds.
pub open spec fn ttl_millis(secs: u64) -> u64 {
    if secs <= u64::MAX / 1000 {
        (secs * 1000) as u64
    } else {
        u64::MAX
    }
}

/// Whether a mailbox was active within `ttl` of `tick`.
pub open spec fn box_live(m: Mailbox, tick: u64, ttl: u64) -> bool {
    match m.last_activity {
        Some(at) => !older_than(at, tick, ttl),
        None => true,
    }
}

/// Bytes the sweep drops from mailbox `m`: its expired leading blobs.
pub open spec fn expired_bytes(m: Mailbox, tick: u64, ttl: u64) -> int {
    total_bytes(m.queue@) - total_bytes(expired_queue(m.queue@, tick, ttl))
}

/// The bytes the sweep drops from the mailboxes of `b` named in `ks`.
pub open spec fn expired_total(b: Map<Seq<char>, Mailbox>, ks: Seq<Seq<char>>, tick: u64, ttl: u64) -> int
    decreases ks.len(),
{
    if ks.len() == 0 {
        0
    } else {
        expired_total(b, ks.drop_last(), tick, ttl) + expired_bytes(b[ks.last()], tick, ttl)
    }
}

/// `a - b`, or 0 when that is negative.
pub open spec fn floor_sub(a: int, b: int) -> int {
    if a >= b {
        a - b
    } else {
        0
    }
}

proof fn lemma_expired_bytes_nonneg(q: Seq<QueuedMsg>, tick: u64, ttl: u64)
    ensures
        total_bytes(expired_queue(q, tick, ttl)) <= total_bytes(q),
    decreases q.len(),
{
    lemma_total_nonneg(q);
    if q.len() > 0 && older_than(q[0].deposited_at, tick, ttl) {
        let rest = q.subrange(1, q.len() as int);
        lemma_expired_bytes_nonneg(rest, tick, ttl);
        lemma_total_remove(q, 0);
        assert(q.remove(0) =~= rest);
    }
}

/// What a sweep did to the mailboxes: the live ones stay, each without
/// its expired blobs.
pub open spec fn swept(b0: Map<Seq<char>, Mailbox>, b1: Map<Seq<char>, Mailbox>, tick: u64, ttl: u64) -> bool {
    &&& forall|k: Seq<char>| #[trigger] b1.contains_key(k) <==> b0.contains_key(k) && box_live(b0[k], tick, ttl)
    &&& forall|k: Seq<char>| #[trigger] b1.contains_key(k) ==> b1[k].queue@ == expired_queue(b0[k].queue@, tick, ttl)
        && b1[k].last_activity == b0[k].last_activity
}

/// The number a message id is remembered by: its 16 bytes, big-endian.
pub open spec fn spec_id_key(b: Seq<u8>) -> u128 {
    (crate::codec::from_be64(b.subrange(0, 8)) * 0x1_0000_0000_0000_0000int + crate::codec::from_be64(
        b.subrange(8, 16),
    )) as u128
}

/// The number a message id is remembered by.
pub fn id_key(id: &[u8; 16]) -> (k: u128)
    ensures
        k == spec_id_key(id@),
{
    let hi = crate::codec::read_be64(id.as_slice(), 0);
    let lo = crate::codec::read_be64(id.as_slice(), 8);
    (hi as u128) * 0x1_0000_0000_0000_0000u128 + (lo as u128)
}

/// The queued blobs whose ids are not in `sent`, in order.
pub open spec fn unsent(q: Seq<QueuedMsg>, sent: Set<u128>) -> Seq<QueuedMsg>
    decreases q.len(),
{
    if q.len() == 0 {
        Seq::empty()
    } else if sent.contains(spec_id_key(q.last().id@)) {
        unsent(q.drop_last(), sent)
    } else {
        unsent(q.drop_last(), sent).push(q.last())
    }
}

/// What acking `id` does to a mailbox: the first queued blob with that id
/// is removed and the mailbox marked active, and the bytes freed returned;
/// with no such blob nothing changes.
pub open spec fn spec_ack(m: Mailbox, n: Mailbox, id: Seq<u8>, tick: u64, freed: Option<usize>) -> bool {
    match freed {
        Some(b) => exists|i: int|
            0 <= i < m.queue@.len() && m.queue@[i].id@ == id && (forall|j: int|
                0 <= j < i ==> m.queue@[j].id@ != id) && n.queue@ == m.queue@.remove(i) && b
                == m.queue@[i].bytes@.len() && n.queued_bytes == m.queued_bytes - b
                && n.last_activity == Some(tick),
        None => (forall|j: int| 0 <= j < m.queue@.len() ==> m.queue@[j].id@ != id) && n == m,
    }
}

/// A mailbox: a queue of opaque blobs.
pub struct Mailbox {
    pub queue: VecDeque<QueuedMsg>,
    pub queued_bytes: usize,
    /// Last activity, monotonic milliseconds.
    pub last_activity: Option<u64>,
}

impl Mailbox {
    /// The byte count is the total of the queued blobs.
    pub open spec fn wf(&self) -> bool {
        self.queued_bytes == total_bytes(self.queue@)
    }

    /// An empty mailbox, active at `tick`.
    pub fn new(tick: u64) -> (m: Mailbox)
        ensures
            m.wf(),
            m.queue@.len() == 0,
            m.last_activity == Some(tick),
    {
        Mailbox { queue: VecDeque::new(), queued_bytes: 0, last_activity: Some(tick) }
    }

    /// Whether a blob of `len` bytes fits the per-mailbox caps.
    pub fn has_room(&self, len: usize, max_messages: usize, max_bytes: usize) -> (r: bool)
        ensures
            r == (self.queue@.len() < max_messages && self.queued_bytes + len <= max_bytes),
    {
        !(self.queue.len() >= max_messages || len > max_bytes || self.queued_bytes > max_bytes
            - len)
    }

    /// Queues a blob.
    pub fn push(&mut self, id: [u8; 16], bytes: Vec<u8>, tick: u64)
        requires
            old(self).wf(),
            old(self).queued_bytes + bytes@.len() <= usize::MAX,
        ensures
            final(self).wf(),
            final(self).queue@ == old(self).queue@.push(
                QueuedMsg { id, bytes, deposited_at: tick },
            ),
            final(self).queued_bytes == old(self).queued_bytes + bytes@.len(),
            final(self).last_activity == Some(tick),
    {
        let len = bytes.len();
        let ghost q0 = self.queue@;
        self.queue.push_back(QueuedMsg { id, bytes, deposited_at: tick });
        self.queued_bytes = self.queued_bytes + len;
        self.last_activity = Some(tick);
        assert(self.queue@.drop_last() =~= q0);
    }

    /// Removes the first queued blob with id `id`; the bytes freed, if
    /// one was found.
    pub fn ack(&mut self, id: &[u8; 16], tick: u64) -> (freed: Option<usize>)
        requires
            old(self).wf(),
        ensures
            final(self).wf(),
            spec_ack(*old(self), *final(self), id@, tick, freed),
    {
        let mut i: usize = 0;
        while i < self.queue.len()
            invariant
                i <= self.queue@.len(),
                self.wf(),
                *self == *old(self),
                forall|j: int| 0 <= j < i ==> self.queue@[j].id@ != id@,
            decreases self.queue@.len() - i,
        {
            if id_eq(&self.queue[i].id, id) {
                let ghost q0 = self.queue@;
                proof {
                    lemma_total_remove(q0, i as int);
                    lemma_total_nonneg(q0);
                }
                let n = self.queue[i].bytes.len();
                let _removed = self.queue.remove(i);
                self.queued_bytes = self.queued_bytes - n;
                self.last_activity = Some(tick);
                return Some(n);
            }
            i = i + 1;
        }
        None
    }

    /// Drops every blob older than `ttl` from the front of the queue; the
    /// bytes freed.
    pub fn expire(&mut self, tick: u64, ttl: u64) -> (freed: usize)
        requires
            old(self).wf(),
        ensures
            final(self).wf(),
            final(self).last_activity == old(self).last_activity,
            final(self).queue@ == expired_queue(old(self).queue@, tick, ttl),
            freed == old(self).queued_bytes - final(self).queued_bytes,
    {
        let ghost q0 = self.queue@;
        let ghost mut k: int = 0;
        let mut freed: usize = 0;
        while self.queue.len() > 0
            invariant
                self.wf(),
                0 <= k <= q0.len(),
                self.queue@ == q0.subrange(k, q0.len() as int),
                expired_queue(q0, tick, ttl) == expired_queue(self.queue@, tick, ttl),
                self.last_activity == old(self).last_activity,
                freed + self.queued_bytes == old(self).queued_bytes,
            ensures
                self.wf(),
                0 <= k <= q0.len(),
                self.queue@ == q0.subrange(k, q0.len() as int),
                expired_queue(q0, tick, ttl) == expired_queue(self.queue@, tick, ttl),
                self.last_activity == old(self).last_activity,
                freed + self.queued_bytes == old(self).queued_bytes,
                self.queue@.len() > 0 ==> !older_than(self.queue@[0].deposited_at, tick, ttl),
            decreases self.queue@.len(),
        {
            if !older_than_exec(self.queue[0].deposited_at, tick, ttl) {
                break;
            }
            let ghost q1 = self.queue@;
            proof {
                lemma_total_remove(q1, 0);
                lemma_total_nonneg(q1);
                assert(q1.remove(0) =~= q1.subrange(1, q1.len() as int));
            }
            let n = self.queue[0].bytes.len();
            let _front = self.queue.pop_front();
            self.queued_bytes = self.queued_bytes - n;
            freed = freed + n;
            proof {
                k = k + 1;
                assert(self.queue@ =~= q0.subrange(k, q0.len() as int));
                assert(self.queue@ =~= q1.subrange(1, q1.len() as int));
            }
        }
        freed
    }

    /// Whether the mailbox was active within `ttl` of `tick`.
    pub fn is_live(&self, tick: u64, ttl: u64) -> (r: bool)
        ensures
            r == match self.last_activity {
                Some(at) => !older_than(at, tick, ttl),
                None => true,
            },
    {
        match self.last_activity {
            Some(at) => !older_than_exec(at, tick, ttl),
            None => true,
        }
    }
}

/// The answer to a request.
#[derive(Debug, Clone, Copy, PartialEq, Eq, Structural)]
pub enum Reply {
    Created,
    Accepted,
    NoContent,
    BadRequest,
    NotFound,
    PayloadTooLarge,
    TooManyRequests,
    ServiceUnavailable,
    InsufficientStorage,
}

/// The HTTP status of a reply.
pub open spec fn reply_status(r: Reply) -> u16 {
    match r {
        Reply::Created => 201,
        Reply::Accepted => 202,
        Reply::NoContent => 204,
        Reply::BadRequest => 400,
        Reply::NotFound => 404,
        Reply::PayloadTooLarge => 413,
        Reply::TooManyRequests => 429,
        Reply::ServiceUnavailable => 503,
        Reply::InsufficientStorage => 507,
    }
}

impl Reply {
    /// The HTTP status of this reply.
    pub fn status(self) -> (c: u16)
        ensures
            c == reply_status(self),
    {
        match self {
            Reply::Created => 201,
            Reply::Accepted => 202,
            Reply::NoContent => 204,
            Reply::BadRequest => 400,
            Reply::NotFound => 404,
            Reply::PayloadTooLarge => 413,
            Reply::TooManyRequests => 429,
            Reply::ServiceUnavailable => 503,
            Reply::InsufficientStorage => 507,
        }
    }
}

/// The outcome of minting a mailbox at a drawn id.
pub enum CreateOutcome {
    /// The relay holds its maximum number of mailboxes.
    Full,
    /// The drawn id is in use; draw again.
    Taken,
    /// The mailbox was created under this id.
    Created(String),
}

/// Every mailbox's byte count matches its queue.
pub open spec fn boxes_wf(m: Map<Seq<char>, Mailbox>) -> bool {
    forall|k: Seq<char>| #[trigger] m.contains_key(k) ==> m[k].wf()
}

/// A newly created mailbox, active at `tick`.
pub open spec fn fresh_box(m: Mailbox, tick: u64) -> bool {
    m.wf() && m.queue@.len() == 0 && m.last_activity == Some(tick)
}

/// `a - b`, or 0.
pub open spec fn sat_sub_usize(a: usize, b: usize) -> usize {
    if a >= b {
        (a - b) as usize
    } else {
        0
    }
}

/// Random ids drawn for one create: a taken id is drawn again, up to
/// `u64::MAX` times, so the search ends in a bounded number of steps
/// while in practice it only ever stops at a free id.
pub const CREATE_ATTEMPTS: u64 = 0xFFFF_FFFF_FFFF_FFFF;

/// Whole-relay state.
pub struct AppState {
    pub cfg: Config,
    pub boxes: KeyedTable<Mailbox>,
    /// Bytes queued over all mailboxes, as counted at deposit, ack, expiry
    /// and deletion (saturating).
    pub global_bytes: usize,
    pub src_limiter: SourceLimiter,
    pub box_limiter: BoxLimiter,
}

impl AppState {
    /// The internal bookkeeping is consistent.
    pub open spec fn wf(&self) -> bool {
        &&& self.boxes.wf()
        &&& boxes_wf(self.boxes@)
        &&& self.src_limiter.wf()
        &&& self.box_limiter.wf()
    }

    /// A relay with no mailboxes.
    pub fn new(cfg: Config) -> (r: AppState)
        ensures
            r.wf(),
            r.boxes@ == Map::<Seq<char>, Mailbox>::empty(),
            r.global_bytes == 0,
            r.cfg@ == cfg@,
    {
        let src_limiter = SourceLimiter::new(&cfg);
        let box_limiter = BoxLimiter::new(&cfg);
        AppState { cfg, boxes: KeyedTable::new(), global_bytes: 0, src_limiter, box_limiter }
    }

    /// Mints a mailbox at the id of 32 drawn bytes, unless the relay is
    /// full or the id is taken.
    pub fn create_mailbox_at(&mut self, raw: &[u8; 32], tick: u64) -> (o: CreateOutcome)
        requires
            old(self).wf(),
        ensures
            final(self).wf(),
            final(self).cfg@ == old(self).cfg@,
            final(self).global_bytes == old(self).global_bytes,
            final(self).src_limiter == old(self).src_limiter,
            final(self).box_limiter == old(self).box_limiter,
            old(self).boxes@.len() >= old(self).cfg.max_mailboxes ==> (o is Full && final(self).boxes@ == old(self).boxes@),
            old(self).boxes@.len() < old(self).cfg.max_mailboxes && old(self).boxes@.contains_key(
                crate::relay::wire::spec_mailbox_id(raw@),
            ) ==> (o is Taken && final(self).boxes@ == old(self).boxes@),
            old(self).boxes@.len() < old(self).cfg.max_mailboxes && !old(self).boxes@.contains_key(
                crate::relay::wire::spec_mailbox_id(raw@),
            ) ==> (o matches CreateOutcome::Created(id) && id@ == crate::relay::wire::spec_mailbox_id(
                raw@,
            ) && final(self).boxes@.dom() == old(self).boxes@.dom().insert(id@) && fresh_box(
                final(self).boxes@[id@],
                tick,
            ) && forall|k: Seq<char>| #[trigger]
                old(self).boxes@.contains_key(k) ==> final(self).boxes@[k] == old(self).boxes@[k]),
    {
        if self.boxes.len() >= self.cfg.max_mailboxes {
            return CreateOutcome::Full;
        }
        let id = crate::relay::wire::encode_mailbox_id(raw);
        if self.boxes.contains_key(id.as_str()) {
            return CreateOutcome::Taken;
        }
        let copy = id.as_str().to_owned();
        self.boxes.insert(copy, Mailbox::new(tick));
        CreateOutcome::Created(id)
    }

    /// Creates a mailbox under a relay-generated, unguessable id: 32 random
    /// bytes, encoded, drawn again while the id is taken. Refused (`None`,
    /// nothing changed) when the relay is full; also `None` if the random
    /// source fails.
    pub fn create_mailbox(&mut self, tick: u64) -> (r: Option<String>)
        requires
            old(self).wf(),
        ensures
            final(self).wf(),
            final(self).cfg@ == old(self).cfg@,
            final(self).global_bytes == old(self).global_bytes,
            final(self).src_limiter == old(self).src_limiter,
            final(self).box_limiter == old(self).box_limiter,
            old(self).boxes@.len() >= old(self).cfg.max_mailboxes ==> r is None,
            r is None ==> final(self).boxes@ == old(self).boxes@,
            r matches Some(id) ==> {
                &&& exists|raw: Seq<u8>| raw.len() == 32 && id@ == crate::relay::wire::spec_mailbox_id(raw)
                &&& !old(self).boxes@.contains_key(id@)
                &&& final(self).boxes@.dom() == old(self).boxes@.dom().insert(id@)
                &&& fresh_box(final(self).boxes@[id@], tick)
                &&& forall|k: Seq<char>| #[trigger]
                    old(self).boxes@.contains_key(k) ==> final(self).boxes@[k] == old(self).boxes@[k]
            },
    {
        if self.boxes.len() >= self.cfg.max_mailboxes {
            return None;
        }
        let mut attempt: u64 = 0;
        while attempt < CREATE_ATTEMPTS
            invariant
                self.wf(),
                self.cfg@ == old(self).cfg@,
                self.global_bytes == old(self).global_bytes,
                self.src_limiter == old(self).src_limiter,
                self.box_limiter == old(self).box_limiter,
                self.boxes@ == old(self).boxes@,
                old(self).boxes@.len() < old(self).cfg.max_mailboxes,
            decreases CREATE_ATTEMPTS - attempt,
        {
            let raw = match crate::random::random_32() {
                Some(raw) => raw,
                None => return None,
            };
            match self.create_mailbox_at(&raw, tick) {
                CreateOutcome::Created(id) => {
                    assert(raw@.len() == 32);
                    return Some(id);
                },
                _ => {},
            }
            attempt = attempt + 1;
        }
        None
    }

    /// Idempotent create at a caller-chosen id: `true` when the mailbox
    /// exists afterwards (created or already present), `false` exactly when
    /// the relay is full, whether or not the id exists.
    pub fn put_mailbox(&mut self, id: &str, tick: u64) -> (ok: bool)
        requires
            old(self).wf(),
        ensures
            final(self).wf(),
            final(self).cfg@ == old(self).cfg@,
            final(self).global_bytes == old(self).global_bytes,
            final(self).src_limiter == old(self).src_limiter,
            final(self).box_limiter == old(self).box_limiter,
            ok == (old(self).boxes@.len() < old(self).cfg.max_mailboxes),
            !ok ==> final(self).boxes@ == old(self).boxes@,
            ok && old(self).boxes@.contains_key(id@) ==> final(self).boxes@ == old(self).boxes@,
            ok && !old(self).boxes@.contains_key(id@) ==> final(self).boxes@.dom() == old(self).boxes@.dom().insert(id@) && fresh_box(final(self).boxes@[id@], tick) && forall|
                k: Seq<char>,
            | #[trigger] old(self).boxes@.contains_key(k) ==> final(self).boxes@[k] == old(self).boxes@[k],
    {
        if self.boxes.len() >= self.cfg.max_mailboxes {
            return false;
        }
        if !self.boxes.contains_key(id) {
            self.boxes.insert(id.to_owned(), Mailbox::new(tick));
        }
        true
    }

    /// The per-mailbox part of a deposit, once the id's shape, the source
    /// rate and the blob's admission have passed.
    fn deposit_into(&mut self, id: &str, body: Vec<u8>, msg_id: [u8; 16], now_secs: u64, tick: u64) -> (r: Reply)
        requires
            old(self).wf(),
        ensures
            final(self).wf(),
            final(self).cfg@ == old(self).cfg@,
            final(self).src_limiter == old(self).src_limiter,
            deposit_outcome(old(self), final(self), id@, body, msg_id, now_secs, tick, r),
    {
        let mut mb = match self.boxes.take(id) {
            Some(m) => m,
            None => {
                assert(self.boxes@ =~= old(self).boxes@);
                return Reply::NotFound;
            },
        };
        let ghost b0 = old(self).boxes@;
        if !self.box_limiter.admit_deposit(id, now_secs, tick) {
            self.boxes.insert(id.to_owned(), mb);
            assert(self.boxes@ =~= b0);
            return Reply::TooManyRequests;
        }
        if !mb.has_room(body.len(), self.cfg.mailbox_max_messages, self.cfg.mailbox_max_bytes) {
            self.boxes.insert(id.to_owned(), mb);
            assert(self.boxes@ =~= b0);
            return Reply::InsufficientStorage;
        }
        let len = body.len();
        mb.push(msg_id, body, tick);
        self.boxes.insert(id.to_owned(), mb);
        self.global_bytes = if self.global_bytes <= usize::MAX - len {
            self.global_bytes + len
        } else {
            usize::MAX
        };
        Reply::Accepted
    }

    /// `POST /v1/mailboxes/{id}/messages`: a body over the blob limit is
    /// refused with 413 before anything else is looked at; otherwise
    /// [`AppState::deposit`] under a random 16-byte message id. If the
    /// random source fails the relay answers 503 and nothing changes.
    pub fn deposit_request(
        &mut self,
        id: &str,
        src: &SourceAddr,
        body: Vec<u8>,
        now_secs: u64,
        tick: u64,
    ) -> (r: Reply)
        requires
            old(self).wf(),
        ensures
            final(self).wf(),
            final(self).cfg@ == old(self).cfg@,
            body@.len() > old(self).cfg.max_blob_bytes ==> r == Reply::PayloadTooLarge,
            body@.len() > old(self).cfg.max_blob_bytes ==> *final(self) == *old(self),
            body@.len() <= old(self).cfg.max_blob_bytes ==> (r == Reply::ServiceUnavailable
                && *final(self) == *old(self)) || exists|msg_id: [u8; 16]| #[trigger]
                deposit_done(old(self), final(self), id, body, msg_id, now_secs, tick, r),
    {
        if body.len() > self.cfg.max_blob_bytes {
            return Reply::PayloadTooLarge;
        }
        match crate::random::random_id() {
            Some(msg_id) => {
                let ghost b = body;
                let r = self.deposit(id, src, body, msg_id, now_secs, tick);
                assert(deposit_done(old(self), self, id, b, msg_id, now_secs, tick, r));
                r
            },
            None => Reply::ServiceUnavailable,
        }
    }

    /// A deposit of `body` into mailbox `id` from `src`: the id's shape,
    /// the source's rate, the blob's admission (magic, version, length),
    /// the mailbox's existence, its rate and its capacity are checked in
    /// that order, and the first that fails decides the reply; otherwise
    /// the blob is queued under `msg_id`.
    pub fn deposit(
        &mut self,
        id: &str,
        src: &SourceAddr,
        body: Vec<u8>,
        msg_id: [u8; 16],
        now_secs: u64,
        tick: u64,
    ) -> (r: Reply)
        requires
            old(self).wf(),
        ensures
            final(self).wf(),
            final(self).cfg@ == old(self).cfg@,
            !spec_mailbox_id_shape_ok(id.spec_bytes()) ==> r == Reply::NotFound && *final(self)
                == *old(self),
            spec_mailbox_id_shape_ok(id.spec_bytes()) ==> exists|key: u64| #[trigger]
                deposit_with_key(old(self), final(self), key, id@, body, msg_id, now_secs, tick, r),
    {
        if !mailbox_id_shape_ok(id) {
            return Reply::NotFound;
        }
        let ok = self.src_limiter.admit_deposit(src, now_secs, tick);
        let ghost key = choose|key: u64|
            (self.src_limiter.windows(), ok) == #[trigger] spec_source_admit(
                old(self).src_limiter.windows(),
                key,
                crate::relay::limits::SLOT_SOURCE_DEPOSIT,
                old(self).src_limiter.deposit_limit,
                now_secs / 60,
                tick,
                old(self).src_limiter.idle,
                old(self).src_limiter.max_entries,
            );
        if !ok {
            assert(deposit_with_key(old(self), &*self, key, id@, body, msg_id, now_secs, tick, Reply::TooManyRequests));
            return Reply::TooManyRequests;
        }
        if !deposit_admissible(body.as_slice()) {
            assert(deposit_with_key(old(self), &*self, key, id@, body, msg_id, now_secs, tick, Reply::BadRequest));
            return Reply::BadRequest;
        }
        let ghost mid = *self;
        let ghost body_g = body;
        let r = self.deposit_into(id, body, msg_id, now_secs, tick);
        assert(deposit_outcome(&mid, &*self, id@, body_g, msg_id, now_secs, tick, r));
        assert(deposit_with_key(old(self), &*self, key, id@, body_g, msg_id, now_secs, tick, r));
        r
    }
    /// `PUT` create-at-id: a malformed id is refused on its shape alone;
    /// then the source's rate counts the request and may refuse it; then
    /// the mailbox is created unless present, and the reply is the same
    /// whether it was created or already existed; a full relay gives the
    /// same capacity error whether or not the id exists.
    pub fn put_request(&mut self, id: &str, src: &SourceAddr, now_secs: u64, tick: u64) -> (r: Reply)
        requires
            old(self).wf(),
        ensures
            final(self).wf(),
            final(self).cfg@ == old(self).cfg@,
            final(self).box_limiter == old(self).box_limiter,
            final(self).global_bytes == old(self).global_bytes,
            !spec_mailbox_id_shape_ok(id.spec_bytes()) ==> r == Reply::BadRequest && *final(self)
                == *old(self),
            spec_mailbox_id_shape_ok(id.spec_bytes()) ==> exists|key: u64| #[trigger]
                put_with_key(old(self), final(self), key, id@, now_secs, tick, r),
    {
        if !mailbox_id_shape_ok(id) {
            return Reply::BadRequest;
        }
        let ok = self.src_limiter.admit_put(src, now_secs, tick);
        let ghost key = choose|key: u64|
            (self.src_limiter.windows(), ok) == #[trigger] spec_source_admit(
                old(self).src_limiter.windows(),
                key,
                crate::relay::limits::SLOT_PUT,
                old(self).src_limiter.put_limit,
                now_secs / 60,
                tick,
                old(self).src_limiter.idle,
                old(self).src_limiter.max_entries,
            );
        if !ok {
            assert(put_with_key(old(self), &*self, key, id@, now_secs, tick, Reply::TooManyRequests));
            return Reply::TooManyRequests;
        }
        let r = if self.put_mailbox(id, tick) {
            Reply::Created
        } else {
            Reply::ServiceUnavailable
        };
        assert(put_with_key(old(self), &*self, key, id@, now_secs, tick, r));
        r
    }

    /// `DELETE`: always no content; a well-shaped id's mailbox, if any, is
    /// dropped with its queued bytes and its rate counters.
    pub fn delete(&mut self, id: &str) -> (r: Reply)
        requires
            old(self).wf(),
        ensures
            final(self).wf(),
            r == Reply::NoContent,
            final(self).cfg@ == old(self).cfg@,
            final(self).src_limiter == old(self).src_limiter,
            !spec_mailbox_id_shape_ok(id.spec_bytes()) ==> *final(self) == *old(self),
            spec_mailbox_id_shape_ok(id.spec_bytes()) && !old(self).boxes@.contains_key(id@) ==> (
            final(self).boxes@ == old(self).boxes@ && final(self).box_limiter == old(self).box_limiter
                && final(self).global_bytes == old(self).global_bytes),
            spec_mailbox_id_shape_ok(id.spec_bytes()) && old(self).boxes@.contains_key(id@) ==> (
            final(self).boxes@ == old(self).boxes@.remove(id@) && final(self).box_limiter.windows()
                == old(self).box_limiter.windows().remove(id@)
                && final(self).box_limiter.same_limits(&old(self).box_limiter)
                && final(self).global_bytes == sat_sub_usize(
                old(self).global_bytes,
                old(self).boxes@[id@].queued_bytes,
            )),
    {
        if mailbox_id_shape_ok(id) {
            match self.boxes.take(id) {
                Some(mb) => {
                    self.global_bytes = if self.global_bytes >= mb.queued_bytes {
                        self.global_bytes - mb.queued_bytes
                    } else {
                        0
                    };
                    self.box_limiter.forget(id);
                },
                None => {
                    assert(self.boxes@ =~= old(self).boxes@);
                },
            }
        }
        Reply::NoContent
    }

    /// A subscription request: `None` to upgrade the connection; otherwise
    /// not found for a malformed or unknown id, or too many requests when
    /// the mailbox's subscription rate refuses it.
    pub fn subscribe_request(&mut self, id: &str, now_secs: u64, tick: u64) -> (r: Option<Reply>)
        requires
            old(self).wf(),
        ensures
            final(self).wf(),
            final(self).cfg@ == old(self).cfg@,
            final(self).boxes@ == old(self).boxes@,
            final(self).src_limiter == old(self).src_limiter,
            final(self).global_bytes == old(self).global_bytes,
            !(spec_mailbox_id_shape_ok(id.spec_bytes()) && old(self).boxes@.contains_key(id@)) ==> (r
                == Some(Reply::NotFound) && final(self).box_limiter == old(self).box_limiter),
            spec_mailbox_id_shape_ok(id.spec_bytes()) && old(self).boxes@.contains_key(id@) ==> {
                let (bw, ok) = spec_box_admit(
                    old(self).box_limiter.windows(),
                    id@,
                    SLOT_WS,
                    old(self).box_limiter.ws_limit,
                    now_secs / 60,
                    tick,
                );
                &&& final(self).box_limiter.windows() == bw
                &&& final(self).box_limiter.same_limits(&old(self).box_limiter)
                &&& r == (if ok {
                    None
                } else {
                    Some(Reply::TooManyRequests)
                })
            },
    {
        if !mailbox_id_shape_ok(id) {
            return Some(Reply::NotFound);
        }
        if !self.boxes.contains_key(id) {
            return Some(Reply::NotFound);
        }
        if !self.box_limiter.admit_ws(id, now_secs, tick) {
            return Some(Reply::TooManyRequests);
        }
        None
    }

    /// A subscriber starts: marks the mailbox active; `false` when it is
    /// gone.
    pub fn begin_delivery(&mut self, id: &str, tick: u64) -> (found: bool)
        requires
            old(self).wf(),
        ensures
            final(self).wf(),
            final(self).cfg@ == old(self).cfg@,
            final(self).src_limiter == old(self).src_limiter,
            final(self).box_limiter == old(self).box_limiter,
            final(self).global_bytes == old(self).global_bytes,
            found == old(self).boxes@.contains_key(id@),
            found ==> final(self).boxes@.dom() == old(self).boxes@.dom(),
            found ==> forall|k: Seq<char>| #[trigger] old(self).boxes@.contains_key(k) && k != id@
                ==> final(self).boxes@[k] == old(self).boxes@[k],
            found ==> final(self).boxes@[id@].queue@ == old(self).boxes@[id@].queue@,
            found ==> final(self).boxes@[id@].queued_bytes == old(self).boxes@[id@].queued_bytes,
            found ==> final(self).boxes@[id@].last_activity == Some(tick),
            !found ==> final(self).boxes@ == old(self).boxes@,
    {
        match self.boxes.take(id) {
            Some(mut mb) => {
                mb.last_activity = Some(tick);
                self.boxes.insert(id.to_owned(), mb);
                true
            },
            None => {
                assert(self.boxes@ =~= old(self).boxes@);
                false
            },
        }
    }

    /// An ack frame received on mailbox `id`'s subscription: `true` when
    /// `data` is a well-formed ack, whether or not the id was still queued;
    /// the acked blob, if queued, is removed.
    pub fn handle_ack(&mut self, id: &str, data: &[u8], tick: u64) -> (well_formed: bool)
        requires
            old(self).wf(),
        ensures
            final(self).wf(),
            final(self).cfg@ == old(self).cfg@,
            final(self).src_limiter == old(self).src_limiter,
            final(self).box_limiter == old(self).box_limiter,
            well_formed == (data@.len() == 17 && data@[0] == 0x02),
            !well_formed || !old(self).boxes@.contains_key(id@) ==> final(self).boxes@
                == old(self).boxes@ && final(self).global_bytes == old(self).global_bytes,
            well_formed && old(self).boxes@.contains_key(id@) ==> exists|freed: Option<usize>| #[trigger]
                acked_in(old(self), final(self), id@, data@.subrange(1, 17), tick, freed),
    {
        let acked = match parse_ack_frame(data) {
            Some(a) => a,
            None => {
                return false;
            },
        };
        match self.boxes.take(id) {
            Some(mut mb) => {
                assert(data@.subrange(1, 17) =~= acked@);
                let freed = mb.ack(&acked, tick);
                match freed {
                    Some(n) => {
                        self.global_bytes = if self.global_bytes >= n {
                            self.global_bytes - n
                        } else {
                            0
                        };
                    },
                    None => {},
                }
                self.boxes.insert(id.to_owned(), mb);
                assert(acked_in(old(self), &*self, id@, data@.subrange(1, 17), tick, freed));
                true
            },
            None => {
                assert(self.boxes@ =~= old(self).boxes@);
                true
            },
        }
    }

    /// Periodic sweep: every mailbox drops its blobs older than the TTL
    /// from the front of its queue, mailboxes idle for longer than the TTL
    /// are dropped, and both limiters drop their idle entries.
    pub fn sweep(&mut self, tick: u64)
        requires
            old(self).wf(),
        ensures
            final(self).wf(),
            final(self).cfg@ == old(self).cfg@,
            swept(old(self).boxes@, final(self).boxes@, tick, ttl_millis(old(self).cfg.ttl)),
            exists|ks: Seq<Seq<char>>| #![trigger ks.to_set()]
                ks.no_duplicates() && ks.to_set() == old(self).boxes@.dom() && final(self).global_bytes
                    == floor_sub(
                    old(self).global_bytes as int,
                    expired_total(old(self).boxes@, ks, tick, ttl_millis(old(self).cfg.ttl)),
                ),
            final(self).src_limiter.windows() == without_idle(
                old(self).src_limiter.windows(),
                tick,
                old(self).src_limiter.idle,
            ),
            final(self).src_limiter.same_limits(&old(self).src_limiter),
            final(self).box_limiter.windows() == without_idle(
                old(self).box_limiter.windows(),
                tick,
                old(self).box_limiter.idle,
            ),
            final(self).box_limiter.same_limits(&old(self).box_limiter),
    {
        let ttl = crate::relay::limits::idle_millis(self.cfg.ttl);
        let ghost b0 = self.boxes@;
        let keys = self.boxes.key_list();
        let ghost kv = keys@.map_values(|s: String| s@);
        let mut i: usize = 0;
        while i < keys.len()
            invariant
                self.wf(),
                self.cfg@ == old(self).cfg@,
                self.src_limiter == old(self).src_limiter,
                self.box_limiter == old(self).box_limiter,
                self.global_bytes == floor_sub(
                    old(self).global_bytes as int,
                    expired_total(b0, kv.subrange(0, i as int), tick, ttl),
                ),
                b0 == old(self).boxes@,
                ttl == ttl_millis(old(self).cfg.ttl),
                i <= keys@.len(),
                kv == keys@.map_values(|s: String| s@),
                kv.to_set() == b0.dom(),
                kv.no_duplicates(),
                forall|k: Seq<char>| #[trigger] self.boxes@.contains_key(k) <==> (b0.contains_key(k) && (
                kv.subrange(0, i as int).contains(k) ==> box_live(b0[k], tick, ttl))),
                forall|k: Seq<char>| #[trigger]
                    self.boxes@.contains_key(k) && !kv.subrange(0, i as int).contains(k)
                        ==> self.boxes@[k] == b0[k],
                forall|k: Seq<char>| #[trigger]
                    self.boxes@.contains_key(k) && kv.subrange(0, i as int).contains(k) ==> (
                    self.boxes@[k].queue@ == expired_queue(b0[k].queue@, tick, ttl)
                        && self.boxes@[k].last_activity == b0[k].last_activity),
            decreases keys@.len() - i,
        {
            let k = keys[i].as_str();
            assert(k@ == kv[i as int]);
            let ghost kk = kv[i as int];
            assert(!kv.subrange(0, i as int).contains(kk)) by {
                if kv.subrange(0, i as int).contains(kk) {
                    let j = choose|j: int| 0 <= j < i && #[trigger] kv.subrange(0, i as int)[j] == kk;
                    assert(kv[j] == kv[i as int]);
                }
            }
            let ghost g_before = self.global_bytes;
            proof {
                assert(kv.subrange(0, i + 1).drop_last() =~= kv.subrange(0, i as int));
                assert(kv.subrange(0, i + 1).last() == kk);
                lemma_expired_bytes_nonneg(b0[kk].queue@, tick, ttl);
            }
            match self.boxes.take(k) {
                Some(mut mb) => {
                    assert(mb == b0[kk]);
                    let freed = mb.expire(tick, ttl);
                    self.global_bytes = if self.global_bytes >= freed {
                        self.global_bytes - freed
                    } else {
                        0
                    };
                    if mb.is_live(tick, ttl) {
                        self.boxes.insert(k.to_owned(), mb);
                    }
                },
                None => {},
            }
            i = i + 1;
            assert forall|x: Seq<char>| #[trigger] self.boxes@.contains_key(x) <==> (b0.contains_key(x) && (
            kv.subrange(0, i as int).contains(x) ==> box_live(b0[x], tick, ttl))) by {
                if kv.subrange(0, i as int).contains(x) && x != kk {
                    let j = choose|j: int| 0 <= j < i && #[trigger] kv.subrange(0, i as int)[j] == x;
                    assert(kv.subrange(0, i - 1)[j] == x);
                }
                if kv.subrange(0, i - 1).contains(x) {
                    let j = choose|j: int| 0 <= j < i - 1 && #[trigger] kv.subrange(0, i - 1)[j] == x;
                    assert(kv.subrange(0, i as int)[j] == x);
                }
                if x == kk {
                    assert(kv.subrange(0, i as int)[i - 1] == x);
                    assert(kv.to_set().contains(kk));
                }
            }
            assert forall|x: Seq<char>| #[trigger]
                self.boxes@.contains_key(x) && !kv.subrange(0, i as int).contains(x)
                    implies self.boxes@[x] == b0[x] by {
                if kv.subrange(0, i - 1).contains(x) {
                    let j = choose|j: int| 0 <= j < i - 1 && #[trigger] kv.subrange(0, i - 1)[j] == x;
                    assert(kv.subrange(0, i as int)[j] == x);
                }
                if x == kk {
                    assert(kv.subrange(0, i as int)[i - 1] == x);
                }
            }
            assert forall|x: Seq<char>| #[trigger]
                self.boxes@.contains_key(x) && kv.subrange(0, i as int).contains(x) implies (
                self.boxes@[x].queue@ == expired_queue(b0[x].queue@, tick, ttl)
                    && self.boxes@[x].last_activity == b0[x].last_activity) by {
                if x != kk {
                    let j = choose|j: int| 0 <= j < i && #[trigger] kv.subrange(0, i as int)[j] == x;
                    assert(kv.subrange(0, i - 1)[j] == x);
                }
            }
        }
        assert(kv.subrange(0, i as int) =~= kv);
        assert(kv.to_set() == old(self).boxes@.dom());
        assert forall|x: Seq<char>| b0.contains_key(x) implies kv.contains(x) by {
            assert(kv.to_set().contains(x));
        }
        self.src_limiter.prune(tick);
        self.box_limiter.prune(tick);
    }

    /// The delivery frames of mailbox `id`'s queued blobs whose ids are not
    /// in `sent`, in queue order, each with its message id; `None` when the
    /// mailbox is gone.
    pub fn pending_frames(&self, id: &str, sent: &HashSet<u128>) -> (r: Option<Vec<([u8; 16], Vec<u8>)>>)
        requires
            self.wf(),
        ensures
            !self.boxes@.contains_key(id@) ==> r is None,
            self.boxes@.contains_key(id@) ==> (r matches Some(v) && {
                let u = unsent(self.boxes@[id@].queue@, sent@);
                &&& v@.len() == u.len()
                &&& forall|i: int| 0 <= i < u.len() ==> (#[trigger] v@[i]).0@ == u[i].id@ && v@[i].1@
                    == crate::relay::wire::spec_delivery_frame(u[i].id@, u[i].bytes@)
            }),
    {
        let mb = match self.boxes.get(id) {
            Some(m) => m,
            None => {
                return None;
            },
        };
        let mut out: Vec<([u8; 16], Vec<u8>)> = Vec::new();
        let mut i: usize = 0;
        while i < mb.queue.len()
            invariant
                i <= mb.queue@.len(),
                ({
                    let u = unsent(mb.queue@.subrange(0, i as int), sent@);
                    &&& out@.len() == u.len()
                    &&& forall|j: int| 0 <= j < u.len() ==> (#[trigger] out@[j]).0@ == u[j].id@
                        && out@[j].1@ == crate::relay::wire::spec_delivery_frame(u[j].id@, u[j].bytes@)
                }),
            decreases mb.queue@.len() - i,
        {
            let m = &mb.queue[i];
            let key = id_key(&m.id);
            assert(mb.queue@.subrange(0, i + 1).drop_last() =~= mb.queue@.subrange(0, i as int));
            if !sent.contains(&key) {
                let frame = crate::relay::wire::delivery_frame(&m.id, m.bytes.as_slice());
                out.push((m.id, frame));
            }
            i = i + 1;
        }
        assert(mb.queue@.subrange(0, i as int) =~= mb.queue@);
        Some(out)
    }
}

/// What an ack of `acked` on mailbox `id` did, from `s` to `t`, freeing
/// `freed`: the mailbox changed as [`spec_ack`] says, the others not at
/// all, and the global count dropped by what was freed.
pub open spec fn acked_in(
    s: &AppState,
    t: &AppState,
    id: Seq<char>,
    acked: Seq<u8>,
    tick: u64,
    freed: Option<usize>,
) -> bool {
    &&& t.boxes@.dom() == s.boxes@.dom()
    &&& forall|k: Seq<char>| #[trigger] s.boxes@.contains_key(k) && k != id ==> t.boxes@[k] == s.boxes@[k]
    &&& spec_ack(s.boxes@[id], t.boxes@[id], acked, tick, freed)
    &&& t.global_bytes == match freed {
        Some(n) => sat_sub_usize(s.global_bytes, n),
        None => s.global_bytes,
    }
}

/// What `PUT` with a well-shaped id does when the source is counted under
/// `key`.
pub open spec fn put_with_key(
    s: &AppState,
    t: &AppState,
    key: u64,
    id: Seq<char>,
    now_secs: u64,
    tick: u64,
    r: Reply,
) -> bool {
    let (sw, ok) = spec_source_admit(
        s.src_limiter.windows(),
        key,
        crate::relay::limits::SLOT_PUT,
        s.src_limiter.put_limit,
        now_secs / 60,
        tick,
        s.src_limiter.idle,
        s.src_limiter.max_entries,
    );
    &&& t.src_limiter.windows() == sw
    &&& t.src_limiter.same_limits(&s.src_limiter)
    &&& !ok ==> (r == Reply::TooManyRequests && t.boxes@ == s.boxes@)
    &&& ok && s.boxes@.len() >= s.cfg.max_mailboxes ==> (r == Reply::ServiceUnavailable && t.boxes@
        == s.boxes@)
    &&& ok && s.boxes@.len() < s.cfg.max_mailboxes && s.boxes@.contains_key(id) ==> (r
        == Reply::Created && t.boxes@ == s.boxes@)
    &&& ok && s.boxes@.len() < s.cfg.max_mailboxes && !s.boxes@.contains_key(id) ==> (r
        == Reply::Created && t.boxes@.dom() == s.boxes@.dom().insert(id) && fresh_box(
        t.boxes@[id],
        tick,
    ) && forall|k: Seq<char>| #[trigger] s.boxes@.contains_key(k) ==> t.boxes@[k] == s.boxes@[k])
}

/// What a deposit of `body` under `msg_id` does: a malformed id is
/// answered 404 with nothing changed; otherwise the source's deposit
/// window (under some key) and the mailbox rules decide.
pub open spec fn deposit_done(
    s: &AppState,
    t: &AppState,
    id: &str,
    body: Vec<u8>,
    msg_id: [u8; 16],
    now_secs: u64,
    tick: u64,
    r: Reply,
) -> bool {
    &&& !spec_mailbox_id_shape_ok(id.spec_bytes()) ==> r == Reply::NotFound && *t == *s
    &&& spec_mailbox_id_shape_ok(id.spec_bytes()) ==> exists|key: u64| #[trigger]
        deposit_with_key(s, t, key, id@, body, msg_id, now_secs, tick, r)
}

/// What a deposit with a well-shaped id does when the source is counted
/// under `key`: the source's rate counts the request and may refuse it;
/// a blob that is not a plausible envelope is refused; the rest is
/// [`deposit_outcome`].
pub open spec fn deposit_with_key(
    s: &AppState,
    t: &AppState,
    key: u64,
    id: Seq<char>,
    body: Vec<u8>,
    msg_id: [u8; 16],
    now_secs: u64,
    tick: u64,
    r: Reply,
) -> bool {
    let (sw, ok) = spec_source_admit(
        s.src_limiter.windows(),
        key,
        crate::relay::limits::SLOT_SOURCE_DEPOSIT,
        s.src_limiter.deposit_limit,
        now_secs / 60,
        tick,
        s.src_limiter.idle,
        s.src_limiter.max_entries,
    );
    &&& t.src_limiter.windows() == sw
    &&& t.src_limiter.same_limits(&s.src_limiter)
    &&& !ok ==> (r == Reply::TooManyRequests && t.boxes@ == s.boxes@ && t.box_limiter == s.box_limiter
        && t.global_bytes == s.global_bytes)
    &&& ok && !spec_deposit_admissible(body@) ==> (r == Reply::BadRequest && t.boxes@ == s.boxes@
        && t.box_limiter == s.box_limiter && t.global_bytes == s.global_bytes)
    &&& ok && spec_deposit_admissible(body@) ==> deposit_outcome(
        s,
        t,
        id,
        body,
        msg_id,
        now_secs,
        tick,
        r,
    )
}

/// What the per-mailbox part of a deposit does, from `s` to `t`, with
/// reply `r`: an unknown mailbox is not found; then the mailbox's rate
/// counts the request and may refuse it; then a blob that does not fit the
/// mailbox's caps is refused; otherwise it is queued at the back.
pub open spec fn deposit_outcome(
    s: &AppState,
    t: &AppState,
    id: Seq<char>,
    body: Vec<u8>,
    msg_id: [u8; 16],
    now_secs: u64,
    tick: u64,
    r: Reply,
) -> bool {
    if !s.boxes@.contains_key(id) {
        r == Reply::NotFound && t.boxes@ == s.boxes@ && t.box_limiter == s.box_limiter
            && t.global_bytes == s.global_bytes
    } else {
        let (bw, box_ok) = spec_box_admit(
            s.box_limiter.windows(),
            id,
            SLOT_BOX_DEPOSIT,
            s.box_limiter.deposit_limit,
            now_secs / 60,
            tick,
        );
        let mb = s.boxes@[id];
        &&& t.box_limiter.windows() == bw
        &&& t.box_limiter.same_limits(&s.box_limiter)
        &&& !box_ok ==> (r == Reply::TooManyRequests && t.boxes@ == s.boxes@ && t.global_bytes
            == s.global_bytes)
        &&& box_ok && !(mb.queue@.len() < s.cfg.mailbox_max_messages && mb.queued_bytes
            + body@.len() <= s.cfg.mailbox_max_bytes) ==> (r == Reply::InsufficientStorage
            && t.boxes@ == s.boxes@ && t.global_bytes == s.global_bytes)
        &&& box_ok && mb.queue@.len() < s.cfg.mailbox_max_messages && mb.queued_bytes
            + body@.len() <= s.cfg.mailbox_max_bytes ==> {
            &&& r == Reply::Accepted
            &&& t.boxes@.dom() == s.boxes@.dom()
            &&& forall|k: Seq<char>| #[trigger] s.boxes@.contains_key(k) && k != id ==> t.boxes@[k]
                == s.boxes@[k]
            &&& t.boxes@[id].queue@ == mb.queue@.push(
                QueuedMsg { id: msg_id, bytes: body, deposited_at: tick },
            )
            &&& t.boxes@[id].queued_bytes == mb.queued_bytes + body@.len()
            &&& t.boxes@[id].last_activity == Some(tick)
            &&& t.global_bytes == (if s.global_bytes + body@.len() <= usize::MAX {
                s.global_bytes + body@.len()
            } else {
                usize::MAX as int
            })
        }
    }
}

/// A fresh subscriber, which has been sent nothing, is delivered every
/// queued blob, in order: unacked blobs are redelivered on reconnect.
pub proof fn law_fresh_subscriber_gets_everything(q: Seq<QueuedMsg>)
    ensures
        unsent(q, Set::empty()) == q,
    decreases q.len(),
{
    if q.len() > 0 {
        law_fresh_subscriber_gets_everything(q.drop_last());
        assert(q.drop_last().push(q.last()) =~= q);
    }
}

/// `PUT` is no existence oracle: once the source's rate admits it, the
/// reply depends only on whether the relay is full, never on whether the
/// id exists.
pub proof fn law_put_reply_ignores_existence(
    s: &AppState,
    t: &AppState,
    key: u64,
    id: Seq<char>,
    now_secs: u64,
    tick: u64,
    r: Reply,
)
    requires
        put_with_key(s, t, key, id, now_secs, tick, r),
        spec_source_admit(
            s.src_limiter.windows(),
            key,
            crate::relay::limits::SLOT_PUT,
            s.src_limiter.put_limit,
            now_secs / 60,
            tick,
            s.src_limiter.idle,
            s.src_limiter.max_entries,
        ).1,
    ensures
        r == (if s.boxes@.len() < s.cfg.max_mailboxes {
            Reply::Created
        } else {
            Reply::ServiceUnavailable
        }),
{
}

/// The relay stores blobs verbatim: an accepted deposit queues exactly the
/// deposited bytes, last.
pub proof fn law_deposit_stores_verbatim(
    s: &AppState,
    t: &AppState,
    id: Seq<char>,
    body: Vec<u8>,
    msg_id: [u8; 16],
    now_secs: u64,
    tick: u64,
)
    requires
        deposit_outcome(s, t, id, body, msg_id, now_secs, tick, Reply::Accepted),
    ensures
        t.boxes@.contains_key(id),
        t.boxes@[id].queue@.last().bytes@ == body@,
        t.boxes@[id].queue@.last().id == msg_id,
{
}

/// The sum of `f` over the keys in `ks`.
pub open spec fn sum_over(f: spec_fn(Seq<char>) -> int, ks: Seq<Seq<char>>) -> int
    decreases ks.len(),
{
    if ks.len() == 0 {
        0
    } else {
        sum_over(f, ks.drop_last()) + f(ks.last())
    }
}

/// The queued bytes of each mailbox of `b` (0 for a missing one).
pub open spec fn queued_of(b: Map<Seq<char>, Mailbox>) -> spec_fn(Seq<char>) -> int {
    |k: Seq<char>| if b.contains_key(k) {
        b[k].queued_bytes as int
    } else {
        0
    }
}

/// The relay-wide byte count is the sum of the mailboxes' byte counts.
pub open spec fn bytes_accounted(b: Map<Seq<char>, Mailbox>, global: usize) -> bool {
    exists|ks: Seq<Seq<char>>| #[trigger] sum_over(queued_of(b), ks) == global && ks.no_duplicates()
        && forall|k: Seq<char>| b.contains_key(k) ==> ks.contains(k)
}

/// A mailbox whose blobs are queued in deposit order, none deposited after
/// its last activity.
pub open spec fn box_orderly(m: Mailbox) -> bool {
    &&& forall|i: int, j: int|
        0 <= i <= j < m.queue@.len() ==> m.queue@[i].deposited_at <= m.queue@[j].deposited_at
    &&& forall|i: int| #![trigger m.queue@[i]]
        0 <= i < m.queue@.len() ==> (m.last_activity matches Some(at) && m.queue@[i].deposited_at <= at)
}

proof fn lemma_sum_remove(f: spec_fn(Seq<char>) -> int, ks: Seq<Seq<char>>, j: int)
    requires
        0 <= j < ks.len(),
    ensures
        sum_over(f, ks) == sum_over(f, ks.remove(j)) + f(ks[j]),
    decreases ks.len(),
{
    if j < ks.len() - 1 {
        lemma_sum_remove(f, ks.drop_last(), j);
        assert(ks.remove(j).drop_last() =~= ks.drop_last().remove(j));
        assert(ks.remove(j).last() == ks.last());
    } else {
        assert(ks.remove(j) =~= ks.drop_last());
    }
}

/// Two duplicate-free key lists that both hold every key of `d` sum `f`
/// alike when `f` is 0 on their other keys.
proof fn lemma_sum_cover(f: spec_fn(Seq<char>) -> int, a: Seq<Seq<char>>, b: Seq<Seq<char>>, d: Set<Seq<char>>)
    requires
        a.no_duplicates(),
        b.no_duplicates(),
        forall|k: Seq<char>| d.contains(k) ==> a.contains(k) && b.contains(k),
        forall|k: Seq<char>| (a.contains(k) || b.contains(k)) && !d.contains(k) ==> f(k) == 0,
    ensures
        sum_over(f, a) == sum_over(f, b),
    decreases a.len() + b.len(),
{
    if a.len() == 0 {
        if b.len() > 0 {
            assert(!d.contains(b.last()));
            let b1 = b.drop_last();
            assert forall|k: Seq<char>| b1.contains(k) implies b.contains(k) by {
                let i = choose|i: int| 0 <= i < b1.len() && b1[i] == k;
                assert(b[i] == k);
            }
            assert(b1.no_duplicates()) by {
                assert forall|i: int, j: int| 0 <= i < b1.len() && 0 <= j < b1.len() && i != j implies b1[i] != b1[j] by {
                    assert(b[i] == b1[i] && b[j] == b1[j]);
                }
            }
            lemma_sum_cover(f, a, b1, d);
        }
    } else {
        let k = a.last();
        let a1 = a.drop_last();
        assert(a.contains(k));
        assert forall|x: Seq<char>| a1.contains(x) implies a.contains(x) && x != k by {
            let i = choose|i: int| 0 <= i < a1.len() && a1[i] == x;
            assert(a[i] == x);
        }
        assert(a1.no_duplicates()) by {
            assert forall|i: int, j: int| 0 <= i < a1.len() && 0 <= j < a1.len() && i != j implies a1[i] != a1[j] by {
                assert(a[i] == a1[i] && a[j] == a1[j]);
            }
        }
        if b.contains(k) {
            let j = choose|j: int| 0 <= j < b.len() && b[j] == k;
            let b1 = b.remove(j);
            lemma_sum_remove(f, b, j);
            assert forall|x: Seq<char>| b1.contains(x) implies b.contains(x) && x != k by {
                let i = choose|i: int| 0 <= i < b1.len() && b1[i] == x;
                if i < j {
                    assert(b[i] == x);
                } else {
                    assert(b[i + 1] == x);
                }
            }
            assert(b1.no_duplicates()) by {
                assert forall|i: int, i2: int| 0 <= i < b1.len() && 0 <= i2 < b1.len() && i != i2 implies b1[i] != b1[i2] by {
                    let ii = if i < j { i } else { i + 1 };
                    let jj = if i2 < j { i2 } else { i2 + 1 };
                    assert(b[ii] == b1[i] && b[jj] == b1[i2]);
                }
            }
            let d1 = d.remove(k);
            assert forall|x: Seq<char>| d1.contains(x) implies a1.contains(x) && b1.contains(x) by {
                assert(a.contains(x));
                let i = choose|i: int| 0 <= i < a.len() && a[i] == x;
                assert(i != a.len() - 1);
                assert(a1[i] == x);
                let i2 = choose|i2: int| 0 <= i2 < b.len() && b[i2] == x;
                assert(i2 != j);
                if i2 < j {
                    assert(b1[i2] == x);
                } else {
                    assert(b1[i2 - 1] == x);
                }
            }
            lemma_sum_cover(f, a1, b1, d1);
        } else {
            assert(!d.contains(k));
            assert forall|x: Seq<char>| d.contains(x) implies a1.contains(x) by {
                let i = choose|i: int| 0 <= i < a.len() && a[i] == x;
                assert(i != a.len() - 1);
                assert(a1[i] == x);
            }
            lemma_sum_cover(f, a1, b, d);
        }
    }
}

/// A queue whose blobs are all no younger than one older than `ttl` loses
/// them all.
proof fn lemma_all_old_expire(q: Seq<QueuedMsg>, at: u64, tick: u64, ttl: u64)
    requires
        older_than(at, tick, ttl),
        forall|i: int| 0 <= i < q.len() ==> #[trigger] q[i].deposited_at <= at,
    ensures
        expired_queue(q, tick, ttl).len() == 0,
    decreases q.len(),
{
    if q.len() > 0 {
        let rest = q.subrange(1, q.len() as int);
        assert forall|i: int| 0 <= i < rest.len() implies #[trigger] rest[i].deposited_at <= at by {
            assert(rest[i] == q[i + 1]);
        }
        lemma_all_old_expire(rest, at, tick, ttl);
    }
}

/// The expiry of an ordered queue drops exactly its blobs older than
/// `ttl`: what is left is a suffix, none of it older, and what went is
/// all older; the suffix is still ordered.
proof fn lemma_expired_queue_exact(q: Seq<QueuedMsg>, tick: u64, ttl: u64) -> (d: int)
    requires
        forall|i: int, j: int| 0 <= i <= j < q.len() ==> q[i].deposited_at <= q[j].deposited_at,
    ensures
        0 <= d <= q.len(),
        expired_queue(q, tick, ttl) == q.subrange(d, q.len() as int),
        forall|i: int| 0 <= i < d ==> older_than(#[trigger] q[i].deposited_at, tick, ttl),
        forall|i: int| d <= i < q.len() ==> !older_than(#[trigger] q[i].deposited_at, tick, ttl),
    decreases q.len(),
{
    if q.len() > 0 && older_than(q[0].deposited_at, tick, ttl) {
        let rest = q.subrange(1, q.len() as int);
        assert forall|i: int, j: int| 0 <= i <= j < rest.len() implies rest[i].deposited_at <= rest[j].deposited_at by {
            assert(rest[i] == q[i + 1] && rest[j] == q[j + 1]);
        }
        let d1 = lemma_expired_queue_exact(rest, tick, ttl);
        assert(rest.subrange(d1, rest.len() as int) =~= q.subrange(d1 + 1, q.len() as int));
        assert forall|i: int| 0 <= i < d1 + 1 implies older_than(#[trigger] q[i].deposited_at, tick, ttl) by {
            if i > 0 {
                assert(q[i] == rest[i - 1]);
            }
        }
        assert forall|i: int| d1 + 1 <= i < q.len() implies !older_than(#[trigger] q[i].deposited_at, tick, ttl) by {
            assert(q[i] == rest[i - 1]);
        }
        d1 + 1
    } else {
        assert(q.subrange(0, q.len() as int) =~= q);
        if q.len() > 0 {
            assert forall|i: int| 0 <= i < q.len() implies !older_than(#[trigger] q[i].deposited_at, tick, ttl) by {
                assert(q[0].deposited_at <= q[i].deposited_at);
            }
        }
        0
    }
}

proof fn lemma_sweep_sum(
    b0: Map<Seq<char>, Mailbox>,
    b1: Map<Seq<char>, Mailbox>,
    ks: Seq<Seq<char>>,
    tick: u64,
    ttl: u64,
)
    requires
        forall|k: Seq<char>| ks.contains(k) ==> b0.contains_key(k),
        forall|k: Seq<char>| #[trigger] b0.contains_key(k) ==> b0[k].wf() && box_orderly(b0[k]),
        forall|k: Seq<char>| #[trigger] b1.contains_key(k) ==> b1[k].wf(),
        swept(b0, b1, tick, ttl),
    ensures
        sum_over(queued_of(b0), ks) - expired_total(b0, ks, tick, ttl) == sum_over(queued_of(b1), ks),
        sum_over(queued_of(b1), ks) >= 0,
    decreases ks.len(),
{
    if ks.len() > 0 {
        let k = ks.last();
        assert(ks.contains(k));
        assert forall|x: Seq<char>| ks.drop_last().contains(x) implies b0.contains_key(x) by {
            let i = choose|i: int| 0 <= i < ks.drop_last().len() && ks.drop_last()[i] == x;
            assert(ks[i] == x);
            assert(ks.contains(x));
        }
        lemma_sweep_sum(b0, b1, ks.drop_last(), tick, ttl);
        let q = b0[k].queue@;
        lemma_total_nonneg(expired_queue(q, tick, ttl));
        if b1.contains_key(k) {
            assert(b1[k].queued_bytes == total_bytes(expired_queue(q, tick, ttl)));
        } else {
            assert(!box_live(b0[k], tick, ttl));
            let at = b0[k].last_activity->Some_0;
            assert forall|i: int| 0 <= i < q.len() implies #[trigger] q[i].deposited_at <= at by {
                assert(b0[k].queue@[i].deposited_at <= at);
            }
            lemma_all_old_expire(q, at, tick, ttl);
            assert(expired_queue(q, tick, ttl) =~= Seq::<QueuedMsg>::empty());
        }
    }
}

/// The sweep keeps the byte accounting: when the relay-wide count is the
/// sum of the mailboxes' counts and every mailbox is orderly, so it is
/// afterwards, each kept queue has lost exactly its blobs older than the
/// TTL (and is still orderly), and exactly the mailboxes idle past the TTL
/// are gone.
pub proof fn law_sweep_keeps_accounting(s: AppState, t: AppState, tick: u64, ks: Seq<Seq<char>>)
    requires
        s.wf(),
        t.wf(),
        forall|k: Seq<char>| #[trigger] s.boxes@.contains_key(k) ==> box_orderly(s.boxes@[k]),
        bytes_accounted(s.boxes@, s.global_bytes),
        swept(s.boxes@, t.boxes@, tick, ttl_millis(s.cfg.ttl)),
        ks.no_duplicates(),
        ks.to_set() == s.boxes@.dom(),
        t.global_bytes == floor_sub(
            s.global_bytes as int,
            expired_total(s.boxes@, ks, tick, ttl_millis(s.cfg.ttl)),
        ),
    ensures
        bytes_accounted(t.boxes@, t.global_bytes),
        forall|k: Seq<char>| #[trigger] t.boxes@.contains_key(k) ==> box_orderly(t.boxes@[k]),
        forall|k: Seq<char>| #[trigger] s.boxes@.contains_key(k) ==> (t.boxes@.contains_key(k)
            <==> box_live(s.boxes@[k], tick, ttl_millis(s.cfg.ttl))),
        forall|k: Seq<char>| #[trigger] t.boxes@.contains_key(k) ==> exists|d: int|
            0 <= d <= s.boxes@[k].queue@.len() && t.boxes@[k].queue@ == s.boxes@[k].queue@.subrange(
                d,
                s.boxes@[k].queue@.len() as int,
            ) && (forall|i: int| 0 <= i < d ==> older_than(
                #[trigger] s.boxes@[k].queue@[i].deposited_at,
                tick,
                ttl_millis(s.cfg.ttl),
            )) && (forall|i: int| d <= i < s.boxes@[k].queue@.len() ==> !older_than(
                #[trigger] s.boxes@[k].queue@[i].deposited_at,
                tick,
                ttl_millis(s.cfg.ttl),
            )),
{
    let ttl = ttl_millis(s.cfg.ttl);
    let b0 = s.boxes@;
    let b1 = t.boxes@;
    let ks0 = choose|ks0: Seq<Seq<char>>| #[trigger] sum_over(queued_of(b0), ks0) == s.global_bytes
        && ks0.no_duplicates() && forall|k: Seq<char>| b0.contains_key(k) ==> ks0.contains(k);
    assert forall|k: Seq<char>| b0.dom().contains(k) implies ks0.contains(k) && ks.contains(k) by {
        assert(ks.to_set().contains(k));
    }
    assert forall|k: Seq<char>| (ks0.contains(k) || ks.contains(k)) && !b0.dom().contains(k)
        implies queued_of(b0)(k) == 0 by {}
    lemma_sum_cover(queued_of(b0), ks0, ks, b0.dom());
    assert forall|k: Seq<char>| ks.contains(k) implies b0.contains_key(k) by {
        assert(ks.to_set().contains(k));
    }
    lemma_sweep_sum(b0, b1, ks, tick, ttl);
    assert(sum_over(queued_of(b1), ks) == t.global_bytes);
    assert forall|k: Seq<char>| b1.contains_key(k) implies ks.contains(k) by {
        assert(ks.to_set().contains(k));
    }
    assert forall|k: Seq<char>| #[trigger] b1.contains_key(k) implies exists|d: int|
        0 <= d <= b0[k].queue@.len() && b1[k].queue@ == b0[k].queue@.subrange(d, b0[k].queue@.len() as int)
            && (forall|i: int| 0 <= i < d ==> older_than(#[trigger] b0[k].queue@[i].deposited_at, tick, ttl))
            && (forall|i: int| d <= i < b0[k].queue@.len() ==> !older_than(
            #[trigger] b0[k].queue@[i].deposited_at,
            tick,
            ttl,
        )) && box_orderly(b1[k]) by {
        let q = b0[k].queue@;
        let d = lemma_expired_queue_exact(q, tick, ttl);
        let q1 = b1[k].queue@;
        assert forall|i: int, j: int| 0 <= i <= j < q1.len() implies q1[i].deposited_at <= q1[j].deposited_at by {
            assert(q1[i] == q[i + d] && q1[j] == q[j + d]);
        }
        assert forall|i: int| #![trigger q1[i]] 0 <= i < q1.len() implies (b1[k].last_activity matches Some(at)
            && q1[i].deposited_at <= at) by {
            assert(q1[i] == q[i + d]);
            assert(b0[k].queue@[i + d].deposited_at <= b0[k].last_activity->Some_0);
        }
    }
}

/// The blobs of `q` whose id is not `id`, in order.
pub open spec fn others_than(q: Seq<QueuedMsg>, id: Seq<u8>) -> Seq<QueuedMsg>
    decreases q.len(),
{
    if q.len() == 0 {
        q
    } else if q.last().id@ == id {
        others_than(q.drop_last(), id)
    } else {
        others_than(q.drop_last(), id).push(q.last())
    }
}

proof fn lemma_others_remove(q: Seq<QueuedMsg>, id: Seq<u8>, i: int)
    requires
        0 <= i < q.len(),
        q[i].id@ == id,
    ensures
        others_than(q.remove(i), id) == others_than(q, id),
    decreases q.len(),
{
    if i == q.len() - 1 {
        assert(q.remove(i) =~= q.drop_last());
    } else {
        lemma_others_remove(q.drop_last(), id, i);
        assert(q.remove(i).drop_last() =~= q.drop_last().remove(i));
        assert(q.remove(i).last() == q.last());
    }
}

/// An ack removes exactly one blob, the first queued under the acked id,
/// and only when one is queued: every blob with another id stays, in
/// order; the blobs before the first one with that id keep their places,
/// and those after it move up by one; the bytes freed are that blob's.
/// An id that is not queued changes nothing.
pub proof fn law_ack_removes_first_with_id(m: Mailbox, n: Mailbox, id: Seq<u8>, tick: u64, freed: Option<usize>)
    requires
        spec_ack(m, n, id, tick, freed),
    ensures
        freed is Some <==> exists|k: int| 0 <= k < m.queue@.len() && #[trigger] m.queue@[k].id@ == id,
        freed is None ==> n == m,
        freed is Some ==> n.queue@.len() == m.queue@.len() - 1,
        others_than(n.queue@, id) == others_than(m.queue@, id),
        forall|j: int| #![trigger n.queue@[j]]
            0 <= j < n.queue@.len() && (forall|k: int| 0 <= k <= j ==> m.queue@[k].id@ != id)
                ==> n.queue@[j] == m.queue@[j],
        forall|j: int| #![trigger n.queue@[j]]
            0 <= j < n.queue@.len() && (exists|k: int| 0 <= k <= j && m.queue@[k].id@ == id)
                ==> n.queue@[j] == m.queue@[j + 1],
        freed matches Some(b) ==> exists|k: int|
            0 <= k < m.queue@.len() && #[trigger] m.queue@[k].id@ == id && b == m.queue@[k].bytes@.len(),
{
    match freed {
        Some(b) => {
            let i = choose|i: int|
                0 <= i < m.queue@.len() && m.queue@[i].id@ == id && (forall|j: int|
                    0 <= j < i ==> m.queue@[j].id@ != id) && n.queue@ == m.queue@.remove(i) && b
                    == m.queue@[i].bytes@.len() && n.queued_bytes == m.queued_bytes - b
                    && n.last_activity == Some(tick);
            lemma_others_remove(m.queue@, id, i);
            assert forall|j: int| #![trigger n.queue@[j]]
                0 <= j < n.queue@.len() && (forall|k: int| 0 <= k <= j ==> m.queue@[k].id@ != id)
                    implies n.queue@[j] == m.queue@[j] by {
                if j >= i {
                    assert(m.queue@[i].id@ == id);
                }
            }
            assert forall|j: int| #![trigger n.queue@[j]]
                0 <= j < n.queue@.len() && (exists|k: int| 0 <= k <= j && m.queue@[k].id@ == id)
                    implies n.queue@[j] == m.queue@[j + 1] by {
                let k = choose|k: int| 0 <= k <= j && m.queue@[k].id@ == id;
                assert(k >= i);
            }
        },
        None => {},
    }
}

} // verus!
