//! Rate limiting under two structurally disjoint limiters: per source
//! (keyed by a per-process keyed hash of the coarsened source address,
//! holding no mailbox data) and per mailbox (keyed by mailbox id, holding
//! no source data). Counting is per fixed one-minute window; entries idle
//! for too long are dropped.
//!
//! Time comes in as values: `now_secs` is wall-clock Unix seconds (whose
//! minute names the window), `tick` a monotonic millisecond count (for
//! idleness).

use std::hash::RandomState;

use vstd::prelude::*;

use crate::relay::config::Config;
use crate::relay::table::{IdTable, KeyedTable};

verus! {

/// Source counter slot: `POST` create.
pub const SLOT_CREATE: u8 = 0;
/// Source counter slot: deposits.
pub const SLOT_SOURCE_DEPOSIT: u8 = 1;
/// Source counter slot: `PUT` create-at-id.
pub const SLOT_PUT: u8 = 2;
/// Mailbox counter slot: deposits.
pub const SLOT_BOX_DEPOSIT: u8 = 0;
/// Mailbox counter slot: subscriptions.
pub const SLOT_WS: u8 = 1;

/// Seconds until the current fixed window rolls over, at wall clock
/// `now_secs`.
pub fn retry_after_secs(now_secs: u64) -> (s: u64)
    ensures
        s == 60 - now_secs % 60,
        1 <= s <= 60,
{
    60 - now_secs % 60
}

/// Seconds as milliseconds, saturating.
pub fn idle_millis(secs: u64) -> (ms: u64)
    ensures
        ms == (if secs <= u64::MAX / 1000 {
            secs * 1000
        } else {
            u64::MAX as int
        }),
{
    if secs <= u64::MAX / 1000 {
        secs * 1000
    } else {
        u64::MAX
    }
}

/// One key's counters for the current minute.
#[derive(Debug, Clone, Copy)]
pub struct Window {
    /// The minute (Unix seconds / 60) the counters belong to.
    pub minute: u64,
    /// Independent counters for the request classes on a key.
    pub counts: (u32, u32, u32),
    /// Last use, in monotonic milliseconds.
    pub touched: u64,
}

/// Counter `slot`.
pub open spec fn slot_get(c: (u32, u32, u32), slot: u8) -> u32 {
    if slot == 0 {
        c.0
    } else if slot == 1 {
        c.1
    } else {
        c.2
    }
}

/// Counter `slot` set to `v`.
pub open spec fn slot_set(c: (u32, u32, u32), slot: u8, v: u32) -> (u32, u32, u32) {
    if slot == 0 {
        (v, c.1, c.2)
    } else if slot == 1 {
        (c.0, v, c.2)
    } else {
        (c.0, c.1, v)
    }
}

/// A window with no requests counted.
pub open spec fn fresh_window(minute: u64, tick: u64) -> Window {
    Window { minute, counts: (0, 0, 0), touched: tick }
}

/// One request of class `slot` against `w`: the window rolls over to
/// `minute` when it belongs to another one, is touched, and counts the
/// request when fewer than `limit` were counted; the result says whether
/// the request is within the limit.
pub open spec fn spec_window_admit(w: Window, minute: u64, tick: u64, slot: u8, limit: u32) -> (
    Window,
    bool,
) {
    let c = if w.minute != minute {
        (0u32, 0u32, 0u32)
    } else {
        w.counts
    };
    if slot_get(c, slot) >= limit {
        (Window { minute, counts: c, touched: tick }, false)
    } else {
        (Window { minute, counts: slot_set(c, slot, (slot_get(c, slot) + 1) as u32), touched: tick }, true)
    }
}

impl Window {
    fn fresh(minute: u64, tick: u64) -> (w: Window)
        ensures
            w == fresh_window(minute, tick),
    {
        Window { minute, counts: (0, 0, 0), touched: tick }
    }

    fn count_request(self, minute: u64, tick: u64, slot: u8, limit: u32) -> (r: (Window, bool))
        ensures
            r == spec_window_admit(self, minute, tick, slot, limit),
    {
        let c = if self.minute != minute {
            (0u32, 0u32, 0u32)
        } else {
            self.counts
        };
        let n = if slot == 0 {
            c.0
        } else if slot == 1 {
            c.1
        } else {
            c.2
        };
        if n >= limit {
            return (Window { minute, counts: c, touched: tick }, false);
        }
        let counts = if slot == 0 {
            (n + 1, c.1, c.2)
        } else if slot == 1 {
            (c.0, n + 1, c.2)
        } else {
            (c.0, c.1, n + 1)
        };
        (Window { minute, counts, touched: tick }, true)
    }
}

/// Within one minute, a class is admitted at most `limit` times: a window
/// that holds at most `limit` requests of a class still does afterwards,
/// and the other classes' counts are untouched.
pub proof fn law_window_bounded(w: Window, tick: u64, slot: u8, limit: u32)
    requires
        slot <= 2,
        slot_get(w.counts, slot) <= limit,
    ensures
        ({
            let (w2, ok) = spec_window_admit(w, w.minute, tick, slot, limit);
            &&& slot_get(w2.counts, slot) <= limit
            &&& ok ==> slot_get(w2.counts, slot) == slot_get(w.counts, slot) + 1
            &&& !ok ==> w2.counts == w.counts
            &&& forall|s: u8| s <= 2 && s != slot ==> slot_get(w2.counts, s) == slot_get(w.counts, s)
        }),
{
}

/// A new minute starts every class afresh: the first request of a class
/// in a new minute is admitted whenever the limit is not zero.
pub proof fn law_window_rollover(w: Window, minute: u64, tick: u64, slot: u8, limit: u32)
    requires
        minute != w.minute,
        limit > 0,
    ensures
        spec_window_admit(w, minute, tick, slot, limit).1,
        slot_get(spec_window_admit(w, minute, tick, slot, limit).0.counts, slot) == 1,
{
}

/// Whether an entry last used at `touched` is still live at `tick`.
pub open spec fn live(touched: u64, tick: u64, idle: u64) -> bool {
    (if tick >= touched {
        tick - touched
    } else {
        0
    }) < idle
}

/// `m` without its idle entries.
pub open spec fn without_idle<K>(m: Map<K, Window>, tick: u64, idle: u64) -> Map<K, Window> {
    Map::new(|k: K| m.contains_key(k) && live(m[k].touched, tick, idle), |k: K| m[k])
}

/// A source address, as the limiter sees it.
#[derive(Debug, Clone, Copy)]
pub enum SourceAddr {
    V4([u8; 4]),
    V6([u8; 16]),
}

/// The bytes a source is counted by: the whole IPv4 address, or the /64
/// prefix of an IPv6 address, so one host cannot rotate a whole prefix.
pub open spec fn coarse_bytes(src: SourceAddr) -> Seq<u8> {
    match src {
        SourceAddr::V4(b) => b@,
        SourceAddr::V6(b) => b@.subrange(0, 8),
    }
}

/// The coarsened bytes of a source.
pub fn coarse(src: &SourceAddr) -> (v: Vec<u8>)
    ensures
        v@ == coarse_bytes(*src),
{
    match src {
        SourceAddr::V4(b) => vstd::slice::slice_to_vec(b.as_slice()),
        SourceAddr::V6(b) => vstd::slice::slice_to_vec(&b.as_slice()[0..8]),
    }
}

/// `std::hash::RandomState::new`: a hasher with keys this process drew at
/// random; nothing is known of the keys.
#[verifier::external_body]
fn new_random_state() -> RandomState {
    RandomState::new()
}

/// `std::hash::BuildHasher::hash_one` of `bytes` under `hasher`: the
/// result depends on the process's random keys, so nothing is stated of
/// it.
#[verifier::external_body]
fn keyed_hash(hasher: &RandomState, bytes: &Vec<u8>) -> u64 {
    std::hash::BuildHasher::hash_one(hasher, bytes)
}

/// What one request on `key` does to the source map `m`: a zero limit
/// refuses; a new key on a full map first drops idle entries and is
/// refused if the map is still full; otherwise the key's window (fresh if
/// absent) counts the request.
pub open spec fn spec_source_admit(
    m: Map<u64, Window>,
    key: u64,
    slot: u8,
    limit: u32,
    minute: u64,
    tick: u64,
    idle: u64,
    max_entries: usize,
) -> (Map<u64, Window>, bool) {
    if limit == 0 {
        (m, false)
    } else {
        let full = m.len() >= max_entries && !m.contains_key(key);
        let m1 = if full {
            without_idle(m, tick, idle)
        } else {
            m
        };
        if full && m1.len() >= max_entries {
            (m1, false)
        } else {
            let w = if m1.contains_key(key) {
                m1[key]
            } else {
                fresh_window(minute, tick)
            };
            let (w2, ok) = spec_window_admit(w, minute, tick, slot, limit);
            (m1.insert(key, w2), ok)
        }
    }
}

/// Drops from `t` every entry idle at `tick`.
fn prune_ids(t: &mut IdTable<Window>, tick: u64, idle: u64)
    requires
        old(t).wf(),
    ensures
        final(t).wf(),
        final(t)@ == without_idle(old(t)@, tick, idle),
{
    let ghost m0 = t@;
    let keys = t.key_list();
    let mut i: usize = 0;
    while i < keys.len()
        invariant
            t.wf(),
            i <= keys@.len(),
            keys@.to_set() == m0.dom(),
            keys@.no_duplicates(),
            forall|k: u64| #[trigger] t@.contains_key(k) <==> (m0.contains_key(k) && (keys@.subrange(0, i as int).contains(k) ==> live(m0[k].touched, tick, idle))),
            forall|k: u64| #[trigger] t@.contains_key(k) ==> t@[k] == m0[k],
        decreases keys@.len() - i,
    {
        let k = keys[i];
        let ghost before = t@;
        let stale = match t.get(k) {
            Some(w) => !(if tick >= w.touched {
                tick - w.touched
            } else {
                0
            } < idle),
            None => false,
        };
        if stale {
            t.remove(k);
        }
        i = i + 1;
        assert forall|x: u64| #[trigger] t@.contains_key(x) <==> (m0.contains_key(x) && (keys@.subrange(0, i as int).contains(x) ==> live(m0[x].touched, tick, idle))) by {
            if keys@.subrange(0, i as int).contains(x) && x != k {
                let j = choose|j: int| 0 <= j < i && #[trigger] keys@.subrange(0, i as int)[j] == x;
                assert(keys@.subrange(0, i - 1)[j] == x);
            }
            if keys@.subrange(0, i - 1).contains(x) {
                let j = choose|j: int| 0 <= j < i - 1 && #[trigger] keys@.subrange(0, i - 1)[j] == x;
                assert(keys@.subrange(0, i as int)[j] == x);
            }
            if x == k {
                assert(keys@.subrange(0, i as int)[i - 1] == x);
                assert(keys@.to_set().contains(k));
                if keys@.subrange(0, i - 1).contains(x) {
                    let j = choose|j: int| 0 <= j < i - 1 && #[trigger] keys@.subrange(0, i - 1)[j] == x;
                    assert(keys@[j] == keys@[i - 1]);
                }
            }
        }
    }
    assert(t@ =~= without_idle(m0, tick, idle)) by {
        assert(keys@.subrange(0, i as int) =~= keys@);
        assert forall|k: u64| m0.contains_key(k) implies keys@.contains(k) by {
            assert(keys@.to_set().contains(k));
        }
    }
}

/// Per-source limiter.
pub struct SourceLimiter {
    /// Keys the source hashes with this process's random keys.
    pub hasher: RandomState,
    /// The windows by source key.
    pub map: IdTable<Window>,
    pub create_limit: u32,
    pub put_limit: u32,
    pub deposit_limit: u32,
    /// Idle expiry, monotonic milliseconds.
    pub idle: u64,
    pub max_entries: usize,
}

impl SourceLimiter {
    /// The counted windows by key.
    pub open spec fn windows(&self) -> Map<u64, Window> {
        self.map@
    }

    /// The internal bookkeeping is consistent.
    pub open spec fn wf(&self) -> bool {
        self.map.wf()
    }

    /// A limiter with the configured limits and no entries.
    pub fn new(cfg: &Config) -> (l: Self)
        ensures
            l.wf(),
            l.windows() == Map::<u64, Window>::empty(),
            l.create_limit == cfg.rate_create_per_min,
            l.put_limit == cfg.rate_put_per_min_source,
            l.deposit_limit == cfg.rate_deposit_per_min_source,
            l.idle == (if cfg.limiter_idle <= u64::MAX / 1000 {
                cfg.limiter_idle * 1000
            } else {
                u64::MAX as int
            }),
            l.max_entries == cfg.limiter_max_sources,
    {
        SourceLimiter {
            hasher: new_random_state(),
            map: IdTable::new(),
            create_limit: cfg.rate_create_per_min,
            put_limit: cfg.rate_put_per_min_source,
            deposit_limit: cfg.rate_deposit_per_min_source,
            idle: idle_millis(cfg.limiter_idle),
            max_entries: cfg.limiter_max_sources,
        }
    }

    /// The limits and caps are unchanged from `other`.
    pub open spec fn same_limits(&self, other: &SourceLimiter) -> bool {
        &&& self.create_limit == other.create_limit
        &&& self.put_limit == other.put_limit
        &&& self.deposit_limit == other.deposit_limit
        &&& self.idle == other.idle
        &&& self.max_entries == other.max_entries
    }

    /// Drops every entry idle at `tick`.
    pub fn prune(&mut self, tick: u64)
        requires
            old(self).wf(),
        ensures
            final(self).wf(),
            final(self).same_limits(old(self)),
            final(self).windows() == without_idle(old(self).windows(), tick, old(self).idle),
    {
        prune_ids(&mut self.map, tick, self.idle);
    }

    /// One request of class `slot` from the source counted under `key`.
    pub fn admit_key(&mut self, key: u64, slot: u8, limit: u32, now_secs: u64, tick: u64) -> (ok: bool)
        requires
            old(self).wf(),
        ensures
            final(self).wf(),
            final(self).same_limits(old(self)),
            (final(self).windows(), ok) == spec_source_admit(
                old(self).windows(),
                key,
                slot,
                limit,
                now_secs / 60,
                tick,
                old(self).idle,
                old(self).max_entries,
            ),
    {
        if limit == 0 {
            return false;
        }
        let minute = now_secs / 60;
        let full = self.map.len() >= self.max_entries && !self.map.contains_key(key);
        if full {
            prune_ids(&mut self.map, tick, self.idle);
            if self.map.len() >= self.max_entries {
                return false;
            }
        }
        let w = match self.map.get(key) {
            Some(w) => *w,
            None => Window::fresh(minute, tick),
        };
        let (w2, ok) = w.count_request(minute, tick, slot, limit);
        self.map.insert(key, w2);
        ok
    }

    /// The key a source is counted under.
    fn key_of(&self, src: &SourceAddr) -> u64 {
        keyed_hash(&self.hasher, &coarse(src))
    }

    fn admit_source(&mut self, src: &SourceAddr, slot: u8, limit: u32, now_secs: u64, tick: u64) -> (ok: bool)
        requires
            old(self).wf(),
        ensures
            final(self).wf(),
            final(self).same_limits(old(self)),
            exists|key: u64| (final(self).windows(), ok) == #[trigger] spec_source_admit(
                old(self).windows(),
                key,
                slot,
                limit,
                now_secs / 60,
                tick,
                old(self).idle,
                old(self).max_entries,
            ),
    {
        if limit == 0 {
            assert((self.windows(), false) == spec_source_admit(self.windows(), 0, slot, limit, now_secs / 60, tick, self.idle, self.max_entries));
            return false;
        }
        let key = self.key_of(src);
        self.admit_key(key, slot, limit, now_secs, tick)
    }

    /// A `POST` create from `src`.
    pub fn admit_create(&mut self, src: &SourceAddr, now_secs: u64, tick: u64) -> (ok: bool)
        requires
            old(self).wf(),
        ensures
            final(self).wf(),
            final(self).same_limits(old(self)),
            exists|key: u64| (final(self).windows(), ok) == #[trigger] spec_source_admit(
                old(self).windows(),
                key,
                SLOT_CREATE,
                old(self).create_limit,
                now_secs / 60,
                tick,
                old(self).idle,
                old(self).max_entries,
            ),
    {
        let limit = self.create_limit;
        self.admit_source(src, SLOT_CREATE, limit, now_secs, tick)
    }

    /// A `PUT` create-at-id from `src`.
    pub fn admit_put(&mut self, src: &SourceAddr, now_secs: u64, tick: u64) -> (ok: bool)
        requires
            old(self).wf(),
        ensures
            final(self).wf(),
            final(self).same_limits(old(self)),
            exists|key: u64| (final(self).windows(), ok) == #[trigger] spec_source_admit(
                old(self).windows(),
                key,
                SLOT_PUT,
                old(self).put_limit,
                now_secs / 60,
                tick,
                old(self).idle,
                old(self).max_entries,
            ),
    {
        let limit = self.put_limit;
        self.admit_source(src, SLOT_PUT, limit, now_secs, tick)
    }

    /// A deposit from `src`.
    pub fn admit_deposit(&mut self, src: &SourceAddr, now_secs: u64, tick: u64) -> (ok: bool)
        requires
            old(self).wf(),
        ensures
            final(self).wf(),
            final(self).same_limits(old(self)),
            exists|key: u64| (final(self).windows(), ok) == #[trigger] spec_source_admit(
                old(self).windows(),
                key,
                SLOT_SOURCE_DEPOSIT,
                old(self).deposit_limit,
                now_secs / 60,
                tick,
                old(self).idle,
                old(self).max_entries,
            ),
    {
        let limit = self.deposit_limit;
        self.admit_source(src, SLOT_SOURCE_DEPOSIT, limit, now_secs, tick)
    }
}

/// What one request on `mailbox` does to the mailbox map `m`: a zero limit
/// refuses; otherwise the mailbox's window (fresh if absent) counts it.
pub open spec fn spec_box_admit(
    m: Map<Seq<char>, Window>,
    mailbox: Seq<char>,
    slot: u8,
    limit: u32,
    minute: u64,
    tick: u64,
) -> (Map<Seq<char>, Window>, bool) {
    if limit == 0 {
        (m, false)
    } else {
        let w = if m.contains_key(mailbox) {
            m[mailbox]
        } else {
            fresh_window(minute, tick)
        };
        let (w2, ok) = spec_window_admit(w, minute, tick, slot, limit);
        (m.insert(mailbox, w2), ok)
    }
}

/// Per-mailbox limiter, keyed by mailbox id; it holds no source data.
pub struct BoxLimiter {
    /// The windows by mailbox id.
    pub map: KeyedTable<Window>,
    pub deposit_limit: u32,
    pub ws_limit: u32,
    /// Idle expiry, monotonic milliseconds.
    pub idle: u64,
}

impl BoxLimiter {
    /// The counted windows by mailbox id.
    pub open spec fn windows(&self) -> Map<Seq<char>, Window> {
        self.map@
    }

    /// The internal bookkeeping is consistent.
    pub open spec fn wf(&self) -> bool {
        self.map.wf()
    }

    /// The limits are unchanged from `other`.
    pub open spec fn same_limits(&self, other: &BoxLimiter) -> bool {
        &&& self.deposit_limit == other.deposit_limit
        &&& self.ws_limit == other.ws_limit
        &&& self.idle == other.idle
    }

    /// A limiter with the configured limits and no entries.
    pub fn new(cfg: &Config) -> (l: Self)
        ensures
            l.wf(),
            l.windows() == Map::<Seq<char>, Window>::empty(),
            l.deposit_limit == cfg.rate_deposit_per_min_mailbox,
            l.ws_limit == cfg.rate_ws_per_min_mailbox,
            l.idle == (if cfg.limiter_idle <= u64::MAX / 1000 {
                cfg.limiter_idle * 1000
            } else {
                u64::MAX as int
            }),
    {
        BoxLimiter {
            map: KeyedTable::new(),
            deposit_limit: cfg.rate_deposit_per_min_mailbox,
            ws_limit: cfg.rate_ws_per_min_mailbox,
            idle: idle_millis(cfg.limiter_idle),
        }
    }

    fn admit_box(&mut self, mailbox: &str, slot: u8, limit: u32, now_secs: u64, tick: u64) -> (ok: bool)
        requires
            old(self).wf(),
        ensures
            final(self).wf(),
            final(self).same_limits(old(self)),
            (final(self).windows(), ok) == spec_box_admit(
                old(self).windows(),
                mailbox@,
                slot,
                limit,
                now_secs / 60,
                tick,
            ),
    {
        if limit == 0 {
            return false;
        }
        let minute = now_secs / 60;
        let w = match self.map.get(mailbox) {
            Some(w) => *w,
            None => Window::fresh(minute, tick),
        };
        let (w2, ok) = w.count_request(minute, tick, slot, limit);
        self.map.insert(mailbox.to_owned(), w2);
        ok
    }

    /// A deposit into `mailbox`.
    pub fn admit_deposit(&mut self, mailbox: &str, now_secs: u64, tick: u64) -> (ok: bool)
        requires
            old(self).wf(),
        ensures
            final(self).wf(),
            final(self).same_limits(old(self)),
            (final(self).windows(), ok) == spec_box_admit(
                old(self).windows(),
                mailbox@,
                SLOT_BOX_DEPOSIT,
                old(self).deposit_limit,
                now_secs / 60,
                tick,
            ),
    {
        let limit = self.deposit_limit;
        self.admit_box(mailbox, SLOT_BOX_DEPOSIT, limit, now_secs, tick)
    }

    /// A subscription to `mailbox`.
    pub fn admit_ws(&mut self, mailbox: &str, now_secs: u64, tick: u64) -> (ok: bool)
        requires
            old(self).wf(),
        ensures
            final(self).wf(),
            final(self).same_limits(old(self)),
            (final(self).windows(), ok) == spec_box_admit(
                old(self).windows(),
                mailbox@,
                SLOT_WS,
                old(self).ws_limit,
                now_secs / 60,
                tick,
            ),
    {
        let limit = self.ws_limit;
        self.admit_box(mailbox, SLOT_WS, limit, now_secs, tick)
    }

    /// Drops every entry idle at `tick`.
    pub fn prune(&mut self, tick: u64)
        requires
            old(self).wf(),
        ensures
            final(self).wf(),
            final(self).same_limits(old(self)),
            final(self).windows() == without_idle(old(self).windows(), tick, old(self).idle),
    {
        let ghost m0 = self.map@;
        let idle = self.idle;
        let keys = self.map.key_list();
        let ghost kv = keys@.map_values(|s: String| s@);
        let mut i: usize = 0;
        while i < keys.len()
            invariant
                self.map.wf(),
                idle == self.idle,
                self.same_limits(old(self)),
                i <= keys@.len(),
                kv == keys@.map_values(|s: String| s@),
                kv.to_set() == m0.dom(),
                kv.no_duplicates(),
                forall|k: Seq<char>| #[trigger] self.map@.contains_key(k) <==> (m0.contains_key(k) && (kv.subrange(0, i as int).contains(k) ==> live(m0[k].touched, tick, idle))),
                forall|k: Seq<char>| #[trigger] self.map@.contains_key(k) ==> self.map@[k] == m0[k],
            decreases keys@.len() - i,
        {
            let k = keys[i].as_str();
            assert(k@ == kv[i as int]);
            let stale = match self.map.get(k) {
                Some(w) => !(if tick >= w.touched {
                    tick - w.touched
                } else {
                    0
                } < idle),
                None => false,
            };
            if stale {
                self.map.remove(k);
            }
            i = i + 1;
            let ghost kk = kv[i - 1];
            assert forall|x: Seq<char>| #[trigger] self.map@.contains_key(x) <==> (m0.contains_key(x) && (kv.subrange(0, i as int).contains(x) ==> live(m0[x].touched, tick, idle))) by {
                if kv.subrange(0, i as int).contains(x) && x != kk {
                    let j = choose|j: int| 0 <= j < i && #[trigger] kv.subrange(0, i as int)[j] == x;
                    assert(kv.subrange(0, i - 1)[j] == x);
                }
                if kv.subrange(0, i - 1).contains(x) {
                    let j = choose|j: int| 0 <= j < i - 1 && #[trigger] kv.subrange(0, i - 1)[j] == x;
                    assert(kv.subrange(0, i as int)[j] == x);
                }
                if x == kk {
                    assert(kv.subrange(0, i as int)[i - 1] == x);
                    assert(kv.to_set().contains(kk));
                    if kv.subrange(0, i - 1).contains(x) {
                        let j = choose|j: int| 0 <= j < i - 1 && #[trigger] kv.subrange(0, i - 1)[j] == x;
                        assert(kv[j] == kv[i - 1]);
                    }
                }
            }
        }
        assert(self.map@ =~= without_idle(m0, tick, idle)) by {
            assert(kv.subrange(0, i as int) =~= kv);
            assert forall|k: Seq<char>| m0.contains_key(k) implies kv.contains(k) by {
                assert(kv.to_set().contains(k));
            }
        }
    }

    /// Forgets a mailbox's counters when it is deleted.
    pub fn forget(&mut self, mailbox: &str)
        requires
            old(self).wf(),
        ensures
            final(self).wf(),
            final(self).same_limits(old(self)),
            final(self).windows() == old(self).windows().remove(mailbox@),
    {
        self.map.remove(mailbox);
    }
}

/// The counts `w` holds for `minute`: its own when it belongs to that
/// minute, none otherwise.
pub open spec fn counts_in(w: Window, minute: u64) -> (u32, u32, u32) {
    if w.minute == minute {
        w.counts
    } else {
        (0, 0, 0)
    }
}

/// The requests of class `s` among `reqs` (each a class and a tick).
pub open spec fn class_count(reqs: Seq<(u8, u64)>, s: u8) -> nat
    decreases reqs.len(),
{
    if reqs.len() == 0 {
        0
    } else {
        class_count(reqs.drop_last(), s) + if reqs.last().0 == s {
            1nat
        } else {
            0nat
        }
    }
}

/// The requests of class `s` counted this minute under `key` in `m`.
pub open spec fn key_count<K>(m: Map<K, Window>, key: K, s: u8, minute: u64) -> nat {
    if m.contains_key(key) {
        slot_get(counts_in(m[key], minute), s) as nat
    } else {
        0
    }
}

/// `a`, or `b` when that is smaller.
pub open spec fn min_nat(a: nat, b: nat) -> nat {
    if a <= b {
        a
    } else {
        b
    }
}

/// A run of requests on one mailbox within `minute`, each of a class and
/// at a tick, against per-class limits `lims`: the windows afterwards and
/// each request's answer.
pub open spec fn box_run(
    m: Map<Seq<char>, Window>,
    mailbox: Seq<char>,
    reqs: Seq<(u8, u64)>,
    lims: (u32, u32, u32),
    minute: u64,
) -> (Map<Seq<char>, Window>, Seq<bool>)
    decreases reqs.len(),
{
    if reqs.len() == 0 {
        (m, Seq::empty())
    } else {
        let (m1, oks) = box_run(m, mailbox, reqs.drop_last(), lims, minute);
        let (m2, ok) = spec_box_admit(
            m1,
            mailbox,
            reqs.last().0,
            slot_get(lims, reqs.last().0),
            minute,
            reqs.last().1,
        );
        (m2, oks.push(ok))
    }
}

/// A run of requests from one source key within `minute`, as
/// [`box_run`] for the source limiter.
pub open spec fn source_run(
    m: Map<u64, Window>,
    key: u64,
    reqs: Seq<(u8, u64)>,
    lims: (u32, u32, u32),
    minute: u64,
    idle: u64,
    max_entries: usize,
) -> (Map<u64, Window>, Seq<bool>)
    decreases reqs.len(),
{
    if reqs.len() == 0 {
        (m, Seq::empty())
    } else {
        let (m1, oks) = source_run(m, key, reqs.drop_last(), lims, minute, idle, max_entries);
        let (m2, ok) = spec_source_admit(
            m1,
            key,
            reqs.last().0,
            slot_get(lims, reqs.last().0),
            minute,
            reqs.last().1,
            idle,
            max_entries,
        );
        (m2, oks.push(ok))
    }
}

/// One counted request on a window: admitted exactly when fewer than
/// `limit` of its class were counted this minute; then its class count
/// grows by one and the others stay.
proof fn lemma_window_step(w: Window, minute: u64, tick: u64, slot: u8, limit: u32)
    requires
        slot <= 2,
    ensures
        ({
            let (w2, ok) = spec_window_admit(w, minute, tick, slot, limit);
            &&& w2.minute == minute
            &&& ok == (slot_get(counts_in(w, minute), slot) < limit)
            &&& forall|s: u8| #![trigger slot_get(w2.counts, s)]
                s <= 2 ==> slot_get(w2.counts, s) == if s == slot && ok {
                    slot_get(counts_in(w, minute), s) + 1
                } else {
                    slot_get(counts_in(w, minute), s) as int
                }
        }),
{
}

proof fn lemma_class_count_take(reqs: Seq<(u8, u64)>, i: int)
    requires
        0 <= i < reqs.len(),
    ensures
        reqs.take(i) == reqs.drop_last().take(i) || i == reqs.len() - 1,
        i == reqs.len() - 1 ==> reqs.take(i) == reqs.drop_last(),
{
    if i < reqs.len() - 1 {
        assert(reqs.take(i) =~= reqs.drop_last().take(i));
    } else {
        assert(reqs.take(i) =~= reqs.drop_last());
    }
}

proof fn lemma_box_run(
    m: Map<Seq<char>, Window>,
    mailbox: Seq<char>,
    reqs: Seq<(u8, u64)>,
    lims: (u32, u32, u32),
    minute: u64,
)
    requires
        forall|i: int| 0 <= i < reqs.len() ==> reqs[i].0 <= 2,
        forall|s: u8| s <= 2 ==> #[trigger] key_count(m, mailbox, s, minute) == 0,
    ensures
        box_run(m, mailbox, reqs, lims, minute).1.len() == reqs.len(),
        forall|s: u8| s <= 2 ==> #[trigger] key_count(box_run(m, mailbox, reqs, lims, minute).0, mailbox, s, minute)
            == min_nat(class_count(reqs, s), slot_get(lims, s) as nat),
        forall|i: int| 0 <= i < reqs.len() ==> #[trigger] box_run(m, mailbox, reqs, lims, minute).1[i]
            == (class_count(reqs.take(i), reqs[i].0) < slot_get(lims, reqs[i].0)),
    decreases reqs.len(),
{
    if reqs.len() > 0 {
        let p = reqs.drop_last();
        lemma_box_run(m, mailbox, p, lims, minute);
        let (m1, oks) = box_run(m, mailbox, p, lims, minute);
        let (s0, t0) = reqs.last();
        let lim = slot_get(lims, s0);
        let w = if m1.contains_key(mailbox) { m1[mailbox] } else { fresh_window(minute, t0) };
        lemma_window_step(w, minute, t0, s0, lim);
        assert(slot_get(counts_in(w, minute), s0) == key_count(m1, mailbox, s0, minute));
        assert forall|s: u8| s <= 2 implies #[trigger] key_count(box_run(m, mailbox, reqs, lims, minute).0, mailbox, s, minute)
            == min_nat(class_count(reqs, s), slot_get(lims, s) as nat) by {
            assert(key_count(m1, mailbox, s, minute) == slot_get(counts_in(w, minute), s));
        }
        assert forall|i: int| 0 <= i < reqs.len() implies #[trigger] box_run(m, mailbox, reqs, lims, minute).1[i]
            == (class_count(reqs.take(i), reqs[i].0) < slot_get(lims, reqs[i].0)) by {
            lemma_class_count_take(reqs, i);
            if i < reqs.len() - 1 {
                assert(p[i] == reqs[i]);
                assert(oks[i] == (class_count(p.take(i), p[i].0) < slot_get(lims, p[i].0)));
            }
        }
    }
}

/// Per mailbox and minute, the requests of each class are admitted
/// exactly while fewer than its limit came before them in that minute:
/// the first `L` deposits are accepted and every later one refused
/// (none at all when `L` is 0), whatever subscriptions come between.
pub proof fn law_box_admits_first_per_minute(
    m: Map<Seq<char>, Window>,
    mailbox: Seq<char>,
    reqs: Seq<(u8, u64)>,
    lims: (u32, u32, u32),
    minute: u64,
)
    requires
        forall|i: int| 0 <= i < reqs.len() ==> reqs[i].0 <= 2,
        !m.contains_key(mailbox) || m[mailbox].minute != minute,
    ensures
        box_run(m, mailbox, reqs, lims, minute).1.len() == reqs.len(),
        forall|i: int| 0 <= i < reqs.len() ==> #[trigger] box_run(m, mailbox, reqs, lims, minute).1[i]
            == (class_count(reqs.take(i), reqs[i].0) < slot_get(lims, reqs[i].0)),
{
    lemma_box_run(m, mailbox, reqs, lims, minute);
}

proof fn lemma_source_run(
    m: Map<u64, Window>,
    key: u64,
    reqs: Seq<(u8, u64)>,
    lims: (u32, u32, u32),
    minute: u64,
    idle: u64,
    max_entries: usize,
)
    requires
        forall|i: int| 0 <= i < reqs.len() ==> reqs[i].0 <= 2,
        m.contains_key(key) || m.len() < max_entries,
        forall|s: u8| s <= 2 ==> #[trigger] key_count(m, key, s, minute) == 0,
    ensures
        ({
            let (m2, oks) = source_run(m, key, reqs, lims, minute, idle, max_entries);
            &&& oks.len() == reqs.len()
            &&& m2.contains_key(key) || m2.len() < max_entries
            &&& forall|s: u8| s <= 2 ==> #[trigger] key_count(m2, key, s, minute) == min_nat(
                class_count(reqs, s),
                slot_get(lims, s) as nat,
            )
        }),
        forall|i: int| 0 <= i < reqs.len() ==> #[trigger] source_run(m, key, reqs, lims, minute, idle, max_entries).1[i]
            == (class_count(reqs.take(i), reqs[i].0) < slot_get(lims, reqs[i].0)),
    decreases reqs.len(),
{
    if reqs.len() > 0 {
        let p = reqs.drop_last();
        lemma_source_run(m, key, p, lims, minute, idle, max_entries);
        let (m1, oks) = source_run(m, key, p, lims, minute, idle, max_entries);
        let (s0, t0) = reqs.last();
        let lim = slot_get(lims, s0);
        let w = if m1.contains_key(key) { m1[key] } else { fresh_window(minute, t0) };
        lemma_window_step(w, minute, t0, s0, lim);
        assert(slot_get(counts_in(w, minute), s0) == key_count(m1, key, s0, minute));
        let m2 = source_run(m, key, reqs, lims, minute, idle, max_entries).0;
        if lim > 0 {
            assert(m2 == m1.insert(key, spec_window_admit(w, minute, t0, s0, lim).0));
        } else {
            assert(m2 == m1);
        }
        assert forall|s: u8| s <= 2 implies #[trigger] key_count(m2, key, s, minute) == min_nat(
            class_count(reqs, s),
            slot_get(lims, s) as nat,
        ) by {
            assert(key_count(m1, key, s, minute) == slot_get(counts_in(w, minute), s));
        }
        assert forall|i: int| 0 <= i < reqs.len() implies #[trigger] source_run(m, key, reqs, lims, minute, idle, max_entries).1[i]
            == (class_count(reqs.take(i), reqs[i].0) < slot_get(lims, reqs[i].0)) by {
            lemma_class_count_take(reqs, i);
            if i < reqs.len() - 1 {
                assert(p[i] == reqs[i]);
                assert(oks[i] == (class_count(p.take(i), p[i].0) < slot_get(lims, p[i].0)));
            }
        }
    }
}

/// Per source key and minute, each class (create, deposit, create-at-id)
/// is counted on its own: a request is admitted exactly while fewer than
/// its class's limit came before it in that minute, whatever requests of
/// the other classes did. This holds while the key is tracked or the
/// limiter has room for it.
pub proof fn law_source_classes_independent(
    m: Map<u64, Window>,
    key: u64,
    reqs: Seq<(u8, u64)>,
    lims: (u32, u32, u32),
    minute: u64,
    idle: u64,
    max_entries: usize,
)
    requires
        forall|i: int| 0 <= i < reqs.len() ==> reqs[i].0 <= 2,
        m.contains_key(key) || m.len() < max_entries,
        !m.contains_key(key) || m[key].minute != minute,
    ensures
        source_run(m, key, reqs, lims, minute, idle, max_entries).1.len() == reqs.len(),
        forall|i: int| 0 <= i < reqs.len() ==> #[trigger] source_run(m, key, reqs, lims, minute, idle, max_entries).1[i]
            == (class_count(reqs.take(i), reqs[i].0) < slot_get(lims, reqs[i].0)),
{
    lemma_source_run(m, key, reqs, lims, minute, idle, max_entries);
}

/// The per-class limits of a mailbox limiter, by slot.
pub open spec fn box_limits(l: BoxLimiter) -> (u32, u32, u32) {
    (l.deposit_limit, l.ws_limit, 0)
}

/// The per-class limits of a source limiter, by slot.
pub open spec fn source_limits(l: SourceLimiter) -> (u32, u32, u32) {
    (l.create_limit, l.deposit_limit, l.put_limit)
}

/// `states` and `oks` are a run of calls on one mailbox within one
/// minute, as [`BoxLimiter::admit_deposit`] (class `SLOT_BOX_DEPOSIT`)
/// and [`BoxLimiter::admit_ws`] (class `SLOT_WS`) state them: call `i`
/// of class and tick `calls[i]` takes `states[i]` to `states[i + 1]` and
/// answers `oks[i]`.
pub open spec fn box_calls(
    states: Seq<BoxLimiter>,
    oks: Seq<bool>,
    mailbox: Seq<char>,
    calls: Seq<(u8, u64)>,
    minute: u64,
) -> bool {
    &&& states.len() == oks.len() + 1
    &&& calls.len() == oks.len()
    &&& forall|i: int| #![trigger oks[i]] 0 <= i < oks.len() ==> {
        &&& calls[i].0 == SLOT_BOX_DEPOSIT || calls[i].0 == SLOT_WS
        &&& states[i + 1].same_limits(&states[i])
        &&& (states[i + 1].windows(), oks[i]) == spec_box_admit(
            states[i].windows(),
            mailbox,
            calls[i].0,
            slot_get(box_limits(states[i]), calls[i].0),
            minute,
            calls[i].1,
        )
    }
}

/// As [`box_calls`], for [`SourceLimiter::admit_create`],
/// [`SourceLimiter::admit_deposit`] and [`SourceLimiter::admit_put`] from
/// one source, counted under `key`.
pub open spec fn source_calls(
    states: Seq<SourceLimiter>,
    oks: Seq<bool>,
    key: u64,
    calls: Seq<(u8, u64)>,
    minute: u64,
) -> bool {
    &&& states.len() == oks.len() + 1
    &&& calls.len() == oks.len()
    &&& forall|i: int| #![trigger oks[i]] 0 <= i < oks.len() ==> {
        &&& calls[i].0 <= 2
        &&& states[i + 1].same_limits(&states[i])
        &&& (states[i + 1].windows(), oks[i]) == spec_source_admit(
            states[i].windows(),
            key,
            calls[i].0,
            slot_get(source_limits(states[i]), calls[i].0),
            minute,
            calls[i].1,
            states[i].idle,
            states[i].max_entries,
        )
    }
}

proof fn lemma_box_calls_run(
    states: Seq<BoxLimiter>,
    oks: Seq<bool>,
    mailbox: Seq<char>,
    calls: Seq<(u8, u64)>,
    minute: u64,
    j: int,
)
    requires
        box_calls(states, oks, mailbox, calls, minute),
        0 <= j <= oks.len(),
    ensures
        box_limits(states[j]) == box_limits(states[0]),
        box_run(states[0].windows(), mailbox, calls.take(j), box_limits(states[0]), minute) == (
        states[j].windows(),
        oks.take(j),
        ),
    decreases j,
{
    if j > 0 {
        lemma_box_calls_run(states, oks, mailbox, calls, minute, j - 1);
        assert(oks[j - 1] == oks[j - 1]);
        assert(calls.take(j).drop_last() =~= calls.take(j - 1));
        assert(oks.take(j) =~= oks.take(j - 1).push(oks[j - 1]));
    } else {
        assert(calls.take(0) =~= Seq::<(u8, u64)>::empty());
        assert(oks.take(0) =~= Seq::<bool>::empty());
    }
}

proof fn lemma_source_calls_run(
    states: Seq<SourceLimiter>,
    oks: Seq<bool>,
    key: u64,
    calls: Seq<(u8, u64)>,
    minute: u64,
    j: int,
)
    requires
        source_calls(states, oks, key, calls, minute),
        0 <= j <= oks.len(),
    ensures
        source_limits(states[j]) == source_limits(states[0]),
        states[j].idle == states[0].idle,
        states[j].max_entries == states[0].max_entries,
        source_run(
            states[0].windows(),
            key,
            calls.take(j),
            source_limits(states[0]),
            minute,
            states[0].idle,
            states[0].max_entries,
        ) == (states[j].windows(), oks.take(j)),
    decreases j,
{
    if j > 0 {
        lemma_source_calls_run(states, oks, key, calls, minute, j - 1);
        assert(oks[j - 1] == oks[j - 1]);
        assert(calls.take(j).drop_last() =~= calls.take(j - 1));
        assert(oks.take(j) =~= oks.take(j - 1).push(oks[j - 1]));
    } else {
        assert(calls.take(0) =~= Seq::<(u8, u64)>::empty());
        assert(oks.take(0) =~= Seq::<bool>::empty());
    }
}

proof fn lemma_class_count_all(calls: Seq<(u8, u64)>, s: u8)
    requires
        forall|i: int| 0 <= i < calls.len() ==> #[trigger] calls[i].0 == s,
    ensures
        class_count(calls, s) == calls.len(),
    decreases calls.len(),
{
    if calls.len() > 0 {
        let p = calls.drop_last();
        assert forall|i: int| 0 <= i < p.len() implies #[trigger] p[i].0 == s by {
            assert(p[i] == calls[i]);
        }
        lemma_class_count_all(p, s);
    }
}

/// Successive `admit_deposit` and `admit_ws` calls on one mailbox within
/// one minute, starting from no count for that minute: each call is
/// admitted exactly while fewer calls of its class came before it than
/// the class's limit. So with deposits alone, exactly the first
/// `deposit_limit` are admitted (none when it is 0), and subscriptions
/// never use up the deposit budget.
pub proof fn law_mailbox_calls_per_minute(
    states: Seq<BoxLimiter>,
    oks: Seq<bool>,
    mailbox: Seq<char>,
    calls: Seq<(u8, u64)>,
    minute: u64,
)
    requires
        box_calls(states, oks, mailbox, calls, minute),
        !states[0].windows().contains_key(mailbox) || states[0].windows()[mailbox].minute != minute,
    ensures
        forall|i: int| #![trigger oks[i]] 0 <= i < oks.len() ==> oks[i] == (class_count(
            calls.take(i),
            calls[i].0,
        ) < slot_get(box_limits(states[0]), calls[i].0)),
        (forall|i: int| 0 <= i < calls.len() ==> #[trigger] calls[i].0 == SLOT_BOX_DEPOSIT) ==> forall|
            i: int,
        | #![trigger oks[i]] 0 <= i < oks.len() ==> oks[i] == (i < states[0].deposit_limit),
{
    let n = oks.len() as int;
    lemma_box_calls_run(states, oks, mailbox, calls, minute, n);
    assert(calls.take(n) =~= calls);
    assert(oks.take(n) =~= oks);
    assert forall|i: int| 0 <= i < calls.len() implies calls[i].0 <= 2 by {
        assert(i < oks.len());
        let o = oks[i];
        assert(o == oks[i]);
    }
    law_box_admits_first_per_minute(states[0].windows(), mailbox, calls, box_limits(states[0]), minute);
    if forall|i: int| 0 <= i < calls.len() ==> #[trigger] calls[i].0 == SLOT_BOX_DEPOSIT {
        assert forall|i: int| #![trigger oks[i]] 0 <= i < oks.len() implies oks[i] == (i
            < states[0].deposit_limit) by {
            let p = calls.take(i);
            assert forall|k: int| 0 <= k < p.len() implies #[trigger] p[k].0 == SLOT_BOX_DEPOSIT by {
                assert(p[k] == calls[k]);
            }
            lemma_class_count_all(p, SLOT_BOX_DEPOSIT);
        }
    }
}

/// Successive `admit_create`, `admit_deposit` and `admit_put` calls from
/// one source (counted under one key) within one minute, starting from no
/// count for that minute, while the key is tracked or the limiter has
/// room for it: each call is admitted exactly while fewer calls of its
/// class came before it than the class's limit. So a put is admitted
/// exactly while fewer than `put_limit` puts came before it, whatever the
/// creates and deposits did, and puts never change a later create's or
/// deposit's answer.
pub proof fn law_source_calls_per_minute(
    states: Seq<SourceLimiter>,
    oks: Seq<bool>,
    key: u64,
    calls: Seq<(u8, u64)>,
    minute: u64,
)
    requires
        source_calls(states, oks, key, calls, minute),
        states[0].windows().contains_key(key) || states[0].windows().len() < states[0].max_entries,
        !states[0].windows().contains_key(key) || states[0].windows()[key].minute != minute,
    ensures
        forall|i: int| #![trigger oks[i]] 0 <= i < oks.len() ==> oks[i] == (class_count(
            calls.take(i),
            calls[i].0,
        ) < slot_get(source_limits(states[0]), calls[i].0)),
{
    let n = oks.len() as int;
    lemma_source_calls_run(states, oks, key, calls, minute, n);
    assert(calls.take(n) =~= calls);
    assert(oks.take(n) =~= oks);
    assert forall|i: int| 0 <= i < calls.len() implies calls[i].0 <= 2 by {
        assert(i < oks.len());
        let o = oks[i];
        assert(o == oks[i]);
    }
    law_source_classes_independent(
        states[0].windows(),
        key,
        calls,
        source_limits(states[0]),
        minute,
        states[0].idle,
        states[0].max_entries,
    );
}

/// Sources are counted apart exactly as far as their addresses differ:
/// two IPv4 addresses share counting bytes only when they are the same
/// address, two IPv6 addresses only when their first 8 bytes (the /64)
/// agree, and an IPv4 and an IPv6 source never do.
pub proof fn law_sources_count_apart(x: SourceAddr, y: SourceAddr)
    ensures
        coarse_bytes(x) == coarse_bytes(y) <==> match (x, y) {
            (SourceAddr::V4(a), SourceAddr::V4(b)) => a@ == b@,
            (SourceAddr::V6(a), SourceAddr::V6(b)) => forall|i: int| 0 <= i < 8 ==> a@[i] == b@[i],
            _ => false,
        },
        coarse_bytes(x).len() == (match x {
            SourceAddr::V4(_) => 4int,
            SourceAddr::V6(_) => 8int,
        }),
{
    match (x, y) {
        (SourceAddr::V4(a), SourceAddr::V4(b)) => {},
        (SourceAddr::V6(a), SourceAddr::V6(b)) => {
            if forall|i: int| 0 <= i < 8 ==> a@[i] == b@[i] {
                assert(a@.subrange(0, 8) =~= b@.subrange(0, 8));
            }
            if coarse_bytes(x) == coarse_bytes(y) {
                assert forall|i: int| 0 <= i < 8 implies a@[i] == b@[i] by {
                    assert(a@.subrange(0, 8)[i] == b@.subrange(0, 8)[i]);
                }
            }
        },
        (SourceAddr::V4(a), SourceAddr::V6(b)) => {
            assert(coarse_bytes(x).len() != coarse_bytes(y).len());
        },
        (SourceAddr::V6(a), SourceAddr::V4(b)) => {
            assert(coarse_bytes(x).len() != coarse_bytes(y).len());
        },
    }
}

} // verus!
