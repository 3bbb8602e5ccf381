//! Decisions of the sync engine that stand apart from its network calls:
//! the stored recovery role codes, and the replay filter for
//! `recovery-hello` frames.

use std::collections::VecDeque;

use vstd::prelude::*;

use crate::recovery::Role;
use crate::relay::table::bytes_eq;

verus! {

/// Stored recovery role code of the party that made the offer.
pub const ROLE_OFFERER: u8 = 0;

/// Stored recovery role code of the party that scanned it.
pub const ROLE_RESPONDER: u8 = 1;

/// Most `(generation, nonce)` pairs remembered per conversation.
pub const HELLO_RING_CAP: usize = 512;

/// The role a stored code names: 0 is the offerer, anything else the
/// responder.
pub fn role_from_u8(role: u8) -> (r: Role)
    ensures
        r == (if role == ROLE_OFFERER {
            Role::Offerer
        } else {
            Role::Responder
        }),
{
    if role == ROLE_OFFERER {
        Role::Offerer
    } else {
        Role::Responder
    }
}

/// The peer's role code.
pub fn peer_role_u8(own_role: u8) -> (r: u8)
    ensures
        r == (if own_role == ROLE_OFFERER {
            ROLE_RESPONDER
        } else {
            ROLE_OFFERER
        }),
{
    if own_role == ROLE_OFFERER {
        ROLE_RESPONDER
    } else {
        ROLE_OFFERER
    }
}

/// The most recent `(generation, nonce)` pairs seen, oldest first.
pub struct HelloRing {
    pub entries: VecDeque<(u32, [u8; 16])>,
}

/// The pairs as values.
pub open spec fn ring_view(q: Seq<(u32, [u8; 16])>) -> Seq<(u32, Seq<u8>)> {
    q.map_values(|e: (u32, [u8; 16])| (e.0, e.1@))
}

/// The last `n` elements of `s` (all of them if there are fewer).
pub open spec fn keep_last<T>(s: Seq<T>, n: int) -> Seq<T> {
    if s.len() > n {
        s.subrange(s.len() - n, s.len() as int)
    } else {
        s
    }
}

impl HelloRing {
    /// An empty ring.
    pub fn new() -> (r: HelloRing)
        ensures
            r.entries@.len() == 0,
    {
        HelloRing { entries: VecDeque::new() }
    }

    /// Records a pair and returns `true` if it is new; a pair already in
    /// the ring is a replay and leaves it unchanged. The ring keeps the
    /// last [`HELLO_RING_CAP`] pairs.
    pub fn mark_seen(&mut self, generation: u32, nonce: [u8; 16]) -> (fresh: bool)
        requires
            old(self).entries@.len() <= HELLO_RING_CAP,
        ensures
            final(self).entries@.len() <= HELLO_RING_CAP,
            fresh == !ring_view(old(self).entries@).contains((generation, nonce@)),
            !fresh ==> final(self).entries@ == old(self).entries@,
            fresh ==> final(self).entries@ == keep_last(
                old(self).entries@.push((generation, nonce)),
                HELLO_RING_CAP as int,
            ),
    {
        let mut i: usize = 0;
        while i < self.entries.len()
            invariant
                i <= self.entries@.len(),
                self.entries@ == old(self).entries@,
                old(self).entries@.len() <= HELLO_RING_CAP,
                forall|j: int| 0 <= j < i ==> (#[trigger] ring_view(self.entries@)[j]) != (generation, nonce@),
            decreases self.entries@.len() - i,
        {
            let e = self.entries[i];
            if e.0 == generation && bytes_eq(e.1.as_slice(), nonce.as_slice()) {
                assert(ring_view(self.entries@)[i as int] == (generation, nonce@));
                return false;
            }
            i = i + 1;
        }
        assert(!ring_view(old(self).entries@).contains((generation, nonce@))) by {
            if ring_view(old(self).entries@).contains((generation, nonce@)) {
                let j = choose|j: int| 0 <= j < ring_view(old(self).entries@).len() && ring_view(old(self).entries@)[j] == (generation, nonce@);
                assert(ring_view(self.entries@)[j] == (generation, nonce@));
            }
        }
        let ghost pushed = old(self).entries@.push((generation, nonce));
        self.entries.push_back((generation, nonce));
        if self.entries.len() > HELLO_RING_CAP {
            let _ = self.entries.pop_front();
        }
        assert(self.entries@ =~= keep_last(pushed, HELLO_RING_CAP as int));
        true
    }
}

} // verus!
