//! Derived recovery mailboxes: the generation-convergence rule by which
//! both parties of a conversation re-establish routing after a total loss,
//! without re-pairing.

use vstd::prelude::*;

verus! {

/// Generation-convergence window `W`: a relative generation offset of `W`
/// or more is unrecoverable in-band.
pub const RECOVERY_WINDOW: u32 = 4;

/// Probe cycles attempted before declaring exhaustion when no verified peer
/// contact is seen.
pub const RECOVERY_PROBE_CYCLES: u32 = 3;

/// Which side of the pairing a party was on; derived mailboxes are labelled
/// by it.
#[derive(Debug, Clone, Copy, PartialEq, Eq, Structural)]
pub enum Role {
    /// The party that made the offer.
    Offerer,
    /// The party that scanned it.
    Responder,
}

/// Which direction of the conversation a derived mailbox serves.
#[derive(Debug, Clone, Copy, PartialEq, Eq, Structural)]
pub enum Direction {
    /// Mailboxes this party owns and subscribes to.
    Inbound,
    /// The peer's mailboxes this party deposits into.
    Outbound,
}

/// The domain-separation label of a direction.
pub open spec fn direction_label(d: Direction) -> Seq<char> {
    match d {
        Direction::Inbound => "titlan/recovery/inbound"@,
        Direction::Outbound => "titlan/recovery/outbound"@,
    }
}

impl Direction {
    /// The domain-separation label fed to key derivation alongside the
    /// generation.
    pub fn label(self) -> (l: &'static str)
        ensures
            l@ == direction_label(self),
    {
        match self {
            Direction::Inbound => "titlan/recovery/inbound",
            Direction::Outbound => "titlan/recovery/outbound",
        }
    }
}

/// `n` consecutive generations starting at `start`.
pub open spec fn run(start: int, n: int) -> Seq<u32> {
    Seq::new(n as nat, |i: int| (start + i) as u32)
}

/// `a - b`, or 0 where that is negative.
pub open spec fn sat_sub(a: int, b: int) -> int {
    if a >= b {
        a - b
    } else {
        0
    }
}

/// The own inbound generations to create and subscribe at generation `g`:
/// `[g-(W-1) .. g]`, cut at 0.
pub open spec fn inbound_window(g: u32) -> Seq<u32> {
    run(sat_sub(g as int, RECOVERY_WINDOW - 1), g - sat_sub(g as int, RECOVERY_WINDOW - 1) + 1)
}

/// The peer generations to create and deposit into, from `peer`:
/// `[peer .. peer+(W-1)]`, cut at `u32::MAX`.
pub open spec fn outbound_window_of(peer: u32) -> Seq<u32> {
    run(
        peer as int,
        if u32::MAX - peer >= RECOVERY_WINDOW - 1 {
            RECOVERY_WINDOW as int
        } else {
            u32::MAX - peer + 1
        },
    )
}

/// `max(a, b)`.
pub open spec fn max_u32(a: u32, b: u32) -> u32 {
    if a >= b {
        a
    } else {
        b
    }
}

/// The distance between two generations.
pub open spec fn gen_distance(a: u32, b: u32) -> int {
    if a >= b {
        a - b
    } else {
        b - a
    }
}

/// The state after converging `s` on a verified peer generation `g`.
pub open spec fn spec_converge(s: GenerationState, g: u32) -> GenerationState {
    GenerationState { own: max_u32(s.own, g), peer: g }
}

/// Persisted convergence state for one conversation.
#[derive(Debug, Clone, Copy, PartialEq, Eq, Structural)]
pub struct GenerationState {
    /// This party's own current generation.
    pub own: u32,
    /// Last generation observed from a verified peer control frame.
    pub peer: u32,
}

/// Generations `start, start+1, .., start+n-1`.
fn run_vec(start: u32, n: u32) -> (v: Vec<u32>)
    requires
        start + n <= u32::MAX + 1,
    ensures
        v@ == run(start as int, n as int),
{
    let mut v: Vec<u32> = Vec::new();
    let mut i: u32 = 0;
    while i < n
        invariant
            i <= n,
            start + n <= u32::MAX + 1,
            v@ == run(start as int, i as int),
        decreases n - i,
    {
        v.push(start + i);
        i = i + 1;
        assert(v@ =~= run(start as int, i as int));
    }
    v
}

impl GenerationState {
    /// Receiver-side loss detection: bumps the own generation (saturating)
    /// and returns the own inbound generations `[g-(W-1) .. g]` to create
    /// and subscribe.
    pub fn on_loss_detected(&mut self) -> (w: Vec<u32>)
        ensures
            final(self).own == (if old(self).own < u32::MAX {
                (old(self).own + 1) as u32
            } else {
                u32::MAX
            }),
            final(self).peer == old(self).peer,
            w@ == inbound_window(final(self).own),
    {
        self.own = self.own.saturating_add(1);
        let g = self.own;
        let start = g.saturating_sub(RECOVERY_WINDOW - 1);
        run_vec(start, g - start + 1)
    }

    /// Sender-side recovery: the peer generations `[peer .. peer+(W-1)]`
    /// to create before depositing a hello into each.
    pub fn outbound_window(&self) -> (w: Vec<u32>)
        ensures
            w@ == outbound_window_of(self.peer),
    {
        let n: u32 = if u32::MAX - self.peer >= RECOVERY_WINDOW - 1 {
            RECOVERY_WINDOW
        } else {
            u32::MAX - self.peer + 1
        };
        run_vec(self.peer, n)
    }

    /// Convergence on a verified control receipt: the own generation
    /// becomes `max(own, peer_generation)` and the peer generation is
    /// recorded. `true` when the own generation moved, so a rotation must
    /// run.
    pub fn converge(&mut self, peer_generation: u32) -> (bumped: bool)
        ensures
            *final(self) == spec_converge(*old(self), peer_generation),
            bumped == (peer_generation > old(self).own),
    {
        self.peer = peer_generation;
        if peer_generation > self.own {
            self.own = peer_generation;
            true
        } else {
            false
        }
    }

    /// `true` when the relative offset has reached the window `W`.
    pub fn is_exhausted(&self) -> (r: bool)
        ensures
            r == (gen_distance(self.own, self.peer) >= RECOVERY_WINDOW),
    {
        let d = if self.own >= self.peer {
            self.own - self.peer
        } else {
            self.peer - self.own
        };
        d >= RECOVERY_WINDOW
    }
}

/// Converging on the peer's generation, from both sides, brings both
/// parties to `max(g_A, g_B)`; each then records the other's generation.
pub proof fn law_converge_agrees(a: GenerationState, b: GenerationState)
    ensures
        spec_converge(a, b.own).own == spec_converge(b, a.own).own,
        spec_converge(a, b.own).own == max_u32(a.own, b.own),
        spec_converge(a, b.own).peer == b.own,
        spec_converge(b, a.own).peer == a.own,
{
}

/// Converging twice on the same generation gives the same state, and the
/// second time moves nothing.
pub proof fn law_converge_idempotent(s: GenerationState, g: u32)
    ensures
        spec_converge(spec_converge(s, g), g) == spec_converge(s, g),
        !(g > spec_converge(s, g).own),
{
}

/// After convergence the own generation is at least the peer's, and the
/// state is exhausted exactly when this side was already `W` or more ahead.
pub proof fn law_converged_exhaustion(s: GenerationState, g: u32)
    ensures
        spec_converge(s, g).own >= g,
        gen_distance(spec_converge(s, g).own, spec_converge(s, g).peer) < RECOVERY_WINDOW <==> (
        s.own < g || s.own - g < RECOVERY_WINDOW),
{
}

/// The inbound window at `g >= W-1` is `W` consecutive generations ending
/// at `g`; it always holds `g` and never holds anything above it.
pub proof fn law_inbound_window_shape(g: u32)
    ensures
        inbound_window(g).len() >= 1,
        inbound_window(g).last() == g,
        g >= RECOVERY_WINDOW - 1 ==> inbound_window(g).len() == RECOVERY_WINDOW,
        forall|i: int| 0 <= i < inbound_window(g).len() ==> inbound_window(g)[i] <= g,
{
}

/// The outbound window starts at the peer generation and holds `W`
/// generations unless it reaches `u32::MAX`.
pub proof fn law_outbound_window_shape(peer: u32)
    ensures
        outbound_window_of(peer)[0] == peer,
        peer <= u32::MAX - (RECOVERY_WINDOW - 1) ==> outbound_window_of(peer).len()
            == RECOVERY_WINDOW,
        forall|i: int| 0 <= i < outbound_window_of(peer).len() ==> outbound_window_of(peer)[i] >= peer,
{
}

/// Counts probe cycles without verified peer contact.
#[derive(Debug, Clone, Copy, PartialEq, Eq, Structural)]
pub struct ExhaustionTracker {
    /// Probe cycles noted since the last verified contact.
    pub cycles: u32,
}

impl ExhaustionTracker {
    /// A tracker with no cycles noted.
    pub fn new() -> (t: Self)
        ensures
            t.cycles == 0,
    {
        ExhaustionTracker { cycles: 0 }
    }

    /// Notes one probe cycle (saturating).
    pub fn note_probe_cycle(&mut self)
        ensures
            final(self).cycles == (if old(self).cycles < u32::MAX {
                (old(self).cycles + 1) as u32
            } else {
                u32::MAX
            }),
    {
        self.cycles = self.cycles.saturating_add(1);
    }

    /// Verified contact: the count starts again.
    pub fn reset(&mut self)
        ensures
            final(self).cycles == 0,
    {
        self.cycles = 0;
    }

    /// `true` once more than [`RECOVERY_PROBE_CYCLES`] cycles passed
    /// without contact.
    pub fn is_exhausted(&self) -> (r: bool)
        ensures
            r == (self.cycles > RECOVERY_PROBE_CYCLES),
    {
        self.cycles > RECOVERY_PROBE_CYCLES
    }
}

} // verus!
