//! The sync engine's decisions, taken apart from the calls they steer:
//! what a conversation's receive loop does after each subscribe attempt,
//! how recovery is routed and when it is exhausted, what a verified
//! `recovery-hello` leads to, what a deposit outcome means for a queued
//! message, and when a pairing listener stops.

use vstd::prelude::*;
use vstd::string::StringExecFns;

use crate::client::{ConnectionState, ConversationId};
use crate::error::{decimal, decimal_string, CoreError, Result};
use crate::recovery::{outbound_window_of, spec_converge, ExhaustionTracker, GenerationState, Role};
use crate::relay_client::backoff::{lcg_next, next_secs, Backoff, Draw, INITIAL_SECS};
use crate::relay_client::engine::{peer_role_u8, role_from_u8, ROLE_OFFERER};
use crate::relay_client::http::DepositOutcome;
use crate::storage::Conversation;

verus! {

/// Where a recovery attempt ended.
#[derive(Debug, Clone, Copy, PartialEq, Eq, Structural)]
pub enum Recovery {
    /// This side's inbox was replaced and the peer told (or derived
    /// inboxes were entered): keep listening.
    OneSided,
    /// Both inboxes are gone on a conversation without a recovery root.
    Total,
    /// Derived-inbox recovery is exhausted.
    NeedsRepair,
    /// A transient failure: back off and try again.
    Failed,
}

/// What happened to one subscribe attempt of a conversation's receive loop.
#[derive(Debug, Clone, Copy, PartialEq, Eq, Structural)]
pub enum ListenerEvent {
    /// A subscribe attempt is about to be made.
    Attempting,
    /// The subscription was opened.
    Subscribed,
    /// The subscription ended; `inbox_moved` when an inbound frame moved
    /// this side's inbox, so the loop subscribes again at once.
    Ended { inbox_moved: bool },
    /// The relay could not be reached.
    Unreachable,
    /// This side's inbox was gone and recovery ran to this outcome.
    Recovered(Recovery),
}

/// The receive loop's next step.
pub struct ListenerStep {
    /// Connection states to report, in order.
    pub emit: Vec<ConnectionState>,
    /// Try to deliver the queued messages now.
    pub flush: bool,
    /// Sleep for this draw of the backoff schedule before the next attempt.
    pub wait: Option<Draw>,
    /// Report that the conversation needs re-pairing.
    pub repair: bool,
    /// Leave the loop.
    pub stop: bool,
}

/// `true` when the event makes the loop back off.
pub open spec fn backs_off(e: ListenerEvent) -> bool {
    match e {
        ListenerEvent::Ended { inbox_moved } => !inbox_moved,
        ListenerEvent::Unreachable => true,
        ListenerEvent::Recovered(r) => r == Recovery::Failed,
        ListenerEvent::Subscribed => false,
        ListenerEvent::Attempting => false,
    }
}

/// `true` when the event starts the schedule over.
pub open spec fn resets_backoff(e: ListenerEvent) -> bool {
    e == ListenerEvent::Subscribed || e == ListenerEvent::Recovered(Recovery::OneSided)
}

/// `true` when the event ends the conversation's loop for good.
pub open spec fn gives_up(e: ListenerEvent) -> bool {
    e == ListenerEvent::Recovered(Recovery::Total) || e == ListenerEvent::Recovered(
        Recovery::NeedsRepair,
    )
}

/// The states reported after the event; `secs` is the schedule's step
/// once it has advanced.
pub open spec fn listener_emits(e: ListenerEvent, secs: u32) -> Seq<ConnectionState> {
    match e {
        ListenerEvent::Attempting => seq![ConnectionState::Connecting],
        ListenerEvent::Subscribed => seq![ConnectionState::Online],
        ListenerEvent::Ended { inbox_moved } => if inbox_moved {
            Seq::empty()
        } else {
            seq![ConnectionState::Offline, ConnectionState::Backoff { secs }]
        },
        ListenerEvent::Unreachable => seq![
            ConnectionState::Offline,
            ConnectionState::Backoff { secs },
        ],
        ListenerEvent::Recovered(r) => match r {
            Recovery::OneSided => seq![ConnectionState::Recovering],
            Recovery::Total => seq![ConnectionState::RePairRequired],
            Recovery::NeedsRepair => seq![ConnectionState::RePairRequired],
            Recovery::Failed => Seq::empty(),
        },
    }
}

/// The receive loop's decision around one subscribe attempt: the attempt
/// itself reports `Connecting`; an opened
/// subscription reports `Online`, restarts the schedule and flushes the
/// queue; a dropped one reports `Offline` and the next step and backs off,
/// unless this side's inbox moved; a recovery that replaced the inbox
/// reports `Recovering` and restarts the schedule; total loss or exhausted
/// recovery reports `RePairRequired`, asks for re-pairing and stops; a
/// failed recovery backs off silently.
pub fn listener_step(backoff: &mut Backoff, event: ListenerEvent) -> (step: ListenerStep)
    ensures
        step.emit@ == listener_emits(event, final(backoff).current_secs),
        step.flush == (event == ListenerEvent::Subscribed),
        step.repair == gives_up(event),
        step.stop == gives_up(event),
        step.wait is Some == backs_off(event),
        backs_off(event) ==> {
            &&& step.wait->0.base_secs == old(backoff).current_secs
            &&& step.wait->0.jitter_bits == final(backoff).state >> 33u64
            &&& final(backoff).current_secs == next_secs(old(backoff).current_secs)
            &&& final(backoff).state == lcg_next(old(backoff).state)
        },
        resets_backoff(event) ==> final(backoff).current_secs == INITIAL_SECS,
        resets_backoff(event) ==> final(backoff).state == old(backoff).state,
        !backs_off(event) && !resets_backoff(event) ==> *final(backoff) == *old(backoff),
{
    let mut emit: Vec<ConnectionState> = Vec::new();
    match event {
        ListenerEvent::Attempting => {
            emit.push(ConnectionState::Connecting);
            ListenerStep { emit, flush: false, wait: None, repair: false, stop: false }
        },
        ListenerEvent::Subscribed => {
            backoff.reset();
            emit.push(ConnectionState::Online);
            ListenerStep { emit, flush: true, wait: None, repair: false, stop: false }
        },
        ListenerEvent::Ended { inbox_moved: true } => {
            ListenerStep { emit, flush: false, wait: None, repair: false, stop: false }
        },
        ListenerEvent::Ended { inbox_moved: false } | ListenerEvent::Unreachable => {
            emit.push(ConnectionState::Offline);
            let d = backoff.next_delay();
            emit.push(ConnectionState::Backoff { secs: backoff.current_secs() });
            assert(emit@ =~= listener_emits(event, backoff.current_secs));
            ListenerStep { emit, flush: false, wait: Some(d), repair: false, stop: false }
        },
        ListenerEvent::Recovered(Recovery::OneSided) => {
            emit.push(ConnectionState::Recovering);
            backoff.reset();
            ListenerStep { emit, flush: false, wait: None, repair: false, stop: false }
        },
        ListenerEvent::Recovered(Recovery::Total) | ListenerEvent::Recovered(
            Recovery::NeedsRepair,
        ) => {
            emit.push(ConnectionState::RePairRequired);
            ListenerStep { emit, flush: false, wait: None, repair: true, stop: true }
        },
        ListenerEvent::Recovered(Recovery::Failed) => {
            let d = backoff.next_delay();
            ListenerStep { emit, flush: false, wait: Some(d), repair: false, stop: false }
        },
    }
}

/// The inbox a conversation's loop subscribes to: none (and the loop
/// ends) when the conversation is unknown or has no inbox yet.
pub fn listener_inbox(convo: &Option<Conversation>) -> (r: Option<String>)
    ensures
        r == (match convo {
            Some(c) => c.mailbox_recv,
            None => None::<String>,
        }),
{
    match convo {
        Some(c) => match &c.mailbox_recv {
            Some(m) => Some(m.clone()),
            None => None,
        },
        None => None,
    }
}

/// How a lost inbox is recovered.
#[derive(Debug, Clone, Copy, PartialEq, Eq, Structural)]
pub enum RecoveryPlan {
    /// No recovery root: replace the inbox and tell the peer in-band.
    OneSided,
    /// Derived-inbox recovery is exhausted: re-pair.
    NeedsRepair,
    /// Enter derived-inbox recovery at this generation.
    EnterGeneration(u32),
}

/// Recovery routing: a conversation with a stored role and recovery root
/// (`derived`) recovers through derived inboxes. Each such attempt counts
/// a probe cycle; once the cycles or the generation offset are exhausted
/// the answer is re-pairing, otherwise the own generation is bumped
/// (saturating) and entered. A conversation without a root recovers
/// one-sidedly and counts nothing.
pub fn plan_recovery(derived: bool, tracker: &mut ExhaustionTracker, gens: GenerationState) -> (p:
    RecoveryPlan)
    ensures
        !derived ==> p == RecoveryPlan::OneSided && *final(tracker) == *old(tracker),
        derived ==> final(tracker).cycles == (if old(tracker).cycles < u32::MAX {
            (old(tracker).cycles + 1) as u32
        } else {
            u32::MAX
        }),
        derived ==> p == (if final(tracker).cycles > crate::recovery::RECOVERY_PROBE_CYCLES
            || crate::recovery::gen_distance(gens.own, gens.peer)
            >= crate::recovery::RECOVERY_WINDOW {
            RecoveryPlan::NeedsRepair
        } else if gens.own < u32::MAX {
            RecoveryPlan::EnterGeneration((gens.own + 1) as u32)
        } else {
            RecoveryPlan::EnterGeneration(u32::MAX)
        }),
{
    if !derived {
        return RecoveryPlan::OneSided;
    }
    tracker.note_probe_cycle();
    if tracker.is_exhausted() || gens.is_exhausted() {
        RecoveryPlan::NeedsRepair
    } else {
        RecoveryPlan::EnterGeneration(gens.own.saturating_add(1))
    }
}

/// One-sided recovery's outcome, from whether the peer's inbox was ever
/// learned and how the deposit of the inbox update went (`None` when it
/// could not be made): accepted means recovered, a missing peer inbox
/// means total loss, anything else is a transient failure.
pub fn one_sided_outcome(peer_inbox_known: bool, deposited: Option<DepositOutcome>) -> (r: Recovery)
    ensures
        r == (if !peer_inbox_known {
            Recovery::Total
        } else {
            match deposited {
                Some(DepositOutcome::Accepted) => Recovery::OneSided,
                Some(DepositOutcome::NotFound) => Recovery::Total,
                _ => Recovery::Failed,
            }
        }),
{
    if !peer_inbox_known {
        return Recovery::Total;
    }
    match deposited {
        Some(DepositOutcome::Accepted) => Recovery::OneSided,
        Some(DepositOutcome::NotFound) => Recovery::Total,
        _ => Recovery::Failed,
    }
}

/// What a fresh, verified `recovery-hello` leads to.
#[derive(Debug, Clone, Copy, PartialEq, Eq, Structural)]
pub enum HelloAction {
    /// Behind the peer: enter recovery at the adopted generations.
    EnterGeneration { own: u32, peer: u32 },
    /// Converged, and this side made the offer: start the rotation to
    /// fresh inboxes at this generation.
    Rotate(u32),
    /// Converged: deliver what is queued.
    Flush,
}

/// The action after converging on a hello's generation.
pub open spec fn hello_action(old: GenerationState, reported: u32, own_role: u8) -> HelloAction {
    if reported > old.own {
        HelloAction::EnterGeneration { own: reported, peer: reported }
    } else if reported == old.own && own_role == ROLE_OFFERER {
        HelloAction::Rotate(old.own)
    } else {
        HelloAction::Flush
    }
}

/// A fresh, verified `recovery-hello` reporting generation `reported`:
/// verified contact restarts the probe-cycle count; the generations
/// converge on the report; a side left behind enters recovery at the
/// adopted generation, a converged offerer starts the rotation, and
/// otherwise the queue is flushed.
pub fn on_recovery_hello(
    tracker: &mut ExhaustionTracker,
    gens: &mut GenerationState,
    reported: u32,
    own_role: u8,
) -> (a: HelloAction)
    ensures
        final(tracker).cycles == 0,
        *final(gens) == spec_converge(*old(gens), reported),
        a == hello_action(*old(gens), reported, own_role),
{
    tracker.reset();
    let before = gens.own;
    let bumped = gens.converge(reported);
    if bumped {
        HelloAction::EnterGeneration { own: gens.own, peer: gens.peer }
    } else if reported == before && own_role == ROLE_OFFERER {
        HelloAction::Rotate(before)
    } else {
        HelloAction::Flush
    }
}

/// What one deposit of a queued message means for it.
#[derive(Debug, Clone, Copy, PartialEq, Eq, Structural)]
pub enum FlushStep {
    /// Accepted: mark it sent and go on.
    MarkSent,
    /// 400 or 413: the relay will never take it; mark it sent, report a
    /// permanent send failure, and go on.
    GiveUp,
    /// Anything else is transient: leave it and the rest queued.
    Stop,
}

/// The queue-flush decision for one deposit outcome.
pub fn flush_step(outcome: DepositOutcome) -> (s: FlushStep)
    ensures
        s == (match outcome {
            DepositOutcome::Accepted => FlushStep::MarkSent,
            DepositOutcome::Other(code) => if code == 400 || code == 413 {
                FlushStep::GiveUp
            } else {
                FlushStep::Stop
            },
            DepositOutcome::NotFound => FlushStep::Stop,
        }),
{
    match outcome {
        DepositOutcome::Accepted => FlushStep::MarkSent,
        DepositOutcome::Other(code) => if code == 400 || code == 413 {
            FlushStep::GiveUp
        } else {
            FlushStep::Stop
        },
        DepositOutcome::NotFound => FlushStep::Stop,
    }
}

/// What a pairing listener does after handling one frame (which it acks
/// either way).
#[derive(Debug, Clone, Copy, PartialEq, Eq, Structural)]
pub enum PairingStep {
    /// The pairing completed: stop.
    Complete,
    /// The proof of scan failed: retire the pairing inbox and stop.
    Burn,
    /// Unrelated or unusable: keep listening.
    Continue,
}

/// The pairing listener's decision on the outcome of handling a frame.
pub fn pairing_step(handled: &Result<Option<ConversationId>>) -> (s: PairingStep)
    ensures
        s == (match handled {
            Ok(Some(_)) => PairingStep::Complete,
            Err(CoreError::ProofOfScanFailed) => PairingStep::Burn,
            _ => PairingStep::Continue,
        }),
{
    match handled {
        Ok(Some(_)) => PairingStep::Complete,
        Err(CoreError::ProofOfScanFailed) => PairingStep::Burn,
        _ => PairingStep::Continue,
    }
}

/// The responder's verdict on depositing its `pair-ack/2` into the offer's
/// pairing inbox: accepted goes on to the handoff; a missing inbox means
/// the offer is stale; any other status is a network error naming it.
pub fn pair_ack_deposit_result(outcome: DepositOutcome) -> (r: Result<()>)
    ensures
        match outcome {
            DepositOutcome::Accepted => r is Ok,
            DepositOutcome::NotFound => r == Err::<(), CoreError>(CoreError::PairingUnavailable),
            DepositOutcome::Other(status) => r matches Err(CoreError::Network(m)) && m@
                == "pair-ack/2 deposit status "@ + decimal(status as nat),
        },
{
    match outcome {
        DepositOutcome::Accepted => Ok(()),
        DepositOutcome::NotFound => Err(CoreError::PairingUnavailable),
        DepositOutcome::Other(status) => {
            let mut m = "pair-ack/2 deposit status ".to_owned();
            let digits = decimal_string(status as u64);
            m.append(digits.as_str());
            Err(CoreError::Network(m))
        },
    }
}

/// The derived inboxes entering recovery at a generation works on, named
/// by role and generation.
pub struct RecoveryTargets {
    /// This side's role: its inbox at `own_generation` is created and
    /// subscribed.
    pub own_role: Role,
    /// The generation of this side's receive inbox.
    pub own_generation: u32,
    /// The peer's role: its inboxes are created, and greeted, across
    /// `hello_generations`, and sends go to its inbox at `send_generation`.
    pub peer_role: Role,
    /// The peer generations to create and greet, in order.
    pub hello_generations: Vec<u32>,
    /// The peer generation sends are pointed at.
    pub send_generation: u32,
}

/// The role a stored code names (0 the offerer, anything else the
/// responder).
pub open spec fn role_of(code: u8) -> Role {
    if code == ROLE_OFFERER {
        Role::Offerer
    } else {
        Role::Responder
    }
}

/// Entering recovery at generation `g` with the peer last seen at
/// `peer_gen`: this side's inbox is its role's at `g`; the peer's inboxes
/// under the other role are created and greeted across the peer window
/// starting at `peer_gen`; sends go to the peer's inbox at `g`.
pub fn recovery_targets(own_role: u8, g: u32, peer_gen: u32) -> (t: RecoveryTargets)
    ensures
        t.own_role == role_of(own_role),
        t.own_generation == g,
        t.peer_role == (if own_role == ROLE_OFFERER {
            Role::Responder
        } else {
            Role::Offerer
        }),
        t.hello_generations@ == outbound_window_of(peer_gen),
        t.send_generation == g,
{
    let own = role_from_u8(own_role);
    let peer = role_from_u8(peer_role_u8(own_role));
    let window = GenerationState { own: g, peer: peer_gen }.outbound_window();
    RecoveryTargets {
        own_role: own,
        own_generation: g,
        peer_role: peer,
        hello_generations: window,
        send_generation: g,
    }
}

/// How a subscribe attempt on this side's new inbox went, while the
/// responder waits for the offerer's handoff.
#[derive(Debug, Clone, Copy, PartialEq, Eq, Structural)]
pub enum HandoffSubscribe {
    /// Subscribed.
    Open,
    /// The relay answered 404.
    NotFound,
    /// The relay could not be reached.
    Unreachable,
}

/// The error that ends the wait for the handoff after a subscribe attempt,
/// or none to go on: a missing inbox means the pairing is gone; an
/// unreachable relay is an error once the deadline has passed and is
/// retried before it.
pub fn handoff_subscribe_error(outcome: HandoffSubscribe, deadline_passed: bool) -> (r: Option<CoreError>)
    ensures
        match outcome {
            HandoffSubscribe::Open => r is None,
            HandoffSubscribe::NotFound => r == Some(CoreError::PairingUnavailable),
            HandoffSubscribe::Unreachable => if deadline_passed {
                r matches Some(CoreError::Network(m)) && m@ == "relay unreachable during pairing"@
            } else {
                r is None
            },
        },
{
    match outcome {
        HandoffSubscribe::Open => None,
        HandoffSubscribe::NotFound => Some(CoreError::PairingUnavailable),
        HandoffSubscribe::Unreachable => if deadline_passed {
            Some(CoreError::Network("relay unreachable during pairing".to_owned()))
        } else {
            None
        },
    }
}

/// The error that ends the wait for the handoff once its deadline has
/// passed (no frame came in time), or none while time is left.
pub fn handoff_wait_error(deadline_passed: bool) -> (r: Option<CoreError>)
    ensures
        deadline_passed ==> (r matches Some(CoreError::Network(m)) && m@ == "pairing handoff timed out"@),
        !deadline_passed ==> r is None,
{
    if deadline_passed {
        Some(CoreError::Network("pairing handoff timed out".to_owned()))
    } else {
        None
    }
}

/// What a `mailbox-update/3` rotation handoff leads to.
pub enum RotationPlan {
    /// The offerer, awaiting the responder's fresh inbox: send to it
    /// (`send` is its relay and inbox), receive on the offerer's own fresh
    /// inbox `recv`, delete the derived inbox `retire`, re-subscribe.
    Offerer { send: (String, String), recv: String, retire: String },
    /// The responder, on the offerer's fresh inbox: send to it (`send`),
    /// mint its own fresh inbox and reply there to the offerer's derived
    /// inbox (role `reply_role` at generation `reply_generation`), then
    /// delete its own derived inbox and re-subscribe.
    Responder { send: (String, String), reply_role: Role, reply_generation: u32 },
    /// The responder has no stored recovery role or root: nothing happens.
    Refused,
}

/// The rotation decision on a handoff `update` (relay and inbox):
/// `awaiting` is the offerer's pending rotation (its fresh inbox and its
/// derived inbox), `recovery` the stored role and own generation when a
/// recovery role and root are both stored.
pub fn rotation_step(
    awaiting: Option<(String, String)>,
    recovery: Option<(u8, u32)>,
    update: (String, String),
) -> (p: RotationPlan)
    ensures
        match awaiting {
            Some((f_a, derived)) => p matches RotationPlan::Offerer { send, recv, retire } && send
                == update && recv == f_a && retire == derived,
            None => match recovery {
                None => p is Refused,
                Some((role, own_gen)) => p matches RotationPlan::Responder {
                    send,
                    reply_role,
                    reply_generation,
                } && send == update && reply_role == (if role == ROLE_OFFERER {
                    Role::Responder
                } else {
                    Role::Offerer
                }) && reply_generation == own_gen,
            },
        },
{
    match awaiting {
        Some((f_a, derived)) => RotationPlan::Offerer { send: update, recv: f_a, retire: derived },
        None => match recovery {
            None => RotationPlan::Refused,
            Some((role, own_gen)) => RotationPlan::Responder {
                send: update,
                reply_role: role_from_u8(peer_role_u8(role)),
                reply_generation: own_gen,
            },
        },
    }
}

} // verus!
