//! The sync engine's decisions: the receive loop, recovery routing, hello
//! convergence, queue flushing and the pairing listener.

use tezca::client::ConnectionState;
use tezca::recovery::{ExhaustionTracker, GenerationState, Role};
use tezca::relay_client::backoff::Backoff;
use tezca::relay_client::engine::{ROLE_OFFERER, ROLE_RESPONDER};
use tezca::relay_client::http::DepositOutcome;
use tezca::relay_client::listener::{
    flush_step, listener_inbox, listener_step, on_recovery_hello, one_sided_outcome, pair_ack_deposit_result,
    pairing_step, recovery_targets, rotation_step, handoff_subscribe_error, handoff_wait_error, HandoffSubscribe, RotationPlan,
    plan_recovery, FlushStep, HelloAction, ListenerEvent, PairingStep, Recovery, RecoveryPlan,
};
use tezca::storage::Conversation;
use tezca::CoreError;

#[test]
fn opened_subscription_goes_online_resets_and_flushes() {
    let mut b = Backoff::new(7);
    let _ = b.next_delay();
    let _ = b.next_delay();
    assert_eq!(b.current_secs(), 4);
    let step = listener_step(&mut b, ListenerEvent::Subscribed);
    assert_eq!(step.emit, vec![ConnectionState::Online]);
    assert!(step.flush && step.wait.is_none() && !step.repair && !step.stop);
    assert_eq!(b.current_secs(), 1);
}

#[test]
fn dropped_subscription_reports_the_advanced_step() {
    let mut b = Backoff::new(7);
    let step = listener_step(&mut b, ListenerEvent::Ended { inbox_moved: false });
    assert_eq!(step.emit, vec![ConnectionState::Offline, ConnectionState::Backoff { secs: 2 }]);
    let w = step.wait.expect("backs off");
    assert_eq!(w.base_secs, 1);
    assert!(!step.flush && !step.stop);
    let step = listener_step(&mut b, ListenerEvent::Unreachable);
    assert_eq!(step.emit, vec![ConnectionState::Offline, ConnectionState::Backoff { secs: 4 }]);
    assert_eq!(step.wait.expect("backs off").base_secs, 2);
}

#[test]
fn moved_inbox_resubscribes_at_once() {
    let mut b = Backoff::new(3);
    let before = (b.current_secs, b.state);
    let step = listener_step(&mut b, ListenerEvent::Ended { inbox_moved: true });
    assert!(step.emit.is_empty() && step.wait.is_none() && !step.stop && !step.flush);
    assert_eq!((b.current_secs, b.state), before);
}

#[test]
fn recovery_outcomes_steer_the_loop() {
    let mut b = Backoff::new(3);
    let _ = b.next_delay();
    let step = listener_step(&mut b, ListenerEvent::Recovered(Recovery::OneSided));
    assert_eq!(step.emit, vec![ConnectionState::Recovering]);
    assert_eq!(b.current_secs(), 1);
    assert!(!step.stop);
    for r in [Recovery::Total, Recovery::NeedsRepair] {
        let step = listener_step(&mut b, ListenerEvent::Recovered(r));
        assert_eq!(step.emit, vec![ConnectionState::RePairRequired]);
        assert!(step.repair && step.stop && step.wait.is_none());
    }
    let step = listener_step(&mut b, ListenerEvent::Recovered(Recovery::Failed));
    assert!(step.emit.is_empty() && !step.stop);
    assert_eq!(step.wait.expect("backs off").base_secs, 1);
    assert_eq!(b.current_secs(), 2);
}

fn convo(recv: Option<&str>) -> Conversation {
    Conversation {
        id: [1; 16],
        peer_address: "peer".to_owned(),
        relay_url: "ws://r".to_owned(),
        mailbox_send: None,
        mailbox_recv: recv.map(|s| s.to_owned()),
        relay_pin: None,
    }
}

#[test]
fn the_loop_ends_without_an_inbox() {
    assert_eq!(listener_inbox(&None), None);
    assert_eq!(listener_inbox(&Some(convo(None))), None);
    assert_eq!(listener_inbox(&Some(convo(Some("box")))), Some("box".to_owned()));
}

#[test]
fn recovery_without_a_root_is_one_sided_and_uncounted() {
    let mut t = ExhaustionTracker::new();
    let p = plan_recovery(false, &mut t, GenerationState { own: 0, peer: 0 });
    assert_eq!(p, RecoveryPlan::OneSided);
    assert_eq!(t.cycles, 0);
}

#[test]
fn derived_recovery_bumps_until_exhausted() {
    let mut t = ExhaustionTracker::new();
    let g = GenerationState { own: 5, peer: 4 };
    assert_eq!(plan_recovery(true, &mut t, g), RecoveryPlan::EnterGeneration(6));
    assert_eq!(plan_recovery(true, &mut t, g), RecoveryPlan::EnterGeneration(6));
    assert_eq!(plan_recovery(true, &mut t, g), RecoveryPlan::EnterGeneration(6));
    assert_eq!(t.cycles, 3);
    assert_eq!(plan_recovery(true, &mut t, g), RecoveryPlan::NeedsRepair, "fourth cycle without contact");
    let mut fresh = ExhaustionTracker::new();
    assert_eq!(
        plan_recovery(true, &mut fresh, GenerationState { own: 8, peer: 4 }),
        RecoveryPlan::NeedsRepair,
        "offset at the window"
    );
    assert_eq!(
        plan_recovery(true, &mut ExhaustionTracker::new(), GenerationState { own: u32::MAX, peer: u32::MAX }),
        RecoveryPlan::EnterGeneration(u32::MAX),
        "the bump saturates"
    );
}

#[test]
fn one_sided_recovery_outcomes() {
    assert_eq!(one_sided_outcome(false, Some(DepositOutcome::Accepted)), Recovery::Total);
    assert_eq!(one_sided_outcome(true, Some(DepositOutcome::Accepted)), Recovery::OneSided);
    assert_eq!(one_sided_outcome(true, Some(DepositOutcome::NotFound)), Recovery::Total);
    assert_eq!(one_sided_outcome(true, Some(DepositOutcome::Other(500))), Recovery::Failed);
    assert_eq!(one_sided_outcome(true, None), Recovery::Failed);
}

#[test]
fn hello_behind_enters_the_adopted_generation() {
    let mut t = ExhaustionTracker { cycles: 2 };
    let mut g = GenerationState { own: 3, peer: 1 };
    let a = on_recovery_hello(&mut t, &mut g, 6, ROLE_RESPONDER);
    assert_eq!(a, HelloAction::EnterGeneration { own: 6, peer: 6 });
    assert_eq!(g, GenerationState { own: 6, peer: 6 });
    assert_eq!(t.cycles, 0);
}

#[test]
fn converged_offerer_rotates_and_others_flush() {
    let mut t = ExhaustionTracker::new();
    let mut g = GenerationState { own: 4, peer: 2 };
    assert_eq!(on_recovery_hello(&mut t, &mut g, 4, ROLE_OFFERER), HelloAction::Rotate(4));
    let mut g = GenerationState { own: 4, peer: 2 };
    assert_eq!(on_recovery_hello(&mut t, &mut g, 4, ROLE_RESPONDER), HelloAction::Flush);
    let mut g = GenerationState { own: 4, peer: 2 };
    assert_eq!(on_recovery_hello(&mut t, &mut g, 3, ROLE_OFFERER), HelloAction::Flush, "peer behind");
    assert_eq!(g, GenerationState { own: 4, peer: 3 });
}

#[test]
fn deposit_outcomes_drive_the_flush() {
    assert_eq!(flush_step(DepositOutcome::Accepted), FlushStep::MarkSent);
    assert_eq!(flush_step(DepositOutcome::Other(400)), FlushStep::GiveUp);
    assert_eq!(flush_step(DepositOutcome::Other(413)), FlushStep::GiveUp);
    assert_eq!(flush_step(DepositOutcome::Other(429)), FlushStep::Stop);
    assert_eq!(flush_step(DepositOutcome::NotFound), FlushStep::Stop);
}

#[test]
fn pairing_listener_stops_on_completion_or_a_failed_proof() {
    assert_eq!(pairing_step(&Ok(Some([1; 16]))), PairingStep::Complete);
    assert_eq!(pairing_step(&Ok(None)), PairingStep::Continue);
    assert_eq!(pairing_step(&Err(CoreError::ProofOfScanFailed)), PairingStep::Burn);
    assert_eq!(pairing_step(&Err(CoreError::OfferSignatureInvalid)), PairingStep::Continue);
}

#[test]
fn pair_ack_deposit_statuses() {
    assert!(pair_ack_deposit_result(DepositOutcome::Accepted).is_ok());
    assert!(matches!(pair_ack_deposit_result(DepositOutcome::NotFound), Err(CoreError::PairingUnavailable)));
    match pair_ack_deposit_result(DepositOutcome::Other(503)) {
        Err(CoreError::Network(m)) => assert_eq!(m, "pair-ack/2 deposit status 503"),
        other => panic!("expected a network error, got {other:?}"),
    }
}

#[test]
fn recovery_targets_name_the_derived_inboxes() {
    let t = recovery_targets(ROLE_OFFERER, 7, 5);
    assert_eq!(t.own_role, Role::Offerer);
    assert_eq!(t.peer_role, Role::Responder);
    assert_eq!(t.own_generation, 7);
    assert_eq!(t.send_generation, 7);
    assert_eq!(t.hello_generations, vec![5, 6, 7, 8]);
    let t = recovery_targets(ROLE_RESPONDER, 0, u32::MAX - 1);
    assert_eq!((t.own_role, t.peer_role), (Role::Responder, Role::Offerer));
    assert_eq!(t.hello_generations, vec![u32::MAX - 1, u32::MAX]);
}

#[test]
fn handoff_wait_errors() {
    assert!(handoff_subscribe_error(HandoffSubscribe::Open, true).is_none());
    assert!(matches!(handoff_subscribe_error(HandoffSubscribe::NotFound, false), Some(CoreError::PairingUnavailable)));
    assert!(handoff_subscribe_error(HandoffSubscribe::Unreachable, false).is_none());
    match handoff_subscribe_error(HandoffSubscribe::Unreachable, true) {
        Some(CoreError::Network(m)) => assert_eq!(m, "relay unreachable during pairing"),
        other => panic!("expected a network error, got {other:?}"),
    }
}

#[test]
fn rotation_legs() {
    let update = ("ws://r".to_owned(), "FB".to_owned());
    match rotation_step(Some(("FA".to_owned(), "DERIVED".to_owned())), Some((ROLE_OFFERER, 3)), update.clone()) {
        RotationPlan::Offerer { send, recv, retire } => {
            assert_eq!(send, update);
            assert_eq!(recv, "FA");
            assert_eq!(retire, "DERIVED");
        }
        _ => panic!("offerer leg"),
    }
    match rotation_step(None, Some((ROLE_RESPONDER, 4)), update.clone()) {
        RotationPlan::Responder { send, reply_role, reply_generation } => {
            assert_eq!(send, update);
            assert_eq!(reply_role, Role::Offerer);
            assert_eq!(reply_generation, 4);
        }
        _ => panic!("responder leg"),
    }
    assert!(matches!(rotation_step(None, None, update), RotationPlan::Refused));
}

#[test]
fn each_attempt_reports_connecting() {
    let mut b = Backoff::new(9);
    let _ = b.next_delay();
    let before = (b.current_secs, b.state);
    let step = listener_step(&mut b, ListenerEvent::Attempting);
    assert_eq!(step.emit, vec![ConnectionState::Connecting]);
    assert!(!step.flush && step.wait.is_none() && !step.stop && !step.repair);
    assert_eq!((b.current_secs, b.state), before);
}

#[test]
fn handoff_wait_times_out_at_the_deadline() {
    assert!(handoff_wait_error(false).is_none());
    match handoff_wait_error(true) {
        Some(CoreError::Network(m)) => assert_eq!(m, "pairing handoff timed out"),
        other => panic!("expected a timeout, got {other:?}"),
    }
}
