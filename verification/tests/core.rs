//! The crate surface: version, licensing, storage values, recovery
//! generations, session framing.

use tezca::client::PairingPayload;
use tezca::core_version;
use tezca::envelope::{Envelope, EnvelopeKind};
use tezca::error::decimal_string;
use tezca::licensing::{AlwaysLicensed, Licensing};
use tezca::recovery::{Direction as RecoveryDirection, ExhaustionTracker, GenerationState};
use tezca::session::{envelope_kind, setup_ciphertext};
use tezca::storage::{blob16, blob32, DbKey, Direction};
use tezca::CoreError;
use tezca::identity::{export_local_bundle, registration_id_from, DEVICE_ID, KYBER_PREKEY_ID, ONETIME_PREKEY_ID, SIGNED_PREKEY_ID};
use tezca::pairing::bundle::parse;
use tezca::storage::pending_migrations;
use tezca::random::{random_32, random_id};
use tezca::storage::{identity_change, identity_trusted, IdentityChange};

#[test]
fn version_is_wired_from_manifest() {
    assert_eq!(core_version(), "0.1.0");
    assert!(!core_version().is_empty());
}

#[test]
fn always_licensed_stub_licenses_everything() {
    assert!(AlwaysLicensed.is_licensed("chat"));
    assert!(AlwaysLicensed.is_licensed("anything-else"));
}

#[test]
fn payload_and_key_wrappers_hand_back_their_bytes() {
    let p = PairingPayload::from_bytes(vec![3, 1, 4]);
    assert_eq!(p.as_bytes(), &[3, 1, 4]);
    let k = DbKey::from_bytes([9; 32]);
    assert_eq!(k.as_bytes(), &[9; 32]);
}

#[test]
fn stored_columns_decode() {
    assert_eq!(Direction::Outgoing.to_u8(), 0);
    assert_eq!(Direction::Incoming.to_u8(), 1);
    assert_eq!(Direction::from_stored(0), Direction::Outgoing);
    assert_eq!(Direction::from_stored(7), Direction::Incoming);
    let mut short = [0u8; 16];
    short[..3].copy_from_slice(&[1, 2, 3]);
    assert_eq!(blob16(&[1, 2, 3]), short);
    assert_eq!(blob16(&[5; 20]), [5; 16]);
    assert_eq!(blob32(&[]), [0; 32]);
    assert_eq!(blob32(&[6; 32]), [6; 32]);
}

#[test]
fn decimal_rendering() {
    assert_eq!(decimal_string(0), "0");
    assert_eq!(decimal_string(7), "7");
    assert_eq!(decimal_string(1_755_000_000), "1755000000");
    assert_eq!(decimal_string(u64::MAX), "18446744073709551615");
}

#[test]
fn loss_bumps_generation_and_opens_the_inbound_window() {
    let mut g = GenerationState { own: 5, peer: 5 };
    assert_eq!(g.on_loss_detected(), vec![3, 4, 5, 6]);
    assert_eq!(g, GenerationState { own: 6, peer: 5 });
    let mut z = GenerationState { own: 0, peer: 0 };
    assert_eq!(z.on_loss_detected(), vec![0, 1]);
    let mut top = GenerationState { own: u32::MAX, peer: 0 };
    assert_eq!(top.on_loss_detected(), vec![u32::MAX - 3, u32::MAX - 2, u32::MAX - 1, u32::MAX]);
}

#[test]
fn outbound_window_covers_the_peer_generations() {
    let g = GenerationState { own: 1, peer: 9 };
    assert_eq!(g.outbound_window(), vec![9, 10, 11, 12]);
    let edge = GenerationState { own: 0, peer: u32::MAX - 1 };
    assert_eq!(edge.outbound_window(), vec![u32::MAX - 1, u32::MAX]);
}

#[test]
fn convergence_adopts_the_maximum_from_both_sides() {
    let mut a = GenerationState { own: 3, peer: 1 };
    let mut b = GenerationState { own: 7, peer: 2 };
    let a_own = a.own;
    assert!(a.converge(b.own));
    assert!(!b.converge(a_own));
    assert_eq!(a.own, 7);
    assert_eq!(b.own, 7);
    assert_eq!(a.peer, 7);
    assert_eq!(b.peer, 3);
    assert!(!a.converge(7), "converging again changes nothing");
}

#[test]
fn exhaustion_at_the_window() {
    assert!(!GenerationState { own: 3, peer: 0 }.is_exhausted());
    assert!(GenerationState { own: 4, peer: 0 }.is_exhausted());
    assert!(GenerationState { own: 0, peer: 4 }.is_exhausted());
    let mut t = ExhaustionTracker::new();
    for _ in 0..3 {
        t.note_probe_cycle();
        assert!(!t.is_exhausted());
    }
    t.note_probe_cycle();
    assert!(t.is_exhausted());
    t.reset();
    assert!(!t.is_exhausted());
    assert_eq!(RecoveryDirection::Inbound.label(), "titlan/recovery/inbound");
    assert_eq!(RecoveryDirection::Outbound.label(), "titlan/recovery/outbound");
}

#[test]
fn session_framing_peeks_and_refuses() {
    let setup = Envelope { kind: EnvelopeKind::SessionSetup, ciphertext: vec![1, 2] }.encode();
    let ratchet = Envelope { kind: EnvelopeKind::Ratchet, ciphertext: vec![3] }.encode();
    assert_eq!(envelope_kind(&setup).unwrap(), EnvelopeKind::SessionSetup);
    assert_eq!(envelope_kind(&ratchet).unwrap(), EnvelopeKind::Ratchet);
    assert!(matches!(envelope_kind(&[0x54]), Err(CoreError::Malformed(_))));
    assert_eq!(setup_ciphertext(&setup).unwrap(), vec![1, 2]);
    assert!(matches!(
        setup_ciphertext(&ratchet),
        Err(CoreError::Malformed("expected a session-setup message on a pairing inbox"))
    ));
}

#[test]
fn registration_ids_are_nonzero_14_bit() {
    assert_eq!(registration_id_from(0xFFFF_FFFF), Some(0x3FFF));
    assert_eq!(registration_id_from(0x0001_4000), None);
    assert_eq!(registration_id_from(0x1234_5678), Some(0x1678));
}

#[test]
fn local_bundle_carries_the_fixed_ids() {
    let bytes = export_local_bundle(
        "addr".to_owned(),
        77,
        vec![1, 2],
        vec![3],
        vec![4, 5],
        vec![6],
        vec![7, 8, 9],
        vec![10],
    );
    let d = parse(&bytes).unwrap();
    assert_eq!(d.address_name, "addr");
    assert_eq!(d.registration_id, 77);
    assert_eq!(d.device_id, DEVICE_ID);
    assert_eq!(d.identity_key, vec![1, 2]);
    assert_eq!((d.signed_prekey_id, d.signed_prekey_pub.clone(), d.signed_prekey_sig.clone()), (SIGNED_PREKEY_ID, vec![3], vec![4, 5]));
    assert_eq!((d.kyber_prekey_id, d.kyber_prekey_pub.clone(), d.kyber_prekey_sig.clone()), (KYBER_PREKEY_ID, vec![6], vec![7, 8, 9]));
    assert_eq!(d.onetime_prekey, Some((ONETIME_PREKEY_ID, vec![10])));
    assert_eq!(bytes[0], 1);
}

#[test]
fn migrations_run_from_the_recorded_version() {
    assert_eq!(pending_migrations(0), vec![1, 2, 3]);
    assert_eq!(pending_migrations(1), vec![2, 3]);
    assert_eq!(pending_migrations(3), Vec::<u32>::new());
    assert_eq!(pending_migrations(9), Vec::<u32>::new());
}

#[test]
fn random_draws_differ() {
    let a = random_id().expect("os random source");
    let b = random_id().expect("os random source");
    assert_ne!(a, b);
    let k1 = random_32().expect("os random source");
    let k2 = random_32().expect("os random source");
    assert_ne!(k1, k2);
    let key = DbKey::generate().expect("os random source");
    assert_ne!(key.as_bytes(), &[0u8; 32]);
}

#[test]
fn identities_are_trusted_on_first_use() {
    let k1: &[u8] = &[5, 1, 2, 3];
    let k2: &[u8] = &[5, 9, 9, 9];
    assert!(identity_trusted(None, k1), "first contact is trusted");
    assert!(identity_trusted(Some(k1), k1));
    assert!(!identity_trusted(Some(k1), k2), "a different key afterwards is not");
    assert_eq!(identity_change(None, k1), IdentityChange::NewOrUnchanged);
    assert_eq!(identity_change(Some(k1), k1), IdentityChange::NewOrUnchanged);
    assert_eq!(identity_change(Some(k1), k2), IdentityChange::ReplacedExisting);
}
