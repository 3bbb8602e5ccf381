//! The host-facing error surface: four user-facing classes and an internal
//! one, with no structural failure ever surfacing as a crypto one.

use tezca::error::OfferExpiryDetail;
use tezca::ffi::{FfiConnectionState, FfiMessage, FfiOfferExpiryDetail, TitlanError};
use tezca::client::ConnectionState;
use tezca::storage::{Direction, StoredMessage};
use tezca::CoreError;
use tezca::ffi::{conv_id, generate_db_key, host_db_key};

#[test]
fn accept_path_classification_is_total_and_four_way() {
    assert!(
        matches!(
            TitlanError::from(CoreError::Network("relay unreachable".into())),
            TitlanError::Network { .. }
        ),
        "Network must map to TitlanError::Network"
    );
    for detail in [OfferExpiryDetail::Expired, OfferExpiryDetail::NotYetValid] {
        match TitlanError::from(CoreError::OfferExpired {
            issued_at: 1_755_000_000,
            ttl_s: 3600,
            now: 1_755_010_000,
            detail,
        }) {
            TitlanError::OfferExpired {
                issued_at,
                ttl_s,
                now,
                ..
            } => {
                assert_eq!(issued_at, 1_755_000_000, "issued_at carried");
                assert_eq!(ttl_s, 3600, "ttl_s carried");
                assert_eq!(now, 1_755_010_000, "now carried");
            }
            other => panic!("OfferExpired({detail:?}) must stay OfferExpired, got {other:?}"),
        }
    }
    assert!(
        matches!(
            TitlanError::from(CoreError::PairingUnavailable),
            TitlanError::PairingUnavailable
        ),
        "PairingUnavailable must stay distinct (EXPIRED class in the mapper)"
    );
    assert!(
        matches!(
            TitlanError::from(CoreError::OfferSignatureInvalid),
            TitlanError::OfferSignatureInvalid
        ),
        "OfferSignatureInvalid must stay distinct"
    );
    assert!(
        matches!(
            TitlanError::from(CoreError::Malformed("trailing bytes in pairing offer")),
            TitlanError::Malformed { .. }
        ),
        "Malformed must map to TitlanError::Malformed (class MALFORMED), not Other"
    );
    assert!(
        matches!(
            TitlanError::from(CoreError::UnsupportedVersion { got: 2 }),
            TitlanError::Malformed { .. }
        ),
        "UnsupportedVersion must map to TitlanError::Malformed (class MALFORMED), not Other"
    );
    assert!(
        matches!(
            TitlanError::from(CoreError::ProofOfScanFailed),
            TitlanError::ProofOfScanFailed
        ),
        "ProofOfScanFailed must map to TitlanError::ProofOfScanFailed, not Other"
    );
    assert!(
        matches!(
            TitlanError::from(CoreError::Signal("bad key data".into())),
            TitlanError::Protocol { .. }
        ),
        "Signal must map to TitlanError::Protocol (class CRYPTO on the pairing path)"
    );
    assert!(
        matches!(
            TitlanError::from(CoreError::Storage("disk full".into())),
            TitlanError::Other { .. }
        ),
        "Storage is the INTERNAL class: Other"
    );
    assert!(
        matches!(
            TitlanError::from(CoreError::PayloadTooLarge {
                len: 9000,
                max: 8186
            }),
            TitlanError::Other { .. }
        ),
        "PayloadTooLarge is the INTERNAL class: Other"
    );
}

#[test]
fn structural_family_never_surfaces_as_crypto() {
    for e in [
        CoreError::UnsupportedVersion { got: 1 },
        CoreError::UnsupportedVersion { got: 2 },
        CoreError::Malformed("offer ttl_s out of range"),
    ] {
        let mapped = TitlanError::from(e);
        assert!(
            !matches!(
                mapped,
                TitlanError::OfferSignatureInvalid
                    | TitlanError::ProofOfScanFailed
                    | TitlanError::Protocol { .. }
            ),
            "structural failure must never surface as a crypto-class variant, got {mapped:?}"
        );
        assert!(
            matches!(mapped, TitlanError::Malformed { .. }),
            "structural failure must surface as Malformed, got {mapped:?}"
        );
    }
}

#[test]
fn crypto_family_is_distinct_and_never_expired() {
    assert!(
        matches!(
            TitlanError::from(CoreError::ProofOfScanFailed),
            TitlanError::ProofOfScanFailed
        ),
        "ProofOfScanFailed must map to its own variant, not Other"
    );
    assert!(
        matches!(
            TitlanError::from(CoreError::Signal("PQXDH failure".into())),
            TitlanError::Protocol { .. }
        ),
        "Signal must map to Protocol, not Other"
    );
    for e in [
        CoreError::OfferSignatureInvalid,
        CoreError::ProofOfScanFailed,
        CoreError::Signal("PQXDH failure".into()),
    ] {
        let mapped = TitlanError::from(e);
        assert!(
            !matches!(mapped, TitlanError::OfferExpired { .. }),
            "a crypto-class failure must never surface as expired, got {mapped:?}"
        );
    }
}

#[test]
fn messages_carry_the_error_text() {
    match TitlanError::from(CoreError::Malformed("trailing bytes in pairing offer")) {
        TitlanError::Malformed { msg } => assert_eq!(msg, "trailing bytes in pairing offer"),
        other => panic!("got {other:?}"),
    }
    match TitlanError::from(CoreError::UnsupportedVersion { got: 2 }) {
        TitlanError::Malformed { msg } => assert_eq!(msg, "unsupported version 2"),
        other => panic!("got {other:?}"),
    }
    match TitlanError::from(CoreError::Storage("disk full".into())) {
        TitlanError::Other { msg } => assert_eq!(msg, "storage error: disk full"),
        other => panic!("got {other:?}"),
    }
    match TitlanError::from(CoreError::PayloadTooLarge { len: 9000, max: 8186 }) {
        TitlanError::Other { msg } => assert_eq!(msg, "payload of 9000 bytes exceeds maximum 8186"),
        other => panic!("got {other:?}"),
    }
    match TitlanError::from(CoreError::OfferExpired {
        issued_at: 10,
        ttl_s: 0,
        now: 18446744073709551615,
        detail: OfferExpiryDetail::NotYetValid,
    }) {
        TitlanError::OfferExpired { detail, now, .. } => {
            assert_eq!(detail, FfiOfferExpiryDetail::NotYetValid);
            assert_eq!(now, u64::MAX);
        }
        other => panic!("got {other:?}"),
    }
    assert_eq!(
        CoreError::OfferExpired {
            issued_at: 10,
            ttl_s: 0,
            now: 18446744073709551615,
            detail: OfferExpiryDetail::NotYetValid,
        }
        .to_string(),
        "pairing offer outside validity (issued_at 10, ttl 0 s, now 18446744073709551615, NotYetValid)"
    );
    assert_eq!(
        CoreError::RecognizedButUnsupported {
            payload_type: tezca::envelope::PayloadType::Posture,
            type_version: 1
        }
        .to_string(),
        "recognized but unsupported payload Posture/1"
    );
    assert_eq!(CoreError::InvalidBucket { frame_len: 0 }.to_string(), "frame length 0 is not a configured bucket");
    assert_eq!(CoreError::ConversationNeedsRepair.to_string(), "conversation needs repair (recovery exhausted)");
}

#[test]
fn states_and_messages_mirror_to_the_host() {
    assert_eq!(FfiConnectionState::from(ConnectionState::Backoff { secs: 8 }), FfiConnectionState::Backoff { secs: 8 });
    assert_eq!(FfiConnectionState::from(ConnectionState::RePairRequired), FfiConnectionState::RePairRequired);
    let m = StoredMessage {
        id: [1; 16],
        conversation_id: [2; 16],
        direction: Direction::Incoming,
        payload_type: 1,
        type_version: 1,
        body: b"hi".to_vec(),
    };
    let f = FfiMessage::from(m);
    assert_eq!(f.id, vec![1; 16]);
    assert_eq!(f.conversation_id, vec![2; 16]);
    assert!(f.incoming);
    assert_eq!(f.body, b"hi".to_vec());
}

#[test]
fn host_byte_arguments_are_length_checked() {
    assert_eq!(conv_id(&[7; 16]).unwrap(), [7; 16]);
    match conv_id(&[7; 15]) {
        Err(TitlanError::Other { msg }) => assert_eq!(msg, "conversation id must be 16 bytes"),
        _ => panic!("short id accepted"),
    }
    assert_eq!(host_db_key(&[9; 32]).unwrap().as_bytes(), &[9; 32]);
    match host_db_key(&[9; 33]) {
        Err(TitlanError::Other { msg }) => assert_eq!(msg, "db key must be 32 bytes"),
        _ => panic!("long key accepted"),
    }
}

#[test]
fn generated_db_keys_are_32_fresh_bytes() {
    let a = generate_db_key().expect("os random source");
    let b = generate_db_key().expect("os random source");
    assert_eq!(a.len(), 32);
    assert_ne!(a, b);
}
