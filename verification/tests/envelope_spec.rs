//! Envelope specification tests: golden vectors, first-class platform
//! payload types, and negative tests. All parse failures are typed errors.

use tezca::config::PaddingProfile;
use tezca::envelope::{Envelope, EnvelopeKind, InnerFrame, PayloadType};
use tezca::CoreError;

fn hex_of(bytes: &[u8]) -> String {
    bytes.iter().map(|b| format!("{b:02x}")).collect()
}

#[test]
fn golden_outer_ratchet() {
    let env = Envelope {
        kind: EnvelopeKind::Ratchet,
        ciphertext: vec![0xAA; 16],
    };
    let wire = env.encode();
    assert_eq!(
        hex_of(&wire),
        "545a434101020000aaaaaaaaaaaaaaaaaaaaaaaaaaaaaaaa"
    );
    assert_eq!(Envelope::parse(&wire).unwrap(), env);
}

#[test]
fn golden_outer_session_setup() {
    let env = Envelope {
        kind: EnvelopeKind::SessionSetup,
        ciphertext: vec![0x01, 0x02, 0x03],
    };
    assert_eq!(hex_of(&env.encode()), "545a434101010000010203");
    assert_eq!(Envelope::parse(&env.encode()).unwrap(), env);
}

#[test]
fn golden_inner_chat_v1() {
    let profile = PaddingProfile::default_profile();
    let frame = InnerFrame::chat_v1("hi titlan");
    let encoded = frame.encode(&profile).unwrap();
    assert_eq!(encoded.len(), 512, "9-byte chat pads to the 512 bucket");
    assert_eq!(hex_of(&encoded[..15]), "0101000000096869207469746c616e");
    assert!(encoded[15..].iter().all(|&b| b == 0), "padding is all zero");
    assert_eq!(InnerFrame::parse(&encoded, &profile).unwrap(), frame);
}

#[test]
fn golden_inner_posture_v1_empty() {
    let profile = PaddingProfile::default_profile();
    let frame = InnerFrame {
        payload_type: PayloadType::Posture,
        type_version: 1,
        payload: vec![],
    };
    let encoded = frame.encode(&profile).unwrap();
    assert_eq!(encoded.len(), 512);
    assert_eq!(hex_of(&encoded[..6]), "020100000000");
    assert!(encoded[6..].iter().all(|&b| b == 0));
    assert_eq!(InnerFrame::parse(&encoded, &profile).unwrap(), frame);
}

#[test]
fn golden_inner_alert_v1() {
    let profile = PaddingProfile::default_profile();
    let frame = InnerFrame {
        payload_type: PayloadType::Alert,
        type_version: 1,
        payload: vec![0xDE, 0xAD],
    };
    let encoded = frame.encode(&profile).unwrap();
    assert_eq!(encoded.len(), 512);
    assert_eq!(hex_of(&encoded[..8]), "040100000002dead");
    assert_eq!(InnerFrame::parse(&encoded, &profile).unwrap(), frame);
}

#[test]
fn reserved_types_round_trip_as_first_class_frames() {
    let profile = PaddingProfile::default_profile();
    for (pt, version) in [
        (PayloadType::Posture, 1u8),
        (PayloadType::Policy, 1),
        (PayloadType::Alert, 1),
        (PayloadType::Posture, 2),
    ] {
        let frame = InnerFrame {
            payload_type: pt,
            type_version: version,
            payload: b"machine payload".to_vec(),
        };
        let encoded = frame.encode(&profile).unwrap();
        let parsed = InnerFrame::parse(&encoded, &profile).unwrap();
        assert_eq!(parsed, frame, "{pt:?}/{version} must round-trip");
    }
}

#[test]
fn chat_extraction_declines_machine_payloads_gracefully() {
    let frame = InnerFrame {
        payload_type: PayloadType::Posture,
        type_version: 1,
        payload: vec![1, 2, 3],
    };
    match frame.into_chat_v1() {
        Err(CoreError::RecognizedButUnsupported {
            payload_type: PayloadType::Posture,
            type_version: 1,
        }) => {}
        other => panic!("expected RecognizedButUnsupported, got {other:?}"),
    }
}

#[test]
fn unknown_type_is_a_protocol_error_not_a_recognized_one() {
    let profile = PaddingProfile::default_profile();
    let mut bytes = vec![0u8; 512];
    bytes[0] = 0x4A;
    bytes[1] = 0x01;
    match InnerFrame::parse(&bytes, &profile) {
        Err(CoreError::UnknownPayloadType { got: 0x4A }) => {}
        other => panic!("expected UnknownPayloadType, got {other:?}"),
    }
}

#[test]
fn bucket_boundaries() {
    let profile = PaddingProfile::default_profile();
    let f = InnerFrame {
        payload_type: PayloadType::Chat,
        type_version: 1,
        payload: vec![7; 506],
    };
    assert_eq!(f.encode(&profile).unwrap().len(), 512);
    let f = InnerFrame {
        payload: vec![7; 507],
        ..f
    };
    assert_eq!(f.encode(&profile).unwrap().len(), 2048);
    let f = InnerFrame {
        payload: vec![7; 8186],
        ..f
    };
    assert_eq!(f.encode(&profile).unwrap().len(), 8192);
}

#[test]
fn oversize_fails_before_any_crypto() {
    let profile = PaddingProfile::default_profile();
    let f = InnerFrame {
        payload_type: PayloadType::Chat,
        type_version: 1,
        payload: vec![7; 8187],
    };
    match f.encode(&profile) {
        Err(CoreError::PayloadTooLarge {
            len: 8187,
            max: 8186,
        }) => {}
        other => panic!("expected PayloadTooLarge, got {other:?}"),
    }
}

#[test]
fn single_bucket_profile_pads_everything_to_one_size() {
    let profile = PaddingProfile::single(8192).unwrap();
    let small = InnerFrame::chat_v1("x").encode(&profile).unwrap();
    let large = InnerFrame {
        payload_type: PayloadType::Chat,
        type_version: 1,
        payload: vec![7; 4000],
    }
    .encode(&profile)
    .unwrap();
    assert_eq!(small.len(), 8192);
    assert_eq!(large.len(), 8192);
}

#[test]
fn outer_negatives() {
    assert!(matches!(Envelope::parse(&[]), Err(CoreError::Malformed(_))));
    assert!(matches!(
        Envelope::parse(&[0x54, 0x5A, 0x43, 0x41, 0x01, 0x02, 0x00]),
        Err(CoreError::Malformed(_))
    ));
    assert!(matches!(
        Envelope::parse(&[0x54, 0x5A, 0x43, 0x41, 0x01, 0x02, 0x00, 0x00]),
        Err(CoreError::Malformed(_))
    ));
    assert!(matches!(
        Envelope::parse(&[0x54, 0x5A, 0x43, 0x42, 0x01, 0x02, 0x00, 0x00, 0xFF]),
        Err(CoreError::Malformed(_))
    ));
    assert!(matches!(
        Envelope::parse(&[0x54, 0x5A, 0x43, 0x41, 0x02, 0x02, 0x00, 0x00, 0xFF]),
        Err(CoreError::UnsupportedVersion { got: 2 })
    ));
    assert!(matches!(
        Envelope::parse(&[0x54, 0x5A, 0x43, 0x41, 0x01, 0x03, 0x00, 0x00, 0xFF]),
        Err(CoreError::UnknownEnvelopeKind { got: 3 })
    ));
    assert!(matches!(
        Envelope::parse(&[0x54, 0x5A, 0x43, 0x41, 0x01, 0x02, 0x00, 0x01, 0xFF]),
        Err(CoreError::ReservedMustBeZero)
    ));
}

#[test]
fn inner_negatives() {
    let profile = PaddingProfile::default_profile();
    assert!(matches!(
        InnerFrame::parse(&vec![0u8; 513], &profile),
        Err(CoreError::InvalidBucket { frame_len: 513 })
    ));
    assert!(matches!(
        InnerFrame::parse(&[0x01, 0x01, 0, 0, 0, 0], &profile),
        Err(CoreError::InvalidBucket { frame_len: 6 })
    ));
    let mut bytes = vec![0u8; 512];
    bytes[0] = 0x01;
    bytes[1] = 0x01;
    bytes[2..6].copy_from_slice(&507u32.to_be_bytes());
    assert!(matches!(
        InnerFrame::parse(&bytes, &profile),
        Err(CoreError::Malformed(_))
    ));
    let mut bytes = InnerFrame::chat_v1("hello").encode(&profile).unwrap();
    let last = bytes.len() - 1;
    bytes[last] = 0x01;
    assert!(matches!(
        InnerFrame::parse(&bytes, &profile),
        Err(CoreError::InvalidPadding)
    ));
    let frame = InnerFrame {
        payload_type: PayloadType::Chat,
        type_version: 1,
        payload: vec![0xFF, 0xFE],
    };
    assert!(matches!(frame.into_chat_v1(), Err(CoreError::Malformed(_))));
}

#[test]
fn every_registry_type_and_kind_round_trips() {
    let profile = PaddingProfile::default_profile();
    for type_byte in 1u8..=4 {
        for version in 1u8..=3 {
            for len in [0usize, 1, 505, 506, 507, 2000, 8186] {
                let frame = InnerFrame {
                    payload_type: PayloadType::from_byte(type_byte).unwrap(),
                    type_version: version,
                    payload: vec![type_byte; len],
                };
                let encoded = frame.encode(&profile).unwrap();
                assert!(profile.is_bucket(encoded.len() as u32));
                assert_eq!(InnerFrame::parse(&encoded, &profile).unwrap(), frame);
            }
        }
    }
    for kind_byte in 1u8..=2 {
        let env = Envelope {
            kind: EnvelopeKind::from_byte(kind_byte).unwrap(),
            ciphertext: vec![kind_byte; 37],
        };
        assert_eq!(Envelope::parse(&env.encode()).unwrap(), env);
    }
    assert!(PayloadType::from_byte(0).is_err());
    assert!(PayloadType::from_byte(5).is_err());
    assert!(EnvelopeKind::from_byte(3).is_err());
}

#[test]
fn custom_profiles_are_sorted_and_deduplicated_and_empty_ones_refused() {
    let p = PaddingProfile::new(vec![2048, 512, 2048, 1024]).unwrap();
    assert_eq!(p.buckets(), &[512, 1024, 2048]);
    assert_eq!(p.max_payload(), 2042);
    assert_eq!(p.bucket_for(513), Some(1024));
    assert_eq!(p.bucket_for(2049), None);
    assert!(PaddingProfile::new(vec![]).is_err());
    assert!(PaddingProfile::single(3).is_err());
}
