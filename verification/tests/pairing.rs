//! Pairing framing: bundle conformance, handoff codecs, proof-of-scan and
//! the signed offer's validity rule.

use tezca::config::{FUTURE_SKEW_S, MAX_OFFER_TTL_S, OFFER_DEFAULT_TTL_S};
use tezca::error::OfferExpiryDetail;
use tezca::pairing::{
    compute_proof_of_scan, encode_mailbox_update, encode_mailbox_update_v2,
    encode_mailbox_update_v3, encode_pair_ack_v2, finish_offer_v3, offer_v3_prefix, parse,
    parse_mailbox_update, parse_mailbox_update_v2, parse_mailbox_update_v3,
    parse_offer_v3_structure, parse_pair_ack_v2, parse_pairing_offer_v3, peek_offer_relay,
    peek_offer_validity, serialize, split_offer_signature, verify_proof_of_scan, BundleData,
    SignatureCheck, OFFER_SIG_LEN, PAIRING_SECRET_LEN, RECOVERY_CONTRIB_LEN,
};
use tezca::CoreError;

fn secret(seed: u8) -> [u8; PAIRING_SECRET_LEN] {
    [seed; PAIRING_SECRET_LEN]
}

fn bundle_with_device_id(device_id: u32) -> BundleData {
    let mut identity_key = vec![0x11u8; 33];
    identity_key[0] = 0x05;
    BundleData {
        address_name: "a".repeat(66),
        registration_id: 0x1234,
        device_id,
        identity_key,
        signed_prekey_id: 7,
        signed_prekey_pub: vec![0x22; 33],
        signed_prekey_sig: vec![0x33; 64],
        kyber_prekey_id: 9,
        kyber_prekey_pub: vec![0x44; 1569],
        kyber_prekey_sig: vec![0x55; 64],
        onetime_prekey: Some((2, vec![0x66; 33])),
    }
}

#[test]
fn proof_verifies_with_matching_secret_bundle_and_contribution() {
    let s = secret(0x11);
    let bundle = b"responder-prekey-bundle-bytes";
    let contrib = [0x99u8; RECOVERY_CONTRIB_LEN];
    let proof = compute_proof_of_scan(&s, bundle, &contrib);
    assert!(verify_proof_of_scan(&s, bundle, &contrib, &proof).is_ok());
}

#[test]
fn proof_fails_on_wrong_secret_bundle_contribution_or_mac() {
    let s = secret(0x11);
    let bundle = b"responder-bundle";
    let contrib = [0x99u8; RECOVERY_CONTRIB_LEN];
    let proof = compute_proof_of_scan(&s, bundle, &contrib);
    assert!(matches!(
        verify_proof_of_scan(&secret(0x22), bundle, &contrib, &proof),
        Err(CoreError::ProofOfScanFailed)
    ));
    assert!(matches!(
        verify_proof_of_scan(&s, b"tampered-bundle", &contrib, &proof),
        Err(CoreError::ProofOfScanFailed)
    ));
    assert!(matches!(
        verify_proof_of_scan(&s, bundle, &[0x00u8; RECOVERY_CONTRIB_LEN], &proof),
        Err(CoreError::ProofOfScanFailed)
    ));
    assert!(matches!(
        verify_proof_of_scan(&s, bundle, &contrib, &proof[..16]),
        Err(CoreError::ProofOfScanFailed)
    ));
}

#[test]
fn pair_ack_v2_roundtrips_and_carries_verifiable_proof() {
    let bundle = b"B-bundle".to_vec();
    let contrib = [0x55u8; RECOVERY_CONTRIB_LEN];
    let s = secret(0x44);
    let enc = encode_pair_ack_v2(
        &bundle,
        "wss://b/v1",
        "BBBBBBBBBBBBBBBBBBBBBBBBBBBBBBBBBBBBBBBBBBB",
        &contrib,
        &s,
    );
    let ack = parse_pair_ack_v2(&enc).unwrap();
    assert_eq!(ack.responder_bundle, bundle);
    assert_eq!(ack.root_contribution, contrib);
    assert!(verify_proof_of_scan(&s, &ack.responder_bundle, &ack.root_contribution, &ack.mac).is_ok());
}

#[test]
fn proof_of_scan_is_hmac_sha256_of_bundle_then_contribution() {
    // The third HMAC-SHA-256 vector of RFC 4231: key 0xaa x 20, data 0xdd x 50. A 32-byte key
    // ending in zeros is the same HMAC key (short keys are zero-padded).
    let mut key = [0u8; 32];
    key[..20].copy_from_slice(&[0xaa; 20]);
    let bundle = [0xddu8; 18];
    let contrib = [0xddu8; 32];
    let tag = compute_proof_of_scan(&key, &bundle, &contrib);
    let hex: String = tag.iter().map(|b| format!("{b:02x}")).collect();
    assert_eq!(
        hex,
        "773ea91e36800e46854db8ebd09181a72959098b3ef8c122d9635514ced565fe"
    );
}

#[test]
fn mailbox_update_v2_roundtrips_contribution() {
    let contrib = [0x77u8; RECOVERY_CONTRIB_LEN];
    let enc = encode_mailbox_update_v2(
        "wss://a/v1",
        "CCCCCCCCCCCCCCCCCCCCCCCCCCCCCCCCCCCCCCCCCCC",
        &contrib,
    );
    let (r, i, c) = parse_mailbox_update_v2(&enc).unwrap();
    assert_eq!(r, "wss://a/v1");
    assert_eq!(i.len(), 43);
    assert_eq!(c, contrib);
}

#[test]
fn bundle_with_device_id_other_than_1_is_malformed() {
    match parse(&serialize(&bundle_with_device_id(2))) {
        Err(CoreError::Malformed(_)) => {}
        Err(other) => panic!("expected Malformed, got Err({other:?})"),
        Ok(_) => panic!("expected Malformed, got Ok(..)"),
    }
}

#[test]
fn mailbox_update_v1_with_trailing_bytes_is_malformed() {
    let inbox = "AAAAAAAAAAAAAAAAAAAAAAAAAAAAAAAAAAAAAAAAAAA";
    let mut payload = encode_mailbox_update("wss://relay.example/v1", inbox);
    payload.extend_from_slice(&[0xDE, 0xAD]);
    match parse_mailbox_update(&payload) {
        Err(CoreError::Malformed(_)) => {}
        Err(other) => panic!("expected Malformed, got Err({other:?})"),
        Ok(ok) => panic!("expected Malformed, got Ok({ok:?})"),
    }
}

#[test]
fn bundle_serializes_and_parses_back() {
    let data = bundle_with_device_id(1);
    let bytes = serialize(&data);
    assert_eq!(bytes[0], 1);
    let back = parse(&bytes).unwrap();
    assert_eq!(back.address_name, data.address_name);
    assert_eq!(back.registration_id, 0x1234);
    assert_eq!(back.identity_key, data.identity_key);
    assert_eq!(back.kyber_prekey_pub.len(), 1569);
    assert_eq!(back.onetime_prekey, Some((2, vec![0x66; 33])));
    // Re-serialization is byte-identical.
    assert_eq!(serialize(&back), bytes);
}

#[test]
fn bundle_receiver_rules_and_framing_errors() {
    let mut data = bundle_with_device_id(1);
    data.onetime_prekey = None;
    let bytes = serialize(&data);
    assert!(parse(&bytes).unwrap().onetime_prekey.is_none());

    let mut no_pq = bundle_with_device_id(1);
    no_pq.kyber_prekey_pub = vec![];
    assert!(matches!(
        parse(&serialize(&no_pq)),
        Err(CoreError::Malformed("bundle lacks post-quantum prekey"))
    ));

    let mut trailing = bytes.clone();
    trailing.push(0);
    assert!(matches!(
        parse(&trailing),
        Err(CoreError::Malformed("trailing bytes in pairing bundle"))
    ));
    assert!(matches!(
        parse(&bytes[..bytes.len() - 1]),
        Err(CoreError::Malformed("truncated pairing bundle"))
    ));
    let mut v2 = bytes.clone();
    v2[0] = 2;
    assert!(matches!(
        parse(&v2),
        Err(CoreError::Malformed("unknown pairing bundle version"))
    ));
    assert!(matches!(parse(&[]), Err(CoreError::Malformed("truncated pairing bundle"))));
    // Address field that is not UTF-8.
    let bad_addr = [1u8, 0, 1, 0xFF];
    assert!(matches!(
        parse(&bad_addr),
        Err(CoreError::Malformed("bundle address is not UTF-8"))
    ));
}

#[test]
fn mailbox_update_v1_and_v3_roundtrip_and_reject_other_versions() {
    let inbox = "DDDDDDDDDDDDDDDDDDDDDDDDDDDDDDDDDDDDDDDDDDD";
    let v1 = encode_mailbox_update("wss://r/v1", inbox);
    assert_eq!(v1[0], 1);
    assert_eq!(
        parse_mailbox_update(&v1).unwrap(),
        ("wss://r/v1".to_string(), inbox.to_string())
    );
    let v3 = encode_mailbox_update_v3("wss://r/v1", inbox);
    assert_eq!(v3[0], 3);
    assert_eq!(
        parse_mailbox_update_v3(&v3).unwrap(),
        ("wss://r/v1".to_string(), inbox.to_string())
    );
    assert!(matches!(
        parse_mailbox_update(&v3),
        Err(CoreError::Malformed("unknown mailbox-update version"))
    ));
    let mut t = v3.clone();
    t.push(9);
    assert!(matches!(
        parse_mailbox_update_v3(&t),
        Err(CoreError::Malformed("trailing bytes in mailbox-update/3"))
    ));
    assert!(matches!(
        parse_mailbox_update(&v1[..v1.len() - 1]),
        Err(CoreError::Malformed("truncated pairing bundle"))
    ));
}

#[test]
fn pair_ack_rejects_wrong_version_and_trailing_bytes() {
    let enc = encode_pair_ack_v2(b"b", "wss://b/v1", &"E".repeat(43), &[1; 32], &secret(3));
    let mut t = enc.clone();
    t.push(0);
    assert!(matches!(
        parse_pair_ack_v2(&t),
        Err(CoreError::Malformed("trailing bytes in pair-ack/2"))
    ));
    let mut v = enc.clone();
    v[0] = 1;
    assert!(matches!(
        parse_pair_ack_v2(&v),
        Err(CoreError::Malformed("unknown pair-ack version"))
    ));
}

// Offers: the signature itself is made and checked by the signing library;
// here a fixed 64-byte signature stands in and the verification outcome is given.

const T0: u64 = 1_755_000_000;
const RELAY: &str = "ws://127.0.0.1:1/v1";
const INBOX: &str = "AAAAAAAAAAAAAAAAAAAAAAAAAAAAAAAAAAAAAAAAAAA";
const SECRET: [u8; PAIRING_SECRET_LEN] = [0x42; PAIRING_SECRET_LEN];

fn mint(relay: &str, issued_at: u64, ttl_s: u32) -> Vec<u8> {
    let bundle = serialize(&bundle_with_device_id(1));
    let prefix = offer_v3_prefix(&bundle, relay, INBOX, &SECRET, issued_at, ttl_s);
    finish_offer_v3(prefix, &[0x5A; OFFER_SIG_LEN]).expect("64-byte signature")
}

#[test]
fn r1_fresh_mint_round_trips_and_accepts() {
    let enc = mint(RELAY, T0, OFFER_DEFAULT_TTL_S);
    let offer = parse_pairing_offer_v3(&enc, T0 + 1, SignatureCheck::Verified).expect("fresh offer accepts");
    assert_eq!(offer.bundle, serialize(&bundle_with_device_id(1)), "bundle round-trips");
    assert_eq!(offer.relay_url, RELAY, "relay round-trips");
    assert_eq!(offer.pairing_inbox_id, INBOX, "inbox round-trips");
    assert_eq!(offer.pairing_secret, SECRET, "secret round-trips");
    assert_eq!(offer.issued_at, T0, "issued_at round-trips");
    assert_eq!(offer.ttl_s, OFFER_DEFAULT_TTL_S, "ttl_s round-trips");
    let (prefix, sig) = split_offer_signature(&enc).unwrap();
    assert_eq!(sig, &[0x5A; OFFER_SIG_LEN][..]);
    assert_eq!(prefix.len() + OFFER_SIG_LEN, enc.len());
}

#[test]
fn r3_boundary_now_equals_issued_plus_ttl_is_expired() {
    let enc = mint(RELAY, T0, 3600);
    match parse_pairing_offer_v3(&enc, T0 + 3600, SignatureCheck::Verified) {
        Err(CoreError::OfferExpired {
            detail: OfferExpiryDetail::Expired,
            ..
        }) => {}
        Err(other) => panic!("expected OfferExpired{{Expired}} at the boundary, got Err({other:?})"),
        Ok(_) => panic!("expected OfferExpired{{Expired}} at the boundary, got Ok(..)"),
    }
    assert!(
        parse_pairing_offer_v3(&enc, T0 + 3599, SignatureCheck::Verified).is_ok(),
        "one second before the boundary must still accept"
    );
}

#[test]
fn r4_bit_flipped_issued_at_is_signature_invalid_not_expired() {
    let mut enc = mint(RELAY, T0, 3600);
    let issued_at_pos = enc.len() - OFFER_SIG_LEN - 12;
    enc[issued_at_pos + 4] ^= 0x40;
    // The signature no longer verifies over the tampered prefix.
    match parse_pairing_offer_v3(&enc, T0 + 1, SignatureCheck::Mismatch) {
        Err(CoreError::OfferSignatureInvalid) => {}
        Err(other) => panic!("expected OfferSignatureInvalid, got Err({other:?})"),
        Ok(_) => panic!("expected OfferSignatureInvalid for tampered issued_at, got Ok(..)"),
    }
}

#[test]
fn r5_ttl_zero_and_over_max_are_malformed() {
    for ttl in [0u32, MAX_OFFER_TTL_S + 1] {
        let enc = mint(RELAY, T0, ttl);
        match parse_pairing_offer_v3(&enc, T0 + 1, SignatureCheck::Verified) {
            Err(CoreError::Malformed(_)) => {}
            Err(other) => panic!("expected Malformed for ttl_s {ttl}, got Err({other:?})"),
            Ok(_) => panic!("expected Malformed for ttl_s {ttl}, got Ok(..)"),
        }
    }
}

#[test]
fn r6_future_dated_beyond_grace_is_not_yet_valid() {
    let enc = mint(RELAY, T0 + FUTURE_SKEW_S + 1, 3600);
    match parse_pairing_offer_v3(&enc, T0, SignatureCheck::Verified) {
        Err(CoreError::OfferExpired {
            issued_at,
            ttl_s,
            now,
            detail: OfferExpiryDetail::NotYetValid,
        }) => {
            assert_eq!(issued_at, T0 + FUTURE_SKEW_S + 1);
            assert_eq!(ttl_s, 3600);
            assert_eq!(now, T0);
        }
        Err(other) => panic!("expected OfferExpired{{NotYetValid}} beyond the skew grace, got Err({other:?})"),
        Ok(_) => panic!("expected OfferExpired{{NotYetValid}} beyond the skew grace, got Ok(..)"),
    }
    let edge = mint(RELAY, T0 + FUTURE_SKEW_S, 3600);
    assert!(
        parse_pairing_offer_v3(&edge, T0, SignatureCheck::Verified).is_ok(),
        "issued_at == now + FUTURE_SKEW_S must still be admitted"
    );
}

#[test]
fn r7_older_offer_versions_are_unsupported_version() {
    let mut enc = mint(RELAY, T0, 3600);
    enc[0] = 2;
    match parse_pairing_offer_v3(&enc, T0 + 1, SignatureCheck::Verified) {
        Err(CoreError::UnsupportedVersion { got: 2 }) => {}
        Err(other) => panic!("expected UnsupportedVersion{{got: 2}}, got Err({other:?})"),
        Ok(_) => panic!("expected UnsupportedVersion{{got: 2}}, got Ok(..)"),
    }
}

#[test]
fn r8_trailing_bytes_after_offer_sig_reject() {
    let mut enc = mint(RELAY, T0, 3600);
    enc.push(0x00);
    match parse_pairing_offer_v3(&enc, T0 + 1, SignatureCheck::Verified) {
        Err(CoreError::Malformed(_)) => {}
        Err(other) => panic!("expected Malformed for trailing bytes, got Err({other:?})"),
        Ok(_) => panic!("expected Malformed for trailing bytes, got Ok(..)"),
    }
}

#[test]
fn offer_structure_peeks_and_signature_outcomes() {
    let enc = mint(RELAY, T0, 7200);
    let v = peek_offer_validity(&enc).unwrap();
    assert_eq!((v.issued_at, v.ttl_s), (T0, 7200));
    assert_eq!(peek_offer_relay(&enc).unwrap(), RELAY);
    assert_eq!(parse_offer_v3_structure(&enc).unwrap().ttl_s, 7200);
    match parse_pairing_offer_v3(&enc, T0, SignatureCheck::KeyRejected("bad key data".to_string())) {
        Err(CoreError::Signal(m)) => assert_eq!(m, "bad key data"),
        other => panic!("expected Signal, got {other:?}"),
    }
    assert!(split_offer_signature(&enc[..enc.len() - 1]).is_none());
    match finish_offer_v3(vec![3], &[0; 63]) {
        Err(CoreError::Signal(m)) => assert_eq!(m, "unexpected offer signature length"),
        other => panic!("expected Signal, got {other:?}"),
    }
    // An offer whose bundle does not parse is refused before the signature.
    let prefix = offer_v3_prefix(b"not a bundle", RELAY, INBOX, &SECRET, T0, 60);
    let bad = finish_offer_v3(prefix, &[0; OFFER_SIG_LEN]).unwrap();
    assert!(matches!(
        parse_pairing_offer_v3(&bad, T0, SignatureCheck::Verified),
        Err(CoreError::Malformed("unknown pairing bundle version"))
    ));
}

const B64URL_ALPHABET: &[u8; 64] = b"ABCDEFGHIJKLMNOPQRSTUVWXYZabcdefghijklmnopqrstuvwxyz0123456789-_";

fn b64url_encode(data: &[u8]) -> String {
    let mut out = String::new();
    for chunk in data.chunks(3) {
        let b0 = u32::from(chunk[0]);
        let b1 = u32::from(chunk.get(1).copied().unwrap_or(0));
        let b2 = u32::from(chunk.get(2).copied().unwrap_or(0));
        let n = (b0 << 16) | (b1 << 8) | b2;
        out.push(B64URL_ALPHABET[(n >> 18) as usize & 63] as char);
        out.push(B64URL_ALPHABET[(n >> 12) as usize & 63] as char);
        if chunk.len() > 1 {
            out.push(B64URL_ALPHABET[(n >> 6) as usize & 63] as char);
        }
        if chunk.len() > 2 {
            out.push(B64URL_ALPHABET[n as usize & 63] as char);
        }
    }
    out
}

fn b64url_decode(s: &str) -> Vec<u8> {
    let val = |c: u8| B64URL_ALPHABET.iter().position(|&a| a == c).expect("base64url character") as u32;
    let bytes = s.as_bytes();
    let mut out = Vec::new();
    for chunk in bytes.chunks(4) {
        let mut n = 0u32;
        for (i, &c) in chunk.iter().enumerate() {
            n |= val(c) << (18 - 6 * i);
        }
        out.push((n >> 16) as u8);
        if chunk.len() > 2 {
            out.push((n >> 8) as u8);
        }
        if chunk.len() > 3 {
            out.push(n as u8);
        }
    }
    out
}

#[test]
fn r10_qr_link_byte_identity_round_trip_v3() {
    let enc = mint(RELAY, T0, OFFER_DEFAULT_TTL_S);
    let link = format!("titlan://pair#{}", b64url_encode(&enc));
    let decoded = b64url_decode(link.strip_prefix("titlan://pair#").expect("link prefix"));
    assert_eq!(decoded, enc, "QR/link carrier must be byte-identical for v3 bytes");
    let offer = parse_pairing_offer_v3(&decoded, T0 + 1, SignatureCheck::Verified).expect("carried offer accepts");
    assert_eq!(offer.issued_at, T0, "carried issued_at intact");
    assert_eq!(offer.ttl_s, OFFER_DEFAULT_TTL_S, "carried ttl_s intact");
    let (prefix, sig) = split_offer_signature(&decoded).unwrap();
    assert_eq!(prefix.len(), decoded.len() - OFFER_SIG_LEN);
    assert_eq!(sig, &[0x5A; OFFER_SIG_LEN][..], "round-tripped offer_sig is the one minted");
}

#[test]
fn bundle_parses_only_at_its_exact_length() {
    let bytes = serialize(&bundle_with_device_id(1));
    for n in 0..bytes.len() {
        assert!(matches!(parse(&bytes[..n]), Err(CoreError::Malformed(_))), "prefix of {n} bytes");
    }
    let mut longer = bytes.clone();
    longer.push(0);
    assert!(matches!(parse(&longer), Err(CoreError::Malformed(_))));
    assert!(parse(&bytes).is_ok());
}

#[test]
fn r7_v2_fixture_bytes_are_unsupported_version() {
    // A version-2 offer link: its payload starts with the version byte 2.
    let mut v2 = vec![0x02];
    v2.extend_from_slice(&serialize(&bundle_with_device_id(1))[..40]);
    let link = format!("titlan://pair#{}", b64url_encode(&v2));
    let fragment = link.strip_prefix("titlan://pair#").expect("v2 link carries the titlan://pair# prefix");
    let payload = b64url_decode(fragment);
    match parse_pairing_offer_v3(&payload, T0, SignatureCheck::Verified) {
        Err(CoreError::UnsupportedVersion { got: 2 }) => {}
        Err(other) => panic!("expected UnsupportedVersion{{got: 2}} for a v2 offer, got Err({other:?})"),
        Ok(_) => panic!("expected UnsupportedVersion{{got: 2}} for a v2 offer, got Ok(..)"),
    }
}
