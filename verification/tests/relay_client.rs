//! Client-side relay framing: origins, statuses, responses, endpoints,
//! backoff and the hello replay filter.

use tezca::recovery::Role;
use tezca::relay_client::backoff::Backoff;
use tezca::relay_client::engine::{peer_role_u8, role_from_u8, HelloRing, ROLE_OFFERER, ROLE_RESPONDER};
use tezca::relay_client::http::{deposit_outcome, parse_create_response, put_outcome, to_http, DepositOutcome, PutOutcome};
use tezca::relay_client::ws::ws_endpoint;
use tezca::CoreError;

#[test]
fn relay_urls_map_to_http_origins() {
    assert_eq!(to_http("ws://127.0.0.1:8080"), "http://127.0.0.1:8080");
    assert_eq!(to_http("wss://relay.example/v1"), "https://relay.example/v1");
    assert_eq!(to_http("https://x"), "https://x");
    assert_eq!(to_http("ws:/"), "ws:/");
}

#[test]
fn statuses_map_to_outcomes() {
    assert_eq!(deposit_outcome(202), DepositOutcome::Accepted);
    assert_eq!(deposit_outcome(404), DepositOutcome::NotFound);
    assert_eq!(deposit_outcome(507), DepositOutcome::Other(507));
    assert_eq!(put_outcome(201), PutOutcome::Created);
    assert_eq!(put_outcome(503), PutOutcome::AtCap);
    assert_eq!(put_outcome(429), PutOutcome::RateLimited);
    assert_eq!(put_outcome(400), PutOutcome::Other(400));
}

#[test]
fn create_response_yields_the_mailbox_id() {
    let id = "A".repeat(43);
    let body = format!("{{\"mailbox_id\":\"{id}\"}}");
    assert_eq!(parse_create_response(&body).unwrap(), id);
    assert!(matches!(
        parse_create_response("{}"),
        Err(CoreError::Malformed("malformed mailbox-create response"))
    ));
    assert!(matches!(
        parse_create_response("{\"mailbox_id\":"),
        Err(CoreError::Malformed(_))
    ));
    assert_eq!(parse_create_response("\"mailbox_id\" \"x").unwrap(), "x");
}

#[test]
fn endpoints_split_scheme_authority_and_host() {
    let e = ws_endpoint("wss://relay.example:8443", "M").unwrap();
    assert_eq!(e.scheme, "wss");
    assert_eq!(e.authority, "relay.example:8443");
    assert_eq!(e.host, "relay.example");
    assert_eq!(e.ws_url, "wss://relay.example:8443/v1/mailboxes/M/ws");
    assert!(e.tls);
    let p = ws_endpoint("ws://127.0.0.1", "M").unwrap();
    assert_eq!(p.host, "127.0.0.1");
    assert!(!p.tls);
    assert!(ws_endpoint("relay.example", "M").is_none());
}

#[test]
fn backoff_doubles_to_the_cap_and_resets() {
    let mut b = Backoff::new(42);
    let mut steps = vec![];
    for _ in 0..8 {
        let d = b.next_delay();
        assert!(d.jitter_bits < (1u32 << 31));
        steps.push(d.base_secs);
    }
    assert_eq!(steps, vec![1, 2, 4, 8, 16, 32, 60, 60]);
    b.reset();
    assert_eq!(b.current_secs(), 1);
    // Deterministic under a fixed seed.
    let mut x = Backoff::new(42);
    let mut y = Backoff::new(43);
    assert_eq!(x.next_delay().jitter_bits, y.next_delay().jitter_bits, "seeds 42 and 43 are both forced to 43");
    let mut s = Backoff::new(1);
    let expected = 1u64.wrapping_mul(6_364_136_223_846_793_005).wrapping_add(1_442_695_040_888_963_407) >> 33;
    assert_eq!(s.next_delay().jitter_bits as u64, expected);
}

#[test]
fn roles_and_hello_replays() {
    assert_eq!(role_from_u8(ROLE_OFFERER), Role::Offerer);
    assert_eq!(role_from_u8(9), Role::Responder);
    assert_eq!(peer_role_u8(ROLE_OFFERER), ROLE_RESPONDER);
    assert_eq!(peer_role_u8(ROLE_RESPONDER), ROLE_OFFERER);
    let mut ring = HelloRing::new();
    assert!(ring.mark_seen(3, [1; 16]));
    assert!(!ring.mark_seen(3, [1; 16]), "replay");
    assert!(ring.mark_seen(3, [2; 16]));
    assert!(ring.mark_seen(4, [1; 16]));
    for n in 0..600u32 {
        let mut nonce = [0u8; 16];
        nonce[..4].copy_from_slice(&n.to_be_bytes());
        nonce[15] = 0xEE;
        assert!(ring.mark_seen(100, nonce));
    }
    assert_eq!(ring.entries.len(), 512);
    assert!(ring.mark_seen(3, [1; 16]), "the oldest entries were evicted");
}
