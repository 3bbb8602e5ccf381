//! The relay: blind admission, frames, mailbox ids, rate limits, mailbox
//! state and configuration.

use std::collections::HashSet;

use tezca::relay::config::Config;
use tezca::relay::limits::{retry_after_secs, BoxLimiter, SourceAddr, SourceLimiter};
use tezca::relay::state::{CreateOutcome, AppState, Reply};
use tezca::relay::wire::{
    ack_frame, deposit_admissible, delivery_frame, encode_mailbox_id, mailbox_id_shape_ok,
    parse_ack_frame, parse_delivery_frame,
};

#[test]
fn admission_checks_magic_version_and_length_only() {
    assert!(deposit_admissible(b"TZCA\x01\x02\x00\x00\xAA"));
    assert!(deposit_admissible(b"TZCA\x01\x7F\xFF\xFF garbage"));
    assert!(!deposit_admissible(b"TZCB\x01\x02\x00\x00\xAA"));
    assert!(!deposit_admissible(b"TZCA\x02\x02\x00\x00\xAA"));
    assert!(!deposit_admissible(b"TZCA\x01\x02\x00\x00"));
    assert!(!deposit_admissible(b""));
}

#[test]
fn ack_frame_roundtrip_and_rejection() {
    let id = [7u8; 16];
    let mut frame = vec![0x02];
    frame.extend_from_slice(&id);
    assert_eq!(parse_ack_frame(&frame), Some(id));
    assert_eq!(parse_ack_frame(&frame[..16]), None);
    assert_eq!(parse_ack_frame(&[0x01; 17]), None);
    assert_eq!(parse_ack_frame(&[]), None);
    assert_eq!(ack_frame(&id), frame);
}

#[test]
fn mailbox_id_encoding_is_43_chars_and_shape_checked() {
    let id = encode_mailbox_id(&[0u8; 32]);
    assert_eq!(id.len(), 43);
    assert!(mailbox_id_shape_ok(&id));
    let id = encode_mailbox_id(&[0xFF; 32]);
    assert_eq!(id.len(), 43);
    assert!(mailbox_id_shape_ok(&id));
    assert!(!mailbox_id_shape_ok("short"));
    assert!(!mailbox_id_shape_ok(&"+".repeat(43)));
}

#[test]
fn mailbox_id_is_unpadded_base64url() {
    assert_eq!(encode_mailbox_id(&[0u8; 32]), "A".repeat(43));
    assert_eq!(encode_mailbox_id(&[0xFF; 32]), format!("{}8", "_".repeat(42)));
}

#[test]
fn delivery_frames_round_trip() {
    let f = delivery_frame(&[9; 16], b"TZCA\x01\x02\x00\x00x");
    assert_eq!(f[0], 0x01);
    let (id, env) = parse_delivery_frame(&f).unwrap();
    assert_eq!(id, [9; 16]);
    assert_eq!(env, b"TZCA\x01\x02\x00\x00x".to_vec());
    assert!(parse_delivery_frame(&f[..16]).is_err());
}

fn args(list: &[&str]) -> Vec<String> {
    list.iter().map(|s| s.to_string()).collect()
}

#[test]
fn config_flags_parse_and_tls_is_required() {
    let c = Config::parse(args(&["--plain-http", "--ttl-secs", "60", "--max-mailboxes", "2", "--rate-ws-per-min-mailbox", "4294967297"]), Vec::new()).unwrap();
    assert!(c.plain_http);
    assert_eq!(c.ttl, 60);
    assert_eq!(c.max_mailboxes, 2);
    assert_eq!(c.rate_ws_per_min_mailbox, 1, "values are cast to the field's width");
    assert_eq!(c.rate_create_per_min, 10);
    assert_eq!(c.listen, "127.0.0.1:8443");
    assert_eq!(
        Config::parse(args(&[]), Vec::new()).unwrap_err(),
        "TLS is required: pass --tls-cert and --tls-key, or --plain-http"
    );
    let tls = Config::parse(args(&["--tls-cert", "c.pem", "--tls-key", "k.pem"]), Vec::new()).unwrap();
    assert_eq!(tls.tls_cert.as_deref(), Some("c.pem"));
    assert_eq!(Config::parse(args(&["--bogus"]), Vec::new()).unwrap_err(), "unknown flag: --bogus");
    assert_eq!(Config::parse(args(&["--plain-http", "--ttl-secs"]), Vec::new()).unwrap_err(), "missing value for --ttl-secs");
    assert!(Config::parse(args(&["--plain-http", "--ttl-secs", "x"]), Vec::new()).unwrap_err().starts_with("--ttl-secs: "));
    assert_eq!(Config::parse(args(&["--plain-http", "--sweep-secs", "+5"]), Vec::new()).unwrap().sweep, 5);
}

fn plain(extra: &[&str]) -> Config {
    let mut a = vec!["--plain-http"];
    a.extend_from_slice(extra);
    Config::parse(args(&a), Vec::new()).unwrap()
}

const SRC: SourceAddr = SourceAddr::V4([127, 0, 0, 1]);
const ENV: &[u8] = b"TZCA\x01\x02\x00\x00\xAA";

#[test]
fn deposit_and_deliver_and_ack() {
    let mut r = AppState::new(plain(&[]));
    let id = match r.create_mailbox_at(&[1; 32], 0) {
        CreateOutcome::Created(id) => id,
        _ => panic!("created"),
    };
    assert!(matches!(r.create_mailbox_at(&[1; 32], 0), CreateOutcome::Taken));
    assert_eq!(r.deposit(&id, &SRC, ENV.to_vec(), [5; 16], 0, 10), Reply::Accepted);
    assert_eq!(r.deposit(&id, &SRC, ENV.to_vec(), [6; 16], 0, 11), Reply::Accepted);
    let frames = r.pending_frames(&id, &HashSet::new()).unwrap();
    assert_eq!(frames.len(), 2);
    assert_eq!(frames[0].0, [5; 16]);
    assert_eq!(frames[0].1, delivery_frame(&[5; 16], ENV), "blob must round-trip byte-verbatim");
    let mut sent = HashSet::new();
    sent.insert(tezca::relay::state::id_key(&[5; 16]));
    assert_eq!(r.pending_frames(&id, &sent).unwrap().len(), 1);
    assert!(r.handle_ack(&id, &ack_frame(&[5; 16]), 12));
    assert_eq!(r.pending_frames(&id, &HashSet::new()).unwrap().len(), 1);
    assert!(!r.handle_ack(&id, &[0x02; 3], 12));
    assert_eq!(r.global_bytes, ENV.len());
    assert_eq!(r.deposit("not-a-valid-mailbox-id", &SRC, ENV.to_vec(), [7; 16], 0, 13), Reply::NotFound);
    assert_eq!(r.deposit(&id, &SRC, b"NOPE not an envelope".to_vec(), [7; 16], 0, 13), Reply::BadRequest);
    assert_eq!(r.deposit(&"A".repeat(43), &SRC, ENV.to_vec(), [7; 16], 0, 13), Reply::NotFound);
}

#[test]
fn mailbox_capacity_and_rates() {
    let mut r = AppState::new(plain(&["--mailbox-max-messages", "1", "--rate-deposit-per-min-mailbox", "3"]));
    let id = match r.create_mailbox_at(&[2; 32], 0) {
        CreateOutcome::Created(id) => id,
        _ => panic!("created"),
    };
    assert_eq!(r.deposit(&id, &SRC, ENV.to_vec(), [1; 16], 0, 0), Reply::Accepted);
    assert_eq!(r.deposit(&id, &SRC, ENV.to_vec(), [2; 16], 0, 0), Reply::InsufficientStorage);
    assert_eq!(r.deposit(&id, &SRC, ENV.to_vec(), [3; 16], 0, 0), Reply::InsufficientStorage);
    assert_eq!(r.deposit(&id, &SRC, ENV.to_vec(), [4; 16], 0, 0), Reply::TooManyRequests);
    // A new minute starts the counters afresh.
    assert_eq!(r.deposit(&id, &SRC, ENV.to_vec(), [4; 16], 60, 0), Reply::InsufficientStorage);
}

#[test]
fn put_is_idempotent_and_uniform_at_cap() {
    let mut r = AppState::new(plain(&["--max-mailboxes", "1"]));
    let id = "B".repeat(43);
    assert_eq!(r.put_request(&id, &SRC, 0, 0), Reply::Created);
    assert_eq!(r.put_request(&id, &SRC, 0, 0), Reply::ServiceUnavailable, "at cap, even for an existing id");
    assert_eq!(r.put_request(&"C".repeat(43), &SRC, 0, 0), Reply::ServiceUnavailable);
    assert_eq!(r.put_request("bad id", &SRC, 0, 0), Reply::BadRequest);
    assert!(matches!(r.create_mailbox_at(&[3; 32], 0), CreateOutcome::Full));
    let mut r2 = AppState::new(plain(&[]));
    assert_eq!(r2.put_request(&id, &SRC, 0, 0), Reply::Created);
    assert_eq!(r2.put_request(&id, &SRC, 0, 0), Reply::Created, "idempotent");
    assert_eq!(r2.subscribe_request(&id, 0, 0), None);
    assert_eq!(r2.subscribe_request(&"D".repeat(43), 0, 0), Some(Reply::NotFound));
}

#[test]
fn put_rate_limit_is_per_source_and_independent() {
    let mut r = AppState::new(plain(&["--rate-put-per-min-source", "1", "--rate-create-per-min", "0"]));
    assert!(!r.src_limiter.admit_create(&SRC, 0, 0));
    assert_eq!(r.put_request(&"E".repeat(43), &SRC, 0, 0), Reply::Created);
    assert_eq!(r.put_request(&"F".repeat(43), &SRC, 0, 0), Reply::TooManyRequests);
    let other = SourceAddr::V4([10, 0, 0, 2]);
    assert_eq!(r.put_request(&"F".repeat(43), &other, 0, 0), Reply::Created);
}

#[test]
fn delete_is_unconditional_and_sweep_expires() {
    let mut r = AppState::new(plain(&["--ttl-secs", "1"]));
    let id = match r.create_mailbox_at(&[4; 32], 0) {
        CreateOutcome::Created(id) => id,
        _ => panic!("created"),
    };
    assert_eq!(r.deposit(&id, &SRC, ENV.to_vec(), [1; 16], 0, 0), Reply::Accepted);
    r.sweep(1000);
    assert_eq!(r.pending_frames(&id, &HashSet::new()).unwrap().len(), 1, "not yet older than the ttl");
    r.sweep(1001);
    assert!(r.pending_frames(&id, &HashSet::new()).is_none(), "idle mailbox dropped");
    assert_eq!(r.delete(&id), Reply::NoContent);
    assert_eq!(r.delete("anything"), Reply::NoContent);
    let id2 = match r.create_mailbox_at(&[5; 32], 2000) {
        CreateOutcome::Created(id) => id,
        _ => panic!("created"),
    };
    assert!(r.begin_delivery(&id2, 2500));
    assert_eq!(r.delete(&id2), Reply::NoContent);
    assert!(!r.begin_delivery(&id2, 2600));
}

#[test]
fn limiters_count_per_window_and_prune_idle() {
    let cfg = plain(&["--rate-deposit-per-min-mailbox", "2", "--rate-ws-per-min-mailbox", "1"]);
    let mut b = BoxLimiter::new(&cfg);
    assert!(b.admit_deposit("m", 0, 0));
    assert!(b.admit_deposit("m", 0, 0));
    assert!(!b.admit_deposit("m", 59, 0));
    assert!(b.admit_ws("m", 59, 0), "classes count separately");
    assert!(!b.admit_ws("m", 59, 0));
    assert!(b.admit_deposit("m", 60, 0), "new minute");
    assert!(b.admit_deposit("n", 60, 0));
    b.forget("m");
    assert!(b.admit_deposit("m", 60, 0));
    b.prune(600_000);
    assert!(b.admit_deposit("n", 60, 600_000));
    let mut s = SourceLimiter::new(&plain(&["--rate-deposit-per-min-source", "1"]));
    let v6a = SourceAddr::V6([0x20, 1, 0xd, 0xb8, 0, 0, 0, 1, 1, 1, 1, 1, 1, 1, 1, 1]);
    let v6b = SourceAddr::V6([0x20, 1, 0xd, 0xb8, 0, 0, 0, 1, 2, 2, 2, 2, 2, 2, 2, 2]);
    assert!(s.admit_deposit(&v6a, 0, 0));
    assert!(!s.admit_deposit(&v6b, 0, 0), "same /64 shares a counter");
    s.prune(0);
    assert!(!s.admit_deposit(&v6a, 0, 0));
    assert_eq!(retry_after_secs(120), 60);
    assert_eq!(retry_after_secs(121), 59);
    assert_eq!(retry_after_secs(179), 1);
}

#[test]
fn source_cap_sheds_new_sources_when_all_are_active() {
    let mut s = SourceLimiter::new(&plain(&[]));
    s.max_entries = 1;
    assert!(s.admit_create(&SourceAddr::V4([1, 1, 1, 1]), 0, 0));
    assert!(!s.admit_create(&SourceAddr::V4([2, 2, 2, 2]), 0, 1));
    // Once the first source is idle it is dropped to make room.
    assert!(s.admit_create(&SourceAddr::V4([2, 2, 2, 2]), 0, 600_001));
}

#[test]
fn created_mailboxes_get_fresh_random_ids() {
    let mut r = AppState::new(plain(&["--max-mailboxes", "2"]));
    let a = r.create_mailbox(0).expect("room for one");
    let b = r.create_mailbox(0).expect("room for two");
    assert_ne!(a, b);
    assert!(mailbox_id_shape_ok(&a) && mailbox_id_shape_ok(&b));
    assert_eq!(r.create_mailbox(0), None, "full");
    assert_eq!(r.deposit_request(&a, &SRC, ENV.to_vec(), 0, 1), Reply::Accepted);
    let frames = r.pending_frames(&a, &HashSet::new()).unwrap();
    assert_eq!(frames.len(), 1);
    assert_eq!(parse_delivery_frame(&frames[0].1).unwrap().1, ENV.to_vec());
    assert_eq!(r.deposit_request(&"Z".repeat(43), &SRC, ENV.to_vec(), 0, 1), Reply::NotFound);
}

#[test]
fn sweep_accounts_the_expired_bytes() {
    let mut r = AppState::new(plain(&["--ttl-secs", "10"]));
    let a = match r.create_mailbox_at(&[6; 32], 0) {
        CreateOutcome::Created(id) => id,
        _ => panic!("created"),
    };
    let b = match r.create_mailbox_at(&[7; 32], 0) {
        CreateOutcome::Created(id) => id,
        _ => panic!("created"),
    };
    assert_eq!(r.deposit(&a, &SRC, ENV.to_vec(), [1; 16], 0, 0), Reply::Accepted);
    assert_eq!(r.deposit(&b, &SRC, ENV.to_vec(), [2; 16], 0, 0), Reply::Accepted);
    let long = b"TZCA\x01\x02\x00\x00 a longer blob".to_vec();
    assert_eq!(r.deposit(&b, &SRC, long.clone(), [3; 16], 0, 6000), Reply::Accepted);
    assert_eq!(r.global_bytes, 2 * ENV.len() + long.len());
    r.sweep(10_001);
    assert!(r.pending_frames(&a, &HashSet::new()).is_none(), "idle mailbox dropped");
    let left = r.pending_frames(&b, &HashSet::new()).unwrap();
    assert_eq!(left.len(), 1, "only the fresh blob stays");
    assert_eq!(left[0].0, [3; 16]);
    assert_eq!(r.global_bytes, long.len(), "both expired blobs are subtracted");
}

#[test]
fn mailbox_deposits_count_apart_from_subscriptions() {
    let cfg = plain(&["--rate-deposit-per-min-mailbox", "3", "--rate-ws-per-min-mailbox", "1"]);
    let mut b = BoxLimiter::new(&cfg);
    assert!(b.admit_deposit("m", 120, 0));
    assert!(b.admit_ws("m", 121, 0));
    assert!(b.admit_deposit("m", 122, 0));
    assert!(!b.admit_ws("m", 123, 0));
    assert!(b.admit_deposit("m", 124, 0));
    assert!(!b.admit_deposit("m", 125, 0), "the fourth deposit in the minute is refused");
    assert!(b.admit_deposit("m", 180, 0), "a new minute counts from zero");
}

#[test]
fn different_bytes_give_different_mailbox_ids() {
    let mut a = [0u8; 32];
    let b = a;
    a[31] = 1;
    assert_ne!(encode_mailbox_id(&a), encode_mailbox_id(&b));
    a[31] = 0;
    a[0] = 0x80;
    assert_ne!(encode_mailbox_id(&a), encode_mailbox_id(&b));
}

#[test]
fn a_listen_value_that_is_no_socket_address_is_refused_at_that_flag() {
    let a = args(&["--listen", "nowhere", "--bogus"]);
    let mut errs = vec![None; a.len()];
    errs[1] = Some("invalid socket address syntax".to_owned());
    assert_eq!(Config::parse(a.clone(), errs).unwrap_err(), "--listen: invalid socket address syntax");
    assert_eq!(Config::parse(a, Vec::new()).unwrap_err(), "unknown flag: --bogus");
    let ok = args(&["--plain-http", "--listen", "0.0.0.0:9000"]);
    assert_eq!(Config::parse(ok, vec![None, None, None]).unwrap().listen, "0.0.0.0:9000");
}
