//! Relay acceptance: rate limiting, capacity, TTL, create-at-id and the
//! no-oracle properties, driven against the relay state the way the HTTP
//! handlers drive it (one source, explicit clock).

use std::collections::HashSet;

use tezca::envelope::{Envelope, EnvelopeKind};
use tezca::relay::config::Config;
use tezca::relay::limits::{retry_after_secs, SourceAddr};
use tezca::relay::state::{id_key, AppState, Reply};
use tezca::relay::wire::parse_delivery_frame;

const SRC: SourceAddr = SourceAddr::V4([127, 0, 0, 1]);

const ID_A: &str = "AAAAAAAAAAAAAAAAAAAAAAAAAAAAAAAAAAAAAAAAAAA";
const ID_B: &str = "BBBBBBBBBBBBBBBBBBBBBBBBBBBBBBBBBBBBBBBBBBB";
const ID_C: &str = "CCCCCCCCCCCCCCCCCCCCCCCCCCCCCCCCCCCCCCCCCCC";

/// A relay with an explicit clock: `now` wall-clock seconds, `tick`
/// monotonic milliseconds.
struct Relay {
    state: AppState,
    now: u64,
    tick: u64,
}

/// An HTTP answer: status and whether it carries Retry-After.
struct Answer {
    status: u16,
    retry_after: Option<u64>,
    body: Vec<u8>,
}

fn spawn_relay(extra: &[&str]) -> Relay {
    let mut args = vec!["--plain-http".to_owned()];
    args.extend(extra.iter().map(|s| s.to_string()));
    Relay { state: AppState::new(Config::parse(args, Vec::new()).unwrap()), now: 120, tick: 0 }
}

fn opaque_envelope(size: usize) -> Vec<u8> {
    Envelope { kind: EnvelopeKind::Ratchet, ciphertext: vec![0xAA; size] }.encode()
}

impl Relay {
    fn answer(&self, reply: Reply) -> Answer {
        let retry_after = if reply == Reply::TooManyRequests { Some(retry_after_secs(self.now)) } else { None };
        Answer { status: reply.status(), retry_after, body: Vec::new() }
    }

    fn create_mailbox(&mut self) -> (Answer, Option<String>) {
        if !self.state.src_limiter.admit_create(&SRC, self.now, self.tick) {
            return (self.answer(Reply::TooManyRequests), None);
        }
        match self.state.create_mailbox(self.tick) {
            Some(id) => {
                let body = format!("{{\"mailbox_id\":\"{id}\"}}").into_bytes();
                (Answer { status: 201, retry_after: None, body }, Some(id))
            }
            None => (self.answer(Reply::ServiceUnavailable), None),
        }
    }

    fn create_mailbox_id(&mut self) -> String {
        let (a, id) = self.create_mailbox();
        assert_eq!(a.status, 201);
        id.unwrap()
    }

    fn deposit(&mut self, id: &str, blob: &[u8]) -> Answer {
        let r = self.state.deposit_request(id, &SRC, blob.to_vec(), self.now, self.tick);
        self.answer(r)
    }

    fn put(&mut self, id: &str) -> Answer {
        let r = self.state.put_request(id, &SRC, self.now, self.tick);
        self.answer(r)
    }

    fn delete_mailbox(&mut self, id: &str) -> Answer {
        let r = self.state.delete(id);
        self.answer(r)
    }

    /// Subscribes and reads everything queued: `Err` with the refusal, or
    /// the delivered `(message_id, envelope)` pairs.
    fn ws_subscribe(&mut self, id: &str) -> Result<Vec<([u8; 16], Vec<u8>)>, u16> {
        if let Some(refused) = self.state.subscribe_request(id, self.now, self.tick) {
            return Err(refused.status());
        }
        assert!(self.state.begin_delivery(id, self.tick));
        let frames = self.state.pending_frames(id, &HashSet::new()).unwrap();
        Ok(frames.into_iter().map(|(_, f)| parse_delivery_frame(&f).unwrap()).collect())
    }

    fn ws_ack(&mut self, id: &str, msg_id: &[u8; 16]) {
        let mut frame = vec![0x02];
        frame.extend_from_slice(msg_id);
        assert!(self.state.handle_ack(id, &frame, self.tick));
    }
}

#[test]
fn deposit_negatives() {
    let mut relay = spawn_relay(&["--max-blob-bytes", "16384"]);
    let inbox = relay.create_mailbox_id();

    assert_eq!(relay.deposit(&inbox, b"NOPE not an envelope").status, 400);
    let mut wrong_version = opaque_envelope(64);
    wrong_version[4] = 0x02;
    assert_eq!(relay.deposit(&inbox, &wrong_version).status, 400);
    assert_eq!(relay.deposit(&inbox, &[]).status, 400);
    assert_eq!(relay.deposit(&inbox, b"TZCA\x01\x02\x00\x00").status, 400);
    assert_eq!(relay.deposit(&inbox, &opaque_envelope(17000)).status, 413);
    assert_eq!(relay.deposit(ID_A, &opaque_envelope(64)).status, 404);
    assert_eq!(relay.deposit(&inbox, &opaque_envelope(600)).status, 202);
}

#[test]
fn relay_stores_blobs_verbatim_and_blindly() {
    let mut relay = spawn_relay(&[]);
    let inbox = relay.create_mailbox_id();

    let mut odd_kind = opaque_envelope(600);
    odd_kind[5] = 0x7F;
    assert_eq!(relay.deposit(&inbox, &odd_kind).status, 202);

    let delivered = relay.ws_subscribe(&inbox).expect("subscribe");
    let (id, blob) = &delivered[0];
    assert_eq!(blob, &odd_kind, "blob must round-trip byte-verbatim");
    relay.ws_ack(&inbox, id);
}

#[test]
fn mailbox_message_capacity() {
    let mut relay = spawn_relay(&["--mailbox-max-messages", "5"]);
    let inbox = relay.create_mailbox_id();
    let blob = opaque_envelope(64);
    for i in 0..5 {
        assert_eq!(relay.deposit(&inbox, &blob).status, 202, "deposit {i}");
    }
    assert_eq!(relay.deposit(&inbox, &blob).status, 507, "mailbox over message cap must yield 507");
}

#[test]
fn mailbox_byte_capacity() {
    let mut relay = spawn_relay(&["--mailbox-max-bytes", "8192"]);
    let inbox = relay.create_mailbox_id();
    let blob = opaque_envelope(2500);
    assert_eq!(relay.deposit(&inbox, &blob).status, 202);
    assert_eq!(relay.deposit(&inbox, &blob).status, 202);
    assert_eq!(relay.deposit(&inbox, &blob).status, 202);
    assert_eq!(relay.deposit(&inbox, &blob).status, 507);
}

#[test]
fn create_rate_limit_per_source() {
    let mut relay = spawn_relay(&["--rate-create-per-min", "3"]);
    for _ in 0..3 {
        assert_eq!(relay.create_mailbox().0.status, 201);
    }
    let limited = relay.create_mailbox().0;
    assert_eq!(limited.status, 429);
    assert!(limited.retry_after.is_some(), "429 must carry Retry-After");
}

#[test]
fn deposit_rate_limit_per_mailbox() {
    let mut relay = spawn_relay(&["--rate-deposit-per-min-mailbox", "5", "--rate-deposit-per-min-source", "1000000"]);
    let inbox = relay.create_mailbox_id();
    let blob = opaque_envelope(64);
    for _ in 0..5 {
        assert_eq!(relay.deposit(&inbox, &blob).status, 202);
    }
    assert_eq!(relay.deposit(&inbox, &blob).status, 429);
}

#[test]
fn ttl_expires_messages_and_mailboxes() {
    let mut relay = spawn_relay(&["--ttl-secs", "1", "--sweep-secs", "1"]);
    let inbox = relay.create_mailbox_id();
    assert_eq!(relay.deposit(&inbox, &opaque_envelope(64)).status, 202);
    // Three seconds later, past ttl + sweep.
    relay.now += 3;
    relay.tick += 3000;
    relay.state.sweep(relay.tick);
    assert_eq!(relay.deposit(&inbox, &opaque_envelope(64)).status, 404);
    assert!(relay.ws_subscribe(&inbox).is_err(), "subscribe to an expired mailbox must be refused");
}

#[test]
fn put_creates_idempotently_with_byte_identical_response() {
    let mut relay = spawn_relay(&[]);
    let first = relay.put(ID_A);
    let second = relay.put(ID_A);
    assert_eq!(first.status, 201, "PUT create returns 201");
    assert_eq!(second.status, 201, "idempotent PUT returns 201");
    assert_eq!((first.status, &first.body), (second.status, &second.body));
    assert!(first.body.is_empty(), "no body (no oracle)");

    let blob = opaque_envelope(600);
    assert_eq!(relay.deposit(ID_A, &blob).status, 202);
    let delivered = relay.ws_subscribe(ID_A).expect("subscribe to PUT-created mailbox");
    assert_eq!(delivered[0].1, blob);

    assert_eq!(relay.put("not-a-valid-mailbox-id").status, 400);
}

#[test]
fn put_at_cap_is_uniform_capacity_error_regardless_of_existence() {
    let mut relay = spawn_relay(&["--max-mailboxes", "2"]);
    assert_eq!(relay.put(ID_A).status, 201);
    assert_eq!(relay.put(ID_B).status, 201);
    let new_at_cap = relay.put(ID_C);
    let existing_at_cap = relay.put(ID_A);
    assert_eq!(new_at_cap.status, 503, "new id at cap → capacity error");
    assert_eq!(existing_at_cap.status, 503, "existing id at cap → same capacity error (uniform, no oracle)");
    assert_eq!((new_at_cap.status, &new_at_cap.body), (existing_at_cap.status, &existing_at_cap.body));
}

#[test]
fn put_rate_limited_returns_429_when_source_limit_exhausted() {
    let mut relay = spawn_relay(&["--rate-put-per-min-source", "2"]);
    assert_eq!(relay.put(ID_A).status, 201);
    assert_eq!(relay.put(ID_B).status, 201);
    assert_eq!(relay.put(ID_C).status, 429);
}

#[test]
fn put_source_counter_is_independent_of_create_and_deposit() {
    let mut relay = spawn_relay(&[
        "--rate-put-per-min-source",
        "5",
        "--rate-create-per-min",
        "1",
        "--rate-deposit-per-min-source",
        "1",
    ]);
    assert_eq!(relay.create_mailbox().0.status, 201);
    assert_eq!(relay.create_mailbox().0.status, 429);
    assert_eq!(relay.put(ID_A).status, 201, "PUT unaffected by create exhaustion");
    assert_eq!(relay.deposit(ID_A, &opaque_envelope(600)).status, 202);
    assert_eq!(relay.deposit(ID_A, &opaque_envelope(600)).status, 429);
    assert_eq!(relay.put(ID_B).status, 201, "PUT unaffected by deposit exhaustion");

    let mut relay2 = spawn_relay(&[
        "--rate-put-per-min-source",
        "1",
        "--rate-create-per-min",
        "5",
        "--rate-deposit-per-min-source",
        "5",
    ]);
    assert_eq!(relay2.put(ID_A).status, 201);
    assert_eq!(relay2.put(ID_B).status, 429);
    assert_eq!(relay2.create_mailbox().0.status, 201, "create unaffected by PUT exhaustion");
    assert_eq!(relay2.deposit(ID_A, &opaque_envelope(600)).status, 202, "deposit unaffected by PUT exhaustion");
}

#[test]
fn unknown_and_expired_mailboxes_are_indistinguishable() {
    let mut relay = spawn_relay(&["--ttl-secs", "1", "--sweep-secs", "1"]);
    let blob = opaque_envelope(64);
    let unknown = relay.deposit(ID_A, &blob);
    let inbox = relay.create_mailbox_id();
    relay.now += 3;
    relay.tick += 3000;
    relay.state.sweep(relay.tick);
    let expired = relay.deposit(&inbox, &blob);
    assert_eq!(unknown.status, 404);
    assert_eq!(expired.status, unknown.status);
    assert_eq!(expired.body, unknown.body, "unknown vs expired mailbox responses must be byte-identical");
    assert_eq!(expired.retry_after, unknown.retry_after);
}

#[test]
fn delete_reveals_nothing_about_mailbox_existence() {
    let mut relay = spawn_relay(&[]);
    let inbox = relay.create_mailbox_id();
    let existing = relay.delete_mailbox(&inbox);
    let never_existed = relay.delete_mailbox(ID_A);
    let already_deleted = relay.delete_mailbox(&inbox);
    assert_eq!(existing.status, 204, "DELETE returns 204 unconditionally");
    assert_eq!(never_existed.status, existing.status);
    assert_eq!(already_deleted.status, existing.status);
    assert_eq!(never_existed.body, existing.body);
    assert_eq!(already_deleted.body, existing.body);
    assert_eq!(relay.deposit(&inbox, &opaque_envelope(64)).status, 404);
}

#[test]
fn relay_treatment_is_byte_identical_for_differing_inner_payload_types() {
    const MAILBOX_DEPOSIT_BUDGET: usize = 5;
    let mut relay = spawn_relay(&[
        "--rate-create-per-min",
        "100000",
        "--rate-deposit-per-min-source",
        "1000000",
        "--rate-deposit-per-min-mailbox",
        "5",
        "--rate-ws-per-min-mailbox",
        "100000",
    ]);
    let setup_blob = Envelope { kind: EnvelopeKind::SessionSetup, ciphertext: vec![0x11; 600] }.encode();
    let ratchet_blob = Envelope { kind: EnvelopeKind::Ratchet, ciphertext: vec![0x77; 600] }.encode();
    assert_eq!(setup_blob.len(), ratchet_blob.len(), "equal length");
    assert_eq!(setup_blob[..5], ratchet_blob[..5], "identical outer magic+version");
    assert_ne!(setup_blob[5], ratchet_blob[5], "differing kind byte");

    let box_setup = relay.create_mailbox_id();
    let box_ratchet = relay.create_mailbox_id();
    let responses_setup: Vec<Answer> =
        (0..=MAILBOX_DEPOSIT_BUDGET).map(|_| relay.deposit(&box_setup, &setup_blob)).collect();
    let responses_ratchet: Vec<Answer> =
        (0..=MAILBOX_DEPOSIT_BUDGET).map(|_| relay.deposit(&box_ratchet, &ratchet_blob)).collect();

    let statuses_setup: Vec<u16> = responses_setup.iter().map(|r| r.status).collect();
    let statuses_ratchet: Vec<u16> = responses_ratchet.iter().map(|r| r.status).collect();
    let mut expected = vec![202u16; MAILBOX_DEPOSIT_BUDGET];
    expected.push(429);
    assert_eq!(statuses_setup, expected, "setup-kind accounting sequence");
    assert_eq!(statuses_setup, statuses_ratchet, "rate-limit accounting must be interior-independent");
    for (i, (rs, rr)) in responses_setup.iter().zip(&responses_ratchet).enumerate() {
        assert_eq!((rs.status, &rs.body), (rr.status, &rr.body), "response must be interior-independent (deposit #{i})");
    }
    let (ra_setup, ra_ratchet) =
        (responses_setup.last().unwrap().retry_after.unwrap(), responses_ratchet.last().unwrap().retry_after.unwrap());
    assert!(ra_setup.abs_diff(ra_ratchet) <= 1);

    let mut ids_seen = Vec::new();
    for (mailbox, blob) in [(&box_setup, &setup_blob), (&box_ratchet, &ratchet_blob)] {
        let delivered = relay.ws_subscribe(mailbox).expect("subscribe");
        assert_eq!(delivered.len(), MAILBOX_DEPOSIT_BUDGET);
        for (n, (id, envelope)) in delivered.iter().enumerate() {
            assert_eq!(envelope, blob, "delivery must be byte-transparent (frame #{n} of {mailbox})");
            relay.ws_ack(mailbox, id);
            ids_seen.push(id_key(id));
        }
    }
    let deduped: HashSet<_> = ids_seen.iter().collect();
    assert_eq!(deduped.len(), ids_seen.len(), "message ids are unique — the only varying framing bytes");
}
