# tezca

The protocol core of an end-to-end encrypted messenger and its blind relay,
written in Verus: executable Rust whose behaviour is stated in `requires` /
`ensures` contracts and proved.

## Layout

- `src/` — the verified library.
  - `envelope/` — the outer wire envelope and the padded inner frame.
  - `pairing/` — the pre-key bundle, the v3 pairing offer and its validity
    window, `pair-ack/2`, the mailbox-update handoffs, and proof-of-scan.
  - `recovery.rs` — derived-mailbox recovery generations and exhaustion.
  - `relay/` — the relay: blind admission, frames, mailbox ids, rate
    windows, configuration, and the mailbox state machine that answers
    every request.
  - `relay_client/` — the client side of the relay protocol: HTTP framing,
    subscription endpoints, the reconnect schedule, and the sync engine's
    decisions (receive loop, recovery routing, hello convergence, queue
    flushing, pairing listener).
  - `error.rs`, `ffi.rs` — the error type, its messages, and the flattened
    host-facing error and mirrors.
  - `identity.rs`, `storage.rs`, `session.rs` — the exported bundle, stored
    columns, schema migrations, trust on first use, envelope kinds.
- `tests/` — the tests, run against the compiled library.
- `app/` — the relay binary: flags, process hardening, and the
  HTTP/WebSocket plumbing around the verified relay state.

Outside crates are called only behind small trusted wrappers whose
contracts say what the crate's documentation promises: `ring` (HMAC-SHA256),
`subtle` (constant-time comparison), `rand` (the operating system's random
source), and std's UTF-8 decoding, integer parsing and keyed hashing.
