//! The inbox handoffs carried in sealed inner frames: `mailbox-update/1`,
//! `/2` (with a recovery-root contribution) and `/3` (rotation), and the
//! responder's `pair-ack/2`.
//!
//! ```text
//! mailbox-update: version | var(relay utf8) | inbox id (43 bytes utf8) | [contribution (32)]
//! pair-ack/2:     0x02 | var(bundle) | var(relay utf8) | inbox id (43) | contribution (32) | proof-of-scan (32)
//! ```

use vstd::prelude::*;
use vstd::seq_lib::lemma_concat_associative;
use vstd::string::StringSliceAdditionalSpecFns;
use vstd::utf8::{decode_utf8_encode_utf8, encode_utf8};

use crate::codec::array32;
use crate::error::{CoreError, Result};
use crate::pairing::cursor::{
    lemma_field_front, lemma_field_split, lemma_take_front, lemma_take_split,
    lemma_text_field_front, lemma_text_field_split, lemma_text_fixed_front, lemma_text_fixed_split,
    lemma_u8_front, lemma_u8_split, lemma_var_then, put_bytes, rd_field, rd_take, rd_text_field,
    rd_text_fixed, rd_u8, utf8, var, var_then, Cursor,
};
use crate::pairing::scan::{compute_proof_of_scan, spec_proof_of_scan};

verus! {

/// `mailbox-update/1` version byte.
pub const CONTROL_VERSION: u8 = 1;

/// Length of a mailbox id on the wire.
pub const MAILBOX_ID_LEN: usize = 43;

/// Length of a recovery-root contribution and of a proof-of-scan MAC.
pub const RECOVERY_CONTRIB_LEN: usize = 32;

/// `pair-ack` version of the pairing response.
pub const PAIR_ACK_V2: u8 = 2;

/// `mailbox-update` version of the pairing inbox handoff.
pub const MAILBOX_UPDATE_V2: u8 = 2;

/// `mailbox-update` version of the recovery rotation handoff.
pub const MAILBOX_UPDATE_V3: u8 = 3;

/// A mailbox-update payload: version, relay, inbox id, then `tail`.
pub open spec fn spec_handoff_bytes(
    version: u8,
    relay: Seq<char>,
    inbox: Seq<char>,
    tail: Seq<u8>,
) -> Seq<u8> {
    seq![version] + var_then(encode_utf8(relay), encode_utf8(inbox) + tail)
}

/// What parsing a mailbox-update payload of `version`, whose tail is `n`
/// bytes, gives: relay, inbox id, tail.
pub open spec fn spec_parse_handoff(
    b: Seq<u8>,
    version: u8,
    n: int,
    trailing: &'static str,
) -> core::result::Result<(Seq<char>, Seq<char>, Seq<u8>), CoreError> {
    match rd_u8(b, 0) {
        Err(e) => Err(e),
        Ok((v, r, p)) => if v != version {
            Err(CoreError::Malformed("unknown mailbox-update version"))
        } else {
            match rd_text_field(r, p) {
                Err(e) => Err(e),
                Ok((relay, r, p)) => match rd_text_fixed(r, p, MAILBOX_ID_LEN as int) {
                    Err(e) => Err(e),
                    Ok((inbox, r, p)) => match rd_take(r, p, n) {
                        Err(e) => Err(e),
                        Ok((tail, r, p)) => if r.len() != 0 {
                            Err(CoreError::Malformed(trailing))
                        } else {
                            Ok((relay, inbox, tail))
                        },
                    },
                },
            }
        },
    }
}

fn encode_handoff(version: u8, relay_url: &str, inbox_id: &str, tail: &[u8]) -> (out: Vec<u8>)
    requires
        relay_url.spec_bytes().len() <= u16::MAX,
    ensures
        out@ == spec_handoff_bytes(version, relay_url@, inbox_id@, tail@),
{
    let mut out: Vec<u8> = Vec::new();
    out.push(version);
    put_bytes(&mut out, relay_url.as_bytes());
    crate::codec::push_all(&mut out, inbox_id.as_bytes());
    crate::codec::push_all(&mut out, tail);
    proof {
        let a = seq![version];
        let f = encode_utf8(relay_url@);
        let i = encode_utf8(inbox_id@);
        lemma_var_then(f, i + tail@);
        lemma_concat_associative(a, var(f), i + tail@);
        lemma_concat_associative(a + var(f), i, tail@);
    }
    out
}

fn parse_handoff(bytes: &[u8], version: u8, n: usize, trailing: &'static str) -> (r: Result<
    (String, String, Vec<u8>),
>)
    ensures
        match spec_parse_handoff(bytes@, version, n as int, trailing) {
            Ok((relay, inbox, tail)) => r matches Ok((s, t, u)) && s@ == relay && t@ == inbox && u@
                == tail,
            Err(e) => r matches Err(e2) && e2 == e,
        },
{
    let mut c = Cursor::new(bytes);
    let v = match c.u8() {
        Ok(v) => v,
        Err(e) => return Err(e),
    };
    if v != version {
        return Err(CoreError::Malformed("unknown mailbox-update version"));
    }
    let relay = match c.bytes_field() {
        Ok(s) => match utf8(s) {
            Ok(t) => t,
            Err(e) => return Err(e),
        },
        Err(e) => return Err(e),
    };
    let inbox = match c.take(MAILBOX_ID_LEN) {
        Ok(s) => match utf8(s) {
            Ok(t) => t,
            Err(e) => return Err(e),
        },
        Err(e) => return Err(e),
    };
    let tail = match c.take(n) {
        Ok(s) => vstd::slice::slice_to_vec(s),
        Err(e) => return Err(e),
    };
    if !c.at_end() {
        return Err(CoreError::Malformed(trailing));
    }
    Ok((relay, inbox, tail))
}

/// Parsing an encoded mailbox-update gives back its fields when the inbox
/// id is 43 bytes and the tail has the expected length.
pub proof fn law_handoff_roundtrip(
    version: u8,
    relay: Seq<char>,
    inbox: Seq<char>,
    tail: Seq<u8>,
    trailing: &'static str,
)
    requires
        encode_utf8(relay).len() <= u16::MAX,
        encode_utf8(inbox).len() == MAILBOX_ID_LEN,
        spec_handoff_bytes(version, relay, inbox, tail).len() <= usize::MAX,
    ensures
        spec_parse_handoff(
            spec_handoff_bytes(version, relay, inbox, tail),
            version,
            tail.len() as int,
            trailing,
        ) == Ok::<_, CoreError>((relay, inbox, tail)),
{
    let f = encode_utf8(relay);
    let i = encode_utf8(inbox);
    lemma_u8_front(version, var_then(f, i + tail), 0);
    lemma_text_field_front(relay, i + tail, 1);
    let p: int = 3int + f.len();
    lemma_text_fixed_front(inbox, tail, p);
    assert(tail + Seq::<u8>::empty() =~= tail);
    lemma_take_front(tail, Seq::<u8>::empty(), p + MAILBOX_ID_LEN);
}

/// A mailbox-update that parses is exactly the encoding of its fields.
pub proof fn law_handoff_canonical(b: Seq<u8>, version: u8, n: int, trailing: &'static str)
    requires
        0 <= n,
        spec_parse_handoff(b, version, n, trailing) is Ok,
    ensures
        ({
            let (relay, inbox, tail) = spec_parse_handoff(b, version, n, trailing)->Ok_0;
            &&& encode_utf8(relay).len() <= u16::MAX
            &&& encode_utf8(inbox).len() == MAILBOX_ID_LEN
            &&& tail.len() == n
            &&& spec_handoff_bytes(version, relay, inbox, tail) == b
        }),
{
    lemma_u8_split(b, 0);
    let (v, r1, p1) = rd_u8(b, 0)->Ok_0;
    lemma_text_field_split(r1, p1);
    let (relay, r2, p2) = rd_text_field(r1, p1)->Ok_0;
    lemma_text_fixed_split(r2, p2, MAILBOX_ID_LEN as int);
    let (inbox, r3, p3) = rd_text_fixed(r2, p2, MAILBOX_ID_LEN as int)->Ok_0;
    lemma_take_split(r3, p3, n);
    let (tail, r4, p4) = rd_take(r3, p3, n)->Ok_0;
    assert(r3 =~= tail);
}

/// The fields of a mailbox-update payload.
pub open spec fn handoff_view(r: (String, String)) -> (Seq<char>, Seq<char>) {
    (r.0@, r.1@)
}

/// Encodes a `mailbox-update/1` payload (relay and new inbox).
pub fn encode_mailbox_update(relay_url: &str, inbox_id: &str) -> (out: Vec<u8>)
    requires
        relay_url.spec_bytes().len() <= u16::MAX,
    ensures
        out@ == spec_handoff_bytes(CONTROL_VERSION, relay_url@, inbox_id@, Seq::empty()),
{
    let empty: [u8; 0] = [];
    assert(empty@ =~= Seq::<u8>::empty());
    encode_handoff(CONTROL_VERSION, relay_url, inbox_id, &empty)
}

/// Parses a `mailbox-update/1` payload: (relay url, inbox id).
pub fn parse_mailbox_update(bytes: &[u8]) -> (r: Result<(String, String)>)
    ensures
        match spec_parse_handoff(bytes@, CONTROL_VERSION, 0, "trailing bytes in mailbox-update/1") {
            Ok((relay, inbox, _)) => r matches Ok(p) && handoff_view(p) == (relay, inbox),
            Err(e) => r matches Err(e2) && e2 == e,
        },
{
    match parse_handoff(bytes, CONTROL_VERSION, 0, "trailing bytes in mailbox-update/1") {
        Ok((relay, inbox, _)) => Ok((relay, inbox)),
        Err(e) => Err(e),
    }
}

/// Encodes a `mailbox-update/3` rotation handoff (relay and fresh inbox; no
/// contribution).
pub fn encode_mailbox_update_v3(relay_url: &str, inbox_id: &str) -> (out: Vec<u8>)
    requires
        relay_url.spec_bytes().len() <= u16::MAX,
    ensures
        out@ == spec_handoff_bytes(MAILBOX_UPDATE_V3, relay_url@, inbox_id@, Seq::empty()),
{
    let empty: [u8; 0] = [];
    assert(empty@ =~= Seq::<u8>::empty());
    encode_handoff(MAILBOX_UPDATE_V3, relay_url, inbox_id, &empty)
}

/// Parses a `mailbox-update/3` payload: (relay url, inbox id).
pub fn parse_mailbox_update_v3(bytes: &[u8]) -> (r: Result<(String, String)>)
    ensures
        match spec_parse_handoff(bytes@, MAILBOX_UPDATE_V3, 0, "trailing bytes in mailbox-update/3") {
            Ok((relay, inbox, _)) => r matches Ok(p) && handoff_view(p) == (relay, inbox),
            Err(e) => r matches Err(e2) && e2 == e,
        },
{
    match parse_handoff(bytes, MAILBOX_UPDATE_V3, 0, "trailing bytes in mailbox-update/3") {
        Ok((relay, inbox, _)) => Ok((relay, inbox)),
        Err(e) => Err(e),
    }
}

/// Encodes a `mailbox-update/2` payload; an all-zero contribution marks a
/// rotation that re-uses the existing recovery root.
pub fn encode_mailbox_update_v2(
    relay_url: &str,
    inbox_id: &str,
    root_contribution: &[u8; 32],
) -> (out: Vec<u8>)
    requires
        relay_url.spec_bytes().len() <= u16::MAX,
    ensures
        out@ == spec_handoff_bytes(MAILBOX_UPDATE_V2, relay_url@, inbox_id@, root_contribution@),
{
    encode_handoff(MAILBOX_UPDATE_V2, relay_url, inbox_id, root_contribution.as_slice())
}

/// Parses a `mailbox-update/2` payload: (relay url, inbox id, contribution).
pub fn parse_mailbox_update_v2(bytes: &[u8]) -> (r: Result<(String, String, [u8; 32])>)
    ensures
        match spec_parse_handoff(
            bytes@,
            MAILBOX_UPDATE_V2,
            RECOVERY_CONTRIB_LEN as int,
            "trailing bytes in mailbox-update/2",
        ) {
            Ok((relay, inbox, c)) => r matches Ok((s, t, u)) && s@ == relay && t@ == inbox && u@
                == c,
            Err(e) => r matches Err(e2) && e2 == e,
        },
{
    match parse_handoff(
        bytes,
        MAILBOX_UPDATE_V2,
        RECOVERY_CONTRIB_LEN,
        "trailing bytes in mailbox-update/2",
    ) {
        Ok((relay, inbox, c)) => {
            proof {
                reveal(rd_take);
            }
            let a = array32(c.as_slice());
            Ok((relay, inbox, a))
        },
        Err(e) => Err(e),
    }
}

/// A `pair-ack/2` payload.
pub open spec fn spec_pair_ack_bytes(
    bundle: Seq<u8>,
    relay: Seq<char>,
    inbox: Seq<char>,
    contribution: Seq<u8>,
    mac: Seq<u8>,
) -> Seq<u8> {
    seq![PAIR_ACK_V2] + var_then(
        bundle,
        var_then(encode_utf8(relay), encode_utf8(inbox) + (contribution + mac)),
    )
}

/// What parsing a `pair-ack/2` payload gives: bundle, relay, inbox id,
/// contribution, proof-of-scan MAC.
pub open spec fn spec_parse_pair_ack(b: Seq<u8>) -> core::result::Result<
    (Seq<u8>, Seq<char>, Seq<char>, Seq<u8>, Seq<u8>),
    CoreError,
> {
    match rd_u8(b, 0) {
        Err(e) => Err(e),
        Ok((v, r, p)) => if v != PAIR_ACK_V2 {
            Err(CoreError::Malformed("unknown pair-ack version"))
        } else {
            match rd_field(r, p) {
                Err(e) => Err(e),
                Ok((bundle, r, p)) => match rd_text_field(r, p) {
                    Err(e) => Err(e),
                    Ok((relay, r, p)) => match rd_text_fixed(r, p, MAILBOX_ID_LEN as int) {
                        Err(e) => Err(e),
                        Ok((inbox, r, p)) => match rd_take(r, p, RECOVERY_CONTRIB_LEN as int) {
                            Err(e) => Err(e),
                            Ok((contribution, r, p)) => match rd_take(r, p, 32) {
                                Err(e) => Err(e),
                                Ok((mac, r, p)) => if r.len() != 0 {
                                    Err(CoreError::Malformed("trailing bytes in pair-ack/2"))
                                } else {
                                    Ok((bundle, relay, inbox, contribution, mac))
                                },
                            },
                        },
                    },
                },
            }
        },
    }
}

/// Fields of a decoded `pair-ack/2` (responder to offerer).
#[derive(Debug)]
pub struct PairAckV2 {
    pub responder_bundle: Vec<u8>,
    pub relay_url: String,
    pub inbox_id: String,
    pub root_contribution: [u8; 32],
    pub mac: [u8; 32],
}

impl View for PairAckV2 {
    type V = (Seq<u8>, Seq<char>, Seq<char>, Seq<u8>, Seq<u8>);

    open spec fn view(&self) -> (Seq<u8>, Seq<char>, Seq<char>, Seq<u8>, Seq<u8>) {
        (
            self.responder_bundle@,
            self.relay_url@,
            self.inbox_id@,
            self.root_contribution@,
            self.mac@,
        )
    }
}

/// Builds a `pair-ack/2` payload, computing the proof-of-scan over the
/// responder's bundle and contribution with the pairing secret.
pub fn encode_pair_ack_v2(
    responder_bundle: &[u8],
    relay_url: &str,
    inbox_id: &str,
    root_contribution: &[u8; 32],
    pairing_secret: &[u8; 32],
) -> (out: Vec<u8>)
    requires
        responder_bundle@.len() <= u16::MAX,
        relay_url.spec_bytes().len() <= u16::MAX,
    ensures
        out@ == spec_pair_ack_bytes(
            responder_bundle@,
            relay_url@,
            inbox_id@,
            root_contribution@,
            spec_proof_of_scan(pairing_secret@, responder_bundle@, root_contribution@),
        ),
{
    let mac = compute_proof_of_scan(pairing_secret, responder_bundle, root_contribution);
    let mut out: Vec<u8> = Vec::new();
    out.push(PAIR_ACK_V2);
    put_bytes(&mut out, responder_bundle);
    put_bytes(&mut out, relay_url.as_bytes());
    crate::codec::push_all(&mut out, inbox_id.as_bytes());
    crate::codec::push_all(&mut out, root_contribution.as_slice());
    crate::codec::push_all(&mut out, mac.as_slice());
    proof {
        let a = seq![PAIR_ACK_V2];
        let bd = responder_bundle@;
        let f = encode_utf8(relay_url@);
        let i = encode_utf8(inbox_id@);
        let c = root_contribution@;
        let m = mac@;
        lemma_var_then(f, i + (c + m));
        lemma_var_then(bd, var(f) + (i + (c + m)));
        lemma_concat_associative(a, var(bd), var(f) + (i + (c + m)));
        lemma_concat_associative(a + var(bd), var(f), i + (c + m));
        lemma_concat_associative(a + var(bd) + var(f), i, c + m);
        lemma_concat_associative(a + var(bd) + var(f) + i, c, m);
    }
    out
}

/// Parses a `pair-ack/2` payload; the proof-of-scan is not checked here.
pub fn parse_pair_ack_v2(bytes: &[u8]) -> (r: Result<PairAckV2>)
    ensures
        match spec_parse_pair_ack(bytes@) {
            Ok(v) => r matches Ok(a) && a@ == v,
            Err(e) => r matches Err(e2) && e2 == e,
        },
{
    proof {
        reveal(rd_take);
    }
    let mut c = Cursor::new(bytes);
    let v = match c.u8() {
        Ok(v) => v,
        Err(e) => return Err(e),
    };
    if v != PAIR_ACK_V2 {
        return Err(CoreError::Malformed("unknown pair-ack version"));
    }
    let responder_bundle = match c.bytes_field() {
        Ok(s) => vstd::slice::slice_to_vec(s),
        Err(e) => return Err(e),
    };
    let relay_url = match c.bytes_field() {
        Ok(s) => match utf8(s) {
            Ok(t) => t,
            Err(e) => return Err(e),
        },
        Err(e) => return Err(e),
    };
    let inbox_id = match c.take(MAILBOX_ID_LEN) {
        Ok(s) => match utf8(s) {
            Ok(t) => t,
            Err(e) => return Err(e),
        },
        Err(e) => return Err(e),
    };
    let root_contribution = match c.take(RECOVERY_CONTRIB_LEN) {
        Ok(s) => array32(s),
        Err(e) => return Err(e),
    };
    let mac = match c.take(32) {
        Ok(s) => array32(s),
        Err(e) => return Err(e),
    };
    if !c.at_end() {
        return Err(CoreError::Malformed("trailing bytes in pair-ack/2"));
    }
    Ok(PairAckV2 { responder_bundle, relay_url, inbox_id, root_contribution, mac })
}

/// Parsing an encoded `pair-ack/2` gives back its fields when the inbox id
/// is 43 bytes and the contribution and MAC 32 bytes each.
pub proof fn law_pair_ack_roundtrip(
    bundle: Seq<u8>,
    relay: Seq<char>,
    inbox: Seq<char>,
    contribution: Seq<u8>,
    mac: Seq<u8>,
)
    requires
        bundle.len() <= u16::MAX,
        encode_utf8(relay).len() <= u16::MAX,
        encode_utf8(inbox).len() == MAILBOX_ID_LEN,
        contribution.len() == RECOVERY_CONTRIB_LEN,
        mac.len() == 32,
        spec_pair_ack_bytes(bundle, relay, inbox, contribution, mac).len() <= usize::MAX,
    ensures
        spec_parse_pair_ack(spec_pair_ack_bytes(bundle, relay, inbox, contribution, mac))
            == Ok::<_, CoreError>((bundle, relay, inbox, contribution, mac)),
{
    let f = encode_utf8(relay);
    let i = encode_utf8(inbox);
    let rest = i + (contribution + mac);
    lemma_u8_front(PAIR_ACK_V2, var_then(bundle, var_then(f, rest)), 0);
    lemma_field_front(bundle, var_then(f, rest), 1);
    let p1: int = 3int + bundle.len();
    lemma_text_field_front(relay, rest, p1);
    let p2: int = p1 + 2 + f.len();
    lemma_text_fixed_front(inbox, contribution + mac, p2);
    lemma_take_front(contribution, mac, p2 + MAILBOX_ID_LEN);
    assert(mac + Seq::<u8>::empty() =~= mac);
    lemma_take_front(mac, Seq::<u8>::empty(), p2 + MAILBOX_ID_LEN + RECOVERY_CONTRIB_LEN);
}

/// A `pair-ack/2` that parses is exactly the encoding of its fields.
pub proof fn law_pair_ack_canonical(b: Seq<u8>)
    requires
        spec_parse_pair_ack(b) is Ok,
    ensures
        ({
            let (bundle, relay, inbox, contribution, mac) = spec_parse_pair_ack(b)->Ok_0;
            &&& bundle.len() <= u16::MAX
            &&& encode_utf8(relay).len() <= u16::MAX
            &&& encode_utf8(inbox).len() == MAILBOX_ID_LEN
            &&& contribution.len() == RECOVERY_CONTRIB_LEN
            &&& mac.len() == 32
            &&& spec_pair_ack_bytes(bundle, relay, inbox, contribution, mac) == b
        }),
{
    lemma_u8_split(b, 0);
    let (v, r1, p1) = rd_u8(b, 0)->Ok_0;
    lemma_field_split(r1, p1);
    let (bundle, r2, p2) = rd_field(r1, p1)->Ok_0;
    lemma_text_field_split(r2, p2);
    let (relay, r3, p3) = rd_text_field(r2, p2)->Ok_0;
    lemma_text_fixed_split(r3, p3, MAILBOX_ID_LEN as int);
    let (inbox, r4, p4) = rd_text_fixed(r3, p3, MAILBOX_ID_LEN as int)->Ok_0;
    lemma_take_split(r4, p4, RECOVERY_CONTRIB_LEN as int);
    let (contribution, r5, p5) = rd_take(r4, p4, RECOVERY_CONTRIB_LEN as int)->Ok_0;
    lemma_take_split(r5, p5, 32);
    let (mac, r6, p6) = rd_take(r5, p5, 32)->Ok_0;
    assert(r5 =~= mac);
}

} // verus!
