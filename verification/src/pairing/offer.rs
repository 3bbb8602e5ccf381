//! The signed pairing offer (v3) and its validity rule.
//!
//! ```text
//! 0x03 | var(bundle) | var(relay utf8) | pairing inbox id (43) | pairing secret (32)
//!      | issued_at u64 BE | ttl_s u32 BE | offer_sig (64)
//! ```
//! The signature covers every byte before it. Producing and checking it is
//! the signing library's work; this module frames the signed region and
//! decides on an offer given the outcome of that check.

use vstd::prelude::*;
use vstd::seq_lib::lemma_concat_associative;
use vstd::string::StringSliceAdditionalSpecFns;
use vstd::utf8::encode_utf8;

use crate::codec::{array32, be32, be64, push_be32, push_be64};
use crate::config::{FUTURE_SKEW_S, MAX_OFFER_TTL_S};
use crate::error::{CoreError, OfferExpiryDetail, Result};
use crate::pairing::bundle::spec_parse_bundle;
use crate::pairing::cursor::{
    lemma_field_ext, lemma_take_ext, lemma_text_field_ext, lemma_text_fixed_ext, lemma_u32_ext,
    lemma_u64_ext, lemma_u8_ext, read_ext,
    lemma_field_front, lemma_field_split, lemma_take_front, lemma_take_split,
    lemma_text_field_front, lemma_text_field_split, lemma_text_fixed_front, lemma_text_fixed_split,
    lemma_u32_front, lemma_u32_split, lemma_u64_front, lemma_u64_split, lemma_u8_front,
    lemma_u8_split, lemma_var_then, put_bytes, rd_field, rd_take, rd_text_field, rd_text_fixed,
    rd_u32, rd_u64, rd_u8, utf8, var, var_then, Cursor,
};
use crate::pairing::handoff::MAILBOX_ID_LEN;

verus! {

/// Offer payload version; the acceptor speaks this version only.
pub const OFFER_VERSION_V3: u8 = 3;

/// Length of the trailing offer signature.
pub const OFFER_SIG_LEN: usize = 64;

/// The signed region of an offer: every field before the signature.
pub open spec fn spec_offer_prefix(
    bundle: Seq<u8>,
    relay: Seq<char>,
    inbox: Seq<char>,
    secret: Seq<u8>,
    issued_at: u64,
    ttl_s: u32,
) -> Seq<u8> {
    seq![OFFER_VERSION_V3] + var_then(
        bundle,
        var_then(encode_utf8(relay), encode_utf8(inbox) + (secret + (be64(issued_at) + be32(ttl_s)))),
    )
}

/// The fields an offer carries: bundle, relay, pairing inbox, pairing
/// secret, issued_at, ttl_s.
pub type OfferFields = (Seq<u8>, Seq<char>, Seq<char>, Seq<u8>, u64, u32);

/// What the structural read of an offer gives: its fields, with no
/// signature or clock evaluation.
pub open spec fn spec_offer_structure(b: Seq<u8>) -> core::result::Result<OfferFields, CoreError> {
    match rd_u8(b, 0) {
        Err(e) => Err(e),
        Ok((v, r, p)) => if v != OFFER_VERSION_V3 {
            Err(CoreError::UnsupportedVersion { got: v })
        } else {
            match rd_field(r, p) {
                Err(e) => Err(e),
                Ok((bundle, r, p)) => match rd_text_field(r, p) {
                    Err(e) => Err(e),
                    Ok((relay, r, p)) => match rd_text_fixed(r, p, MAILBOX_ID_LEN as int) {
                        Err(e) => Err(e),
                        Ok((inbox, r, p)) => match rd_take(r, p, 32) {
                            Err(e) => Err(e),
                            Ok((secret, r, p)) => match rd_u64(r, p) {
                                Err(e) => Err(e),
                                Ok((issued_at, r, p)) => match rd_u32(r, p) {
                                    Err(e) => Err(e),
                                    Ok((ttl_s, r, p)) => match rd_take(r, p, OFFER_SIG_LEN as int) {
                                        Err(e) => Err(e),
                                        Ok((_sig, r, p)) => if r.len() != 0 {
                                            Err(
                                                CoreError::Malformed(
                                                    "trailing bytes in pairing offer",
                                                ),
                                            )
                                        } else {
                                            Ok((bundle, relay, inbox, secret, issued_at, ttl_s))
                                        },
                                    },
                                },
                            },
                        },
                    },
                },
            }
        },
    }
}

/// `a + b`, or `u64::MAX` where that overflows.
pub open spec fn sat_add(a: u64, b: u64) -> u64 {
    if a + b > u64::MAX {
        u64::MAX
    } else {
        (a + b) as u64
    }
}

/// The validity rule at acceptor clock `now`: a TTL in range, not dated
/// beyond the future-skew grace, and `now` strictly before the end.
pub open spec fn spec_offer_window(issued_at: u64, ttl_s: u32, now: u64) -> core::result::Result<
    (),
    CoreError,
> {
    if ttl_s == 0 || ttl_s > MAX_OFFER_TTL_S {
        Err(CoreError::Malformed("offer ttl_s out of range"))
    } else if issued_at > sat_add(now, FUTURE_SKEW_S) {
        Err(
            CoreError::OfferExpired {
                issued_at,
                ttl_s,
                now,
                detail: OfferExpiryDetail::NotYetValid,
            },
        )
    } else if now >= sat_add(issued_at, ttl_s as u64) {
        Err(CoreError::OfferExpired { issued_at, ttl_s, now, detail: OfferExpiryDetail::Expired })
    } else {
        Ok(())
    }
}

/// The outcome of checking an offer's signature with the identity key of
/// its own bundle.
pub enum SignatureCheck {
    /// The signature verifies over the signed region.
    Verified,
    /// The signature does not verify.
    Mismatch,
    /// The identity key in the bundle could not be read; the signing
    /// library's message.
    KeyRejected(String),
}

/// The full acceptance rule: structure, then the bundle, then the signature
/// outcome, then the validity window at `now`.
pub open spec fn spec_accept_offer(b: Seq<u8>, now: u64, check: SignatureCheck) -> core::result::Result<
    OfferFields,
    CoreError,
> {
    match spec_offer_structure(b) {
        Err(e) => Err(e),
        Ok(o) => match spec_parse_bundle(o.0) {
            Err(e) => Err(e),
            Ok(_) => match check {
                SignatureCheck::KeyRejected(m) => Err(CoreError::Signal(m)),
                SignatureCheck::Mismatch => Err(CoreError::OfferSignatureInvalid),
                SignatureCheck::Verified => match spec_offer_window(o.4, o.5, now) {
                    Err(e) => Err(e),
                    Ok(_) => Ok(o),
                },
            },
        },
    }
}

/// Decoded v3 offer fields.
#[derive(Debug)]
pub struct OfferV3 {
    pub bundle: Vec<u8>,
    pub relay_url: String,
    pub pairing_inbox_id: String,
    pub pairing_secret: [u8; 32],
    pub issued_at: u64,
    pub ttl_s: u32,
}

impl View for OfferV3 {
    type V = OfferFields;

    open spec fn view(&self) -> OfferFields {
        (
            self.bundle@,
            self.relay_url@,
            self.pairing_inbox_id@,
            self.pairing_secret@,
            self.issued_at,
            self.ttl_s,
        )
    }
}

/// The validity window an offer embeds at mint.
#[derive(Debug)]
pub struct OfferValidity {
    pub issued_at: u64,
    pub ttl_s: u32,
}

/// The signed region of a v3 offer: version, bundle, relay, pairing inbox,
/// pairing secret, `issued_at`, `ttl_s`.
pub fn offer_v3_prefix(
    bundle: &[u8],
    relay_url: &str,
    pairing_inbox_id: &str,
    pairing_secret: &[u8; 32],
    issued_at: u64,
    ttl_s: u32,
) -> (out: Vec<u8>)
    requires
        bundle@.len() <= u16::MAX,
        relay_url.spec_bytes().len() <= u16::MAX,
    ensures
        out@ == spec_offer_prefix(
            bundle@,
            relay_url@,
            pairing_inbox_id@,
            pairing_secret@,
            issued_at,
            ttl_s,
        ),
{
    let mut out: Vec<u8> = Vec::new();
    out.push(OFFER_VERSION_V3);
    put_bytes(&mut out, bundle);
    put_bytes(&mut out, relay_url.as_bytes());
    crate::codec::push_all(&mut out, pairing_inbox_id.as_bytes());
    crate::codec::push_all(&mut out, pairing_secret.as_slice());
    push_be64(&mut out, issued_at);
    push_be32(&mut out, ttl_s);
    proof {
        let a = seq![OFFER_VERSION_V3];
        let bd = bundle@;
        let f = encode_utf8(relay_url@);
        let i = encode_utf8(pairing_inbox_id@);
        let s = pairing_secret@;
        let t = be64(issued_at);
        let u = be32(ttl_s);
        lemma_var_then(f, i + (s + (t + u)));
        lemma_var_then(bd, var(f) + (i + (s + (t + u))));
        lemma_concat_associative(a, var(bd), var(f) + (i + (s + (t + u))));
        lemma_concat_associative(a + var(bd), var(f), i + (s + (t + u)));
        lemma_concat_associative(a + var(bd) + var(f), i, s + (t + u));
        lemma_concat_associative(a + var(bd) + var(f) + i, s, t + u);
        lemma_concat_associative(a + var(bd) + var(f) + i + s, t, u);
    }
    out
}

/// Completes an offer: the signed region followed by its signature, which
/// must be exactly 64 bytes.
pub fn finish_offer_v3(prefix: Vec<u8>, signature: &[u8]) -> (r: Result<Vec<u8>>)
    ensures
        r is Ok <==> signature@.len() == OFFER_SIG_LEN,
        r matches Ok(out) ==> out@ == prefix@ + signature@,
        r matches Err(e) ==> (e matches CoreError::Signal(m) && m@
            == "unexpected offer signature length"@),
{
    if signature.len() != OFFER_SIG_LEN {
        return Err(CoreError::Signal("unexpected offer signature length".to_owned()));
    }
    let mut out = prefix;
    crate::codec::push_all(&mut out, signature);
    Ok(out)
}

/// Structural read of a v3 offer: version byte, fields, trailing-byte
/// reject; no signature or clock evaluation.
pub fn parse_offer_v3_structure(bytes: &[u8]) -> (r: Result<OfferV3>)
    ensures
        match spec_offer_structure(bytes@) {
            Ok(v) => r matches Ok(o) && o@ == v,
            Err(e) => r matches Err(e2) && e2 == e,
        },
{
    proof {
        reveal(rd_take);
    }
    let mut c = Cursor::new(bytes);
    let version = match c.u8() {
        Ok(v) => v,
        Err(e) => return Err(e),
    };
    if version != OFFER_VERSION_V3 {
        return Err(CoreError::UnsupportedVersion { got: version });
    }
    let bundle = match c.bytes_field() {
        Ok(s) => vstd::slice::slice_to_vec(s),
        Err(e) => return Err(e),
    };
    let relay_url = match c.bytes_field() {
        Ok(s) => match utf8(s) {
            Ok(t) => t,
            Err(e) => return Err(e),
        },
        Err(e) => return Err(e),
    };
    let pairing_inbox_id = match c.take(MAILBOX_ID_LEN) {
        Ok(s) => match utf8(s) {
            Ok(t) => t,
            Err(e) => return Err(e),
        },
        Err(e) => return Err(e),
    };
    let pairing_secret = match c.take(32) {
        Ok(s) => array32(s),
        Err(e) => return Err(e),
    };
    let issued_at = match c.u64() {
        Ok(v) => v,
        Err(e) => return Err(e),
    };
    let ttl_s = match c.u32() {
        Ok(v) => v,
        Err(e) => return Err(e),
    };
    match c.take(OFFER_SIG_LEN) {
        Ok(_) => {},
        Err(e) => return Err(e),
    }
    if !c.at_end() {
        return Err(CoreError::Malformed("trailing bytes in pairing offer"));
    }
    Ok(OfferV3 { bundle, relay_url, pairing_inbox_id, pairing_secret, issued_at, ttl_s })
}

/// The validity rule at acceptor clock `now`.
pub fn check_offer_window(issued_at: u64, ttl_s: u32, now: u64) -> (r: Result<()>)
    ensures
        match spec_offer_window(issued_at, ttl_s, now) {
            Ok(_) => r is Ok,
            Err(e) => r matches Err(e2) && e2 == e,
        },
{
    if ttl_s == 0 || ttl_s > MAX_OFFER_TTL_S {
        return Err(CoreError::Malformed("offer ttl_s out of range"));
    }
    if issued_at > now.saturating_add(FUTURE_SKEW_S) {
        return Err(
            CoreError::OfferExpired {
                issued_at,
                ttl_s,
                now,
                detail: OfferExpiryDetail::NotYetValid,
            },
        );
    }
    if now >= issued_at.saturating_add(ttl_s as u64) {
        return Err(
            CoreError::OfferExpired { issued_at, ttl_s, now, detail: OfferExpiryDetail::Expired },
        );
    }
    Ok(())
}

/// Parses and validates a v3 offer at acceptor clock `now` (Unix seconds),
/// given the outcome of checking its signature with the identity key of its
/// own bundle over everything before the signature.
pub fn parse_pairing_offer_v3(bytes: &[u8], now: u64, check: SignatureCheck) -> (r: Result<OfferV3>)
    ensures
        match spec_accept_offer(bytes@, now, check) {
            Ok(v) => r matches Ok(o) && o@ == v,
            Err(e) => r matches Err(e2) && e2 == e,
        },
{
    let offer = match parse_offer_v3_structure(bytes) {
        Ok(o) => o,
        Err(e) => return Err(e),
    };
    match crate::pairing::bundle::parse(offer.bundle.as_slice()) {
        Ok(_) => {},
        Err(e) => return Err(e),
    }
    match check {
        SignatureCheck::KeyRejected(m) => return Err(CoreError::Signal(m)),
        SignatureCheck::Mismatch => return Err(CoreError::OfferSignatureInvalid),
        SignatureCheck::Verified => {},
    }
    match check_offer_window(offer.issued_at, offer.ttl_s, now) {
        Ok(_) => Ok(offer),
        Err(e) => Err(e),
    }
}

/// Reads the embedded validity window from an offer without accepting it.
pub fn peek_offer_validity(bytes: &[u8]) -> (r: Result<OfferValidity>)
    ensures
        match spec_offer_structure(bytes@) {
            Ok(v) => r matches Ok(w) && w.issued_at == v.4 && w.ttl_s == v.5,
            Err(e) => r matches Err(e2) && e2 == e,
        },
{
    match parse_offer_v3_structure(bytes) {
        Ok(o) => Ok(OfferValidity { issued_at: o.issued_at, ttl_s: o.ttl_s }),
        Err(e) => Err(e),
    }
}

/// The relay URL of an offer whose structure reads, without accepting it.
pub fn peek_offer_relay(bytes: &[u8]) -> (r: Result<String>)
    ensures
        match spec_offer_structure(bytes@) {
            Ok(v) => r matches Ok(s) && s@ == v.1,
            Err(e) => r matches Err(e2) && e2 == e,
        },
{
    match parse_offer_v3_structure(bytes) {
        Ok(o) => Ok(o.relay_url),
        Err(e) => Err(e),
    }
}

/// The signed region and the signature of an offer whose structure reads.
pub fn split_offer_signature(bytes: &[u8]) -> (r: Option<(&[u8], &[u8])>)
    ensures
        r is Some <==> spec_offer_structure(bytes@) is Ok,
        r matches Some((prefix, sig)) ==> sig@.len() == OFFER_SIG_LEN && bytes@ == prefix@ + sig@,
{
    match parse_offer_v3_structure(bytes) {
        Ok(_) => {
            proof {
                law_offer_canonical(bytes@);
            }
            let cut = bytes.len() - OFFER_SIG_LEN;
            let prefix = &bytes[0..cut];
            let sig = &bytes[cut..bytes.len()];
            assert(bytes@ =~= prefix@ + sig@);
            Some((prefix, sig))
        },
        Err(_) => None,
    }
}

proof fn lemma_var_then_append(a: Seq<u8>, y: Seq<u8>, z: Seq<u8>)
    ensures
        var_then(a, y) + z == var_then(a, y + z),
{
    assert(var_then(a, y) + z =~= var_then(a, y + z));
}

proof fn lemma_offer_nested(
    bundle: Seq<u8>,
    relay: Seq<char>,
    inbox: Seq<char>,
    secret: Seq<u8>,
    issued_at: u64,
    ttl_s: u32,
    sig: Seq<u8>,
)
    ensures
        spec_offer_prefix(bundle, relay, inbox, secret, issued_at, ttl_s) + sig == seq![
            OFFER_VERSION_V3,
        ] + var_then(
            bundle,
            var_then(
                encode_utf8(relay),
                encode_utf8(inbox) + (secret + (be64(issued_at) + (be32(ttl_s) + sig))),
            ),
        ),
{
    let f = encode_utf8(relay);
    let i = encode_utf8(inbox);
    let t = be64(issued_at);
    let u = be32(ttl_s);
    let inner = i + (secret + (t + u));
    lemma_concat_associative(seq![OFFER_VERSION_V3], var_then(bundle, var_then(f, inner)), sig);
    lemma_var_then_append(bundle, var_then(f, inner), sig);
    lemma_var_then_append(f, inner, sig);
    lemma_concat_associative(i, secret + (t + u), sig);
    lemma_concat_associative(secret, t + u, sig);
    lemma_concat_associative(t, u, sig);
}

/// Reading a signed offer gives back its fields when the inbox id is 43
/// bytes, the secret 32 and the signature 64.
pub proof fn law_offer_roundtrip(
    bundle: Seq<u8>,
    relay: Seq<char>,
    inbox: Seq<char>,
    secret: Seq<u8>,
    issued_at: u64,
    ttl_s: u32,
    sig: Seq<u8>,
)
    requires
        bundle.len() <= u16::MAX,
        encode_utf8(relay).len() <= u16::MAX,
        encode_utf8(inbox).len() == MAILBOX_ID_LEN,
        secret.len() == 32,
        sig.len() == OFFER_SIG_LEN,
        spec_offer_prefix(bundle, relay, inbox, secret, issued_at, ttl_s).len() + sig.len()
            <= usize::MAX,
    ensures
        spec_offer_structure(spec_offer_prefix(bundle, relay, inbox, secret, issued_at, ttl_s) + sig)
            == Ok::<_, CoreError>((bundle, relay, inbox, secret, issued_at, ttl_s)),
{
    lemma_offer_nested(bundle, relay, inbox, secret, issued_at, ttl_s, sig);
    let f = encode_utf8(relay);
    let i = encode_utf8(inbox);
    let t = be64(issued_at);
    let u = be32(ttl_s);
    let r4 = t + (u + sig);
    let r3 = secret + r4;
    let r2 = i + r3;
    lemma_u8_front(OFFER_VERSION_V3, var_then(bundle, var_then(f, r2)), 0);
    lemma_field_front(bundle, var_then(f, r2), 1);
    let p1: int = 3int + bundle.len();
    lemma_text_field_front(relay, r2, p1);
    let p2: int = p1 + 2 + f.len();
    lemma_text_fixed_front(inbox, r3, p2);
    let p3: int = p2 + MAILBOX_ID_LEN;
    lemma_take_front(secret, r4, p3);
    lemma_u64_front(issued_at, u + sig, p3 + 32);
    lemma_u32_front(ttl_s, sig, p3 + 40);
    assert(sig + Seq::<u8>::empty() =~= sig);
    lemma_take_front(sig, Seq::<u8>::empty(), p3 + 44);
}

/// An offer whose structure reads is exactly the signed region of its
/// fields followed by its last 64 bytes.
pub proof fn law_offer_canonical(b: Seq<u8>)
    requires
        spec_offer_structure(b) is Ok,
    ensures
        ({
            let (bundle, relay, inbox, secret, issued_at, ttl_s) = spec_offer_structure(b)->Ok_0;
            &&& b.len() >= OFFER_SIG_LEN
            &&& b == spec_offer_prefix(bundle, relay, inbox, secret, issued_at, ttl_s) + b.subrange(
                b.len() - OFFER_SIG_LEN,
                b.len() as int,
            )
        }),
{
    lemma_u8_split(b, 0);
    let (v, r1, p1) = rd_u8(b, 0)->Ok_0;
    lemma_field_split(r1, p1);
    let (bundle, r2, p2) = rd_field(r1, p1)->Ok_0;
    lemma_text_field_split(r2, p2);
    let (relay, r3, p3) = rd_text_field(r2, p2)->Ok_0;
    lemma_text_fixed_split(r3, p3, MAILBOX_ID_LEN as int);
    let (inbox, r4, p4) = rd_text_fixed(r3, p3, MAILBOX_ID_LEN as int)->Ok_0;
    lemma_take_split(r4, p4, 32);
    let (secret, r5, p5) = rd_take(r4, p4, 32)->Ok_0;
    lemma_u64_split(r5, p5);
    let (issued_at, r6, p6) = rd_u64(r5, p5)->Ok_0;
    lemma_u32_split(r6, p6);
    let (ttl_s, r7, p7) = rd_u32(r6, p6)->Ok_0;
    lemma_take_split(r7, p7, OFFER_SIG_LEN as int);
    let (sig, r8, p8) = rd_take(r7, p7, OFFER_SIG_LEN as int)->Ok_0;
    assert(r7 =~= sig);
    lemma_offer_nested(bundle, relay, inbox, secret, issued_at, ttl_s, sig);
    assert(b.subrange(b.len() - OFFER_SIG_LEN, b.len() as int) =~= sig);
}

/// For a TTL in range, an offer is accepted exactly when
/// `issued_at <= now + FUTURE_SKEW_S` and `now < issued_at + ttl_s`.
pub proof fn law_offer_window(issued_at: u64, ttl_s: u32, now: u64)
    requires
        now < u64::MAX,
    ensures
        spec_offer_window(issued_at, ttl_s, now) is Ok <==> (0 < ttl_s <= MAX_OFFER_TTL_S
            && issued_at <= now + FUTURE_SKEW_S && now < issued_at + ttl_s),
{
}

/// An offer whose structure reads is refused as `Malformed` once anything
/// follows it, before the bundle, the signature outcome or the validity
/// window is looked at.
pub proof fn law_offer_trailing_bytes(b: Seq<u8>, s: Seq<u8>, now: u64, check: SignatureCheck)
    requires
        spec_offer_structure(b) is Ok,
        s.len() > 0,
    ensures
        spec_offer_structure(b + s) == Err::<OfferFields, CoreError>(
            CoreError::Malformed("trailing bytes in pairing offer"),
        ),
        spec_accept_offer(b + s, now, check) == Err::<OfferFields, CoreError>(
            CoreError::Malformed("trailing bytes in pairing offer"),
        ),
{
    lemma_u8_ext(b, s, 0);
    let (v, r1, p1) = rd_u8(b, 0)->Ok_0;
    lemma_field_ext(r1, s, p1);
    let (bundle, r2, p2) = rd_field(r1, p1)->Ok_0;
    lemma_text_field_ext(r2, s, p2);
    let (relay, r3, p3) = rd_text_field(r2, p2)->Ok_0;
    lemma_text_fixed_ext(r3, s, p3, MAILBOX_ID_LEN as int);
    let (inbox, r4, p4) = rd_text_fixed(r3, p3, MAILBOX_ID_LEN as int)->Ok_0;
    lemma_take_ext(r4, s, p4, 32);
    let (secret, r5, p5) = rd_take(r4, p4, 32)->Ok_0;
    lemma_u64_ext(r5, s, p5);
    let (issued_at, r6, p6) = rd_u64(r5, p5)->Ok_0;
    lemma_u32_ext(r6, s, p6);
    let (ttl_s, r7, p7) = rd_u32(r6, p6)->Ok_0;
    lemma_take_ext(r7, s, p7, OFFER_SIG_LEN as int);
    let (sig, r8, p8) = rd_take(r7, p7, OFFER_SIG_LEN as int)->Ok_0;
    assert((r8 + s).len() != 0);
}

} // verus!
