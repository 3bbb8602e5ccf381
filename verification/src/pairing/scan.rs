//! Proof-of-scan: an HMAC-SHA256 over the responder's bundle and its
//! recovery-root contribution, keyed by the offer's pairing secret, and its
//! constant-time check.

use vstd::prelude::*;

use crate::error::{CoreError, Result};

verus! {

/// Length of the random pairing secret carried in an offer.
pub const PAIRING_SECRET_LEN: usize = 32;

/// The HMAC-SHA256 tag of `data` under `key`.
pub uninterp spec fn hmac_sha256_tag(key: Seq<u8>, data: Seq<u8>) -> Seq<u8>;

/// `ring::hmac::sign` with an `HMAC_SHA256` key made from `key`: the 32-byte
/// tag, which depends on the key and the data alone.
#[verifier::external_body]
fn hmac_sha256(key: &[u8], data: &[u8]) -> (tag: [u8; 32])
    ensures
        tag@ == hmac_sha256_tag(key@, data@),
{
    let k = ring::hmac::Key::new(ring::hmac::HMAC_SHA256, key);
    let t = ring::hmac::sign(&k, data);
    let mut out = [0u8; 32];
    out.copy_from_slice(t.as_ref());
    out
}

/// `subtle::ConstantTimeEq::ct_eq` on two byte slices, turned into a
/// `bool`: true exactly when the lengths and every byte agree.
#[verifier::external_body]
fn ct_eq_bytes(a: &[u8], b: &[u8]) -> (r: bool)
    ensures
        r == (a@ == b@),
{
    bool::from(subtle::ConstantTimeEq::ct_eq(a, b))
}

/// The proof-of-scan MAC: HMAC-SHA256 over `bundle || contribution`,
/// keyed by the pairing secret.
pub open spec fn spec_proof_of_scan(secret: Seq<u8>, bundle: Seq<u8>, contribution: Seq<u8>) -> Seq<
    u8,
> {
    hmac_sha256_tag(secret, bundle + contribution)
}

/// Computes the proof-of-scan MAC.
pub fn compute_proof_of_scan(
    pairing_secret: &[u8; 32],
    responder_bundle: &[u8],
    root_contribution: &[u8; 32],
) -> (mac: [u8; 32])
    ensures
        mac@ == spec_proof_of_scan(pairing_secret@, responder_bundle@, root_contribution@),
{
    let mut input: Vec<u8> = Vec::new();
    crate::codec::push_all(&mut input, responder_bundle);
    crate::codec::push_all(&mut input, root_contribution.as_slice());
    assert(input@ =~= responder_bundle@ + root_contribution@);
    hmac_sha256(pairing_secret.as_slice(), input.as_slice())
}

/// The verdict on a received MAC given the expected one: accepted exactly
/// when they are equal, in constant time.
pub fn proof_verdict(expected: &[u8; 32], mac: &[u8]) -> (r: Result<()>)
    ensures
        r is Ok <==> expected@ == mac@,
        r matches Err(e) ==> e == CoreError::ProofOfScanFailed,
{
    if ct_eq_bytes(expected.as_slice(), mac) {
        Ok(())
    } else {
        Err(CoreError::ProofOfScanFailed)
    }
}

/// Verifies a proof-of-scan MAC in constant time; `ProofOfScanFailed` on
/// any mismatch, a wrong length included.
pub fn verify_proof_of_scan(
    pairing_secret: &[u8; 32],
    responder_bundle: &[u8],
    root_contribution: &[u8; 32],
    mac: &[u8],
) -> (r: Result<()>)
    ensures
        r is Ok <==> mac@ == spec_proof_of_scan(
            pairing_secret@,
            responder_bundle@,
            root_contribution@,
        ),
        r matches Err(e) ==> e == CoreError::ProofOfScanFailed,
{
    let expected = compute_proof_of_scan(pairing_secret, responder_bundle, root_contribution);
    proof_verdict(&expected, mac)
}

} // verus!
