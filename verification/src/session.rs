//! The framing around session encryption: what the outer envelope says
//! before any decryption runs.

use vstd::prelude::*;

use crate::envelope::{spec_parse_envelope, Envelope, EnvelopeKind};
use crate::error::{CoreError, Result};

verus! {

/// Peeks the envelope kind without decrypting.
pub fn envelope_kind(wire: &[u8]) -> (r: Result<EnvelopeKind>)
    ensures
        r matches Ok(k) ==> spec_parse_envelope(wire@) matches Ok((k2, _)) && k2 == k,
        r matches Err(e) ==> spec_parse_envelope(wire@) == Err::<(EnvelopeKind, Seq<u8>), _>(e),
{
    match Envelope::parse(wire) {
        Ok(e) => Ok(e.kind),
        Err(e) => Err(e),
    }
}

/// The ciphertext of a session-setup message arriving from a sender not
/// yet known (on a pairing inbox); any other envelope is refused before
/// decryption.
pub fn setup_ciphertext(wire: &[u8]) -> (r: Result<Vec<u8>>)
    ensures
        match spec_parse_envelope(wire@) {
            Err(e) => r matches Err(e2) && e2 == e,
            Ok((k, ct)) => if k == EnvelopeKind::SessionSetup {
                r matches Ok(c) && c@ == ct
            } else {
                r matches Err(e2) && e2 == CoreError::Malformed(
                    "expected a session-setup message on a pairing inbox",
                )
            },
        },
{
    let envelope = match Envelope::parse(wire) {
        Ok(e) => e,
        Err(e) => return Err(e),
    };
    match envelope.kind {
        EnvelopeKind::SessionSetup => Ok(envelope.ciphertext),
        EnvelopeKind::Ratchet => Err(
            CoreError::Malformed("expected a session-setup message on a pairing inbox"),
        ),
    }
}

} // verus!
