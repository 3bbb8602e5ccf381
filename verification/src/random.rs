//! Bytes from the operating system's random source. What they are is
//! chance: nothing is stated of them but their number.

use rand::TryRngCore;
use vstd::prelude::*;

use crate::codec::array32;
use crate::storage::blob16;

verus! {

/// `n` bytes from the operating system's random source
/// (`rand::rngs::OsRng` through `TryRngCore::try_fill_bytes`, which fills
/// the whole buffer or fails), or none when that source fails.
#[verifier::external_body]
fn os_random_bytes(n: usize) -> (r: Option<Vec<u8>>)
    ensures
        r matches Some(v) ==> v@.len() == n,
{
    let mut buf = vec![0u8; n];
    match rand::rngs::OsRng.try_fill_bytes(&mut buf) {
        Ok(()) => Some(buf),
        Err(_) => None,
    }
}

/// 16 random bytes (ids, not secrets), or none when the source fails.
pub fn random_id() -> (r: Option<[u8; 16]>) {
    match os_random_bytes(16) {
        Some(v) => Some(blob16(v.as_slice())),
        None => None,
    }
}

/// 32 random bytes, or none when the source fails.
pub fn random_32() -> (r: Option<[u8; 32]>) {
    match os_random_bytes(32) {
        Some(v) => Some(array32(v.as_slice())),
        None => None,
    }
}

} // verus!
