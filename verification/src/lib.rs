//! Tezca: the wire formats, parsers and state rules of an end-to-end
//! encrypted messenger and of its blind store-and-forward relay.

use vstd::prelude::*;

pub mod client;
pub mod codec;
pub mod config;
pub mod envelope;
pub mod error;
pub mod ffi;
pub mod identity;
pub mod licensing;
pub mod pairing;
pub mod random;
pub mod recovery;
pub mod relay;
pub mod relay_client;
pub mod session;
pub mod storage;
pub mod text;

pub use error::{CoreError, Result};

verus! {

/// The crate version.
pub fn core_version() -> (v: &'static str)
    ensures
        v@ == "0.1.0"@,
{
    "0.1.0"
}

} // verus!
