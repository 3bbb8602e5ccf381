//! Licensing interface: the trait, and a stub under which everything is
//! licensed.

use vstd::prelude::*;

verus! {

/// Decides whether this installation is licensed for a given capability.
pub trait Licensing {
    /// `true` if the capability may be used.
    fn is_licensed(&self, capability: &str) -> bool;
}

/// Everything is licensed.
pub struct AlwaysLicensed;

impl Licensing for AlwaysLicensed {
    fn is_licensed(&self, _capability: &str) -> (r: bool)
        ensures
            r,
    {
        true
    }
}

} // verus!
