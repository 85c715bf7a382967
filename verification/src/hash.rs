//! Content-addressed identifiers of block headers.

use vstd::prelude::*;

verus! {

/// A 256-bit header identifier, held as two 128-bit halves.
#[derive(Clone, Copy, Debug, PartialEq, Eq, PartialOrd, Ord, Hash, Structural)]
pub struct HeaderHash {
    pub hi: u128,
    pub lo: u128,
}

impl HeaderHash {
    pub fn new(hi: u128, lo: u128) -> (h: HeaderHash)
        ensures
            h == (HeaderHash { hi, lo }),
    {
        HeaderHash { hi, lo }
    }
}

} // verus!
