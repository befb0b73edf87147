//! The places of a document's elements.

use core::hash::Hash;
use siphasher::sip128::{Hasher128, SipHasher13};
use vstd::prelude::*;

verus! {

/// Feeds the location and the number to a `SipHasher13` with the keys that
/// `SipHasher13::new` gives it, and takes what `finish128` returns as one
/// number. The hasher is fed the bytes of the two numbers as the machine
/// holds them, so nothing is said of the number that comes out.
#[verifier::external_body]
fn hash128(location: Location, n: usize) -> u128 {
    let mut state = SipHasher13::new();
    (location, n).hash(&mut state);
    state.finish128().as_u128()
}

/// Identifies an element in the document.
///
/// A location tells one element from every other, and lets the element be
/// found again on the pages.
#[derive(Debug, Copy, Clone, Eq, PartialEq, Hash, Structural)]
pub struct Location(pub u128);

impl Location {
    /// Create the initial location at the root of the hierarchy.
    pub fn root() -> (r: Location)
        ensures
            r == Location(0),
    {
        Location(0)
    }

    /// Produce a variant of this location.
    ///
    /// The variant is a hash of the location and of `n`. Which location it
    /// is depends on how the machine holds numbers.
    pub fn variant(self, n: usize) -> Location {
        Location(hash128(self, n))
    }
}

/// Makes this element locatable.
pub trait Locatable {

}

} // verus!
