//! Opaque 128-bit identifiers for polls, candidates, voters and ballots.

use vstd::prelude::*;

verus! {

/// An opaque unique identifier, stored as two 64-bit halves.
#[derive(Debug, Clone, Copy, PartialEq, Eq, Structural, Hash)]
pub struct Uid {
    pub hi: u64,
    pub lo: u64,
}

impl Uid {
    pub fn new(hi: u64, lo: u64) -> (r: Uid)
        ensures
            r.hi == hi && r.lo == lo,
    {
        Uid { hi, lo }
    }

    /// The all-zero identifier, used where the original data carries no id.
    pub fn nil() -> (r: Uid)
        ensures
            r.hi == 0 && r.lo == 0,
    {
        Uid { hi: 0, lo: 0 }
    }
}

} // verus!
