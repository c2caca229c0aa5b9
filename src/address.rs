//! Account and transaction identifiers.

use vstd::prelude::*;

verus! {

/// A 20-byte account identifier: the first sixteen bytes, big-endian, in
/// `hi`, the last four in `lo`.
#[derive(Clone, Copy, Debug, PartialEq, Eq, Structural, Hash, PartialOrd, Ord)]
pub struct Address {
    pub hi: u128,
    pub lo: u32,
}

/// A 32-byte transaction hash, as two big-endian halves.
#[derive(Clone, Copy, Debug, PartialEq, Eq, Structural, Hash)]
pub struct TxHash {
    pub hi: u128,
    pub lo: u128,
}

impl Address {
    pub fn new(hi: u128, lo: u32) -> (r: Address)
        ensures
            r.hi == hi && r.lo == lo,
    {
        Address { hi, lo }
    }

    pub fn equals(&self, other: &Address) -> (r: bool)
        ensures
            r == (*self == *other),
    {
        self.hi == other.hi && self.lo == other.lo
    }
}

} // verus!
