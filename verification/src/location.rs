//! Places in the world state that a transaction can read or write.

use vstd::prelude::*;

verus! {

/// A 20-byte account address, most significant bytes in `high`.
#[derive(Clone, Copy, Debug, PartialEq, Eq, Hash, Structural)]
pub struct Address {
    pub high: u32,
    pub low: u128,
}

/// A 256-bit storage slot number, most significant half in `high`.
#[derive(Clone, Copy, Debug, PartialEq, Eq, Hash, Structural)]
pub struct Slot {
    pub high: u128,
    pub low: u128,
}

/// A location of the world state together with the kind of data that lives there.
#[derive(Clone, Copy, Debug, PartialEq, Eq, Hash, Structural)]
pub enum LocationAndType {
    /// Balance, nonce and code hash of an account.
    Basic(Address),
    /// One storage slot of an account.
    Storage(Address, Slot),
    /// The code of an account.
    Code(Address),
}

/// A location as a tuple of integers: the kind, the two parts of the address and the two halves
/// of the slot. Every hash table of the crate is keyed by it.
pub type LocationKey = (u8, u32, u128, u128, u128);

impl LocationAndType {
    /// The key of this location.
    pub open spec fn spec_key(self) -> LocationKey {
        match self {
            LocationAndType::Basic(a) => (0, a.high, a.low, 0, 0),
            LocationAndType::Storage(a, s) => (1, a.high, a.low, s.high, s.low),
            LocationAndType::Code(a) => (2, a.high, a.low, 0, 0),
        }
    }

    /// The key of this location.
    pub fn key(&self) -> (k: LocationKey)
        ensures
            k == self.spec_key(),
    {
        match *self {
            LocationAndType::Basic(a) => (0, a.high, a.low, 0, 0),
            LocationAndType::Storage(a, s) => (1, a.high, a.low, s.high, s.low),
            LocationAndType::Code(a) => (2, a.high, a.low, 0, 0),
        }
    }
}

/// Two locations with the same key are the same location.
pub proof fn key_is_injective(a: LocationAndType, b: LocationAndType)
    requires
        a.spec_key() == b.spec_key(),
    ensures
        a == b,
{
}

} // verus!
