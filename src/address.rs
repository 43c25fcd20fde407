use vstd::prelude::*;

verus! {

/// A 160-bit account identity, held as its high 32 bits and low 128 bits.
#[derive(Clone, Copy, Debug, PartialEq, Eq, Structural)]
pub struct Address {
    pub high: u32,
    pub low: u128,
}

impl Address {
    /// The null identity, which never owns anything.
    pub open spec fn is_null(self) -> bool {
        self.high == 0 && self.low == 0
    }

    pub fn new(high: u32, low: u128) -> (r: Address)
        ensures
            r.high == high,
            r.low == low,
    {
        Address { high, low }
    }

    pub fn zero() -> (r: Address)
        ensures
            r.is_null(),
    {
        Address { high: 0, low: 0 }
    }

    pub fn is_zero(&self) -> (r: bool)
        ensures
            r == self.is_null(),
    {
        self.high == 0 && self.low == 0
    }
}

} // verus!
