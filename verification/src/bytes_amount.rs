//! Semantic integer types for counting and addressing unpadded bytes.

use vstd::prelude::*;

verus! {

/// A non-negative count of unpadded bytes.
#[derive(Clone, Copy, Debug, PartialEq, Eq, PartialOrd, Ord, Structural)]
pub struct UnpaddedBytesAmount(pub u64);

/// A byte offset within an unpadded logical address space.
#[derive(Clone, Copy, Debug, PartialEq, Eq, PartialOrd, Ord, Structural)]
pub struct UnpaddedByteIndex(pub u64);

impl View for UnpaddedBytesAmount {
    type V = nat;

    open spec fn view(&self) -> nat {
        self.0 as nat
    }
}

impl View for UnpaddedByteIndex {
    type V = nat;

    open spec fn view(&self) -> nat {
        self.0 as nat
    }
}

impl From<UnpaddedBytesAmount> for UnpaddedByteIndex {
    fn from(amount: UnpaddedBytesAmount) -> (r: Self) {
        UnpaddedByteIndex(amount.0)
    }
}

impl vstd::std_specs::convert::FromSpecImpl<UnpaddedBytesAmount> for UnpaddedByteIndex {
    open spec fn obeys_from_spec() -> bool {
        true
    }

    open spec fn from_spec(amount: UnpaddedBytesAmount) -> Self {
        UnpaddedByteIndex(amount.0)
    }
}

} // verus!
