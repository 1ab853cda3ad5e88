//! Options of transaction building.

use vstd::prelude::*;

use crate::ledger::Address;

verus! {

/// Where the remainder of base tokens goes when funds are sent.
#[derive(Debug)]
pub enum RemainderValueStrategy {
    /// Keep the remainder on the source address.
    ReuseAddress,
    /// Move the remainder to the given address.
    CustomAddress(Address),
}

impl Default for RemainderValueStrategy {
    fn default() -> (r: RemainderValueStrategy)
        ensures
            r is ReuseAddress,
    {
        RemainderValueStrategy::ReuseAddress
    }
}

} // verus!
