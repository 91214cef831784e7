//! What a pool persists besides the per-user balances.

use vstd::prelude::*;

verus! {

/// The singleton state of an instantiated pool. The totals are in the
/// asset's smallest unit.
#[derive(Clone, Debug, PartialEq, Eq)]
pub struct MarketState {
    pub asset_id: String,
    pub underlying_denom: String,
    pub total_supplied: u128,
    pub total_borrowed: u128,
    pub reserves: u128,
}

} // verus!
