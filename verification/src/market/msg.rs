//! The requests that a pool accepts.

use vstd::prelude::*;

verus! {

/// Creates the pool's state for one asset.
#[derive(Clone, Debug, PartialEq, Eq)]
pub struct InstantiateMsg {
    pub asset_id: String,
    pub underlying_denom: String,
}

/// The four ledger operations. The caller of the operation is the user whose
/// balance it changes.
#[derive(Clone, Copy, Debug, PartialEq, Eq, Structural)]
pub enum ExecuteMsg {
    Deposit { amount: u128 },
    Withdraw { amount: u128 },
    Borrow { amount: u128 },
    Repay { amount: u128 },
}

/// The pool's read-only requests.
#[derive(Clone, Debug, PartialEq, Eq)]
pub enum QueryMsg {
    GetBalances { user: String },
}

} // verus!
