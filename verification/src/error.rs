//! The failures that the pool and the risk engine report.

use vstd::prelude::*;

verus! {

/// Why an operation was rejected. Every rejection leaves the state that the
/// operation was called on exactly as it was.
#[derive(Clone, Copy, Debug, PartialEq, Eq, Structural)]
pub enum ContractError {
    /// An amount of zero was given where a positive amount is required.
    ZeroAmount,
    /// A collateral factor above one was given; `atomics` is the rejected value.
    InvalidCollateralFactor { atomics: u128 },
    /// The asset has no registered market.
    MarketNotFound,
    /// No balances were supplied for the pool of an asset that the computation reads.
    PoolNotFound,
    /// The price source has no price for an asset that the computation reads.
    PriceUnavailable,
    /// A pool operation was invoked before the pool was instantiated.
    PoolUninitialized,
    /// The pool was instantiated a second time.
    PoolAlreadyInitialized,
    /// A withdrawal asked for more than the user has supplied.
    InsufficientBalance { requested: u128, available: u128 },
    /// A repayment was offered by a user who owes nothing.
    NoOutstandingDebt,
    /// The borrow would leave the account's debt above its collateral.
    BorrowUnsafe { collateral_value: u128, debt_value: u128 },
    /// The withdrawal would leave the account's collateral below its debt.
    WithdrawalUnsafe { collateral_value: u128, debt_value: u128 },
    /// Leaving the market would leave the account's collateral below its debt.
    ActiveCollateralInUse { collateral_value: u128, debt_value: u128 },
    /// A balance, a total or a value does not fit in 128 bits.
    Overflow,
}

} // verus!
