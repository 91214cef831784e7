//! The requests that the risk engine accepts, and the plain values that
//! carry what it learns from the pools and the price source.

use crate::decimal::Decimal;
use vstd::prelude::*;

verus! {

/// The risk engine starts with an empty registry.
#[derive(Clone, Copy, Debug, PartialEq, Eq, Structural)]
pub struct InstantiateMsg {}

/// The risk engine's state-changing requests. `EnterMarket` and `ExitMarket`
/// act on the caller's own memberships.
#[derive(Clone, Debug, PartialEq, Eq)]
pub enum ExecuteMsg {
    RegisterMarket { asset_id: String, pool_address: String, collateral_factor: Decimal },
    UpdateCollateralFactor { asset_id: String, factor: Decimal },
    EnterMarket { asset_id: String },
    ExitMarket { asset_id: String },
}

/// A change to one pool's balances that has not happened yet: a withdrawal,
/// a borrow, or both, in the pool of `asset_id`.
#[derive(Clone, Debug, PartialEq, Eq)]
pub struct HypotheticalDelta {
    pub asset_id: String,
    pub withdraw_amount: u128,
    pub borrow_amount: u128,
}

/// The model of a hypothetical delta.
pub struct DeltaSpec {
    pub asset_id: Seq<char>,
    pub withdraw_amount: u128,
    pub borrow_amount: u128,
}

impl View for HypotheticalDelta {
    type V = DeltaSpec;

    open spec fn view(&self) -> DeltaSpec {
        DeltaSpec {
            asset_id: self.asset_id@,
            withdraw_amount: self.withdraw_amount,
            borrow_amount: self.borrow_amount,
        }
    }
}

/// The model of a delta that may be absent.
pub open spec fn delta_view(delta: Option<HypotheticalDelta>) -> Option<DeltaSpec> {
    match delta {
        Some(d) => Some(d@),
        None => None,
    }
}

/// The risk engine's read-only requests.
#[derive(Clone, Debug, PartialEq, Eq)]
pub enum QueryMsg {
    GetMarket { asset_id: String },
    GetAccountLiquidity { user: String, hypothetical: Option<HypotheticalDelta> },
}

/// A registered market, as a query reports it.
#[derive(Clone, Debug, PartialEq, Eq)]
pub struct MarketInfo {
    pub pool_address: String,
    pub collateral_factor: Decimal,
}

/// What one pool and the price source report about one user: the balances
/// on both sides and the unit price of the asset, if there is one.
#[derive(Clone, Debug, PartialEq, Eq)]
pub struct Position {
    pub asset_id: String,
    pub supplied_balance: u128,
    pub borrowed_balance: u128,
    pub price: Option<u128>,
}

/// The model of a position.
pub struct PositionSpec {
    pub asset_id: Seq<char>,
    pub supplied_balance: u128,
    pub borrowed_balance: u128,
    pub price: Option<u128>,
}

impl View for Position {
    type V = PositionSpec;

    open spec fn view(&self) -> PositionSpec {
        PositionSpec {
            asset_id: self.asset_id@,
            supplied_balance: self.supplied_balance,
            borrowed_balance: self.borrowed_balance,
            price: self.price,
        }
    }
}

/// The models of a list of positions.
pub open spec fn position_views(positions: Seq<Position>) -> Seq<PositionSpec> {
    positions.map_values(|p: Position| p@)
}

} // verus!
