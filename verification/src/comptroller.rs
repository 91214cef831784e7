//! The risk engine: the market registry, collateral memberships and the
//! solvency computation.

pub mod contract;
pub mod liquidity;
pub mod msg;
pub mod state;
