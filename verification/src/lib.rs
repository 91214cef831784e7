//! A two-contract money market: per-asset lending pools and the risk engine
//! that decides whether an account stays solvent.

pub mod comptroller;
pub mod decimal;
pub mod error;
pub mod ledger;
pub mod market;
pub mod protocol;
