//! The pool: the ledger of deposits and loans of a single asset.

pub mod contract;
pub mod msg;
pub mod state;
