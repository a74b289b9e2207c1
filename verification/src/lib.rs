//! A deterministic ledger engine for a single-asset lending pool.
//!
//! Accounts deposit funds to earn interest or borrow funds against a shared
//! liquidity pool, with exactly one open position per account and interest
//! compounding applied uniformly to every open position on each periodic
//! tick. Every operation is atomic: it is fully applied or leaves no effect.

pub mod counters;
pub mod errors;
pub mod interest;
pub mod ledger;
pub mod pool;
pub mod position;
pub mod registry;
pub mod store;
pub mod totals;
