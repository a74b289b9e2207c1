//! The error taxonomy of the lending pool.
//!
//! Every guard check happens before any mutation: the first failing
//! precondition aborts the whole operation with no partial effect, and the
//! error is returned to the caller verbatim.

use vstd::prelude::*;

verus! {

/// Everything that a pool operation, the account registry or the ledger can
/// report. Ledger errors (`InsufficientFunds`, `InsufficientReserved`) are
/// surfaced unchanged by the pool operations that call the ledger.
#[derive(Clone, Copy, Debug, PartialEq, Eq, Structural)]
pub enum LendingError {
    /// A deposit or borrow was attempted while the account already holds an
    /// open position.
    DuplicatePosition,
    /// A withdraw or repay was attempted with no open position.
    NoPosition,
    /// A withdraw was attempted on a borrow position, or a repay on a supply
    /// position.
    WrongDirection,
    /// A pool-wide total, the registry count, or a receiving ledger account
    /// would exceed the representable range.
    CounterOverflow,
    /// A pool-wide total or the registry count would drop below zero.
    CounterUnderflow,
    /// The paying ledger account holds less free balance than the amount to
    /// move or reserve.
    InsufficientFunds,
    /// A ledger port refused to release more collateral than it holds. The
    /// in-memory ledger of this crate releases at most what is held and never
    /// reports it.
    InsufficientReserved,
}

} // verus!
