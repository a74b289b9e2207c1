//! Positions: the single open supply or borrow record of an account.

use vstd::prelude::*;

verus! {

/// Denominator of an interest rate: rates are stored in parts per billion.
pub const PARTS_PER_BILLION: u32 = 1_000_000_000;

/// A fractional interest rate in [0, 1], stored in parts per billion so that
/// accrual stays in integer arithmetic and is reproducible bit for bit.
#[derive(Clone, Copy, Debug, PartialEq, Eq, Structural)]
pub struct Rate {
    pub parts: u32,
}

impl Rate {
    /// A rate is well formed when it does not exceed one.
    pub open spec fn wf(self) -> bool {
        self.parts <= PARTS_PER_BILLION
    }

    /// The rate `percent / 100`.
    pub fn from_percent(percent: u32) -> (r: Rate)
        requires
            percent <= 100,
        ensures
            r.parts == percent * 10_000_000,
            r.wf(),
    {
        Rate { parts: percent * 10_000_000 }
    }
}

/// Whether a position supplies funds to the pool or borrows from it. A
/// position is one or the other, never both.
#[derive(Clone, Copy, Debug, PartialEq, Eq, Structural)]
pub enum Direction {
    Supplying,
    Borrowing,
}

/// The single open record of an account: at most one live instance per
/// account.
#[derive(Clone, Copy, Debug, PartialEq, Eq, Structural)]
pub struct Position {
    /// Supplying or borrowing; fixed at creation.
    pub direction: Direction,
    /// Principal plus accrued interest.
    pub balance: u64,
    /// Fractional rate in [0, 1], fixed at creation.
    pub interest_rate: Rate,
    /// Logical time (tick index) of creation.
    pub opened_at: u64,
    /// Amount held as collateral by the ledger for borrow positions; zero for
    /// supply positions.
    pub reserved: u64,
}

impl Position {
    pub open spec fn wf(self) -> bool {
        self.interest_rate.wf()
    }

    /// The zero-valued position that a store hands out for an absent account.
    pub open spec fn empty_spec() -> Position {
        Position {
            direction: Direction::Supplying,
            balance: 0,
            interest_rate: Rate { parts: 0 },
            opened_at: 0,
            reserved: 0,
        }
    }

    /// A zero-valued position. Callers of a store must check existence
    /// separately: an empty position is indistinguishable by value from a
    /// stored position that happens to be all zero.
    pub fn empty() -> (r: Position)
        ensures
            r == Position::empty_spec(),
    {
        Position {
            direction: Direction::Supplying,
            balance: 0,
            interest_rate: Rate { parts: 0 },
            opened_at: 0,
            reserved: 0,
        }
    }
}

} // verus!
