//! Pool-wide aggregate totals: total supplied and total borrowed.
//!
//! The counters are adjusted in lock step with position creation, closure and
//! compounding, and every mutation is checked against the representable
//! range.

use vstd::prelude::*;

use crate::errors::LendingError;

verus! {

/// The two aggregate totals of the pool, never negative.
#[derive(Clone, Copy, Debug, PartialEq, Eq, Structural)]
pub struct PoolCounters {
    pub total_supplied: u64,
    pub total_borrowed: u64,
}

impl PoolCounters {
    pub fn new() -> (r: PoolCounters)
        ensures
            r.total_supplied == 0,
            r.total_borrowed == 0,
    {
        PoolCounters { total_supplied: 0, total_borrowed: 0 }
    }

    /// Adds `amount` to the supplied total. Fails with `CounterOverflow`,
    /// changing nothing, exactly when the sum is not representable.
    pub fn add_supplied(&mut self, amount: u64) -> (r: Result<(), LendingError>)
        ensures
            final(self).total_borrowed == old(self).total_borrowed,
            if old(self).total_supplied + amount > u64::MAX {
                r == Err::<(), LendingError>(LendingError::CounterOverflow) && *final(self)
                    == *old(self)
            } else {
                r == Ok::<(), LendingError>(()) && final(self).total_supplied == old(self).total_supplied + amount
            },
    {
        match self.total_supplied.checked_add(amount) {
            Some(total) => {
                self.total_supplied = total;
                Ok(())
            },
            None => Err(LendingError::CounterOverflow),
        }
    }

    /// Takes `amount` from the supplied total. Fails with `CounterUnderflow`,
    /// changing nothing, exactly when the total holds less than `amount`.
    pub fn sub_supplied(&mut self, amount: u64) -> (r: Result<(), LendingError>)
        ensures
            final(self).total_borrowed == old(self).total_borrowed,
            if old(self).total_supplied < amount {
                r == Err::<(), LendingError>(LendingError::CounterUnderflow) && *final(self)
                    == *old(self)
            } else {
                r == Ok::<(), LendingError>(()) && final(self).total_supplied == old(self).total_supplied - amount
            },
    {
        match self.total_supplied.checked_sub(amount) {
            Some(total) => {
                self.total_supplied = total;
                Ok(())
            },
            None => Err(LendingError::CounterUnderflow),
        }
    }

    /// Adds `amount` to the borrowed total. Fails with `CounterOverflow`,
    /// changing nothing, exactly when the sum is not representable.
    pub fn add_borrowed(&mut self, amount: u64) -> (r: Result<(), LendingError>)
        ensures
            final(self).total_supplied == old(self).total_supplied,
            if old(self).total_borrowed + amount > u64::MAX {
                r == Err::<(), LendingError>(LendingError::CounterOverflow) && *final(self)
                    == *old(self)
            } else {
                r == Ok::<(), LendingError>(()) && final(self).total_borrowed == old(self).total_borrowed + amount
            },
    {
        match self.total_borrowed.checked_add(amount) {
            Some(total) => {
                self.total_borrowed = total;
                Ok(())
            },
            None => Err(LendingError::CounterOverflow),
        }
    }

    /// Takes `amount` from the borrowed total. Fails with `CounterUnderflow`,
    /// changing nothing, exactly when the total holds less than `amount`.
    pub fn sub_borrowed(&mut self, amount: u64) -> (r: Result<(), LendingError>)
        ensures
            final(self).total_supplied == old(self).total_supplied,
            if old(self).total_borrowed < amount {
                r == Err::<(), LendingError>(LendingError::CounterUnderflow) && *final(self)
                    == *old(self)
            } else {
                r == Ok::<(), LendingError>(()) && final(self).total_borrowed == old(self).total_borrowed - amount
            },
    {
        match self.total_borrowed.checked_sub(amount) {
            Some(total) => {
                self.total_borrowed = total;
                Ok(())
            },
            None => Err(LendingError::CounterUnderflow),
        }
    }
}

} // verus!
