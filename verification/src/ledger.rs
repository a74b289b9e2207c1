//! An in-memory currency ledger: the move-value and reserve/unreserve
//! primitives that the pool calls.
//!
//! The pool never inspects free-balance accounting beyond this narrow
//! surface: `transfer`, `reserve`, `unreserve`, `reserved_balance`. Absent
//! accounts hold nothing; per account, free plus reserved always stays
//! representable, which makes `unreserve` infallible.

use std::collections::HashMap;

use vstd::prelude::*;

use crate::errors::LendingError;

verus! {

broadcast use vstd::std_specs::hash::group_hash_axioms;

/// What one account holds: freely transferable funds and funds reserved as
/// collateral.
#[derive(Clone, Copy, Debug, PartialEq, Eq, Structural)]
pub struct Funds {
    pub free: u64,
    pub reserved: u64,
}

/// The ledger: a map from account to its funds.
pub struct Ledger {
    accounts: HashMap<u64, Funds>,
}

impl Ledger {
    /// The free balance of `account`; zero when the account is absent.
    pub closed spec fn free_of(self, account: u64) -> u64 {
        if self.accounts@.contains_key(account) {
            self.accounts@[account].free
        } else {
            0
        }
    }

    /// The reserved balance of `account`; zero when the account is absent.
    pub closed spec fn reserved_of(self, account: u64) -> u64 {
        if self.accounts@.contains_key(account) {
            self.accounts@[account].reserved
        } else {
            0
        }
    }

    /// Per account, free plus reserved stays representable.
    pub open spec fn wf(self) -> bool {
        forall|a: u64| #![trigger self.free_of(a)] self.free_of(a) + self.reserved_of(a) <= u64::MAX
    }

    pub fn new() -> (r: Ledger)
        ensures
            r.wf(),
            forall|a: u64| #[trigger] r.free_of(a) == 0 && r.reserved_of(a) == 0,
    {
        Ledger { accounts: HashMap::new() }
    }

    /// Overwrites what `account` holds. Fails with `CounterOverflow`, changing
    /// nothing, exactly when `free + reserved` is not representable.
    pub fn set_balance(&mut self, account: u64, free: u64, reserved: u64) -> (r: Result<
        (),
        LendingError,
    >)
        requires
            old(self).wf(),
        ensures
            final(self).wf(),
            if free + reserved > u64::MAX {
                r == Err::<(), LendingError>(LendingError::CounterOverflow) && funds_eq(
                    *old(self),
                    *final(self),
                )
            } else {
                &&& r == Ok::<(), LendingError>(())
                &&& final(self).free_of(account) == free
                &&& final(self).reserved_of(account) == reserved
                &&& untouched_except(*old(self), *final(self), account)
            },
    {
        if reserved > u64::MAX - free {
            return Err(LendingError::CounterOverflow);
        }
        self.accounts.insert(account, Funds { free, reserved });
        proof {
            self.lemma_wf_after(*old(self), account);
        }
        Ok(())
    }

    /// After touching only `account`, the ledger is well formed as soon as
    /// that one account's funds are representable.
    proof fn lemma_wf_after(self, pre: Ledger, account: u64)
        requires
            pre.wf(),
            untouched_except(pre, self, account),
            self.free_of(account) + self.reserved_of(account) <= u64::MAX,
        ensures
            self.wf(),
    {
        assert forall|a: u64| #![trigger self.free_of(a)] self.free_of(a) + self.reserved_of(a)
            <= u64::MAX by {
            if a != account {
                assert(pre.free_of(a) + pre.reserved_of(a) <= u64::MAX);
            }
        }
    }

    pub fn free_balance(&self, account: u64) -> (r: u64)
        ensures
            r == self.free_of(account),
    {
        match self.accounts.get(&account) {
            Some(funds) => funds.free,
            None => 0,
        }
    }

    pub fn reserved_balance(&self, account: u64) -> (r: u64)
        ensures
            r == self.reserved_of(account),
    {
        match self.accounts.get(&account) {
            Some(funds) => funds.reserved,
            None => 0,
        }
    }

    /// What `account` holds, read out as a pair.
    fn funds_of(&self, account: u64) -> (r: Funds)
        ensures
            r.free == self.free_of(account),
            r.reserved == self.reserved_of(account),
    {
        match self.accounts.get(&account) {
            Some(funds) => *funds,
            None => Funds { free: 0, reserved: 0 },
        }
    }

    /// Moves `amount` of free balance from `from` to `to`.
    ///
    /// Fails with `InsufficientFunds` when `from` holds less than `amount`
    /// free, and with `CounterOverflow` when `to` could not hold the incoming
    /// amount; either failure changes nothing. A transfer to oneself that
    /// succeeds changes nothing either.
    pub fn transfer(&mut self, from: u64, to: u64, amount: u64) -> (r: Result<(), LendingError>)
        requires
            old(self).wf(),
        ensures
            final(self).wf(),
            transfer_post(*old(self), *final(self), from, to, amount, r),
    {
        let from_funds = self.funds_of(from);
        if from_funds.free < amount {
            return Err(LendingError::InsufficientFunds);
        }
        if from == to {
            return Ok(());
        }
        let to_funds = self.funds_of(to);
        if (to_funds.free as u128) + (to_funds.reserved as u128) + (amount as u128)
            > u64::MAX as u128 {
            return Err(LendingError::CounterOverflow);
        }
        self.accounts.insert(
            from,
            Funds { free: from_funds.free - amount, reserved: from_funds.reserved },
        );
        self.accounts.insert(
            to,
            Funds { free: to_funds.free + amount, reserved: to_funds.reserved },
        );
        proof {
            assert forall|a: u64|
                #![trigger self.free_of(a)]
                self.free_of(a) + self.reserved_of(a) <= u64::MAX by {
                if a != from && a != to {
                    assert(old(self).free_of(a) + old(self).reserved_of(a) <= u64::MAX);
                }
            }
        }
        Ok(())
    }

    /// Moves `amount` from the free to the reserved balance of `account`,
    /// holding it as collateral. Fails with `InsufficientFunds`, changing
    /// nothing, exactly when less than `amount` is free.
    pub fn reserve(&mut self, account: u64, amount: u64) -> (r: Result<(), LendingError>)
        requires
            old(self).wf(),
        ensures
            final(self).wf(),
            reserve_post(*old(self), *final(self), account, amount, r),
    {
        let funds = self.funds_of(account);
        if funds.free < amount {
            return Err(LendingError::InsufficientFunds);
        }
        self.accounts.insert(
            account,
            Funds { free: funds.free - amount, reserved: funds.reserved + amount },
        );
        proof {
            self.lemma_wf_after(*old(self), account);
        }
        Ok(())
    }

    /// Releases reserved balance of `account` back to its free balance:
    /// `amount` of it, or all of it when less than `amount` is reserved.
    /// Never fails.
    pub fn unreserve(&mut self, account: u64, amount: u64)
        requires
            old(self).wf(),
        ensures
            final(self).wf(),
            unreserve_post(*old(self), *final(self), account, amount),
    {
        let funds = self.funds_of(account);
        let moved: u64 = if amount < funds.reserved {
            amount
        } else {
            funds.reserved
        };
        self.accounts.insert(
            account,
            Funds { free: funds.free + moved, reserved: funds.reserved - moved },
        );
        proof {
            self.lemma_wf_after(*old(self), account);
        }
    }
}

/// Two ledgers hold the same funds on every account.
pub open spec fn funds_eq(l1: Ledger, l2: Ledger) -> bool {
    forall|a: u64|
        #![trigger l2.free_of(a)]
        #![trigger l2.reserved_of(a)]
        l2.free_of(a) == l1.free_of(a) && l2.reserved_of(a) == l1.reserved_of(a)
}

/// `post` differs from `pre` at most on `account`.
pub open spec fn untouched_except(pre: Ledger, post: Ledger, account: u64) -> bool {
    forall|a: u64|
        #![trigger post.free_of(a)]
        #![trigger post.reserved_of(a)]
        a != account ==> post.free_of(a) == pre.free_of(a) && post.reserved_of(a)
            == pre.reserved_of(a)
}

/// Whether a transfer is accepted: the payer can cover it, and the receiver
/// can hold it.
pub open spec fn transfer_ok(l: Ledger, from: u64, to: u64, amount: u64) -> bool {
    &&& l.free_of(from) >= amount
    &&& (from != to ==> l.free_of(to) + l.reserved_of(to) + amount <= u64::MAX)
}

/// The error a refused transfer reports: the payer's shortfall outranks the
/// receiver's want of capacity.
pub open spec fn transfer_err(l: Ledger, from: u64, to: u64, amount: u64) -> LendingError {
    if l.free_of(from) < amount {
        LendingError::InsufficientFunds
    } else {
        LendingError::CounterOverflow
    }
}

/// What an accepted transfer does to the funds. A transfer to oneself moves
/// nothing.
pub open spec fn transfer_effect(
    pre: Ledger,
    post: Ledger,
    from: u64,
    to: u64,
    amount: u64,
) -> bool {
    if from == to {
        funds_eq(pre, post)
    } else {
        &&& post.free_of(from) == pre.free_of(from) - amount
        &&& post.free_of(to) == pre.free_of(to) + amount
        &&& post.reserved_of(from) == pre.reserved_of(from)
        &&& post.reserved_of(to) == pre.reserved_of(to)
        &&& forall|a: u64|
            #![trigger post.free_of(a)]
            #![trigger post.reserved_of(a)]
            a != from && a != to ==> post.free_of(a) == pre.free_of(a) && post.reserved_of(a)
                == pre.reserved_of(a)
    }
}

/// What `transfer` does, for every outcome.
pub open spec fn transfer_post(
    pre: Ledger,
    post: Ledger,
    from: u64,
    to: u64,
    amount: u64,
    r: Result<(), LendingError>,
) -> bool {
    if transfer_ok(pre, from, to, amount) {
        r == Ok::<(), LendingError>(()) && transfer_effect(pre, post, from, to, amount)
    } else {
        r == Err::<(), LendingError>(transfer_err(pre, from, to, amount)) && funds_eq(pre, post)
    }
}

/// What `reserve` does, for every outcome.
pub open spec fn reserve_post(
    pre: Ledger,
    post: Ledger,
    account: u64,
    amount: u64,
    r: Result<(), LendingError>,
) -> bool {
    if pre.free_of(account) < amount {
        r == Err::<(), LendingError>(LendingError::InsufficientFunds) && funds_eq(pre, post)
    } else {
        &&& r == Ok::<(), LendingError>(())
        &&& post.free_of(account) == pre.free_of(account) - amount
        &&& post.reserved_of(account) == pre.reserved_of(account) + amount
        &&& untouched_except(pre, post, account)
    }
}

/// What `unreserve` does: it releases `amount`, capped at what is reserved.
pub open spec fn unreserve_post(pre: Ledger, post: Ledger, account: u64, amount: u64) -> bool {
    let moved: int = if amount < pre.reserved_of(account) {
        amount as int
    } else {
        pre.reserved_of(account) as int
    };
    &&& post.free_of(account) == pre.free_of(account) + moved
    &&& post.reserved_of(account) == pre.reserved_of(account) - moved
    &&& untouched_except(pre, post, account)
}

} // verus!
