//! The lending pool: deposit, withdraw, borrow, repay and the periodic tick,
//! composed over the position store, the account registry, the pool counters
//! and the currency ledger.
//!
//! Every operation is atomic: all guards are checked, and the one fallible
//! ledger call is made, before the pool's own state is touched (the borrow
//! operation rolls its reservation back when the loan transfer is refused).
//! Each operation's contract is one transition predicate that pins down the
//! result and the whole state for every input.

use vstd::prelude::*;

use crate::counters::PoolCounters;
use crate::errors::LendingError;
use crate::interest::{accrued_of, compound, compound_fits, compounded};
use crate::ledger::{
    funds_eq, transfer_effect, transfer_err, transfer_ok, untouched_except, Ledger,
};
use crate::position::{Direction, Position, Rate};
use crate::registry::{swap_removed, AccountRegistry};
use crate::store::PositionStore;
use crate::totals::{
    contribution, lemma_contribution_le_total, lemma_total_insert_absent, lemma_total_push,
    lemma_total_remove_absent, lemma_total_swap_removed, lemma_total_take_le, total_of,
};

verus! {

/// The fixed rate of a supply position: one percent.
pub open spec fn supply_rate() -> Rate {
    Rate { parts: 10_000_000u32 }
}

/// The fixed rate of a borrow position: three percent.
pub open spec fn borrow_rate() -> Rate {
    Rate { parts: 30_000_000u32 }
}

/// The position a deposit of `amount` opens at time `now`.
pub open spec fn supply_position(amount: u64, now: u64) -> Position {
    Position {
        direction: Direction::Supplying,
        balance: amount,
        interest_rate: supply_rate(),
        opened_at: now,
        reserved: 0,
    }
}

/// The position a borrow of `amount` opens at time `now`: the borrowed amount
/// itself is held as collateral.
pub open spec fn borrow_position(amount: u64, now: u64) -> Position {
    Position {
        direction: Direction::Borrowing,
        balance: amount,
        interest_rate: borrow_rate(),
        opened_at: now,
        reserved: amount,
    }
}

/// The lending pool.
pub struct LendingPool {
    provider_account: u64,
    clock_ticks: u64,
    cash: Ledger,
    store: PositionStore,
    members: AccountRegistry,
    totals: PoolCounters,
}

impl LendingPool {
    /// The designated counterparty of every transfer, fixed at construction.
    pub closed spec fn provider(self) -> u64 {
        self.provider_account
    }

    /// The logical time: how many ticks have fired.
    pub closed spec fn now(self) -> u64 {
        self.clock_ticks
    }

    /// The currency ledger the pool moves funds on.
    pub closed spec fn ledger(self) -> Ledger {
        self.cash
    }

    /// The open positions, one per account.
    pub closed spec fn positions(self) -> Map<u64, Position> {
        self.store@
    }

    /// The registered accounts, in registry order.
    pub closed spec fn accounts(self) -> Seq<u64> {
        self.members@
    }

    /// The pool-wide totals.
    pub closed spec fn counters(self) -> PoolCounters {
        self.totals
    }

    /// The pool invariant: registry and ledger are well formed, exactly the
    /// registered accounts hold positions, every stored position is well
    /// formed, the ledger holds at least each borrow position's collateral,
    /// and each total is the sum of the open balances of its direction.
    pub closed spec fn wf(self) -> bool {
        &&& self.members.wf()
        &&& self.cash.wf()
        &&& forall|a: u64|
            #![trigger self.positions().contains_key(a)]
            #![trigger self.accounts().contains(a)]
            self.positions().contains_key(a) <==> self.accounts().contains(a)
        &&& forall|a: u64|
            #[trigger] self.positions().contains_key(a) ==> self.positions()[a].wf()
        &&& forall|a: u64|
            #[trigger] self.positions().contains_key(a) && self.positions()[a].direction
                == Direction::Borrowing ==> self.positions()[a].reserved <= self.cash.reserved_of(
                a,
            )
        &&& self.totals.total_supplied == total_of(
            self.accounts(),
            self.positions(),
            Direction::Supplying,
        )
        &&& self.totals.total_borrowed == total_of(
            self.accounts(),
            self.positions(),
            Direction::Borrowing,
        )
    }

    /// A pool over `ledger` with no open position, counterparty
    /// `liquidity_provider`, totals zero and the clock at zero.
    pub fn new(liquidity_provider: u64, ledger: Ledger) -> (r: LendingPool)
        requires
            ledger.wf(),
        ensures
            r.wf(),
            r.provider() == liquidity_provider,
            r.now() == 0,
            r.positions() == Map::<u64, Position>::empty(),
            r.accounts() == Seq::<u64>::empty(),
            r.counters().total_supplied == 0,
            r.counters().total_borrowed == 0,
            r.ledger() == ledger,
    {
        let r = LendingPool {
            provider_account: liquidity_provider,
            clock_ticks: 0,
            cash: ledger,
            store: PositionStore::new(),
            members: AccountRegistry::new(),
            totals: PoolCounters::new(),
        };
        proof {
            assert forall|a: u64| !r.accounts().contains(a) by {
                if r.accounts().contains(a) {
                    let i = choose|i: int| 0 <= i < r.accounts().len() && r.accounts()[i] == a;
                }
            }
        }
        r
    }

    /// The liquidity provider's account.
    pub fn liquidity_provider(&self) -> (r: u64)
        ensures
            r == self.provider(),
    {
        self.provider_account
    }

    /// The logical time: how many ticks have fired.
    pub fn clock(&self) -> (r: u64)
        ensures
            r == self.now(),
    {
        self.clock_ticks
    }

    /// The sum of the open supply balances.
    pub fn total_supply(&self) -> (r: u64)
        ensures
            r == self.counters().total_supplied,
    {
        self.totals.total_supplied
    }

    /// The sum of the open borrow balances.
    pub fn total_borrow(&self) -> (r: u64)
        ensures
            r == self.counters().total_borrowed,
    {
        self.totals.total_borrowed
    }

    /// How many accounts hold an open position.
    pub fn user_count(&self) -> (r: u64)
        requires
            self.wf(),
        ensures
            r == self.accounts().len(),
    {
        self.members.count()
    }

    /// Whether `account` holds an open position.
    pub fn has_position(&self, account: u64) -> (r: bool)
        ensures
            r == self.positions().contains_key(account),
    {
        self.store.contains(account)
    }

    /// The open position of `account`, or the zero-valued position when there
    /// is none; check `has_position` first.
    pub fn user_balance(&self, account: u64) -> (r: Position)
        ensures
            r == if self.positions().contains_key(account) {
                self.positions()[account]
            } else {
                Position::empty_spec()
            },
    {
        self.store.get(account)
    }

    /// The account in registry slot `i`, or zero past the end.
    pub fn user_array(&self, i: u64) -> (r: u64)
        requires
            self.wf(),
        ensures
            r == if i < self.accounts().len() {
                self.accounts()[i as int]
            } else {
                0
            },
    {
        match self.members.get(i) {
            Some(account) => account,
            None => 0,
        }
    }

    /// The free balance `account` holds on the ledger.
    pub fn free_balance(&self, account: u64) -> (r: u64)
        ensures
            r == self.ledger().free_of(account),
    {
        self.cash.free_balance(account)
    }

    /// The balance the ledger holds as collateral for `account`.
    pub fn reserved_balance(&self, account: u64) -> (r: u64)
        ensures
            r == self.ledger().reserved_of(account),
    {
        self.cash.reserved_balance(account)
    }
}

/// Nothing observable about the pool changed.
pub open spec fn pool_unchanged(pre: LendingPool, post: LendingPool) -> bool {
    &&& post.positions() == pre.positions()
    &&& post.accounts() == pre.accounts()
    &&& post.counters() == pre.counters()
    &&& post.provider() == pre.provider()
    &&& post.now() == pre.now()
    &&& funds_eq(pre.ledger(), post.ledger())
}

/// What `deposit` does, for every outcome.
pub open spec fn deposit_post(
    pre: LendingPool,
    post: LendingPool,
    account: u64,
    amount: u64,
    r: Result<(), LendingError>,
) -> bool {
    if pre.positions().contains_key(account) {
        r == Err::<(), LendingError>(LendingError::DuplicatePosition) && pool_unchanged(pre, post)
    } else if pre.counters().total_supplied + amount > u64::MAX || pre.accounts().len()
        == u64::MAX {
        r == Err::<(), LendingError>(LendingError::CounterOverflow) && pool_unchanged(pre, post)
    } else if !transfer_ok(pre.ledger(), account, pre.provider(), amount) {
        r == Err::<(), LendingError>(transfer_err(pre.ledger(), account, pre.provider(), amount))
            && pool_unchanged(pre, post)
    } else {
        &&& r == Ok::<(), LendingError>(())
        &&& post.positions() == pre.positions().insert(
            account,
            supply_position(amount, pre.now()),
        )
        &&& post.accounts() == pre.accounts().push(account)
        &&& post.accounts().len() == pre.accounts().len() + 1
        &&& post.counters().total_supplied == pre.counters().total_supplied + amount
        &&& post.counters().total_borrowed == pre.counters().total_borrowed
        &&& transfer_effect(pre.ledger(), post.ledger(), account, pre.provider(), amount)
        &&& post.provider() == pre.provider()
        &&& post.now() == pre.now()
    }
}

impl LendingPool {
    /// Opens a supply position of `amount` for `account` at the fixed supply
    /// rate, registers the account, adds `amount` to the supplied total, and
    /// moves `amount` from the account to the liquidity provider.
    ///
    /// Fails with `DuplicatePosition` while the account holds any open
    /// position, with `CounterOverflow` when the supplied total or the
    /// registry count would leave the representable range, and with the
    /// ledger's own error when the transfer is refused; any failure leaves
    /// the pool unchanged.
    pub fn deposit(&mut self, account: u64, amount: u64) -> (r: Result<(), LendingError>)
        requires
            old(self).wf(),
        ensures
            final(self).wf(),
            deposit_post(*old(self), *final(self), account, amount, r),
    {
        if self.store.contains(account) {
            return Err(LendingError::DuplicatePosition);
        }
        if amount > u64::MAX - self.totals.total_supplied {
            return Err(LendingError::CounterOverflow);
        }
        if self.members.count() == u64::MAX {
            return Err(LendingError::CounterOverflow);
        }
        let provider = self.provider_account;
        match self.cash.transfer(account, provider, amount) {
            Err(e) => {
                return Err(e);
            },
            Ok(()) => {},
        }
        let position = Position {
            direction: Direction::Supplying,
            balance: amount,
            interest_rate: Rate::from_percent(1),
            opened_at: self.clock_ticks,
            reserved: 0,
        };
        self.store.insert(account, position);
        match self.members.add(account) {
            Ok(_) => {},
            Err(_) => {
                return vstd::pervasive::unreached();
            },
        }
        match self.totals.add_supplied(amount) {
            Ok(()) => {},
            Err(_) => {
                return vstd::pervasive::unreached();
            },
        }
        proof {
            self.lemma_wf_after_open(*old(self), account, position);
        }
        Ok(())
    }

    /// Re-establishes the invariant after a position was opened: the store
    /// gained `position` under `account`, the registry gained `account` at the
    /// end, the matching total grew by the position's balance, and the ledger
    /// kept every reserved balance at least as large as before.
    proof fn lemma_wf_after_open(self, pre: LendingPool, account: u64, position: Position)
        requires
            pre.wf(),
            !pre.positions().contains_key(account),
            position.wf(),
            self.members.wf(),
            self.cash.wf(),
            self.positions() == pre.positions().insert(account, position),
            self.accounts() == pre.accounts().push(account),
            forall|a: u64|
                #[trigger] self.cash.reserved_of(a) >= pre.cash.reserved_of(a),
            position.direction == Direction::Borrowing ==> position.reserved
                <= self.cash.reserved_of(account),
            self.totals.total_supplied == pre.totals.total_supplied + contribution(
                self.positions(),
                account,
                Direction::Supplying,
            ),
            self.totals.total_borrowed == pre.totals.total_borrowed + contribution(
                self.positions(),
                account,
                Direction::Borrowing,
            ),
        ensures
            self.wf(),
    {
        assert(!pre.accounts().contains(account));
        assert forall|a: u64|
            self.positions().contains_key(a) <==> self.accounts().contains(a) by {
            if a == account {
                assert(self.accounts()[pre.accounts().len() as int] == account);
            } else {
                if self.accounts().contains(a) {
                    let i = choose|i: int|
                        0 <= i < self.accounts().len() && self.accounts()[i] == a;
                    assert(pre.accounts()[i] == a);
                }
                if pre.accounts().contains(a) {
                    let i = choose|i: int| 0 <= i < pre.accounts().len() && pre.accounts()[i] == a;
                    assert(self.accounts()[i] == a);
                }
            }
        }
        assert forall|a: u64| #[trigger] self.positions().contains_key(a) implies self.positions()[a].wf() by {
            if a != account {
                assert(pre.positions()[a].wf());
            }
        }
        assert forall|a: u64|
            #[trigger] self.positions().contains_key(a) && self.positions()[a].direction
                == Direction::Borrowing implies self.positions()[a].reserved
            <= self.cash.reserved_of(a) by {
            if a == account {
                assert(self.positions()[account] == position);
            } else {
                assert(pre.positions()[a].reserved <= pre.cash.reserved_of(a));
                assert(self.cash.reserved_of(a) >= pre.cash.reserved_of(a));
            }
        }
        lemma_total_insert_absent(
            pre.accounts(),
            pre.positions(),
            Direction::Supplying,
            account,
            position,
        );
        lemma_total_insert_absent(
            pre.accounts(),
            pre.positions(),
            Direction::Borrowing,
            account,
            position,
        );
        lemma_total_push(pre.accounts(), self.positions(), Direction::Supplying, account);
        lemma_total_push(pre.accounts(), self.positions(), Direction::Borrowing, account);
    }

    /// Re-establishes the invariant after a position was closed: the store
    /// lost `account`, the registry removed it by swap-with-last, the matching
    /// total shrank by the closed balance, and no other account lost reserved
    /// balance.
    proof fn lemma_wf_after_close(self, pre: LendingPool, account: u64)
        requires
            pre.wf(),
            pre.positions().contains_key(account),
            self.members.wf(),
            self.cash.wf(),
            self.positions() == pre.positions().remove(account),
            self.accounts() == swap_removed(pre.accounts(), account),
            !self.accounts().contains(account),
            forall|b: u64|
                b != account ==> self.accounts().contains(b) == pre.accounts().contains(b),
            forall|a: u64|
                a != account ==> #[trigger] self.cash.reserved_of(a) >= pre.cash.reserved_of(a),
            self.totals.total_supplied == pre.totals.total_supplied - contribution(
                pre.positions(),
                account,
                Direction::Supplying,
            ),
            self.totals.total_borrowed == pre.totals.total_borrowed - contribution(
                pre.positions(),
                account,
                Direction::Borrowing,
            ),
        ensures
            self.wf(),
    {
        assert(pre.accounts().contains(account));
        assert forall|a: u64|
            self.positions().contains_key(a) <==> self.accounts().contains(a) by {
            if a != account {
                assert(pre.positions().contains_key(a) <==> pre.accounts().contains(a));
            }
        }
        assert forall|a: u64| #[trigger] self.positions().contains_key(a) implies self.positions()[a].wf() by {
            assert(pre.positions()[a].wf());
        }
        assert forall|a: u64|
            #[trigger] self.positions().contains_key(a) && self.positions()[a].direction
                == Direction::Borrowing implies self.positions()[a].reserved
            <= self.cash.reserved_of(a) by {
            assert(pre.positions()[a].reserved <= pre.cash.reserved_of(a));
        }
        lemma_total_swap_removed(pre.accounts(), pre.positions(), Direction::Supplying, account);
        lemma_total_swap_removed(pre.accounts(), pre.positions(), Direction::Borrowing, account);
        lemma_total_remove_absent(self.accounts(), pre.positions(), Direction::Supplying, account);
        lemma_total_remove_absent(self.accounts(), pre.positions(), Direction::Borrowing, account);
    }
}

/// What `withdraw_in_full` does, for every outcome.
pub open spec fn withdraw_post(
    pre: LendingPool,
    post: LendingPool,
    account: u64,
    r: Result<(), LendingError>,
) -> bool {
    let balance = pre.positions()[account].balance;
    if !pre.positions().contains_key(account) {
        r == Err::<(), LendingError>(LendingError::NoPosition) && pool_unchanged(pre, post)
    } else if pre.positions()[account].direction != Direction::Supplying {
        r == Err::<(), LendingError>(LendingError::WrongDirection) && pool_unchanged(pre, post)
    } else if !transfer_ok(pre.ledger(), pre.provider(), account, balance) {
        r == Err::<(), LendingError>(transfer_err(pre.ledger(), pre.provider(), account, balance))
            && pool_unchanged(pre, post)
    } else {
        &&& r == Ok::<(), LendingError>(())
        &&& post.positions() == pre.positions().remove(account)
        &&& post.accounts() == swap_removed(pre.accounts(), account)
        &&& post.accounts().len() == pre.accounts().len() - 1
        &&& !post.positions().contains_key(account)
        &&& post.counters().total_supplied == pre.counters().total_supplied - balance
        &&& post.counters().total_borrowed == pre.counters().total_borrowed
        &&& transfer_effect(pre.ledger(), post.ledger(), pre.provider(), account, balance)
        &&& post.provider() == pre.provider()
        &&& post.now() == pre.now()
    }
}

/// Whether a borrow's two ledger steps — reserving the collateral, then
/// moving the loan from the provider — are both accepted.
pub open spec fn borrow_funds_ok(l: Ledger, provider: u64, account: u64, amount: u64) -> bool {
    &&& l.free_of(account) >= amount
    &&& if provider == account {
        l.free_of(account) - amount >= amount
    } else {
        l.free_of(provider) >= amount && l.free_of(account) + l.reserved_of(account) + amount
            <= u64::MAX
    }
}

/// The error a refused borrow's ledger steps report.
pub open spec fn borrow_funds_err(l: Ledger, provider: u64, account: u64, amount: u64) -> LendingError {
    if l.free_of(account) < amount {
        LendingError::InsufficientFunds
    } else if provider == account {
        LendingError::InsufficientFunds
    } else if l.free_of(provider) < amount {
        LendingError::InsufficientFunds
    } else {
        LendingError::CounterOverflow
    }
}

/// What an accepted borrow does to the funds: the account's collateral grows
/// by `amount`, the loan leaves the provider, and — the loan refilling what
/// the reservation took — the account's free balance stays put.
pub open spec fn borrow_funds_effect(
    pre: Ledger,
    post: Ledger,
    provider: u64,
    account: u64,
    amount: u64,
) -> bool {
    if provider == account {
        &&& post.free_of(account) == pre.free_of(account) - amount
        &&& post.reserved_of(account) == pre.reserved_of(account) + amount
        &&& untouched_except(pre, post, account)
    } else {
        &&& post.free_of(account) == pre.free_of(account)
        &&& post.reserved_of(account) == pre.reserved_of(account) + amount
        &&& post.free_of(provider) == pre.free_of(provider) - amount
        &&& post.reserved_of(provider) == pre.reserved_of(provider)
        &&& forall|a: u64|
            #![trigger post.free_of(a)]
            #![trigger post.reserved_of(a)]
            a != account && a != provider ==> post.free_of(a) == pre.free_of(a)
                && post.reserved_of(a) == pre.reserved_of(a)
    }
}

/// What `borrow` does, for every outcome.
pub open spec fn borrow_post(
    pre: LendingPool,
    post: LendingPool,
    account: u64,
    amount: u64,
    r: Result<(), LendingError>,
) -> bool {
    if pre.positions().contains_key(account) {
        r == Err::<(), LendingError>(LendingError::DuplicatePosition) && pool_unchanged(pre, post)
    } else if pre.counters().total_borrowed + amount > u64::MAX || pre.accounts().len()
        == u64::MAX {
        r == Err::<(), LendingError>(LendingError::CounterOverflow) && pool_unchanged(pre, post)
    } else if !borrow_funds_ok(pre.ledger(), pre.provider(), account, amount) {
        r == Err::<(), LendingError>(borrow_funds_err(pre.ledger(), pre.provider(), account, amount))
            && pool_unchanged(pre, post)
    } else {
        &&& r == Ok::<(), LendingError>(())
        &&& post.positions() == pre.positions().insert(
            account,
            borrow_position(amount, pre.now()),
        )
        &&& post.accounts() == pre.accounts().push(account)
        &&& post.accounts().len() == pre.accounts().len() + 1
        &&& post.counters().total_borrowed == pre.counters().total_borrowed + amount
        &&& post.counters().total_supplied == pre.counters().total_supplied
        &&& borrow_funds_effect(pre.ledger(), post.ledger(), pre.provider(), account, amount)
        &&& post.provider() == pre.provider()
        &&& post.now() == pre.now()
    }
}

/// What an accepted repayment does to the funds: the balance moves to the
/// provider and the collateral is released back to the account.
pub open spec fn repay_funds_effect(
    pre: Ledger,
    post: Ledger,
    provider: u64,
    account: u64,
    amount: u64,
    collateral: u64,
) -> bool {
    if provider == account {
        &&& post.free_of(account) == pre.free_of(account) + collateral
        &&& post.reserved_of(account) == pre.reserved_of(account) - collateral
        &&& untouched_except(pre, post, account)
    } else {
        &&& post.free_of(account) == pre.free_of(account) - amount + collateral
        &&& post.reserved_of(account) == pre.reserved_of(account) - collateral
        &&& post.free_of(provider) == pre.free_of(provider) + amount
        &&& post.reserved_of(provider) == pre.reserved_of(provider)
        &&& forall|a: u64|
            #![trigger post.free_of(a)]
            #![trigger post.reserved_of(a)]
            a != account && a != provider ==> post.free_of(a) == pre.free_of(a)
                && post.reserved_of(a) == pre.reserved_of(a)
    }
}

/// What `repay_in_full` does, for every outcome.
pub open spec fn repay_post(
    pre: LendingPool,
    post: LendingPool,
    account: u64,
    r: Result<(), LendingError>,
) -> bool {
    let balance = pre.positions()[account].balance;
    let collateral = pre.positions()[account].reserved;
    if !pre.positions().contains_key(account) {
        r == Err::<(), LendingError>(LendingError::NoPosition) && pool_unchanged(pre, post)
    } else if pre.positions()[account].direction != Direction::Borrowing {
        r == Err::<(), LendingError>(LendingError::WrongDirection) && pool_unchanged(pre, post)
    } else if !transfer_ok(pre.ledger(), account, pre.provider(), balance) {
        r == Err::<(), LendingError>(transfer_err(pre.ledger(), account, pre.provider(), balance))
            && pool_unchanged(pre, post)
    } else {
        &&& r == Ok::<(), LendingError>(())
        &&& post.positions() == pre.positions().remove(account)
        &&& post.accounts() == swap_removed(pre.accounts(), account)
        &&& post.accounts().len() == pre.accounts().len() - 1
        &&& !post.positions().contains_key(account)
        &&& post.counters().total_borrowed == pre.counters().total_borrowed - balance
        &&& post.counters().total_supplied == pre.counters().total_supplied
        &&& repay_funds_effect(
            pre.ledger(),
            post.ledger(),
            pre.provider(),
            account,
            balance,
            collateral,
        )
        &&& post.provider() == pre.provider()
        &&& post.now() == pre.now()
    }
}

impl LendingPool {
    /// Closes `account`'s supply position: moves the stored balance —
    /// principal plus accrued interest — from the liquidity provider back to
    /// the account, removes the account from registry and store together, and
    /// takes the balance out of the supplied total.
    ///
    /// Fails with `NoPosition` when nothing is open, with `WrongDirection` on
    /// a borrow position, and with the ledger's own error when the transfer
    /// is refused; any failure leaves the pool unchanged.
    pub fn withdraw_in_full(&mut self, account: u64) -> (r: Result<(), LendingError>)
        requires
            old(self).wf(),
        ensures
            final(self).wf(),
            withdraw_post(*old(self), *final(self), account, r),
    {
        if !self.store.contains(account) {
            return Err(LendingError::NoPosition);
        }
        let position = self.store.get(account);
        if position.direction != Direction::Supplying {
            return Err(LendingError::WrongDirection);
        }
        let outgoing = position.balance;
        let provider = self.provider_account;
        match self.cash.transfer(provider, account, outgoing) {
            Err(e) => {
                return Err(e);
            },
            Ok(()) => {},
        }
        self.store.remove(account);
        match self.members.remove(account) {
            Ok(()) => {},
            Err(_) => {
                return vstd::pervasive::unreached();
            },
        }
        proof {
            lemma_contribution_le_total(
                old(self).accounts(),
                old(self).positions(),
                Direction::Supplying,
                account,
            );
        }
        match self.totals.sub_supplied(outgoing) {
            Ok(()) => {},
            Err(_) => {
                return vstd::pervasive::unreached();
            },
        }
        proof {
            self.lemma_wf_after_close(*old(self), account);
        }
        Ok(())
    }

    /// Opens a borrow position of `amount` for `account` at the fixed borrow
    /// rate: reserves `amount` of the account's own funds as collateral,
    /// moves the loan from the liquidity provider to the account, registers
    /// the account and adds `amount` to the borrowed total. When the loan
    /// transfer is refused the reservation is rolled back, so the pool is
    /// unchanged.
    ///
    /// Fails with `DuplicatePosition` while the account holds any open
    /// position, with `CounterOverflow` when the borrowed total or the
    /// registry count would leave the representable range, and with the
    /// ledger's own error when a ledger step is refused.
    pub fn borrow(&mut self, account: u64, amount: u64) -> (r: Result<(), LendingError>)
        requires
            old(self).wf(),
        ensures
            final(self).wf(),
            borrow_post(*old(self), *final(self), account, amount, r),
    {
        if self.store.contains(account) {
            return Err(LendingError::DuplicatePosition);
        }
        if amount > u64::MAX - self.totals.total_borrowed {
            return Err(LendingError::CounterOverflow);
        }
        if self.members.count() == u64::MAX {
            return Err(LendingError::CounterOverflow);
        }
        match self.cash.reserve(account, amount) {
            Err(e) => {
                return Err(e);
            },
            Ok(()) => {},
        }
        let ghost reserved_ledger = self.cash;
        let provider = self.provider_account;
        match self.cash.transfer(provider, account, amount) {
            Err(e) => {
                let ghost refused_ledger = self.cash;
                self.cash.unreserve(account, amount);
                proof {
                    assert forall|a: u64|
                        #![trigger self.cash.free_of(a)]
                        #![trigger self.cash.reserved_of(a)]
                        self.cash.free_of(a) == old(self).cash.free_of(a)
                            && self.cash.reserved_of(a) == old(self).cash.reserved_of(a) by {
                        assert(refused_ledger.free_of(a) == reserved_ledger.free_of(a));
                        assert(refused_ledger.reserved_of(a) == reserved_ledger.reserved_of(a));
                    }
                }
                return Err(e);
            },
            Ok(()) => {},
        }
        let position = Position {
            direction: Direction::Borrowing,
            balance: amount,
            interest_rate: Rate::from_percent(3),
            opened_at: self.clock_ticks,
            reserved: amount,
        };
        self.store.insert(account, position);
        match self.members.add(account) {
            Ok(_) => {},
            Err(_) => {
                return vstd::pervasive::unreached();
            },
        }
        match self.totals.add_borrowed(amount) {
            Ok(()) => {},
            Err(_) => {
                return vstd::pervasive::unreached();
            },
        }
        proof {
            assert forall|a: u64| #[trigger] self.cash.reserved_of(a) >= old(
                self,
            ).cash.reserved_of(a) by {
                assert(reserved_ledger.reserved_of(a) >= old(self).cash.reserved_of(a));
            }
            self.lemma_wf_after_open(*old(self), account, position);
        }
        Ok(())
    }

    /// Closes `account`'s borrow position: moves the stored balance —
    /// principal plus accrued interest — from the account to the liquidity
    /// provider, releases the reserved collateral, removes the account from
    /// registry and store together, and takes the balance out of the borrowed
    /// total.
    ///
    /// Fails with `NoPosition` when nothing is open, with `WrongDirection` on
    /// a supply position, and with the ledger's own error when the transfer
    /// is refused; any failure leaves the pool unchanged.
    pub fn repay_in_full(&mut self, account: u64) -> (r: Result<(), LendingError>)
        requires
            old(self).wf(),
        ensures
            final(self).wf(),
            repay_post(*old(self), *final(self), account, r),
    {
        if !self.store.contains(account) {
            return Err(LendingError::NoPosition);
        }
        let position = self.store.get(account);
        if position.direction != Direction::Borrowing {
            return Err(LendingError::WrongDirection);
        }
        let outgoing = position.balance;
        let provider = self.provider_account;
        match self.cash.transfer(account, provider, outgoing) {
            Err(e) => {
                return Err(e);
            },
            Ok(()) => {},
        }
        self.cash.unreserve(account, position.reserved);
        self.store.remove(account);
        match self.members.remove(account) {
            Ok(()) => {},
            Err(_) => {
                return vstd::pervasive::unreached();
            },
        }
        proof {
            lemma_contribution_le_total(
                old(self).accounts(),
                old(self).positions(),
                Direction::Borrowing,
                account,
            );
        }
        match self.totals.sub_borrowed(outgoing) {
            Ok(()) => {},
            Err(_) => {
                return vstd::pervasive::unreached();
            },
        }
        proof {
            self.lemma_wf_after_close(*old(self), account);
        }
        Ok(())
    }
}

/// Every open position, stepped once by the interest engine.
pub open spec fn ticked_positions(positions: Map<u64, Position>) -> Map<u64, Position> {
    positions.map_values(|p: Position| compounded(p))
}

/// Whether one tick keeps every stepped balance, and both stepped totals,
/// representable.
pub open spec fn tick_fits(pre: LendingPool) -> bool {
    &&& forall|a: u64|
        #[trigger] pre.positions().contains_key(a) ==> compound_fits(pre.positions()[a])
    &&& total_of(pre.accounts(), ticked_positions(pre.positions()), Direction::Supplying)
        <= u64::MAX
    &&& total_of(pre.accounts(), ticked_positions(pre.positions()), Direction::Borrowing)
        <= u64::MAX
}

/// What `tick` does, for every outcome.
pub open spec fn tick_post(pre: LendingPool, post: LendingPool, r: Result<(), LendingError>) -> bool {
    if !tick_fits(pre) {
        r == Err::<(), LendingError>(LendingError::CounterOverflow) && pool_unchanged(pre, post)
    } else {
        &&& r == Ok::<(), LendingError>(())
        &&& post.positions() == ticked_positions(pre.positions())
        &&& post.accounts() == pre.accounts()
        &&& funds_eq(pre.ledger(), post.ledger())
        &&& post.counters().total_supplied == total_of(
            pre.accounts(),
            ticked_positions(pre.positions()),
            Direction::Supplying,
        )
        &&& post.counters().total_borrowed == total_of(
            pre.accounts(),
            ticked_positions(pre.positions()),
            Direction::Borrowing,
        )
        &&& post.provider() == pre.provider()
        &&& post.now() == if pre.now() == u64::MAX {
            u64::MAX as int
        } else {
            pre.now() + 1
        }
    }
}

impl LendingPool {
    /// Applies one compounding step to every open position, in registry
    /// order, adjusts both totals to match, and advances the clock (which
    /// saturates at its maximum).
    ///
    /// Overflow is fatal for the whole tick, never per account: when any
    /// stepped balance, or either stepped total, would leave the
    /// representable range, the tick fails with `CounterOverflow` and changes
    /// nothing. The registry is only read, so iteration works over a
    /// snapshot, as ticks never add or remove entries.
    pub fn tick(&mut self) -> (r: Result<(), LendingError>)
        requires
            old(self).wf(),
        ensures
            final(self).wf(),
            tick_post(*old(self), *final(self), r),
    {
        let snapshot = self.members.iterate();
        let n = snapshot.len();
        let ghost ticked = ticked_positions(old(self).positions());
        // Validation pass: step every balance and sum both new totals,
        // refusing the tick on any overflow before anything is written.
        let mut new_supplied: u64 = 0;
        let mut new_borrowed: u64 = 0;
        let mut i: usize = 0;
        while i < n
            invariant
                old(self).wf(),
                *self == *old(self),
                n == snapshot@.len(),
                snapshot@ == old(self).accounts(),
                i <= n,
                ticked == ticked_positions(old(self).positions()),
                forall|j: int|
                    0 <= j < i ==> compound_fits(
                        #[trigger] old(self).positions()[snapshot@[j]],
                    ),
                new_supplied == total_of(
                    snapshot@.take(i as int),
                    ticked,
                    Direction::Supplying,
                ),
                new_borrowed == total_of(
                    snapshot@.take(i as int),
                    ticked,
                    Direction::Borrowing,
                ),
            decreases n - i,
        {
            let account = snapshot[i];
            proof {
                assert(old(self).accounts().contains(account)) by {
                    assert(old(self).accounts()[i as int] == account);
                }
            }
            let position = self.store.get(account);
            match compound(&position) {
                None => {
                    return Err(LendingError::CounterOverflow);
                },
                Some(stepped) => {
                    proof {
                        assert(snapshot@.take(i as int + 1) =~= snapshot@.take(i as int).push(
                            account,
                        ));
                        lemma_total_push(
                            snapshot@.take(i as int),
                            ticked,
                            Direction::Supplying,
                            account,
                        );
                        lemma_total_push(
                            snapshot@.take(i as int),
                            ticked,
                            Direction::Borrowing,
                            account,
                        );
                        assert(ticked[account] == compounded(position));
                    }
                    if position.direction == Direction::Supplying {
                        match new_supplied.checked_add(stepped.balance) {
                            None => {
                                proof {
                                    lemma_total_take_le(
                                        snapshot@,
                                        ticked,
                                        Direction::Supplying,
                                        i as int + 1,
                                    );
                                }
                                return Err(LendingError::CounterOverflow);
                            },
                            Some(total) => {
                                new_supplied = total;
                            },
                        }
                    } else {
                        match new_borrowed.checked_add(stepped.balance) {
                            None => {
                                proof {
                                    lemma_total_take_le(
                                        snapshot@,
                                        ticked,
                                        Direction::Borrowing,
                                        i as int + 1,
                                    );
                                }
                                return Err(LendingError::CounterOverflow);
                            },
                            Some(total) => {
                                new_borrowed = total;
                            },
                        }
                    }
                },
            }
            i = i + 1;
        }
        proof {
            assert(snapshot@.take(n as int) =~= snapshot@);
            assert forall|a: u64| #[trigger] old(self).positions().contains_key(
                a,
            ) implies compound_fits(old(self).positions()[a]) by {
                assert(old(self).accounts().contains(a));
                let j = choose|j: int|
                    0 <= j < old(self).accounts().len() && old(self).accounts()[j] == a;
                assert(snapshot@[j] == a);
            }
            assert(tick_fits(*old(self)));
        }
        // Apply pass: write every stepped position back.
        let mut j: usize = 0;
        while j < n
            invariant
                old(self).wf(),
                tick_fits(*old(self)),
                n == snapshot@.len(),
                snapshot@ == old(self).accounts(),
                j <= n,
                self.members == old(self).members,
                self.cash == old(self).cash,
                self.totals == old(self).totals,
                self.provider_account == old(self).provider_account,
                self.clock_ticks == old(self).clock_ticks,
                forall|a: u64|
                    #[trigger] self.positions().contains_key(a) == old(
                        self,
                    ).positions().contains_key(a),
                forall|k: int|
                    0 <= k < n ==> self.positions()[#[trigger] snapshot@[k]] == (if k < j {
                        compounded(old(self).positions()[snapshot@[k]])
                    } else {
                        old(self).positions()[snapshot@[k]]
                    }),
            decreases n - j,
        {
            let account = snapshot[j];
            proof {
                old(self).members.lemma_no_duplicates();
                assert(old(self).accounts()[j as int] == account);
                assert(old(self).accounts().contains(account));
                assert(old(self).positions().contains_key(account));
                assert(self.positions()[account] == old(self).positions()[account]);
            }
            let position = self.store.get(account);
            match compound(&position) {
                Some(stepped) => {
                    self.store.insert(account, stepped);
                },
                None => {
                    return vstd::pervasive::unreached();
                },
            }
            proof {
                assert forall|k: int| 0 <= k < n implies self.positions()[
                    #[trigger] snapshot@[k]
                ] == (if k < j + 1 {
                    compounded(old(self).positions()[snapshot@[k]])
                } else {
                    old(self).positions()[snapshot@[k]]
                }) by {
                    if snapshot@[k] == account {
                        assert(k == j);
                    }
                }
            }
            j = j + 1;
        }
        // Publish the new totals and advance the clock.
        self.totals.total_supplied = new_supplied;
        self.totals.total_borrowed = new_borrowed;
        if self.clock_ticks < u64::MAX {
            self.clock_ticks = self.clock_ticks + 1;
        }
        proof {
            old(self).members.lemma_no_duplicates();
            assert(self.positions() =~= ticked) by {
                assert forall|a: u64| self.positions().contains_key(a) == ticked.contains_key(
                    a,
                ) by {}
                assert forall|a: u64| #[trigger] ticked.contains_key(a) implies self.positions()[a]
                    == ticked[a] by {
                    assert(old(self).positions().contains_key(a));
                    assert(old(self).accounts().contains(a));
                    let k = choose|k: int|
                        0 <= k < old(self).accounts().len() && old(self).accounts()[k] == a;
                    assert(snapshot@[k] == a);
                    assert(self.positions()[a] == compounded(old(self).positions()[a]));
                }
            }
            assert forall|a: u64| #[trigger] self.positions().contains_key(a) implies self.positions()[a].wf() by {
                assert(old(self).positions()[a].wf());
                assert(self.positions()[a] == compounded(old(self).positions()[a]));
            }
            assert forall|a: u64|
                #[trigger] self.positions().contains_key(a) && self.positions()[a].direction
                    == Direction::Borrowing implies self.positions()[a].reserved
                <= self.cash.reserved_of(a) by {
                assert(self.positions()[a] == compounded(old(self).positions()[a]));
                assert(old(self).positions()[a].reserved <= old(self).cash.reserved_of(a));
            }
            assert(self.wf());
        }
        Ok(())
    }
}

/// Law: an account holds at most one open position. Once a deposit or borrow
/// has opened one, a second deposit or borrow for the same account — of
/// either kind, in either order — fails with `DuplicatePosition` and changes
/// nothing.
pub proof fn lemma_single_position_per_account(
    p0: LendingPool,
    p1: LendingPool,
    p2: LendingPool,
    account: u64,
    first_amount: u64,
    second_amount: u64,
    second: Result<(), LendingError>,
)
    requires
        deposit_post(p0, p1, account, first_amount, Ok::<(), LendingError>(())) || borrow_post(
            p0,
            p1,
            account,
            first_amount,
            Ok::<(), LendingError>(()),
        ),
        deposit_post(p1, p2, account, second_amount, second) || borrow_post(
            p1,
            p2,
            account,
            second_amount,
            second,
        ),
    ensures
        second == Err::<(), LendingError>(LendingError::DuplicatePosition),
        pool_unchanged(p1, p2),
{
    assert(p1.positions().contains_key(account));
}

/// Law: a deposit immediately followed by a full withdrawal round-trips. The
/// withdrawal is owed success, the registry count returns to its pre-deposit
/// value, no position is left for the account, the totals return to their
/// pre-deposit values, and every ledger balance is restored.
pub proof fn lemma_lifecycle_round_trip(
    p0: LendingPool,
    p1: LendingPool,
    p2: LendingPool,
    account: u64,
    amount: u64,
    second: Result<(), LendingError>,
)
    requires
        p0.wf(),
        deposit_post(p0, p1, account, amount, Ok::<(), LendingError>(())),
        withdraw_post(p1, p2, account, second),
    ensures
        second == Ok::<(), LendingError>(()),
        p2.accounts().len() == p0.accounts().len(),
        !p2.positions().contains_key(account),
        p2.positions() == p0.positions(),
        p2.counters() == p0.counters(),
        funds_eq(p0.ledger(), p2.ledger()),
{
    let provider = p0.provider();
    assert(p1.positions()[account] == supply_position(amount, p0.now()));
    assert(transfer_ok(p1.ledger(), provider, account, amount)) by {
        if provider == account {
            assert(p1.ledger().free_of(account) == p0.ledger().free_of(account));
        } else {
            assert(p1.ledger().free_of(provider) == p0.ledger().free_of(provider) + amount);
            assert(p1.ledger().free_of(account) == p0.ledger().free_of(account) - amount);
            assert(p1.ledger().reserved_of(account) == p0.ledger().reserved_of(account));
            assert(p0.ledger().free_of(account) + p0.ledger().reserved_of(account) <= u64::MAX);
        }
    }
    assert(p2.positions() =~= p0.positions());
    assert(p2.counters() == p0.counters());
    assert forall|a: u64|
        #![trigger p2.ledger().free_of(a)]
        #![trigger p2.ledger().reserved_of(a)]
        p2.ledger().free_of(a) == p0.ledger().free_of(a) && p2.ledger().reserved_of(a)
            == p0.ledger().reserved_of(a) by {
        if provider == account {
            assert(p1.ledger().free_of(a) == p0.ledger().free_of(a));
            assert(p1.ledger().reserved_of(a) == p0.ledger().reserved_of(a));
        }
    }
}

/// Law: one tick applies exactly one compounding step to every open
/// position — the balance grows by the accrued interest once, whatever the
/// position's age, and rate, direction, opening time and collateral are kept.
/// Repeated ticks therefore iterate that single step.
pub proof fn lemma_tick_compounds_once(pre: LendingPool, post: LendingPool, account: u64)
    requires
        tick_post(pre, post, Ok::<(), LendingError>(())),
        pre.positions().contains_key(account),
    ensures
        post.positions().contains_key(account),
        post.positions()[account].balance == pre.positions()[account].balance + accrued_of(
            pre.positions()[account].balance,
            pre.positions()[account].interest_rate,
        ),
        post.positions()[account].interest_rate == pre.positions()[account].interest_rate,
        post.positions()[account].direction == pre.positions()[account].direction,
        post.positions()[account].opened_at == pre.positions()[account].opened_at,
        post.positions()[account].reserved == pre.positions()[account].reserved,
{
    assert(compound_fits(pre.positions()[account]));
    assert(post.positions()[account] == compounded(pre.positions()[account]));
}

} // verus!
