//! The lending pool's operation tests: one pool per test, with the liquidity
//! provider on account 1 and funded accounts 2, 3 and 4.

use lending_pool::errors::LendingError;
use lending_pool::ledger::Ledger;
use lending_pool::pool::LendingPool;

fn build() -> LendingPool {
    let mut ledger = Ledger::new();
    assert!(ledger.set_balance(1, 1_000_000, 0).is_ok());
    assert!(ledger.set_balance(2, 1_000_000, 0).is_ok());
    assert!(ledger.set_balance(3, 1_000_000, 0).is_ok());
    assert!(ledger.set_balance(4, 1_000_000, 0).is_ok());
    LendingPool::new(1, ledger)
}

#[test]
fn if_this_fails_something_is_wrong() {
    let _pool = build();
    assert!(true);
}

#[test]
fn user_can_make_a_deposit() {
    let mut pool = build();
    assert!(pool.deposit(2, 100).is_ok());
    assert!(pool.deposit(3, 100).is_ok());
}

#[test]
fn user_can_make_a_withdraw() {
    let mut pool = build();
    assert!(pool.deposit(2, 100).is_ok());
    assert!(pool.withdraw_in_full(2).is_ok());
}

#[test]
fn user_cant_withraw_without_deposit() {
    let mut pool = build();
    assert_eq!(pool.withdraw_in_full(2), Err(LendingError::NoPosition));
}

#[test]
fn check_liquidity_provider() {
    let pool = build();
    assert_eq!(pool.liquidity_provider(), 1);
}

#[test]
fn user_can_borrow() {
    let mut pool = build();
    assert!(pool.borrow(2, 100).is_ok());
}

#[test]
fn user_count_increments_when_supplying() {
    let mut pool = build();
    assert!(pool.deposit(2, 100).is_ok());
    assert_eq!(pool.user_count(), 1);
}

#[test]
fn user_count_decrements_when_withdrawing() {
    let mut pool = build();
    assert!(pool.deposit(2, 100).is_ok());
    assert_eq!(pool.user_count(), 1);
    assert!(pool.withdraw_in_full(2).is_ok());
    assert_eq!(pool.user_count(), 0);
}

#[test]
fn user_count_increments_when_borrowing() {
    let mut pool = build();
    assert!(pool.borrow(2, 100).is_ok());
    assert_eq!(pool.user_count(), 1);
}

#[test]
fn user_count_decrements_when_repaid() {
    let mut pool = build();
    assert!(pool.borrow(2, 100).is_ok());
    assert_eq!(pool.user_count(), 1);
    assert!(pool.repay_in_full(2).is_ok());
    assert_eq!(pool.user_count(), 0);
}

#[test]
fn user_cant_deposit_and_borrow() {
    let mut pool = build();
    assert!(pool.deposit(2, 100).is_ok());
    assert_eq!(pool.borrow(2, 100), Err(LendingError::DuplicatePosition));
}

#[test]
fn user_cant_borrow_and_deposit() {
    let mut pool = build();
    assert!(pool.borrow(2, 100).is_ok());
    assert_eq!(pool.deposit(2, 100), Err(LendingError::DuplicatePosition));
}
