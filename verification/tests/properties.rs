//! Scenario tests: compounding arithmetic, the overflow and underflow
//! guards, atomicity on failure, and the full concrete scenario.

use lending_pool::errors::LendingError;
use lending_pool::ledger::Ledger;
use lending_pool::pool::LendingPool;
use lending_pool::position::{Direction, Position};

fn build() -> LendingPool {
    let mut ledger = Ledger::new();
    assert!(ledger.set_balance(1, 1_000_000, 0).is_ok());
    assert!(ledger.set_balance(2, 1_000_000, 0).is_ok());
    assert!(ledger.set_balance(3, 1_000_000, 0).is_ok());
    assert!(ledger.set_balance(4, 1_000_000, 0).is_ok());
    LendingPool::new(1, ledger)
}

#[test]
fn one_tick_compounds_supply_by_one_percent() {
    let mut pool = build();
    assert!(pool.deposit(2, 100).is_ok());
    assert!(pool.tick().is_ok());
    // 100 + truncate(0.01 * 100) = 101
    assert_eq!(pool.user_balance(2).balance, 101);
    assert_eq!(pool.total_supply(), 101);
}

#[test]
fn n_ticks_apply_the_step_n_times() {
    let mut pool = build();
    assert!(pool.deposit(2, 100).is_ok());
    assert!(pool.tick().is_ok());
    assert!(pool.tick().is_ok());
    // 100 -> 101 -> 101 + truncate(1.01) = 102: one step per tick, not a
    // closed-form power formula.
    assert_eq!(pool.user_balance(2).balance, 102);
    assert_eq!(pool.clock(), 2);
}

#[test]
fn borrow_compounds_at_three_percent() {
    let mut pool = build();
    assert!(pool.borrow(2, 100).is_ok());
    assert!(pool.tick().is_ok());
    assert_eq!(pool.user_balance(2).balance, 103);
    assert!(pool.tick().is_ok());
    // 103 + truncate(3.09) = 106
    assert_eq!(pool.user_balance(2).balance, 106);
    assert_eq!(pool.total_borrow(), 106);
}

#[test]
fn accrual_truncates_toward_zero() {
    let mut pool = build();
    assert!(pool.deposit(2, 50).is_ok());
    assert!(pool.deposit(3, 150).is_ok());
    assert!(pool.tick().is_ok());
    // 0.5 truncates to nothing, 1.5 truncates to 1.
    assert_eq!(pool.user_balance(2).balance, 50);
    assert_eq!(pool.user_balance(3).balance, 151);
    assert_eq!(pool.total_supply(), 201);
}

#[test]
fn deposit_records_the_opening_tick() {
    let mut pool = build();
    assert!(pool.tick().is_ok());
    assert!(pool.tick().is_ok());
    assert!(pool.deposit(2, 100).is_ok());
    assert_eq!(pool.user_balance(2).opened_at, 2);
}

#[test]
fn deposit_at_counter_maximum_overflows_and_changes_nothing() {
    let mut ledger = Ledger::new();
    assert!(ledger.set_balance(2, u64::MAX, 0).is_ok());
    assert!(ledger.set_balance(3, 10, 0).is_ok());
    let mut pool = LendingPool::new(1, ledger);
    assert!(pool.deposit(2, u64::MAX).is_ok());
    assert_eq!(pool.total_supply(), u64::MAX);
    assert_eq!(pool.deposit(3, 1), Err(LendingError::CounterOverflow));
    assert_eq!(pool.user_count(), 1);
    assert!(!pool.has_position(3));
    assert_eq!(pool.total_supply(), u64::MAX);
    assert_eq!(pool.free_balance(3), 10);
}

#[test]
fn lifecycle_round_trip_restores_count_and_funds() {
    let mut pool = build();
    let count_before = pool.user_count();
    assert!(pool.deposit(2, 100).is_ok());
    assert!(pool.withdraw_in_full(2).is_ok());
    assert_eq!(pool.user_count(), count_before);
    assert!(!pool.has_position(2));
    assert_eq!(pool.free_balance(2), 1_000_000);
    assert_eq!(pool.free_balance(1), 1_000_000);
    assert_eq!(pool.total_supply(), 0);
}

#[test]
fn swap_removal_mid_list_at_pool_level() {
    let mut pool = build();
    assert!(pool.deposit(2, 100).is_ok());
    assert!(pool.deposit(3, 100).is_ok());
    assert!(pool.deposit(4, 100).is_ok());
    assert!(pool.withdraw_in_full(3).is_ok());
    // The last entry was moved into the vacated middle slot.
    assert_eq!(pool.user_count(), 2);
    assert_eq!(pool.user_array(0), 2);
    assert_eq!(pool.user_array(1), 4);
    assert_eq!(pool.user_array(2), 0);
}

#[test]
fn withdraw_on_borrow_position_is_wrong_direction() {
    let mut pool = build();
    assert!(pool.borrow(2, 100).is_ok());
    assert_eq!(pool.withdraw_in_full(2), Err(LendingError::WrongDirection));
    assert!(pool.has_position(2));
}

#[test]
fn repay_on_supply_position_is_wrong_direction() {
    let mut pool = build();
    assert!(pool.deposit(2, 100).is_ok());
    assert_eq!(pool.repay_in_full(2), Err(LendingError::WrongDirection));
    assert!(pool.has_position(2));
}

#[test]
fn repay_without_position_fails() {
    let mut pool = build();
    assert_eq!(pool.repay_in_full(2), Err(LendingError::NoPosition));
}

#[test]
fn deposit_without_funds_is_insufficient() {
    let mut pool = build();
    // Account 9 holds nothing on the ledger.
    assert_eq!(pool.deposit(9, 100), Err(LendingError::InsufficientFunds));
    assert!(!pool.has_position(9));
    assert_eq!(pool.user_count(), 0);
}

#[test]
fn borrow_without_collateral_is_insufficient() {
    let mut pool = build();
    assert_eq!(pool.borrow(9, 100), Err(LendingError::InsufficientFunds));
    assert!(!pool.has_position(9));
    assert_eq!(pool.reserved_balance(9), 0);
}

#[test]
fn withdraw_fails_atomically_when_the_provider_is_short() {
    let mut ledger = Ledger::new();
    assert!(ledger.set_balance(1, 0, 0).is_ok());
    assert!(ledger.set_balance(2, 100, 0).is_ok());
    let mut pool = LendingPool::new(1, ledger);
    assert!(pool.deposit(2, 100).is_ok());
    assert!(pool.tick().is_ok());
    // The position grew to 101 but the provider holds only the 100 paid in:
    // the withdrawal is refused and nothing changes.
    assert_eq!(pool.withdraw_in_full(2), Err(LendingError::InsufficientFunds));
    assert!(pool.has_position(2));
    assert_eq!(pool.user_balance(2).balance, 101);
    assert_eq!(pool.user_count(), 1);
    assert_eq!(pool.free_balance(1), 100);
    assert_eq!(pool.free_balance(2), 0);
}

#[test]
fn borrow_reserves_the_loan_amount_as_collateral() {
    let mut pool = build();
    assert!(pool.borrow(2, 100).is_ok());
    assert_eq!(pool.reserved_balance(2), 100);
    assert_eq!(pool.free_balance(2), 1_000_000);
    assert_eq!(pool.free_balance(1), 1_000_000 - 100);
    assert_eq!(pool.user_balance(2).reserved, 100);
    assert_eq!(pool.user_balance(2).direction, Direction::Borrowing);
}

#[test]
fn repay_releases_the_collateral() {
    let mut pool = build();
    assert!(pool.borrow(2, 100).is_ok());
    assert!(pool.tick().is_ok());
    assert!(pool.repay_in_full(2).is_ok());
    assert_eq!(pool.reserved_balance(2), 0);
    // The borrower paid 103 back out of free funds and got the 100 of
    // collateral released: 1_000_000 - 103 + 100.
    assert_eq!(pool.free_balance(2), 999_997);
    assert_eq!(pool.free_balance(1), 1_000_003);
    assert_eq!(pool.total_borrow(), 0);
}

#[test]
fn absent_account_reads_as_the_empty_position() {
    let pool = build();
    assert!(!pool.has_position(2));
    assert_eq!(pool.user_balance(2), Position::empty());
}

#[test]
fn concrete_scenario() {
    // Liquidity provider P is account 1; B is 2 and C is 3.
    let mut pool = build();
    assert!(pool.deposit(2, 100).is_ok());
    assert!(pool.deposit(3, 100).is_ok());
    assert_eq!(pool.user_count(), 2);
    assert_eq!(pool.total_supply(), 200);
    assert_eq!(pool.user_balance(2).direction, Direction::Supplying);
    assert_eq!(pool.user_balance(3).direction, Direction::Supplying);
    assert!(pool.withdraw_in_full(2).is_ok());
    assert_eq!(pool.user_count(), 1);
    assert!(!pool.has_position(2));
    // P took in 200 and paid 100 back out.
    assert_eq!(pool.free_balance(1), 1_000_100);
    // C cannot borrow while already holding a supply position.
    assert_eq!(pool.borrow(3, 100), Err(LendingError::DuplicatePosition));
    assert_eq!(pool.user_count(), 1);
}
