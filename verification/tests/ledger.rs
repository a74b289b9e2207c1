//! The in-memory currency ledger on its own: transfers, reservations and
//! their failure modes.

use lending_pool::errors::LendingError;
use lending_pool::ledger::Ledger;

#[test]
fn transfer_moves_free_balance() {
    let mut ledger = Ledger::new();
    assert!(ledger.set_balance(1, 500, 0).is_ok());
    assert_eq!(ledger.transfer(1, 2, 200), Ok(()));
    assert_eq!(ledger.free_balance(1), 300);
    assert_eq!(ledger.free_balance(2), 200);
}

#[test]
fn transfer_without_funds_is_refused() {
    let mut ledger = Ledger::new();
    assert!(ledger.set_balance(1, 100, 0).is_ok());
    assert_eq!(ledger.transfer(1, 2, 101), Err(LendingError::InsufficientFunds));
    assert_eq!(ledger.free_balance(1), 100);
    assert_eq!(ledger.free_balance(2), 0);
}

#[test]
fn transfer_to_oneself_moves_nothing() {
    let mut ledger = Ledger::new();
    assert!(ledger.set_balance(1, 100, 0).is_ok());
    assert_eq!(ledger.transfer(1, 1, 50), Ok(()));
    assert_eq!(ledger.free_balance(1), 100);
}

#[test]
fn transfer_overfilling_the_receiver_is_refused() {
    let mut ledger = Ledger::new();
    assert!(ledger.set_balance(1, 100, 0).is_ok());
    assert!(ledger.set_balance(2, u64::MAX - 10, 0).is_ok());
    assert_eq!(ledger.transfer(1, 2, 11), Err(LendingError::CounterOverflow));
    assert_eq!(ledger.free_balance(1), 100);
    assert_eq!(ledger.free_balance(2), u64::MAX - 10);
}

#[test]
fn reserve_moves_free_to_reserved() {
    let mut ledger = Ledger::new();
    assert!(ledger.set_balance(1, 100, 0).is_ok());
    assert_eq!(ledger.reserve(1, 40), Ok(()));
    assert_eq!(ledger.free_balance(1), 60);
    assert_eq!(ledger.reserved_balance(1), 40);
}

#[test]
fn reserve_without_funds_is_refused() {
    let mut ledger = Ledger::new();
    assert!(ledger.set_balance(1, 30, 0).is_ok());
    assert_eq!(ledger.reserve(1, 40), Err(LendingError::InsufficientFunds));
    assert_eq!(ledger.free_balance(1), 30);
    assert_eq!(ledger.reserved_balance(1), 0);
}

#[test]
fn unreserve_is_capped_at_what_is_held() {
    let mut ledger = Ledger::new();
    assert!(ledger.set_balance(1, 100, 0).is_ok());
    assert_eq!(ledger.reserve(1, 40), Ok(()));
    ledger.unreserve(1, 1000);
    assert_eq!(ledger.free_balance(1), 100);
    assert_eq!(ledger.reserved_balance(1), 0);
}

#[test]
fn set_balance_refuses_unrepresentable_funds() {
    let mut ledger = Ledger::new();
    assert_eq!(ledger.set_balance(1, u64::MAX, 1), Err(LendingError::CounterOverflow));
    assert_eq!(ledger.free_balance(1), 0);
}
