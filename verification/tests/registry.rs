//! The account registry on its own: consistency after add/remove sequences,
//! the swap-with-last removal, and the underflow guard.

use lending_pool::errors::LendingError;
use lending_pool::registry::AccountRegistry;

#[test]
fn add_assigns_consecutive_slots() {
    let mut registry = AccountRegistry::new();
    assert_eq!(registry.add(10), Ok(0));
    assert_eq!(registry.add(20), Ok(1));
    assert_eq!(registry.add(30), Ok(2));
    assert_eq!(registry.count(), 3);
    assert_eq!(registry.iterate(), vec![10, 20, 30]);
}

#[test]
fn registry_stays_consistent_through_adds_and_removes() {
    let mut registry = AccountRegistry::new();
    assert!(registry.add(10).is_ok());
    assert!(registry.add(20).is_ok());
    assert!(registry.add(30).is_ok());
    assert!(registry.remove(10).is_ok());
    assert!(registry.add(40).is_ok());
    assert!(registry.remove(40).is_ok());
    // After every operation the slot index leads back to the account.
    let accounts = registry.iterate();
    assert_eq!(accounts.len() as u64, registry.count());
    for (slot, account) in accounts.iter().enumerate() {
        assert_eq!(registry.index_of(*account), Some(slot as u64));
        assert_eq!(registry.get(slot as u64), Some(*account));
    }
}

#[test]
fn swap_removal_mid_list() {
    let mut registry = AccountRegistry::new();
    assert!(registry.add(10).is_ok());
    assert!(registry.add(20).is_ok());
    assert!(registry.add(30).is_ok());
    // Removing the middle entry moves the last entry into its slot.
    assert_eq!(registry.remove(20), Ok(()));
    assert_eq!(registry.iterate(), vec![10, 30]);
    assert_eq!(registry.index_of(10), Some(0));
    assert_eq!(registry.index_of(30), Some(1));
    assert_eq!(registry.index_of(20), None);
    assert_eq!(registry.count(), 2);
}

#[test]
fn removing_the_last_entry_only_truncates() {
    let mut registry = AccountRegistry::new();
    assert!(registry.add(10).is_ok());
    assert!(registry.add(20).is_ok());
    assert_eq!(registry.remove(20), Ok(()));
    assert_eq!(registry.iterate(), vec![10]);
    assert_eq!(registry.index_of(10), Some(0));
}

#[test]
fn removing_from_empty_registry_underflows() {
    let mut registry = AccountRegistry::new();
    assert_eq!(registry.remove(10), Err(LendingError::CounterUnderflow));
    assert_eq!(registry.count(), 0);
    assert_eq!(registry.iterate(), Vec::<u64>::new());
}

#[test]
fn removing_an_unregistered_account_fails() {
    let mut registry = AccountRegistry::new();
    assert!(registry.add(10).is_ok());
    assert_eq!(registry.remove(20), Err(LendingError::NoPosition));
    assert_eq!(registry.iterate(), vec![10]);
}

#[test]
fn adding_a_registered_account_fails() {
    let mut registry = AccountRegistry::new();
    assert!(registry.add(10).is_ok());
    assert_eq!(registry.add(10), Err(LendingError::DuplicatePosition));
    assert_eq!(registry.count(), 1);
}
