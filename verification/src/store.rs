//! The position store: keyed storage of one position per account.
//!
//! No business rule lives here: the store hands out a zero-valued position
//! for an absent account, so callers must check presence through `contains`
//! before trusting what `get` returns.

use std::collections::HashMap;

use vstd::prelude::*;

use crate::position::Position;

verus! {

broadcast use vstd::std_specs::hash::group_hash_axioms;

/// Keyed storage of positions. Viewed as a map from account to position.
pub struct PositionStore {
    slots: HashMap<u64, Position>,
}

impl View for PositionStore {
    type V = Map<u64, Position>;

    closed spec fn view(&self) -> Map<u64, Position> {
        self.slots@
    }
}

impl PositionStore {
    pub fn new() -> (r: PositionStore)
        ensures
            r@ == Map::<u64, Position>::empty(),
    {
        PositionStore { slots: HashMap::new() }
    }

    /// Whether `account` has a stored position.
    pub fn contains(&self, account: u64) -> (r: bool)
        ensures
            r == self@.contains_key(account),
    {
        self.slots.contains_key(&account)
    }

    /// The stored position of `account`, or the zero-valued position when
    /// there is none. A zero-valued stored position is indistinguishable from
    /// absence by value alone: check `contains` first.
    pub fn get(&self, account: u64) -> (r: Position)
        ensures
            r == if self@.contains_key(account) {
                self@[account]
            } else {
                Position::empty_spec()
            },
    {
        match self.slots.get(&account) {
            Some(position) => *position,
            None => Position::empty(),
        }
    }

    /// Stores `position` for `account`, replacing any stored one.
    pub fn insert(&mut self, account: u64, position: Position)
        ensures
            final(self)@ == old(self)@.insert(account, position),
    {
        self.slots.insert(account, position);
    }

    /// Drops the stored position of `account`, if any.
    pub fn remove(&mut self, account: u64)
        ensures
            final(self)@ == old(self)@.remove(account),
    {
        self.slots.remove(&account);
    }
}

} // verus!
