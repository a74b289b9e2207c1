//! The account registry: a dense, enumerable list of the accounts with open
//! positions, paired with a reverse index for constant-time removal.
//!
//! The registry is an arena-with-indices: an ordered sequence of accounts and
//! a map from account to its slot, with `index[registry[i]] == i` for every
//! valid `i`. Removal swaps the removed slot with the last entry and
//! truncates, so it costs one move; when the removed entry is already last,
//! no swap happens, only the truncation.

use std::collections::HashMap;

use vstd::prelude::*;

use crate::errors::LendingError;

verus! {

broadcast use vstd::std_specs::hash::group_hash_axioms;

/// The registry. Viewed as the ordered sequence of registered accounts.
pub struct AccountRegistry {
    accounts: Vec<u64>,
    index: HashMap<u64, u64>,
    count: u64,
}

impl View for AccountRegistry {
    type V = Seq<u64>;

    closed spec fn view(&self) -> Seq<u64> {
        self.accounts@
    }
}

/// The sequence left by a swap-with-last removal of `account`: the removed
/// slot is overwritten by the last entry, and the sequence is shortened by
/// one. Meaningful when `pre` holds `account` exactly once.
pub open spec fn swap_removed(pre: Seq<u64>, account: u64) -> Seq<u64> {
    pre.update(pre.index_of(account), pre.last()).drop_last()
}

/// What `AccountRegistry::add` does, for every outcome, over the view.
pub open spec fn add_post(
    pre: Seq<u64>,
    post: Seq<u64>,
    account: u64,
    r: Result<u64, LendingError>,
) -> bool {
    if pre.len() == u64::MAX {
        r == Err::<u64, LendingError>(LendingError::CounterOverflow) && post == pre
    } else if pre.contains(account) {
        r == Err::<u64, LendingError>(LendingError::DuplicatePosition) && post == pre
    } else {
        &&& r == Ok::<u64, LendingError>(pre.len() as u64)
        &&& post == pre.push(account)
        &&& post.len() == pre.len() + 1
        &&& post.contains(account)
        &&& forall|b: u64| b != account ==> post.contains(b) == pre.contains(b)
    }
}

/// What `AccountRegistry::remove` does, for every outcome, over the view.
pub open spec fn remove_post(
    pre: Seq<u64>,
    post: Seq<u64>,
    account: u64,
    r: Result<(), LendingError>,
) -> bool {
    if pre.len() == 0 {
        r == Err::<(), LendingError>(LendingError::CounterUnderflow) && post == pre
    } else if !pre.contains(account) {
        r == Err::<(), LendingError>(LendingError::NoPosition) && post == pre
    } else {
        &&& r == Ok::<(), LendingError>(())
        &&& post == swap_removed(pre, account)
        &&& post.len() == pre.len() - 1
        &&& !post.contains(account)
        &&& forall|b: u64| b != account ==> post.contains(b) == pre.contains(b)
    }
}

/// Law: a well-formed registry — and `add` and `remove` keep every registry
/// well formed — is consistent: it holds each account at most once, so every
/// registered account's slot leads back to that account.
pub proof fn lemma_registry_consistency(r: AccountRegistry)
    requires
        r.wf(),
    ensures
        forall|i: int| 0 <= i < r@.len() ==> r@.index_of(#[trigger] r@[i]) == i,
{
    r.lemma_no_duplicates();
    assert forall|i: int| 0 <= i < r@.len() implies r@.index_of(r@[i]) == i by {
        assert(r@.contains(r@[i]));
        let j = r@.index_of(r@[i]);
        assert(0 <= j < r@.len() && r@[j] == r@[i]);
    }
}

impl AccountRegistry {
    /// The registry invariant: the count matches the sequence, and the index
    /// maps exactly the registered accounts, each to its slot.
    pub closed spec fn wf(self) -> bool {
        &&& self.count == self.accounts@.len()
        &&& forall|i: int|
            0 <= i < self.accounts@.len() ==> self.index@.contains_key(
                #[trigger] self.accounts@[i],
            ) && self.index@[self.accounts@[i]] == i
        &&& forall|a: u64|
            #[trigger] self.index@.contains_key(a) ==> self.index@[a] < self.accounts@.len()
                && self.accounts@[self.index@[a] as int] == a
    }

    /// A well-formed registry holds each account at most once.
    pub proof fn lemma_no_duplicates(self)
        requires
            self.wf(),
        ensures
            forall|i: int, j: int|
                0 <= i < self@.len() && 0 <= j < self@.len() && i != j ==> self@[i] != self@[j],
    {
        assert forall|i: int, j: int|
            0 <= i < self@.len() && 0 <= j < self@.len() && i != j implies self@[i]
            != self@[j] by {
            if self@[i] == self@[j] {
                assert(self.index@[self.accounts@[i]] == i);
                assert(self.index@[self.accounts@[j]] == j);
            }
        }
    }

    pub fn new() -> (r: AccountRegistry)
        ensures
            r.wf(),
            r@ == Seq::<u64>::empty(),
    {
        let r = AccountRegistry { accounts: Vec::new(), index: HashMap::new(), count: 0 };
        proof {
            assert(r@ =~= Seq::<u64>::empty());
        }
        r
    }

    /// How many accounts are registered.
    pub fn count(&self) -> (r: u64)
        requires
            self.wf(),
        ensures
            r == self@.len(),
    {
        self.count
    }

    /// Whether `account` is registered.
    pub fn contains(&self, account: u64) -> (r: bool)
        requires
            self.wf(),
        ensures
            r == self@.contains(account),
    {
        let r = self.index.contains_key(&account);
        proof {
            if r {
                assert(self@[self.index@[account] as int] == account);
            }
            if self@.contains(account) {
                let i = choose|i: int| 0 <= i < self@.len() && self@[i] == account;
                assert(self.index@.contains_key(self@[i]));
            }
        }
        r
    }

    /// The account in slot `i`, or `None` past the end.
    pub fn get(&self, i: u64) -> (r: Option<u64>)
        requires
            self.wf(),
        ensures
            match r {
                Some(a) => i < self@.len() && a == self@[i as int],
                None => i >= self@.len(),
            },
    {
        let n = self.accounts.len();
        if i < n as u64 {
            Some(self.accounts[i as usize])
        } else {
            None
        }
    }

    /// The slot of `account`, or `None` when it is not registered.
    pub fn index_of(&self, account: u64) -> (r: Option<u64>)
        requires
            self.wf(),
        ensures
            match r {
                Some(i) => i < self@.len() && self@[i as int] == account,
                None => !self@.contains(account),
            },
    {
        let r = self.index.get(&account);
        match r {
            Some(i) => Some(*i),
            None => {
                proof {
                    if self@.contains(account) {
                        let i = choose|i: int| 0 <= i < self@.len() && self@[i] == account;
                        assert(self.index@.contains_key(self@[i]));
                    }
                }
                None
            },
        }
    }

    /// A snapshot of the registered accounts, in registry order.
    pub fn iterate(&self) -> (r: Vec<u64>)
        ensures
            r@ == self@,
    {
        let mut snapshot: Vec<u64> = Vec::new();
        let mut i: usize = 0;
        while i < self.accounts.len()
            invariant
                i <= self.accounts@.len(),
                snapshot@ == self.accounts@.take(i as int),
            decreases self.accounts@.len() - i,
        {
            snapshot.push(self.accounts[i]);
            proof {
                assert(self.accounts@.take(i as int + 1) =~= self.accounts@.take(i as int).push(
                    self.accounts@[i as int],
                ));
            }
            i = i + 1;
        }
        proof {
            assert(self.accounts@.take(self.accounts@.len() as int) =~= self.accounts@);
        }
        snapshot
    }

    /// Appends `account`, returning its slot. Fails with `CounterOverflow`
    /// when the running count would leave the representable range, and with
    /// `DuplicatePosition` when the account is already registered; either
    /// failure changes nothing.
    pub fn add(&mut self, account: u64) -> (r: Result<u64, LendingError>)
        requires
            old(self).wf(),
        ensures
            final(self).wf(),
            add_post(old(self)@, final(self)@, account, r),
    {
        if self.count == u64::MAX {
            return Err(LendingError::CounterOverflow);
        }
        if self.contains(account) {
            return Err(LendingError::DuplicatePosition);
        }
        let slot = self.count;
        self.accounts.push(account);
        self.index.insert(account, slot);
        self.count = slot + 1;
        proof {
            let pre = old(self)@;
            assert forall|i: int| 0 <= i < self.accounts@.len() implies self.index@.contains_key(
                #[trigger] self.accounts@[i],
            ) && self.index@[self.accounts@[i]] == i by {
                if i < pre.len() {
                    assert(self.accounts@[i] == pre[i]);
                    assert(pre[i] != account) by {
                        assert(!pre.contains(account));
                    }
                }
            }
            assert forall|a: u64| #[trigger] self.index@.contains_key(a) implies self.index@[a]
                < self.accounts@.len() && self.accounts@[self.index@[a] as int] == a by {
                if a != account {
                    assert(old(self).index@.contains_key(a));
                }
            }
            assert(self@[pre.len() as int] == account);
            assert forall|b: u64| b != account implies self@.contains(b) == pre.contains(b) by {
                if self@.contains(b) {
                    let i = choose|i: int| 0 <= i < self@.len() && self@[i] == b;
                    assert(pre[i] == b);
                    assert(pre.contains(b));
                }
                if pre.contains(b) {
                    let i = choose|i: int| 0 <= i < pre.len() && pre[i] == b;
                    assert(self@[i] == b);
                    assert(self@.contains(b));
                }
            }
        }
        Ok(slot)
    }

    /// Removes `account` by swap-with-last. Fails with `CounterUnderflow` when
    /// the registry is empty, and with `NoPosition` when the account is not
    /// registered; either failure changes nothing.
    pub fn remove(&mut self, account: u64) -> (r: Result<(), LendingError>)
        requires
            old(self).wf(),
        ensures
            final(self).wf(),
            remove_post(old(self)@, final(self)@, account, r),
    {
        if self.count == 0 {
            proof {
                assert(old(self)@ =~= self@);
            }
            return Err(LendingError::CounterUnderflow);
        }
        let slot: u64 = match self.index.get(&account) {
            Some(i) => *i,
            None => {
                proof {
                    if self@.contains(account) {
                        let i = choose|i: int| 0 <= i < self@.len() && self@[i] == account;
                        assert(self.index@.contains_key(self@[i]));
                    }
                }
                return Err(LendingError::NoPosition);
            },
        };
        proof {
            old(self).lemma_no_duplicates();
            assert(self@[slot as int] == account);
            assert(self@.contains(account));
            assert(self@.index_of(account) == slot as int) by {
                let j = self@.index_of(account);
                assert(self@[j] == account);
            }
        }
        let n: usize = self.accounts.len();
        let last_slot: usize = n - 1;
        let slot_us: usize = slot as usize;
        let moved: u64 = self.accounts[last_slot];
        let _removed: u64 = self.accounts.swap_remove(slot_us);
        if slot_us != last_slot {
            self.index.insert(moved, slot);
        }
        self.index.remove(&account);
        self.count = self.count - 1;
        proof {
            let pre = old(self)@;
            let n = pre.len() as int;
            assert(moved == pre[n - 1]);
            assert(self@ =~= pre.update(slot as int, pre.last()).drop_last());
            // Every remaining slot is indexed correctly.
            assert forall|i: int| 0 <= i < self@.len() implies self.index@.contains_key(
                #[trigger] self@[i],
            ) && self.index@[self@[i]] == i by {
                if i == slot as int {
                    assert(self@[i] == moved);
                    assert(moved != account);
                } else {
                    assert(self@[i] == pre[i]);
                    assert(pre[i] != account);
                    assert(pre[i] != moved);
                    assert(old(self).index@[pre[i]] == i);
                }
            }
            // Every indexed account sits in its slot.
            assert forall|a: u64| #[trigger] self.index@.contains_key(a) implies self.index@[a]
                < self@.len() && self@[self.index@[a] as int] == a by {
                assert(a != account);
                if slot != last_slot && a == moved {
                    assert(self.index@[a] == slot);
                    assert(self@[slot as int] == moved);
                } else {
                    assert(old(self).index@.contains_key(a));
                    let k = old(self).index@[a] as int;
                    assert(pre[k] == a);
                    assert(k != slot as int);
                    assert(k != n - 1);
                    assert(self@[k] == pre[k]);
                }
            }
            // The removed account is gone; every other account is kept.
            assert(!self@.contains(account)) by {
                if self@.contains(account) {
                    let i = choose|i: int| 0 <= i < self@.len() && self@[i] == account;
                    assert(pre[if i == slot as int {
                        n - 1
                    } else {
                        i
                    }] == account);
                }
            }
            assert forall|b: u64| b != account implies self@.contains(b) == pre.contains(b) by {
                if self@.contains(b) {
                    let i = choose|i: int| 0 <= i < self@.len() && self@[i] == b;
                    assert(pre[if i == slot as int {
                        n - 1
                    } else {
                        i
                    }] == b);
                    assert(pre.contains(b));
                }
                if pre.contains(b) {
                    let i = choose|i: int| 0 <= i < n && pre[i] == b;
                    if i == n - 1 {
                        assert(self@[slot as int] == b);
                    } else if i == slot as int {
                        assert(pre[i] == account);
                    } else {
                        assert(self@[i] == b);
                    }
                    assert(self@.contains(b));
                }
            }
        }
        Ok(())
    }
}

} // verus!
