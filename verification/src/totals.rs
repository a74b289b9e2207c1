//! The pool totals as mathematics: a total is the sum, over the registry in
//! order, of the open balances of one direction.

use vstd::prelude::*;

use crate::position::{Direction, Position};
use crate::registry::swap_removed;

verus! {

/// What `account`'s stored position contributes to the `direction` total.
pub open spec fn contribution(positions: Map<u64, Position>, account: u64, direction: Direction) -> int {
    if positions.contains_key(account) && positions[account].direction == direction {
        positions[account].balance as int
    } else {
        0
    }
}

/// The sum of the contributions of `reg`'s entries, in order.
pub open spec fn total_of(
    reg: Seq<u64>,
    positions: Map<u64, Position>,
    direction: Direction,
) -> int
    decreases reg.len(),
{
    if reg.len() == 0 {
        0
    } else {
        total_of(reg.drop_last(), positions, direction) + contribution(
            positions,
            reg.last(),
            direction,
        )
    }
}

/// A total is never negative.
pub proof fn lemma_total_nonneg(reg: Seq<u64>, positions: Map<u64, Position>, d: Direction)
    ensures
        total_of(reg, positions, d) >= 0,
    decreases reg.len(),
{
    if reg.len() > 0 {
        lemma_total_nonneg(reg.drop_last(), positions, d);
    }
}

/// Appending an account adds exactly its contribution.
pub proof fn lemma_total_push(
    reg: Seq<u64>,
    positions: Map<u64, Position>,
    d: Direction,
    account: u64,
)
    ensures
        total_of(reg.push(account), positions, d) == total_of(reg, positions, d) + contribution(
            positions,
            account,
            d,
        ),
{
    assert(reg.push(account).drop_last() =~= reg);
    assert(reg.push(account).last() == account);
}

/// Storing a position for an unregistered account leaves every total alone.
pub proof fn lemma_total_insert_absent(
    reg: Seq<u64>,
    positions: Map<u64, Position>,
    d: Direction,
    account: u64,
    position: Position,
)
    requires
        !reg.contains(account),
    ensures
        total_of(reg, positions.insert(account, position), d) == total_of(reg, positions, d),
    decreases reg.len(),
{
    if reg.len() > 0 {
        assert(!reg.drop_last().contains(account)) by {
            if reg.drop_last().contains(account) {
                let i = choose|i: int|
                    0 <= i < reg.drop_last().len() && reg.drop_last()[i] == account;
                assert(reg[i] == account);
            }
        }
        lemma_total_insert_absent(reg.drop_last(), positions, d, account, position);
        assert(reg.last() != account) by {
            assert(reg[reg.len() - 1] == reg.last());
        }
    }
}

/// Dropping the position of an unregistered account leaves every total alone.
pub proof fn lemma_total_remove_absent(
    reg: Seq<u64>,
    positions: Map<u64, Position>,
    d: Direction,
    account: u64,
)
    requires
        !reg.contains(account),
    ensures
        total_of(reg, positions.remove(account), d) == total_of(reg, positions, d),
    decreases reg.len(),
{
    if reg.len() > 0 {
        assert(!reg.drop_last().contains(account)) by {
            if reg.drop_last().contains(account) {
                let i = choose|i: int|
                    0 <= i < reg.drop_last().len() && reg.drop_last()[i] == account;
                assert(reg[i] == account);
            }
        }
        lemma_total_remove_absent(reg.drop_last(), positions, d, account);
        assert(reg.last() != account) by {
            assert(reg[reg.len() - 1] == reg.last());
        }
    }
}

/// Overwriting one slot of the registry trades the old entry's contribution
/// for the new one's.
pub proof fn lemma_total_update_seq(
    reg: Seq<u64>,
    positions: Map<u64, Position>,
    d: Direction,
    i: int,
    account: u64,
)
    requires
        0 <= i < reg.len(),
    ensures
        total_of(reg.update(i, account), positions, d) == total_of(reg, positions, d) - contribution(
            positions,
            reg[i],
            d,
        ) + contribution(positions, account, d),
    decreases reg.len(),
{
    let u = reg.update(i, account);
    if i == reg.len() - 1 {
        assert(u.drop_last() =~= reg.drop_last());
        assert(u.last() == account);
    } else {
        assert(u.drop_last() =~= reg.drop_last().update(i, account));
        assert(u.last() == reg.last());
        lemma_total_update_seq(reg.drop_last(), positions, d, i, account);
        assert(reg.drop_last()[i] == reg[i]);
    }
}

/// A swap-with-last removal takes away exactly the removed entry's
/// contribution.
pub proof fn lemma_total_swap_removed(
    reg: Seq<u64>,
    positions: Map<u64, Position>,
    d: Direction,
    account: u64,
)
    requires
        reg.contains(account),
    ensures
        total_of(swap_removed(reg, account), positions, d) == total_of(reg, positions, d)
            - contribution(positions, account, d),
{
    let i = reg.index_of(account);
    assert(0 <= i < reg.len() && reg[i] == account);
    let u = reg.update(i, reg.last());
    lemma_total_update_seq(reg, positions, d, i, reg.last());
    assert(u.last() == reg.last());
    assert(total_of(u, positions, d) == total_of(u.drop_last(), positions, d) + contribution(
        positions,
        u.last(),
        d,
    ));
}

/// The contribution of a registered account never exceeds the total.
pub proof fn lemma_contribution_le_total(
    reg: Seq<u64>,
    positions: Map<u64, Position>,
    d: Direction,
    account: u64,
)
    requires
        reg.contains(account),
    ensures
        contribution(positions, account, d) <= total_of(reg, positions, d),
    decreases reg.len(),
{
    if reg.last() == account {
        lemma_total_nonneg(reg.drop_last(), positions, d);
    } else {
        assert(reg.drop_last().contains(account)) by {
            let i = choose|i: int| 0 <= i < reg.len() && reg[i] == account;
            assert(reg.drop_last()[i] == account);
        }
        lemma_contribution_le_total(reg.drop_last(), positions, d, account);
    }
}

/// A prefix of the registry never sums to more than the whole.
pub proof fn lemma_total_take_le(
    reg: Seq<u64>,
    positions: Map<u64, Position>,
    d: Direction,
    i: int,
)
    requires
        0 <= i <= reg.len(),
    ensures
        total_of(reg.take(i), positions, d) <= total_of(reg, positions, d),
    decreases reg.len() - i,
{
    if i == reg.len() {
        assert(reg.take(i) =~= reg);
    } else {
        assert(reg.take(i + 1) =~= reg.take(i).push(reg[i]));
        lemma_total_push(reg.take(i), positions, d, reg[i]);
        lemma_total_take_le(reg, positions, d, i + 1);
    }
}

} // verus!
