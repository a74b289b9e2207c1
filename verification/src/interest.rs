//! The interest engine: one compounding step for one position.
//!
//! Each tick applies exactly one step per open position, whatever the
//! position's age: `new_balance = balance + balance * rate`, truncated toward
//! the ledger's smallest unit.

use vstd::prelude::*;

use crate::position::{Position, Rate, PARTS_PER_BILLION};

verus! {

/// The interest one step accrues on `balance` at `rate`, truncated.
pub open spec fn accrued_of(balance: u64, rate: Rate) -> int {
    (balance * rate.parts) / (PARTS_PER_BILLION as int)
}

/// The balance after one compounding step, as an unbounded integer.
pub open spec fn compounded_balance(p: Position) -> int {
    p.balance + accrued_of(p.balance, p.interest_rate)
}

/// Whether one compounding step keeps the balance representable.
pub open spec fn compound_fits(p: Position) -> bool {
    compounded_balance(p) <= u64::MAX
}

/// The position after one compounding step: the balance grows by the accrued
/// interest, rate and direction are unchanged. Meaningful when
/// `compound_fits(p)`.
pub open spec fn compounded(p: Position) -> Position {
    Position { balance: compounded_balance(p) as u64, ..p }
}

/// One step of accrual never grows the balance by more than the balance
/// itself, since the rate is at most one.
pub proof fn lemma_accrued_bounded(balance: u64, rate: Rate)
    requires
        rate.wf(),
    ensures
        0 <= accrued_of(balance, rate) <= balance,
{
    let d = PARTS_PER_BILLION as int;
    assert(balance * rate.parts <= balance * d) by (nonlinear_arith)
        requires
            rate.parts <= d,
            balance >= 0,
    ;
    vstd::arithmetic::div_mod::lemma_div_is_ordered(
        balance * rate.parts,
        balance * d,
        d,
    );
    vstd::arithmetic::div_mod::lemma_div_multiples_vanish(balance as int, d);
    assert(balance * rate.parts >= 0) by (nonlinear_arith)
        requires
            balance >= 0,
            rate.parts >= 0,
    ;
    vstd::arithmetic::div_mod::lemma_div_pos_is_pos(balance * rate.parts, d);
}

/// Applies one compounding step to `p`. Returns the stepped position, or
/// `None` when the stepped balance would not be representable.
pub fn compound(p: &Position) -> (r: Option<Position>)
    requires
        p.wf(),
    ensures
        match r {
            Some(q) => compound_fits(*p) && q == compounded(*p),
            None => !compound_fits(*p),
        },
{
    proof {
        lemma_accrued_bounded(p.balance, p.interest_rate);
    }
    let accrued: u128 = (p.balance as u128) * (p.interest_rate.parts as u128)
        / (PARTS_PER_BILLION as u128);
    let stepped: u128 = (p.balance as u128) + accrued;
    if stepped <= u64::MAX as u128 {
        Some(Position { balance: stepped as u64, ..*p })
    } else {
        None
    }
}

} // verus!
