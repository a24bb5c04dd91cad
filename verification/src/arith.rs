//! Amount arithmetic with its results stated over unbounded integers.
use vstd::prelude::*;
use vstd::arithmetic::div_mod::{
    lemma_div_is_ordered, lemma_div_by_multiple, lemma_fundamental_div_mod,
    lemma_hoist_over_denominator,
};
use crate::amount::Amount;
use crate::storage::PENALTY_BASE;

verus! {

/// The part of `amount` that a penalty of `penalty` (out of 10_000) takes.
pub open spec fn penalty_amount(amount: nat, penalty: u64) -> nat {
    ((amount as int) * (penalty as int) / (PENALTY_BASE as int)) as nat
}

proof fn lemma_penalty_split(a: int, p: int)
    requires
        0 <= a,
        0 <= p <= 10_000,
    ensures
        a * p / 10_000 == (a / 10_000) * p + ((a % 10_000) * p) / 10_000,
        0 <= (a / 10_000) * p <= a,
        0 <= (a % 10_000) * p < 100_000_000,
        0 <= a * p / 10_000 <= a,
{
    let q = a / 10_000;
    let r = a % 10_000;
    lemma_fundamental_div_mod(a, 10_000);
    assert(0 <= r < 10_000);
    assert(0 <= q);
    assert(a * p == (r * p) + (q * p) * 10_000) by (nonlinear_arith)
        requires
            a == 10_000 * q + r,
    ;
    lemma_hoist_over_denominator(r * p, q * p, 10_000);
    assert(0 <= q * p <= a) by (nonlinear_arith)
        requires
            0 <= q,
            0 <= p <= 10_000,
            a == 10_000 * q + r,
            0 <= r,
    ;
    assert(0 <= r * p < 100_000_000) by (nonlinear_arith)
        requires
            0 <= r < 10_000,
            0 <= p <= 10_000,
    ;
    assert(0 <= a * p <= a * 10_000) by (nonlinear_arith)
        requires
            0 <= a,
            0 <= p <= 10_000,
    ;
    lemma_div_is_ordered(a * p, a * 10_000, 10_000);
    lemma_div_by_multiple(a, 10_000);
    assert(0 <= a * p / 10_000) by (nonlinear_arith)
        requires
            0 <= a * p,
    ;
}

/// A penalty of at most 100% takes between nothing and the whole amount; a
/// 100% penalty takes all of it and a 0% penalty nothing.
pub proof fn lemma_penalty_bounds(amount: nat, penalty: u64)
    requires
        penalty <= PENALTY_BASE,
    ensures
        0 <= penalty_amount(amount, penalty) <= amount,
        penalty == PENALTY_BASE ==> penalty_amount(amount, penalty) == amount,
        penalty == 0 ==> penalty_amount(amount, penalty) == 0,
{
    lemma_penalty_split(amount as int, penalty as int);
    lemma_div_by_multiple(amount as int, 10_000);
    assert((amount as int) * 0 == 0);
}

/// `amount * penalty / 10_000`.
pub fn apply_penalty(amount: &Amount, penalty: u64) -> (r: Amount)
    requires
        penalty <= PENALTY_BASE,
    ensures
        r@ == penalty_amount(amount@, penalty),
        r@ <= amount@,
{
    proof {
        lemma_penalty_bounds(amount@, penalty);
    }
    let rate = Amount::from_u128(penalty as u128);
    let base = Amount::from_u128(10_000);
    amount.mul(&rate).div(&base)
}

} // verus!
