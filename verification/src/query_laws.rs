//! What the queries and the amount rules answer, stated over their inputs:
//! the liveliness score weighs bonds by what they hold, pages are inclusive
//! of both ends, lookups keep every known object, a sanction takes the
//! configured rate and a bond costs the amount of the period it asks for.
use vstd::prelude::*;
use crate::admin::{sanction_amount, sanction_refusal, sanctioned};
use crate::arith::penalty_amount;
use crate::bonding::{bond_refusal, bonded};
use crate::errors::ContractError;
use crate::accounts::{bonds_accounted, law_total_covers_every_bond};
use crate::mapper::{lemma_id_of, MapperView};
use crate::storage::{BondingView, CallContext};
use crate::types::{Address, EsdtTokenPayment, PenaltyType};
use crate::views::{avg_score, bond_score, known_ids, page, score_totals};

verus! {

/// Whether bond `k` counts towards a score at `timestamp`: it has not
/// unbonded yet.
pub open spec fn is_live(v: BondingView, timestamp: u64, k: u64) -> bool {
    timestamp < v.bond_of(k).unbond_timestamp
}

/// Adding a bond to the list: one that has unbonded, or that holds nothing,
/// leaves the totals as they are; a live one adds its score times its
/// remaining amount to the weighted total and its remaining amount to the
/// weight.
pub proof fn law_score_totals_weigh_by_remaining(
    v: BondingView,
    timestamp: u64,
    ids: Seq<u64>,
    k: u64,
)
    requires
        score_totals(v, timestamp, ids) is Ok,
        v.bond_of(k).lock_period > 0,
    ensures
        !is_live(v, timestamp, k) ==> score_totals(v, timestamp, ids.push(k)) == score_totals(
            v,
            timestamp,
            ids,
        ),
        v.bond_of(k).remaining_amount == 0 ==> score_totals(v, timestamp, ids.push(k))
            == score_totals(v, timestamp, ids),
        ({
            let (total, weight) = score_totals(v, timestamp, ids)->Ok_0;
            is_live(v, timestamp, k) ==> score_totals(v, timestamp, ids.push(k)) == Ok::<
                (int, int),
                ContractError,
            >(
                (
                    total + bond_score(v.bond_of(k), timestamp) * v.bond_of(k).remaining_amount,
                    weight + v.bond_of(k).remaining_amount,
                ),
            )
        }),
{
    assert(ids.push(k).drop_last() =~= ids);
    assert(ids.push(k).last() == k);
    let s = bond_score(v.bond_of(k), timestamp);
    assert(s * 0 == 0);
}

/// The score of an address with two live bonds is their scores' average
/// weighted by their remaining amounts.
pub proof fn law_avg_score_of_two_bonds(v: BondingView, timestamp: u64, address: Address)
    requires
        v.bonds_of_address(address).len() == 2,
        ({
            let ids = v.bonds_of_address(address);
            &&& is_live(v, timestamp, ids[0])
            &&& is_live(v, timestamp, ids[1])
            &&& v.bond_of(ids[0]).lock_period > 0
            &&& v.bond_of(ids[1]).lock_period > 0
            &&& v.bond_of(ids[0]).remaining_amount + v.bond_of(ids[1]).remaining_amount > 0
        }),
    ensures
        ({
            let ids = v.bonds_of_address(address);
            let (a, b) = (v.bond_of(ids[0]), v.bond_of(ids[1]));
            avg_score(v, timestamp, address) == Ok::<int, ContractError>(
                (bond_score(a, timestamp) * a.remaining_amount + bond_score(b, timestamp)
                    * b.remaining_amount) / (a.remaining_amount + b.remaining_amount as int),
            )
        }),
{
    let ids = v.bonds_of_address(address);
    let first = seq![ids[0]];
    assert(Seq::<u64>::empty().push(ids[0]) =~= first);
    assert(first.push(ids[1]) =~= ids);
    assert(score_totals(v, timestamp, Seq::<u64>::empty()) == Ok::<(int, int), ContractError>((0, 0)));
    law_score_totals_weigh_by_remaining(v, timestamp, Seq::<u64>::empty(), ids[0]);
    law_score_totals_weigh_by_remaining(v, timestamp, first, ids[1]);
}

/// The weighted totals of a list of bonds depend only on those bonds.
proof fn lemma_score_totals_of_same_bonds(v: BondingView, w: BondingView, timestamp: u64, ids: Seq<u64>)
    requires
        forall|i: int| 0 <= i < ids.len() ==> w.bond_of(#[trigger] ids[i]) == v.bond_of(ids[i]),
    ensures
        score_totals(w, timestamp, ids) == score_totals(v, timestamp, ids),
    decreases ids.len(),
{
    if ids.len() > 0 {
        let pre = ids.drop_last();
        assert forall|i: int| 0 <= i < pre.len() implies w.bond_of(#[trigger] pre[i]) == v.bond_of(
            pre[i],
        ) by {
            assert(pre[i] == ids[i]);
        }
        lemma_score_totals_of_same_bonds(v, w, timestamp, pre);
        assert(ids.last() == ids[ids.len() - 1]);
    }
}

/// An address's score does not move when a bond that holds nothing, or that
/// has unbonded, joins its bonds (turning `v` into `w`, the other bonds
/// unchanged): only what live bonds hold weighs.
pub proof fn law_avg_score_ignores_empty_bonds(
    v: BondingView,
    w: BondingView,
    timestamp: u64,
    address: Address,
    k: u64,
)
    requires
        v.bonds_of_address(address).len() > 0,
        w.bonds_of_address(address) == v.bonds_of_address(address).push(k),
        forall|i: int|
            0 <= i < v.bonds_of_address(address).len() ==> w.bond_of(
                #[trigger] v.bonds_of_address(address)[i],
            ) == v.bond_of(v.bonds_of_address(address)[i]),
        w.bond_of(k).lock_period > 0,
        w.bond_of(k).remaining_amount == 0 || !is_live(w, timestamp, k),
    ensures
        avg_score(w, timestamp, address) == avg_score(v, timestamp, address),
{
    let ids = v.bonds_of_address(address);
    lemma_score_totals_of_same_bonds(v, w, timestamp, ids);
    if score_totals(w, timestamp, ids) is Ok {
        law_score_totals_weigh_by_remaining(w, timestamp, ids, k);
    } else {
        assert(ids.push(k).drop_last() =~= ids);
    }
}

/// The score of an address with one live bond that holds something is that
/// bond's score, whatever amount it holds.
pub proof fn law_avg_score_of_one_bond(v: BondingView, timestamp: u64, address: Address)
    requires
        v.bonds_of_address(address).len() == 1,
        is_live(v, timestamp, v.bonds_of_address(address)[0]),
        v.bond_of(v.bonds_of_address(address)[0]).lock_period > 0,
        v.bond_of(v.bonds_of_address(address)[0]).remaining_amount > 0,
    ensures
        avg_score(v, timestamp, address) == Ok::<int, ContractError>(
            bond_score(v.bond_of(v.bonds_of_address(address)[0]), timestamp),
        ),
{
    let ids = v.bonds_of_address(address);
    let b = v.bond_of(ids[0]);
    assert(Seq::<u64>::empty().push(ids[0]) =~= ids);
    law_score_totals_weigh_by_remaining(v, timestamp, Seq::<u64>::empty(), ids[0]);
    let s = bond_score(b, timestamp);
    let r = b.remaining_amount as int;
    assert((0 + s * r) / (0 + r) == s) by (nonlinear_arith)
        requires
            r > 0,
    ;
}

/// A page from `start` to `end`, both inclusive, that lies within the list
/// holds exactly the elements at those positions; one that runs past the end
/// holds the elements from `start` to the end; one that starts past the end
/// is empty.
pub proof fn law_page_is_inclusive<K>(s: Seq<K>, start: int, end: int)
    requires
        0 <= start <= end,
    ensures
        end < s.len() ==> page(s, start, end - start + 1).len() == end - start + 1,
        end < s.len() ==> forall|i: int|
            0 <= i <= end - start ==> #[trigger] page(s, start, end - start + 1)[i] == s[start + i],
        end < s.len() ==> page(s, end, 1) == seq![s[end]],
        start < s.len() <= end ==> page(s, start, end - start + 1) == s.subrange(
            start,
            s.len() as int,
        ),
        s.len() <= start ==> page(s, start, end - start + 1).len() == 0,
{
    if end < s.len() {
        assert(page(s, end, 1) =~= seq![s[end]]);
    }
}

/// Looking objects up keeps every known one: each known object of the input
/// has its identifier in the result, and the result holds only identifiers
/// of objects of the input, no more of them than the input has.
pub proof fn law_known_ids_keep_every_known_object(m: MapperView, objects: Seq<(Vec<u8>, u64)>)
    ensures
        forall|i: int|
            0 <= i < objects.len() && m.id_of((#[trigger] objects[i].0@, objects[i].1)) != 0
                ==> known_ids(m, objects).contains(m.id_of((objects[i].0@, objects[i].1))),
        forall|j: int|
            0 <= j < known_ids(m, objects).len() ==> #[trigger] known_ids(m, objects)[j] != 0
                && exists|i: int|
                0 <= i < objects.len() && m.id_of((objects[i].0@, objects[i].1)) == known_ids(
                    m,
                    objects,
                )[j],
        known_ids(m, objects).len() <= objects.len(),
    decreases objects.len(),
{
    if objects.len() > 0 {
        let pre = objects.drop_last();
        law_known_ids_keep_every_known_object(m, pre);
        let rest = known_ids(m, pre);
        let r = known_ids(m, objects);
        let n = objects.len() - 1;
        assert(objects.last() == objects[n]);
        assert forall|i: int|
            0 <= i < objects.len() && m.id_of((#[trigger] objects[i].0@, objects[i].1)) != 0
                implies r.contains(m.id_of((objects[i].0@, objects[i].1))) by {
            if i < n {
                assert(pre[i] == objects[i]);
                let id = m.id_of((objects[i].0@, objects[i].1));
                assert(rest.contains(id));
                let j = choose|j: int| 0 <= j < rest.len() && rest[j] == id;
                assert(r[j] == id);
            } else {
                assert(r[r.len() - 1] == m.id_of((objects[i].0@, objects[i].1)));
            }
        }
        assert forall|j: int| 0 <= j < r.len() implies #[trigger] r[j] != 0 && exists|i: int|
            0 <= i < objects.len() && m.id_of((objects[i].0@, objects[i].1)) == r[j] by {
            if j < rest.len() {
                assert(r[j] == rest[j]);
                assert(rest[j] != 0);
                let i = choose|i: int|
                    0 <= i < pre.len() && m.id_of((pre[i].0@, pre[i].1)) == rest[j];
                assert(pre[i] == objects[i]);
            } else {
                assert(m.id_of((objects[n].0@, objects[n].1)) == r[j]);
            }
        }
    }
}

/// The penalty rate a sanction applies, as the owner or administrator set it.
pub open spec fn configured_rate(v: BondingView, penalty: PenaltyType, custom_penalty: Option<u64>) -> u64 {
    match penalty {
        PenaltyType::Minimum => v.minimum_penalty,
        PenaltyType::Maximum => v.maximum_penalty,
        PenaltyType::Custom => custom_penalty.unwrap(),
    }
}

/// A sanction takes the configured rate of the bond amount: the minimum or
/// maximum penalty as last set, or the custom one given; that amount leaves
/// the bond's remaining amount and the total bonded and joins the
/// compensation.
pub proof fn law_sanction_takes_the_configured_rate(
    v: BondingView,
    ctx: CallContext,
    token: Seq<u8>,
    nonce: u64,
    penalty: PenaltyType,
    custom_penalty: Option<u64>,
)
    requires
        v.valid(),
        bonds_accounted(v),
        sanction_refusal(v, ctx, token, nonce, penalty, custom_penalty) is None,
    ensures
        ({
            let bond_id = v.bonds_ids.id_of((token, nonce));
            let compensation_id = v.compensations_ids.id_of((token, nonce));
            let taken = penalty_amount(
                v.bond_of(bond_id).bond_amount,
                configured_rate(v, penalty, custom_penalty),
            );
            let after = sanctioned(v, token, nonce, penalty, custom_penalty);
            &&& sanction_amount(v, token, nonce, penalty, custom_penalty) == taken
            &&& after.bond_of(bond_id).remaining_amount == v.bond_of(bond_id).remaining_amount
                - taken
            &&& after.total_bond_amount == v.total_bond_amount - taken
            &&& after.compensation_of(compensation_id).accumulated_amount == v.compensation_of(
                compensation_id,
            ).accumulated_amount + taken
        }),
{
    let bond_id = v.bonds_ids.id_of((token, nonce));
    lemma_id_of(v.bonds_ids, (token, nonce));
    law_total_covers_every_bond(v, bond_id);
}

/// Setting the maximum penalty to `rate` (turning `v` into `w`) and then
/// sanctioning with the maximum penalty takes the rate just set.
pub proof fn law_maximum_sanction_after_setting_it(
    v: BondingView,
    w: BondingView,
    ctx: CallContext,
    rate: u64,
    token: Seq<u8>,
    nonce: u64,
)
    requires
        w == (BondingView { maximum_penalty: rate, ..v }),
        w.valid(),
        bonds_accounted(w),
        sanction_refusal(w, ctx, token, nonce, PenaltyType::Maximum, None) is None,
    ensures
        sanction_amount(w, token, nonce, PenaltyType::Maximum, None) == penalty_amount(
            v.bond_of(v.bonds_ids.id_of((token, nonce))).bond_amount,
            rate,
        ),
{
    law_sanction_takes_the_configured_rate(w, ctx, token, nonce, PenaltyType::Maximum, None);
}

/// A bond costs the bond amount of the lock period it asks for, whatever
/// other periods exist: when everything else about the call is in order, it
/// is accepted exactly when the payment is that amount, and refused with
/// `InvalidAmountSent` otherwise; the bond it records holds that amount and
/// unbonds one lock period from now.
pub proof fn law_bond_costs_the_requested_period(
    v: BondingView,
    ctx: CallContext,
    owner: Address,
    token: Seq<u8>,
    nonce: u64,
    lock_period: u64,
    payments: Seq<EsdtTokenPayment>,
)
    requires
        v.is_active(),
        (ctx.caller_is_smart_contract && v.accepted_callers.contains(ctx.caller))
            || v.is_privileged(ctx.caller, ctx.owner),
        payments.len() == 1,
        payments[0].token_identifier@ == v.bond_payment_token,
        v.lock_periods.contains(lock_period),
        v.bond_amount_for(lock_period) != 0,
        ctx.block_timestamp + lock_period <= u64::MAX,
        v.bonds_ids.id_of((token, nonce)) == 0,
        v.bonds_ids.last_id < u64::MAX,
        v.compensations_ids.id_of((token, nonce)) == 0,
        v.compensations_ids.last_id < u64::MAX,
    ensures
        (bond_refusal(v, ctx, token, nonce, lock_period, payments) is None) <==> payments[0].amount@
            == v.bond_amount_for(lock_period),
        payments[0].amount@ != v.bond_amount_for(lock_period) ==> bond_refusal(
            v,
            ctx,
            token,
            nonce,
            lock_period,
            payments,
        ) == Some(ContractError::InvalidAmountSent),
        ({
            let bond_id = (v.bonds_ids.last_id + 1) as u64;
            let after = bonded(v, ctx, owner, token, nonce, lock_period, payments[0].amount@);
            payments[0].amount@ == v.bond_amount_for(lock_period) ==> {
                &&& after.bond_of(bond_id).bond_amount == v.bond_amount_for(lock_period)
                &&& after.bond_of(bond_id).remaining_amount == v.bond_amount_for(lock_period)
                &&& after.bond_of(bond_id).lock_period == lock_period
                &&& after.bond_of(bond_id).unbond_timestamp == ctx.block_timestamp + lock_period
                &&& after.total_bond_amount == v.total_bond_amount + v.bond_amount_for(lock_period)
            }
        }),
{
}

} // verus!
