//! What holds across calls of the endpoints: what one call undoes of
//! another, what a bond pays back, and where the value of a penalty goes.
use vstd::prelude::*;
use crate::admin::{
    add_lock_periods_refusal, add_to_black_list_refusal, lemma_with_period_amounts,
    lemma_without_periods, periods_of, remove_accepted_callers_refusal,
    remove_from_black_list_refusal, remove_lock_periods_refusal, set_accepted_callers_refusal,
    set_contract_state_active_refusal, set_contract_state_inactive_refusal, with_period_amounts,
    without_periods,
};
use crate::collections::{
    fresh_and_distinct, lemma_remove_keep_order_all_appended, lemma_set_insert_all_fresh,
    lemma_swap_remove_all_appended, set_insert_all, set_remove_keep_order_all, set_swap_remove_all,
};
use crate::accounts::{bonds_accounted, law_total_covers_every_bond};
use crate::arith::{lemma_penalty_bounds, penalty_amount};
use crate::admin::{
    initiate_bond_refusal, initiate_refund_refusal, modify_bond_refusal, sanction_amount,
    sanction_rate, sanction_refusal, sanctioned, set_bond_token_refusal, set_minimum_penalty_refusal,
    set_penalty_refusal,
};
use crate::config::set_administrator_refusal;
use crate::bonding::{
    bond_refusal, bonded, claim_closes, claim_compensation_id, claim_is_blacklisted, claim_proof,
    claim_refund_amount, claim_refund_refusal, claimed, withdraw_is_early, withdraw_payout,
    withdraw_penalty_amount, withdraw_refusal, withdrawn,
};
use crate::collections::{lemma_set_insert_no_dup, lemma_set_swap_remove_no_dup};
use crate::errors::ContractError;
use crate::mapper::{lemma_insert_fresh, lemma_remove_id};
use crate::storage::{BondView, BondingView, CallContext};
use crate::types::{Address, EsdtTokenPayment, PenaltyType, State};
use crate::views::{avg_score, bond_score, score_totals};

verus! {

/// No configuration changes without privilege: every owner or administrator
/// endpoint refuses a caller that is neither, and only the owner may set the
/// administrator.
pub proof fn law_admin_endpoints_need_privilege(
    v: BondingView,
    ctx: CallContext,
    administrator: Address,
    penalty: u64,
    token: Seq<u8>,
    nonce: u64,
    timestamp: u64,
    addresses: Seq<Address>,
    compensation_id: u64,
    args: Seq<(u64, nat)>,
    periods: Seq<u64>,
    penalty_type: PenaltyType,
    custom_penalty: Option<u64>,
)
    requires
        !v.is_privileged(ctx.caller, ctx.owner),
    ensures
        set_administrator_refusal(v, ctx, administrator) == Some(ContractError::OnlyOwner),
        set_contract_state_active_refusal(v, ctx) == Some(ContractError::NotPrivileged),
        set_contract_state_inactive_refusal(v, ctx) == Some(ContractError::NotPrivileged),
        set_minimum_penalty_refusal(v, ctx, penalty) is Some,
        set_penalty_refusal(v, ctx, penalty) == Some(ContractError::NotPrivileged),
        set_bond_token_refusal(v, ctx, token) == Some(ContractError::NotPrivileged),
        set_accepted_callers_refusal(v, ctx, addresses) == Some(ContractError::NotPrivileged),
        remove_accepted_callers_refusal(v, ctx, addresses) == Some(ContractError::NotPrivileged),
        add_lock_periods_refusal(v, ctx, args) == Some(ContractError::NotPrivileged),
        remove_lock_periods_refusal(v, ctx, periods) == Some(ContractError::NotPrivileged),
        add_to_black_list_refusal(v, ctx, compensation_id, addresses) == Some(
            ContractError::NotPrivileged,
        ),
        remove_from_black_list_refusal(v, ctx, compensation_id, addresses) == Some(
            ContractError::NotPrivileged,
        ),
        initiate_refund_refusal(v, ctx, token, nonce, timestamp) == Some(
            ContractError::NotPrivileged,
        ),
        modify_bond_refusal(v, ctx, token, nonce) == Some(ContractError::NotPrivileged),
        initiate_bond_refusal(v, ctx, token, nonce) == Some(ContractError::NotPrivileged),
        sanction_refusal(v, ctx, token, nonce, penalty_type, custom_penalty) == Some(
            ContractError::NotPrivileged,
        ),
{
}

/// Activating an inactive contract and then deactivating it, both by a
/// privileged caller, leaves the storage as it was.
pub proof fn law_deactivate_undoes_activate(v: BondingView, ctx: CallContext)
    requires
        v.valid(),
        v.contract_state == State::Inactive,
        v.is_privileged(ctx.caller, ctx.owner),
    ensures
        set_contract_state_active_refusal(v, ctx) is None,
        set_contract_state_inactive_refusal(
            BondingView { contract_state: State::Active, ..v },
            ctx,
        ) is None,
        (BondingView {
            contract_state: State::Inactive,
            ..BondingView { contract_state: State::Active, ..v }
        }) == v,
{
    assert((BondingView {
        contract_state: State::Inactive,
        ..BondingView { contract_state: State::Active, ..v }
    }) =~= v);
}

/// Accepting callers that were not accepted, then removing the same callers,
/// leaves the storage as it was.
pub proof fn law_remove_accepted_callers_undoes_set(
    v: BondingView,
    ctx: CallContext,
    callers: Seq<Address>,
)
    requires
        v.valid(),
        v.is_privileged(ctx.caller, ctx.owner),
        fresh_and_distinct(v.accepted_callers, callers),
    ensures
        set_accepted_callers_refusal(v, ctx, callers) is None,
        ({
            let added = BondingView {
                accepted_callers: set_insert_all(v.accepted_callers, callers),
                ..v
            };
            &&& remove_accepted_callers_refusal(added, ctx, callers) is None
            &&& (BondingView {
                accepted_callers: set_swap_remove_all(added.accepted_callers, callers),
                ..added
            }) == v
        }),
{
    lemma_set_insert_all_fresh(v.accepted_callers, callers);
    lemma_swap_remove_all_appended(v.accepted_callers, callers);
    let added = BondingView { accepted_callers: set_insert_all(v.accepted_callers, callers), ..v };
    assert((BondingView {
        accepted_callers: set_swap_remove_all(added.accepted_callers, callers),
        ..added
    }) =~= v);
}

/// Blacklisting addresses for a compensation, then taking the same addresses
/// off its blacklist, leaves every blacklist as it was.
pub proof fn law_remove_from_black_list_undoes_add(
    v: BondingView,
    ctx: CallContext,
    compensation_id: u64,
    addresses: Seq<Address>,
)
    requires
        v.valid(),
        v.is_privileged(ctx.caller, ctx.owner),
        v.compensations_ids.objects.contains_key(compensation_id),
        fresh_and_distinct(v.blacklist_of(compensation_id), addresses),
    ensures
        add_to_black_list_refusal(v, ctx, compensation_id, addresses) is None,
        ({
            let added = BondingView {
                compensation_blacklist: v.compensation_blacklist.insert(
                    compensation_id,
                    v.blacklist_of(compensation_id) + addresses,
                ),
                ..v
            };
            let removed = BondingView {
                compensation_blacklist: added.compensation_blacklist.insert(
                    compensation_id,
                    set_swap_remove_all(added.blacklist_of(compensation_id), addresses),
                ),
                ..added
            };
            &&& remove_from_black_list_refusal(added, ctx, compensation_id, addresses) is None
            &&& removed == (BondingView {
                compensation_blacklist: v.compensation_blacklist.insert(
                    compensation_id,
                    v.blacklist_of(compensation_id),
                ),
                ..v
            })
            &&& forall|id: u64| #[trigger] removed.blacklist_of(id) == v.blacklist_of(id)
        }),
{
    let s = v.blacklist_of(compensation_id);
    assert(s.no_duplicates());
    lemma_swap_remove_all_appended(s, addresses);
    let added = BondingView {
        compensation_blacklist: v.compensation_blacklist.insert(compensation_id, s + addresses),
        ..v
    };
    assert(added.blacklist_of(compensation_id) == s + addresses);
    let removed = BondingView {
        compensation_blacklist: added.compensation_blacklist.insert(
            compensation_id,
            set_swap_remove_all(added.blacklist_of(compensation_id), addresses),
        ),
        ..added
    };
    assert(removed.compensation_blacklist =~= v.compensation_blacklist.insert(compensation_id, s));
    assert(removed =~= (BondingView {
        compensation_blacklist: v.compensation_blacklist.insert(compensation_id, s),
        ..v
    }));
}

/// Adding new lock periods with their bond amounts, then removing the same
/// periods, leaves the storage as it was.
pub proof fn law_remove_lock_periods_undoes_add(
    v: BondingView,
    ctx: CallContext,
    args: Seq<(u64, nat)>,
)
    requires
        v.valid(),
        v.is_privileged(ctx.caller, ctx.owner),
        fresh_and_distinct(v.lock_periods, periods_of(args)),
    ensures
        add_lock_periods_refusal(v, ctx, args) is None,
        ({
            let added = BondingView {
                lock_periods: v.lock_periods + periods_of(args),
                lock_period_bond_amount: with_period_amounts(v.lock_period_bond_amount, args),
                ..v
            };
            &&& remove_lock_periods_refusal(added, ctx, periods_of(args)) is None
            &&& (BondingView {
                lock_periods: set_remove_keep_order_all(added.lock_periods, periods_of(args)),
                lock_period_bond_amount: without_periods(
                    added.lock_period_bond_amount,
                    periods_of(args),
                ),
                ..added
            }) == v
        }),
{
    let ps = periods_of(args);
    let m = v.lock_period_bond_amount;
    lemma_remove_keep_order_all_appended(v.lock_periods, ps);
    assert forall|p: u64| #[trigger] without_periods(with_period_amounts(m, args), ps).contains_key(p)
        == m.contains_key(p) by {
        lemma_without_periods(with_period_amounts(m, args), ps, p);
        lemma_with_period_amounts(m, args, p);
        if ps.contains(p) {
            let i = choose|i: int| 0 <= i < ps.len() && ps[i] == p;
            assert(!v.lock_periods.contains(ps[i]));
        }
    }
    assert forall|p: u64| #[trigger] m.contains_key(p) implies without_periods(
        with_period_amounts(m, args),
        ps,
    )[p] == m[p] by {
        lemma_without_periods(with_period_amounts(m, args), ps, p);
        lemma_with_period_amounts(m, args, p);
    }
    assert(without_periods(with_period_amounts(m, args), ps) =~= m);
    let added = BondingView {
        lock_periods: v.lock_periods + ps,
        lock_period_bond_amount: with_period_amounts(m, args),
        ..v
    };
    assert((BondingView {
        lock_periods: set_remove_keep_order_all(added.lock_periods, ps),
        lock_period_bond_amount: without_periods(added.lock_period_bond_amount, ps),
        ..added
    }) =~= v);
}

/// A bond can be withdrawn by its owner right away: before its unbond time
/// the owner gets the bond amount less the withdraw penalty, which stays in
/// the bond's compensation, and from then on the whole amount. Afterwards the
/// bond is gone: its NFT has no bond identifier, the bond is listed neither
/// among all bonds nor among the owner's, and the total bonded is back where
/// it was.
pub proof fn law_bond_then_withdraw(
    v: BondingView,
    ctx: CallContext,
    owner: Address,
    token: Seq<u8>,
    nonce: u64,
    lock_period: u64,
    payments: Seq<EsdtTokenPayment>,
    later: CallContext,
)
    requires
        v.valid(),
        bond_refusal(v, ctx, token, nonce, lock_period, payments) is None,
        later.caller == owner,
    ensures
        ({
            let amount = payments[0].amount@;
            let bond_id = (v.bonds_ids.last_id + 1) as u64;
            let compensation_id = (v.compensations_ids.last_id + 1) as u64;
            let early = later.block_timestamp <= ctx.block_timestamp + lock_period;
            let bonded_v = bonded(v, ctx, owner, token, nonce, lock_period, amount);
            let after = withdrawn(bonded_v, later, token, nonce);
            &&& withdraw_refusal(bonded_v, later, token, nonce) is None
            &&& withdraw_payout(bonded_v, later, token, nonce) == if early {
                amount - penalty_amount(amount, v.withdraw_penalty)
            } else {
                amount as int
            }
            &&& after.compensation_of(compensation_id).accumulated_amount == if early {
                penalty_amount(amount, v.withdraw_penalty)
            } else {
                0
            }
            &&& after.bonds_ids.id_of((token, nonce)) == 0
            &&& !after.bonds.contains(bond_id)
            &&& !after.bonds_of_address(owner).contains(bond_id)
            &&& after.total_bond_amount == v.total_bond_amount
        }),
{
    let amount = payments[0].amount@;
    let obj = (token, nonce);
    let bond_id = (v.bonds_ids.last_id + 1) as u64;
    let compensation_id = (v.compensations_ids.last_id + 1) as u64;
    let bonded_v = bonded(v, ctx, owner, token, nonce, lock_period, amount);
    lemma_insert_fresh(v.bonds_ids, obj);
    lemma_insert_fresh(v.compensations_ids, obj);
    assert(bonded_v.bonds_ids.id_of(obj) == bond_id);
    assert(bonded_v.compensations_ids.id_of(obj) == compensation_id);
    lemma_penalty_bounds(amount, v.withdraw_penalty);
    assert(withdraw_penalty_amount(bonded_v, token, nonce) == penalty_amount(
        amount,
        v.withdraw_penalty,
    ));
    assert(withdraw_is_early(bonded_v, later, token, nonce) == (later.block_timestamp
        <= ctx.block_timestamp + lock_period));
    lemma_remove_id(bonded_v.bonds_ids, bond_id);
    lemma_set_insert_no_dup(v.bonds, bond_id);
    lemma_set_swap_remove_no_dup(bonded_v.bonds, bond_id);
    let owned = v.bonds_of_address(owner);
    assert(owned.no_duplicates());
    lemma_set_insert_no_dup(owned, bond_id);
    lemma_set_swap_remove_no_dup(bonded_v.address_bonds[owner], bond_id);
}

/// A withdrawal splits the bond's remaining amount between the owner and the
/// bond's compensation: what is paid out and what the compensation gains add
/// up to the remaining amount, neither part is negative, and the total bonded
/// shrinks by the remaining amount.
pub proof fn law_withdraw_splits_bond(v: BondingView, ctx: CallContext, token: Seq<u8>, nonce: u64)
    requires
        v.valid(),
        bonds_accounted(v),
        withdraw_refusal(v, ctx, token, nonce) is None,
    ensures
        ({
            let bond = v.bond_of(v.bonds_ids.id_of((token, nonce)));
            let compensation_id = v.compensations_ids.id_of((token, nonce));
            let gained = withdrawn(v, ctx, token, nonce).compensation_of(
                compensation_id,
            ).accumulated_amount - v.compensation_of(compensation_id).accumulated_amount;
            &&& withdraw_payout(v, ctx, token, nonce) + gained == bond.remaining_amount
            &&& 0 <= withdraw_payout(v, ctx, token, nonce) <= bond.remaining_amount
            &&& 0 <= gained
            &&& withdrawn(v, ctx, token, nonce).total_bond_amount == v.total_bond_amount
                - bond.remaining_amount
        }),
{
    let bond = v.bond_of(v.bonds_ids.id_of((token, nonce)));
    lemma_penalty_bounds(bond.bond_amount, v.withdraw_penalty);
    crate::mapper::lemma_id_of(v.bonds_ids, (token, nonce));
    law_total_covers_every_bond(v, v.bonds_ids.id_of((token, nonce)));
}

/// A sanction moves value and creates none: what leaves the bond's remaining
/// amount joins the compensation's accumulated amount, the total bonded
/// shrinks by as much, and that part is the penalty rate applied to the bond
/// amount, at most the whole bond amount.
pub proof fn law_sanction_moves_value(
    v: BondingView,
    ctx: CallContext,
    token: Seq<u8>,
    nonce: u64,
    penalty: PenaltyType,
    custom_penalty: Option<u64>,
)
    requires
        v.valid(),
        bonds_accounted(v),
        sanction_refusal(v, ctx, token, nonce, penalty, custom_penalty) is None,
    ensures
        ({
            let bond_id = v.bonds_ids.id_of((token, nonce));
            let compensation_id = v.compensations_ids.id_of((token, nonce));
            let after = sanctioned(v, token, nonce, penalty, custom_penalty);
            let taken = sanction_amount(v, token, nonce, penalty, custom_penalty);
            &&& after.bond_of(bond_id).remaining_amount + after.compensation_of(
                compensation_id,
            ).accumulated_amount == v.bond_of(bond_id).remaining_amount + v.compensation_of(
                compensation_id,
            ).accumulated_amount
            &&& after.total_bond_amount == v.total_bond_amount - taken
            &&& taken == penalty_amount(
                v.bond_of(bond_id).bond_amount,
                sanction_rate(v, penalty, custom_penalty).unwrap(),
            )
            &&& 0 <= taken <= v.bond_of(bond_id).bond_amount
        }),
{
    let bond_id = v.bonds_ids.id_of((token, nonce));
    lemma_penalty_bounds(
        v.bond_of(bond_id).bond_amount,
        sanction_rate(v, penalty, custom_penalty).unwrap(),
    );
    crate::mapper::lemma_id_of(v.bonds_ids, (token, nonce));
    law_total_covers_every_bond(v, bond_id);
}

/// A claim pays out of the compensation and nothing more: its accumulated
/// amount shrinks by exactly the share paid in the bond token (nothing for a
/// blacklisted caller), its proof amount by exactly the proof tokens handed
/// back, and the caller's refund is gone.
pub proof fn law_claim_pays_out_of_compensation(
    v: BondingView,
    ctx: CallContext,
    token: Seq<u8>,
    nonce: u64,
)
    requires
        v.valid(),
        claim_refund_refusal(v, ctx, token, nonce) is None,
    ensures
        ({
            let id = claim_compensation_id(v, token, nonce);
            let after = claimed(v, ctx, token, nonce);
            let paid = if claim_is_blacklisted(v, ctx, token, nonce) {
                0
            } else {
                claim_refund_amount(v, ctx, token, nonce)
            };
            &&& after.compensation_of(id).accumulated_amount + paid == v.compensation_of(
                id,
            ).accumulated_amount
            &&& after.compensation_of(id).proof_amount + claim_proof(v, ctx, token, nonce)
                == v.compensation_of(id).proof_amount
            &&& after.refund_of(ctx.caller, id) is None
        }),
{
}

/// A refund is paid at most once: right after a claim, a second claim of the
/// same caller for the same NFT is refused, because the refund is gone or,
/// when the claim emptied the compensation, because the compensation is.
pub proof fn law_refund_claimed_once(v: BondingView, ctx: CallContext, token: Seq<u8>, nonce: u64)
    requires
        v.valid(),
        claim_refund_refusal(v, ctx, token, nonce) is None,
    ensures
        claim_refund_refusal(claimed(v, ctx, token, nonce), ctx, token, nonce) == if claim_closes(
            v,
            ctx,
            token,
            nonce,
        ) {
            Some(ContractError::UnknownObject)
        } else {
            Some(ContractError::RefundNotFound)
        },
{
    let id = claim_compensation_id(v, token, nonce);
    lemma_remove_id(v.compensations_ids, id);
    crate::mapper::lemma_id_of(v.compensations_ids, (token, nonce));
}

/// The score of a bond that has not unbonded lies between 0 and 10_000 as
/// long as its unbond time is at most one lock period away.
proof fn lemma_bond_score_bounds(b: BondView, timestamp: u64)
    requires
        timestamp < b.unbond_timestamp,
        b.lock_period > 0,
        b.unbond_timestamp <= timestamp + b.lock_period,
    ensures
        0 <= bond_score(b, timestamp) <= 10_000,
{
    let lp = b.lock_period as int;
    let d = b.unbond_timestamp - timestamp;
    let q = 10_000_000_000_000int / lp;
    assert(0 <= q * lp <= 10_000_000_000_000int) by (nonlinear_arith)
        requires
            lp > 0,
            q == 10_000_000_000_000int / lp,
    ;
    assert(0 <= q * d <= q * lp) by (nonlinear_arith)
        requires
            0 < d <= lp,
            0 <= q,
    ;
    assert(0 <= (q * d) / 1_000_000_000int <= 10_000) by (nonlinear_arith)
        requires
            0 <= q * d <= 10_000_000_000_000int,
    ;
}

/// Summed scores are at most 10_000 times the summed remaining amounts.
proof fn lemma_score_totals_bounds(v: BondingView, timestamp: u64, ids: Seq<u64>)
    requires
        forall|i: int|
            0 <= i < ids.len() ==> v.bond_of(#[trigger] ids[i]).unbond_timestamp <= timestamp
                + v.bond_of(ids[i]).lock_period,
    ensures
        score_totals(v, timestamp, ids) matches Ok((total, count)) ==> 0 <= total <= 10_000 * count
            && 0 <= count,
    decreases ids.len(),
{
    if ids.len() > 0 {
        let pre = ids.drop_last();
        assert forall|i: int| 0 <= i < pre.len() implies v.bond_of(#[trigger] pre[i]).unbond_timestamp
            <= timestamp + v.bond_of(pre[i]).lock_period by {
            assert(pre[i] == ids[i]);
        }
        lemma_score_totals_bounds(v, timestamp, pre);
        let b = v.bond_of(ids.last());
        assert(b.unbond_timestamp <= timestamp + b.lock_period) by {
            assert(ids[ids.len() - 1] == ids.last());
        }
        if timestamp < b.unbond_timestamp && b.lock_period != 0 {
            lemma_bond_score_bounds(b, timestamp);
            let sc = bond_score(b, timestamp);
            let r = b.remaining_amount as int;
            assert(0 <= sc * r <= 10_000 * r) by (nonlinear_arith)
                requires
                    0 <= sc <= 10_000,
                    0 <= r,
            ;
        }
    }
}

/// The average score of an address lies between 0 and 10_000 (100%) when
/// none of its bonds unbonds more than one lock period after `timestamp`.
pub proof fn law_avg_score_bounds(v: BondingView, timestamp: u64, address: Address)
    requires
        forall|i: int|
            0 <= i < v.bonds_of_address(address).len() ==> v.bond_of(
                #[trigger] v.bonds_of_address(address)[i],
            ).unbond_timestamp <= timestamp + v.bond_of(
                v.bonds_of_address(address)[i],
            ).lock_period,
    ensures
        avg_score(v, timestamp, address) matches Ok(score) ==> 0 <= score <= 10_000,
{
    let ids = v.bonds_of_address(address);
    lemma_score_totals_bounds(v, timestamp, ids);
    if let Ok((total, count)) = score_totals(v, timestamp, ids) {
        if count != 0 {
            assert(0 <= total / count <= 10_000) by (nonlinear_arith)
                requires
                    0 <= total <= 10_000 * count,
                    0 < count,
            ;
        }
    }
}

} // verus!
