//! The total bonded is the sum of the remaining amounts of the listed bonds,
//! and every endpoint that touches bonds keeps it so.
use vstd::prelude::*;
use crate::admin::{
    initiate_bond_refusal, initiated_bond, modify_bond_refusal, sanction_rate,
    sanction_refusal, sanctioned,
};
use crate::arith::lemma_penalty_bounds;
use crate::bonding::{
    bond_refusal, bonded, renew_refusal, renewed, withdraw_refusal, withdrawn,
};
use crate::collections::{lemma_first_index_unique, lemma_set_swap_remove_no_dup, set_swap_remove};
use crate::mapper::{lemma_id_of, lemma_insert_fresh, lemma_remove_id};
use crate::storage::{BondView, BondingView, CallContext};
use crate::types::{Address, EsdtTokenPayment, PenaltyType};
use crate::views::remaining_sum;

verus! {

/// The bond bookkeeping: the total bonded is the sum of the remaining amounts
/// of the listed bonds; every listed bond is registered; a registered bond
/// that is not listed holds nothing; and no bond is stored past the last
/// identifier handed out.
pub open spec fn bonds_accounted(v: BondingView) -> bool {
    &&& v.total_bond_amount == remaining_sum(v.bond_records, v.bonds)
    &&& forall|id: u64| #[trigger] v.bonds.contains(id) ==> v.bonds_ids.objects.contains_key(id)
    &&& forall|id: u64|
        #[trigger] v.bonds_ids.objects.contains_key(id) && !v.bonds.contains(id) ==> v.bond_of(
            id,
        ).bond_amount == 0 && v.bond_of(id).remaining_amount == 0
    &&& forall|id: u64| #[trigger] v.bond_records.contains_key(id) ==> id <= v.bonds_ids.last_id
}

/// The sum over two lists one after the other.
proof fn lemma_remaining_sum_concat(v: BondingView, a: Seq<u64>, b: Seq<u64>)
    ensures
        remaining_sum(v.bond_records, a + b) == remaining_sum(v.bond_records, a) + remaining_sum(v.bond_records, b),
    decreases b.len(),
{
    if b.len() == 0 {
        assert(a + b =~= a);
    } else {
        lemma_remaining_sum_concat(v, a, b.drop_last());
        assert((a + b).drop_last() =~= a + b.drop_last());
        assert((a + b).last() == b.last());
    }
}

/// Sums over the same list agree when the listed bonds have the same remaining amounts.
proof fn lemma_remaining_sum_congruent(v: BondingView, w: BondingView, ids: Seq<u64>)
    requires
        forall|i: int|
            0 <= i < ids.len() ==> v.bond_of(#[trigger] ids[i]).remaining_amount == w.bond_of(
                ids[i],
            ).remaining_amount,
    ensures
        remaining_sum(v.bond_records, ids) == remaining_sum(w.bond_records, ids),
    decreases ids.len(),
{
    if ids.len() > 0 {
        let pre = ids.drop_last();
        assert forall|i: int| 0 <= i < pre.len() implies v.bond_of(#[trigger] pre[i]).remaining_amount
            == w.bond_of(pre[i]).remaining_amount by {
            assert(pre[i] == ids[i]);
        }
        lemma_remaining_sum_congruent(v, w, pre);
        assert(ids.last() == ids[ids.len() - 1]);
    }
}

/// The sum over a single listed bond.
proof fn lemma_remaining_sum_single(v: BondingView, k: u64)
    ensures
        remaining_sum(v.bond_records, seq![k]) == v.bond_of(k).remaining_amount,
{
    assert(seq![k].drop_last() =~= Seq::<u64>::empty());
    assert(remaining_sum(v.bond_records, seq![k].drop_last()) == 0);
    assert(seq![k].last() == k);
}

/// Sums agree when the views differ only in the bond `k`, which is not listed.
proof fn lemma_remaining_sum_unlisted(v: BondingView, w: BondingView, ids: Seq<u64>, k: u64)
    requires
        !ids.contains(k),
        forall|id: u64| id != k ==> #[trigger] v.bond_of(id) == w.bond_of(id),
    ensures
        remaining_sum(v.bond_records, ids) == remaining_sum(w.bond_records, ids),
{
    assert forall|i: int| 0 <= i < ids.len() implies v.bond_of(#[trigger] ids[i]).remaining_amount
        == w.bond_of(ids[i]).remaining_amount by {
        assert(ids[i] != k);
    }
    lemma_remaining_sum_congruent(v, w, ids);
}

/// Changing the remaining amount of one bond listed once changes the sum by the difference.
proof fn lemma_remaining_sum_change_one(v: BondingView, w: BondingView, ids: Seq<u64>, k: u64)
    requires
        ids.no_duplicates(),
        ids.contains(k),
        forall|id: u64| id != k ==> #[trigger] v.bond_of(id) == w.bond_of(id),
    ensures
        remaining_sum(w.bond_records, ids) == remaining_sum(v.bond_records, ids) - v.bond_of(k).remaining_amount + w.bond_of(
            k,
        ).remaining_amount,
{
    let i = ids.index_of(k);
    let a = ids.subrange(0, i);
    let c = ids.subrange(i + 1, ids.len() as int);
    assert(ids =~= a + seq![k] + c);
    assert(!a.contains(k)) by {
        if a.contains(k) {
            let j = choose|j: int| 0 <= j < a.len() && a[j] == k;
            assert(ids[j] == ids[i]);
        }
    }
    assert(!c.contains(k)) by {
        if c.contains(k) {
            let j = choose|j: int| 0 <= j < c.len() && c[j] == k;
            assert(ids[i + 1 + j] == ids[i]);
        }
    }
    lemma_remaining_sum_unlisted(v, w, a, k);
    lemma_remaining_sum_unlisted(v, w, c, k);
    lemma_remaining_sum_concat(v, a + seq![k], c);
    lemma_remaining_sum_concat(v, a, seq![k]);
    lemma_remaining_sum_concat(w, a + seq![k], c);
    lemma_remaining_sum_concat(w, a, seq![k]);
    lemma_remaining_sum_single(v, k);
    lemma_remaining_sum_single(w, k);
}

/// Swap-removing a listed bond takes its remaining amount out of the sum.
proof fn lemma_remaining_sum_swap_remove(v: BondingView, ids: Seq<u64>, k: u64)
    requires
        ids.no_duplicates(),
        ids.contains(k),
    ensures
        remaining_sum(v.bond_records, set_swap_remove(ids, k)) == remaining_sum(v.bond_records, ids) - v.bond_of(
            k,
        ).remaining_amount,
{
    let i = ids.index_of(k);
    lemma_first_index_unique(ids, i);
    let n = ids.len() - 1;
    let a = ids.subrange(0, i);
    let l = ids[n];
    if i == n {
        assert(ids =~= a + seq![k]);
        assert(set_swap_remove(ids, k) =~= a);
        lemma_remaining_sum_concat(v, a, seq![k]);
        lemma_remaining_sum_single(v, k);
    } else {
        let b = ids.subrange(i + 1, n);
        assert(ids =~= a + seq![k] + b + seq![l]);
        assert(set_swap_remove(ids, k) =~= a + seq![l] + b);
        lemma_remaining_sum_concat(v, a + seq![k] + b, seq![l]);
        lemma_remaining_sum_concat(v, a + seq![k], b);
        lemma_remaining_sum_concat(v, a, seq![k]);
        lemma_remaining_sum_concat(v, a + seq![l], b);
        lemma_remaining_sum_concat(v, a, seq![l]);
        lemma_remaining_sum_single(v, k);
        lemma_remaining_sum_single(v, l);
    }
}

/// A sum of remaining amounts is never negative.
proof fn lemma_remaining_sum_nonneg(v: BondingView, ids: Seq<u64>)
    ensures
        0 <= remaining_sum(v.bond_records, ids),
    decreases ids.len(),
{
    if ids.len() > 0 {
        lemma_remaining_sum_nonneg(v, ids.drop_last());
    }
}

/// With the bookkeeping in place, the total bonded covers the remaining
/// amount of every registered bond.
pub proof fn law_total_covers_every_bond(v: BondingView, id: u64)
    requires
        v.valid(),
        bonds_accounted(v),
        v.bonds_ids.objects.contains_key(id),
    ensures
        v.bond_of(id).remaining_amount <= v.total_bond_amount,
{
    if v.bonds.contains(id) {
        let i = v.bonds.index_of(id);
        let a = v.bonds.subrange(0, i);
        let c = v.bonds.subrange(i + 1, v.bonds.len() as int);
        assert(v.bonds =~= a + seq![id] + c);
        lemma_remaining_sum_concat(v, a + seq![id], c);
        lemma_remaining_sum_concat(v, a, seq![id]);
        lemma_remaining_sum_single(v, id);
        lemma_remaining_sum_nonneg(v, a);
        lemma_remaining_sum_nonneg(v, c);
    }
}

/// The storage right after deployment is accounted for.
pub proof fn law_initial_bonds_accounted()
    ensures
        bonds_accounted(BondingView::initial()),
{
}

/// A bond keeps the bookkeeping: the new bond is listed with its full
/// amount, and the total bonded grows by as much.
pub proof fn law_bond_keeps_bonds_accounted(
    v: BondingView,
    ctx: CallContext,
    owner: Address,
    token: Seq<u8>,
    nonce: u64,
    lock_period: u64,
    payments: Seq<EsdtTokenPayment>,
)
    requires
        v.valid(),
        bonds_accounted(v),
        bond_refusal(v, ctx, token, nonce, lock_period, payments) is None,
    ensures
        bonds_accounted(bonded(v, ctx, owner, token, nonce, lock_period, payments[0].amount@)),
{
    let amount = payments[0].amount@;
    let w = bonded(v, ctx, owner, token, nonce, lock_period, amount);
    let bond_id = (v.bonds_ids.last_id + 1) as u64;
    lemma_insert_fresh(v.bonds_ids, (token, nonce));
    assert(!v.bonds.contains(bond_id)) by {
        if v.bonds.contains(bond_id) {
            assert(v.bonds_ids.objects.contains_key(bond_id));
        }
    }
    assert(w.bonds =~= v.bonds.push(bond_id));
    assert forall|id: u64| id != bond_id implies #[trigger] v.bond_of(id) == w.bond_of(id) by {}
    lemma_remaining_sum_unlisted(v, w, v.bonds, bond_id);
    lemma_remaining_sum_concat(w, v.bonds, seq![bond_id]);
    assert(v.bonds + seq![bond_id] =~= w.bonds);
    lemma_remaining_sum_single(w, bond_id);
    assert(w.total_bond_amount == remaining_sum(w.bond_records, w.bonds));
    assert forall|id: u64| #[trigger] w.bonds.contains(id) implies w.bonds_ids.objects.contains_key(
        id,
    ) by {
        if id != bond_id {
            let j = choose|j: int| 0 <= j < w.bonds.len() && w.bonds[j] == id;
            assert(v.bonds[j] == id);
            assert(v.bonds.contains(id));
            assert(v.bonds_ids.objects.contains_key(id));
        }
    }
    assert forall|id: u64|
        #[trigger] w.bonds_ids.objects.contains_key(id) && !w.bonds.contains(id) implies w.bond_of(
            id,
        ).bond_amount == 0 && w.bond_of(id).remaining_amount == 0 by {
        assert(id != bond_id);
        assert(v.bonds_ids.objects.contains_key(id));
        if v.bonds.contains(id) {
            let j = choose|j: int| 0 <= j < v.bonds.len() && v.bonds[j] == id;
            assert(w.bonds[j] == id);
        }
    }
}

/// A withdrawal keeps the bookkeeping: the bond leaves the list, and its
/// remaining amount leaves the total bonded.
pub proof fn law_withdraw_keeps_bonds_accounted(
    v: BondingView,
    ctx: CallContext,
    token: Seq<u8>,
    nonce: u64,
)
    requires
        v.valid(),
        bonds_accounted(v),
        withdraw_refusal(v, ctx, token, nonce) is None,
    ensures
        bonds_accounted(withdrawn(v, ctx, token, nonce)),
{
    let w = withdrawn(v, ctx, token, nonce);
    let bond_id = v.bonds_ids.id_of((token, nonce));
    lemma_id_of(v.bonds_ids, (token, nonce));
    law_total_covers_every_bond(v, bond_id);
    lemma_remove_id(v.bonds_ids, bond_id);
    lemma_set_swap_remove_no_dup(v.bonds, bond_id);
    assert forall|id: u64| id != bond_id implies #[trigger] v.bond_of(id) == w.bond_of(id) by {}
    assert(w.bond_of(bond_id).remaining_amount == v.bond_of(bond_id).remaining_amount);
    if v.bonds.contains(bond_id) {
        lemma_remaining_sum_swap_remove(v, v.bonds, bond_id);
        lemma_remaining_sum_unlisted(v, w, w.bonds, bond_id);
    } else {
        assert(w.bonds == v.bonds);
        lemma_remaining_sum_unlisted(v, w, v.bonds, bond_id);
    }
    assert forall|id: u64| #[trigger] w.bonds.contains(id) implies w.bonds_ids.objects.contains_key(
        id,
    ) by {
        assert(v.bonds.contains(id) && id != bond_id);
    }
    assert forall|id: u64|
        #[trigger] w.bonds_ids.objects.contains_key(id) && !w.bonds.contains(id) implies w.bond_of(
            id,
        ).bond_amount == 0 && w.bond_of(id).remaining_amount == 0 by {
        assert(id != bond_id);
        assert(v.bonds_ids.objects.contains_key(id));
        assert(!v.bonds.contains(id));
    }
}

/// A sanction keeps the bookkeeping: what it takes from the bond's remaining
/// amount it also takes from the total bonded.
pub proof fn law_sanction_keeps_bonds_accounted(
    v: BondingView,
    ctx: CallContext,
    token: Seq<u8>,
    nonce: u64,
    penalty: PenaltyType,
    custom_penalty: Option<u64>,
)
    requires
        v.valid(),
        bonds_accounted(v),
        sanction_refusal(v, ctx, token, nonce, penalty, custom_penalty) is None,
    ensures
        bonds_accounted(sanctioned(v, token, nonce, penalty, custom_penalty)),
{
    let w = sanctioned(v, token, nonce, penalty, custom_penalty);
    let bond_id = v.bonds_ids.id_of((token, nonce));
    lemma_id_of(v.bonds_ids, (token, nonce));
    law_total_covers_every_bond(v, bond_id);
    lemma_penalty_bounds(
        v.bond_of(bond_id).bond_amount,
        sanction_rate(v, penalty, custom_penalty).unwrap(),
    );
    assert forall|id: u64| id != bond_id implies #[trigger] v.bond_of(id) == w.bond_of(id) by {}
    if v.bonds.contains(bond_id) {
        lemma_remaining_sum_change_one(v, w, v.bonds, bond_id);
    } else {
        lemma_remaining_sum_unlisted(v, w, v.bonds, bond_id);
    }
}

/// A renewal keeps the bookkeeping: no amount changes.
pub proof fn law_renew_keeps_bonds_accounted(
    v: BondingView,
    ctx: CallContext,
    token: Seq<u8>,
    nonce: u64,
)
    requires
        v.valid(),
        bonds_accounted(v),
        renew_refusal(v, ctx, token, nonce) is None,
    ensures
        bonds_accounted(renewed(v, ctx, token, nonce)),
{
    let w = renewed(v, ctx, token, nonce);
    let bond_id = v.bonds_ids.id_of((token, nonce));
    lemma_id_of(v.bonds_ids, (token, nonce));
    assert forall|id: u64| id != bond_id implies #[trigger] v.bond_of(id) == w.bond_of(id) by {}
    if v.bonds.contains(bond_id) {
        lemma_remaining_sum_change_one(v, w, v.bonds, bond_id);
    } else {
        lemma_remaining_sum_unlisted(v, w, v.bonds, bond_id);
    }
}

/// Moving a bond's unbond time keeps the bookkeeping: no amount changes.
pub proof fn law_modify_bond_keeps_bonds_accounted(
    v: BondingView,
    ctx: CallContext,
    token: Seq<u8>,
    nonce: u64,
)
    requires
        v.valid(),
        bonds_accounted(v),
        modify_bond_refusal(v, ctx, token, nonce) is None,
    ensures
        ({
            let id = v.bonds_ids.id_of((token, nonce));
            bonds_accounted(
                BondingView {
                    bond_records: v.bond_records.insert(
                        id,
                        BondView { unbond_timestamp: ctx.block_timestamp, ..v.bond_of(id) },
                    ),
                    ..v
                },
            )
        }),
{
    let bond_id = v.bonds_ids.id_of((token, nonce));
    let w = BondingView {
        bond_records: v.bond_records.insert(
            bond_id,
            BondView { unbond_timestamp: ctx.block_timestamp, ..v.bond_of(bond_id) },
        ),
        ..v
    };
    lemma_id_of(v.bonds_ids, (token, nonce));
    assert forall|id: u64| id != bond_id implies #[trigger] v.bond_of(id) == w.bond_of(id) by {}
    if v.bonds.contains(bond_id) {
        lemma_remaining_sum_change_one(v, w, v.bonds, bond_id);
    } else {
        lemma_remaining_sum_unlisted(v, w, v.bonds, bond_id);
    }
}

/// Attaching a bond to an address keeps the bookkeeping: a bond registered
/// on the way holds nothing.
pub proof fn law_initiate_bond_keeps_bonds_accounted(
    v: BondingView,
    ctx: CallContext,
    address: Address,
    token: Seq<u8>,
    nonce: u64,
)
    requires
        v.valid(),
        bonds_accounted(v),
        initiate_bond_refusal(v, ctx, token, nonce) is None,
    ensures
        bonds_accounted(initiated_bond(v, address, token, nonce)),
{
    let w = initiated_bond(v, address, token, nonce);
    lemma_remaining_sum_congruent(v, w, v.bonds);
    if v.bonds_ids.id_of((token, nonce)) == 0 {
        let id = (v.bonds_ids.last_id + 1) as u64;
        lemma_insert_fresh(v.bonds_ids, (token, nonce));
        assert(!v.bond_records.contains_key(id));
        assert(!v.bonds.contains(id)) by {
            if v.bonds.contains(id) {
                assert(v.bonds_ids.objects.contains_key(id));
            }
        }
    }
}

} // verus!
