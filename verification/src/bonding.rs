//! The user endpoints: bonding, withdrawing, renewing, proving and claiming refunds.
use vstd::prelude::*;
use crate::accounts::{
    law_bond_keeps_bonds_accounted, law_renew_keeps_bonds_accounted, law_total_covers_every_bond,
    law_withdraw_keeps_bonds_accounted,
};
use crate::amount::Amount;
use crate::arith::{apply_penalty, penalty_amount};
use crate::collections::{lemma_set_insert_no_dup, lemma_set_swap_remove_no_dup, set_insert, set_swap_remove, UnorderedSet};
use crate::errors::ContractError;
use crate::mapper::MapperView;
use crate::storage::{
    BondCache, BondRecord, BondView, BondingView, CallContext, CompensationCache, CompensationRecord,
    CompensationView, LifeBonding, Refund, RefundView, COMPENSATION_SAFE_PERIOD,
};
use crate::types::{bytes_eq, copy_bytes, Address, EsdtTokenPayment, EsdtTokenType};

verus! {

pub open spec fn bond_refusal(
    v: BondingView,
    ctx: CallContext,
    token: Seq<u8>,
    nonce: u64,
    lock_period: u64,
    payments: Seq<EsdtTokenPayment>,
) -> Option<ContractError> {
    if !v.is_active() {
        Some(ContractError::ContractInactive)
    } else if !((ctx.caller_is_smart_contract && v.accepted_callers.contains(ctx.caller))
        || v.is_privileged(ctx.caller, ctx.owner)) {
        Some(ContractError::EndpointCallableOnlyByAcceptedCallers)
    } else if payments.len() != 1 {
        Some(ContractError::IncorrectNumberOfEsdtTransfers)
    } else if payments[0].token_identifier@ != v.bond_payment_token {
        Some(ContractError::InvalidTokenIdentifier)
    } else if !v.lock_periods.contains(lock_period) || v.bond_amount_for(lock_period) == 0 {
        Some(ContractError::InvalidLockPeriod)
    } else if payments[0].amount@ != v.bond_amount_for(lock_period) {
        Some(ContractError::InvalidAmountSent)
    } else if ctx.block_timestamp + lock_period > u64::MAX {
        Some(ContractError::IntegerOverflow)
    } else if v.bonds_ids.id_of((token, nonce)) != 0 {
        Some(ContractError::BondAlreadyCreated)
    } else if v.bonds_ids.last_id == u64::MAX {
        Some(ContractError::IntegerOverflow)
    } else if v.compensations_ids.id_of((token, nonce)) != 0 {
        Some(ContractError::ObjectAlreadyRegistered)
    } else if v.compensations_ids.last_id == u64::MAX {
        Some(ContractError::IntegerOverflow)
    } else {
        None
    }
}

/// The storage after a bond of `amount` on `(token, nonce)` for `owner`:
/// a new bond and a new, empty compensation under the next identifiers.
pub open spec fn bonded(
    v: BondingView,
    ctx: CallContext,
    owner: Address,
    token: Seq<u8>,
    nonce: u64,
    lock_period: u64,
    amount: nat,
) -> BondingView {
    let bond_id = (v.bonds_ids.last_id + 1) as u64;
    let compensation_id = (v.compensations_ids.last_id + 1) as u64;
    BondingView {
        bonds_ids: MapperView {
            last_id: bond_id,
            objects: v.bonds_ids.objects.insert(bond_id, (token, nonce)),
        },
        bond_records: v.bond_records.insert(
            bond_id,
            BondView {
                address: owner,
                token_identifier: token,
                nonce,
                lock_period,
                bond_timestamp: ctx.block_timestamp,
                unbond_timestamp: (ctx.block_timestamp + lock_period) as u64,
                bond_amount: amount,
                remaining_amount: amount,
            },
        ),
        address_bonds: v.address_bonds.insert(owner, set_insert(v.bonds_of_address(owner), bond_id)),
        bonds: set_insert(v.bonds, bond_id),
        compensations_ids: MapperView {
            last_id: compensation_id,
            objects: v.compensations_ids.objects.insert(compensation_id, (token, nonce)),
        },
        compensations: set_insert(v.compensations, compensation_id),
        compensation_records: v.compensation_records.insert(
            compensation_id,
            CompensationView {
                token_identifier: token,
                nonce,
                accumulated_amount: 0,
                proof_amount: 0,
                end_date: 0,
            },
        ),
        total_bond_amount: v.total_bond_amount + amount,
        ..v
    }
}

/// Whether a withdrawal of the bond now comes before its unbond time and so pays the penalty.
pub open spec fn withdraw_is_early(v: BondingView, ctx: CallContext, token: Seq<u8>, nonce: u64) -> bool {
    v.bond_of(v.bonds_ids.id_of((token, nonce))).unbond_timestamp >= ctx.block_timestamp
}

/// The penalty an early withdrawal leaves in the compensation.
pub open spec fn withdraw_penalty_amount(v: BondingView, token: Seq<u8>, nonce: u64) -> nat {
    penalty_amount(v.bond_of(v.bonds_ids.id_of((token, nonce))).bond_amount, v.withdraw_penalty)
}

pub open spec fn withdraw_refusal(
    v: BondingView,
    ctx: CallContext,
    token: Seq<u8>,
    nonce: u64,
) -> Option<ContractError> {
    let bond_id = v.bonds_ids.id_of((token, nonce));
    let compensation_id = v.compensations_ids.id_of((token, nonce));
    let penalty = withdraw_penalty_amount(v, token, nonce);
    if !v.is_active() {
        Some(ContractError::ContractInactive)
    } else if bond_id == 0 || compensation_id == 0 {
        Some(ContractError::UnknownObject)
    } else if v.bond_of(bond_id).address != ctx.caller {
        Some(ContractError::BondNotFound)
    } else if withdraw_is_early(v, ctx, token, nonce) && penalty > v.bond_of(bond_id).remaining_amount {
        Some(ContractError::PenaltiesExceedWithdrawalAmount)
    } else {
        None
    }
}

/// What a withdrawal pays out: the bond's remaining amount, less the
/// penalty when early.
pub open spec fn withdraw_payout(v: BondingView, ctx: CallContext, token: Seq<u8>, nonce: u64) -> int {
    let bond = v.bond_of(v.bonds_ids.id_of((token, nonce)));
    if withdraw_is_early(v, ctx, token, nonce) {
        bond.remaining_amount - withdraw_penalty_amount(v, token, nonce)
    } else {
        bond.remaining_amount as int
    }
}

/// The storage after a withdrawal: the bond's address, token and nonce are
/// cleared, its identifier is released, it leaves the bond lists and its
/// remaining amount leaves the total bonded; an early withdrawal's penalty
/// joins the compensation.
pub open spec fn withdrawn(v: BondingView, ctx: CallContext, token: Seq<u8>, nonce: u64) -> BondingView {
    let bond_id = v.bonds_ids.id_of((token, nonce));
    let compensation_id = v.compensations_ids.id_of((token, nonce));
    let bond = v.bond_of(bond_id);
    let compensation = v.compensation_of(compensation_id);
    BondingView {
        total_bond_amount: (v.total_bond_amount - bond.remaining_amount) as nat,
        bond_records: v.bond_records.insert(
            bond_id,
            BondView {
                lock_period: bond.lock_period,
                bond_timestamp: bond.bond_timestamp,
                unbond_timestamp: bond.unbond_timestamp,
                bond_amount: bond.bond_amount,
                remaining_amount: bond.remaining_amount,
                ..BondView::empty()
            },
        ),
        bonds_ids: MapperView {
            last_id: v.bonds_ids.last_id,
            objects: v.bonds_ids.objects.remove(bond_id),
        },
        address_bonds: if v.address_bonds.contains_key(ctx.caller) {
            v.address_bonds.insert(ctx.caller, set_swap_remove(v.address_bonds[ctx.caller], bond_id))
        } else {
            v.address_bonds
        },
        bonds: set_swap_remove(v.bonds, bond_id),
        compensation_records: v.compensation_records.insert(
            compensation_id,
            if withdraw_is_early(v, ctx, token, nonce) {
                CompensationView {
                    accumulated_amount: compensation.accumulated_amount + withdraw_penalty_amount(
                        v,
                        token,
                        nonce,
                    ),
                    ..compensation
                }
            } else {
                compensation
            },
        ),
        ..v
    }
}

pub open spec fn renew_refusal(v: BondingView, ctx: CallContext, token: Seq<u8>, nonce: u64) -> Option<
    ContractError,
> {
    let bond = v.bond_of(v.bonds_ids.id_of((token, nonce)));
    if !v.is_active() {
        Some(ContractError::ContractInactive)
    } else if v.bonds_ids.id_of((token, nonce)) == 0 {
        Some(ContractError::UnknownObject)
    } else if bond.address != ctx.caller {
        Some(ContractError::BondNotFound)
    } else if ctx.block_timestamp + bond.lock_period > u64::MAX {
        Some(ContractError::IntegerOverflow)
    } else {
        None
    }
}

/// The storage after a renewal: the bond restarts now for its lock period.
pub open spec fn renewed(v: BondingView, ctx: CallContext, token: Seq<u8>, nonce: u64) -> BondingView {
    let bond_id = v.bonds_ids.id_of((token, nonce));
    let bond = v.bond_of(bond_id);
    BondingView {
        bond_records: v.bond_records.insert(
            bond_id,
            BondView {
                bond_timestamp: ctx.block_timestamp,
                unbond_timestamp: (ctx.block_timestamp + bond.lock_period) as u64,
                ..bond
            },
        ),
        ..v
    }
}

pub open spec fn add_proof_refusal(
    v: BondingView,
    ctx: CallContext,
    payments: Seq<EsdtTokenPayment>,
    token_type: EsdtTokenType,
) -> Option<ContractError> {
    if !v.is_active() {
        Some(ContractError::ContractInactive)
    } else if payments.len() != 1 {
        Some(ContractError::IncorrectNumberOfEsdtTransfers)
    } else {
        let payment = payments[0];
        let compensation_id = v.compensations_ids.id_of(
            (payment.token_identifier@, payment.token_nonce),
        );
        let compensation = v.compensation_of(compensation_id);
        if compensation_id == 0 {
            Some(ContractError::UnknownObject)
        } else if token_type != EsdtTokenType::NonFungible {
            Some(ContractError::InvalidPayment)
        } else if !(compensation.end_date != 0 && ctx.block_timestamp <= compensation.end_date) {
            Some(ContractError::InvalidTimelineToProof)
        } else {
            None
        }
    }
}

/// The storage after a proof: the tokens sent count towards the
/// compensation, and the caller's refund for it is the payment.
pub open spec fn proved(v: BondingView, ctx: CallContext, payment: EsdtTokenPayment) -> BondingView {
    let compensation_id = v.compensations_ids.id_of((payment.token_identifier@, payment.token_nonce));
    let compensation = v.compensation_of(compensation_id);
    BondingView {
        compensation_records: v.compensation_records.insert(
            compensation_id,
            CompensationView {
                proof_amount: compensation.proof_amount + payment.amount@,
                ..compensation
            },
        ),
        address_refund: v.address_refund.insert(
            (ctx.caller, compensation_id),
            RefundView { address: ctx.caller, proof_of_refund: payment@, compensation_id },
        ),
        ..v
    }
}

/// The amount of `a`'s refund for a compensation, 0 when it has none.
pub open spec fn refund_amount_of(v: BondingView, a: Address, compensation_id: u64) -> int {
    match v.refund_of(a, compensation_id) {
        Some(r) => r.proof_of_refund.amount as int,
        None => 0,
    }
}

/// The total refund amount of the listed addresses.
pub open spec fn refunds_sum(v: BondingView, compensation_id: u64, list: Seq<Address>) -> int
    decreases list.len(),
{
    if list.len() == 0 {
        0
    } else {
        refunds_sum(v, compensation_id, list.drop_last()) + refund_amount_of(
            v,
            list.last(),
            compensation_id,
        )
    }
}


/// Facts about a claim of the caller's refund for the compensation of `(token, nonce)`.
pub open spec fn claim_compensation_id(v: BondingView, token: Seq<u8>, nonce: u64) -> u64 {
    v.compensations_ids.id_of((token, nonce))
}

pub open spec fn claim_is_blacklisted(v: BondingView, ctx: CallContext, token: Seq<u8>, nonce: u64) -> bool {
    v.blacklist_of(claim_compensation_id(v, token, nonce)).contains(ctx.caller)
}

/// The proof amount of the caller's refund.
pub open spec fn claim_proof(v: BondingView, ctx: CallContext, token: Seq<u8>, nonce: u64) -> int {
    refund_amount_of(v, ctx.caller, claim_compensation_id(v, token, nonce))
}

/// The proofs that count: all proofs but those of blacklisted addresses.
pub open spec fn claim_counted_proofs(v: BondingView, token: Seq<u8>, nonce: u64) -> int {
    let id = claim_compensation_id(v, token, nonce);
    v.compensation_of(id).proof_amount - refunds_sum(v, id, v.blacklist_of(id))
}

/// What each counted proof token receives of the accumulated amount.
pub open spec fn claim_per_token(v: BondingView, token: Seq<u8>, nonce: u64) -> int {
    let id = claim_compensation_id(v, token, nonce);
    v.compensation_of(id).accumulated_amount as int / claim_counted_proofs(v, token, nonce)
}

/// The compensation a non-blacklisted claimer receives.
pub open spec fn claim_refund_amount(v: BondingView, ctx: CallContext, token: Seq<u8>, nonce: u64) -> int {
    claim_proof(v, ctx, token, nonce) * claim_per_token(v, token, nonce)
}

pub open spec fn claim_refund_refusal(
    v: BondingView,
    ctx: CallContext,
    token: Seq<u8>,
    nonce: u64,
) -> Option<ContractError> {
    let id = claim_compensation_id(v, token, nonce);
    let compensation = v.compensation_of(id);
    let caller_proof = claim_proof(v, ctx, token, nonce);
    if !v.is_active() {
        Some(ContractError::ContractInactive)
    } else if id == 0 {
        Some(ContractError::UnknownObject)
    } else if compensation.end_date + COMPENSATION_SAFE_PERIOD > u64::MAX {
        Some(ContractError::IntegerOverflow)
    } else if !(ctx.block_timestamp >= compensation.end_date + COMPENSATION_SAFE_PERIOD) {
        Some(ContractError::InvalidTimelineToRefund)
    } else if (v.refund_of(ctx.caller, id) is None) {
        Some(ContractError::RefundNotFound)
    } else if claim_is_blacklisted(v, ctx, token, nonce) {
        if compensation.proof_amount < caller_proof {
            Some(ContractError::NegativeSubtraction)
        } else {
            None
        }
    } else if claim_counted_proofs(v, token, nonce) < 0 {
        Some(ContractError::NegativeSubtraction)
    } else if claim_counted_proofs(v, token, nonce) == 0 {
        Some(ContractError::DivisionByZero)
    } else if compensation.accumulated_amount < claim_refund_amount(v, ctx, token, nonce) {
        Some(ContractError::NegativeSubtraction)
    } else if compensation.proof_amount < caller_proof {
        Some(ContractError::NegativeSubtraction)
    } else {
        None
    }
}

/// Accumulated amount of the compensation after the claim.
pub open spec fn claim_accumulated_after(v: BondingView, ctx: CallContext, token: Seq<u8>, nonce: u64) -> int {
    let compensation = v.compensation_of(claim_compensation_id(v, token, nonce));
    if claim_is_blacklisted(v, ctx, token, nonce) {
        compensation.accumulated_amount as int
    } else {
        compensation.accumulated_amount - claim_refund_amount(v, ctx, token, nonce)
    }
}

/// Proof amount of the compensation after the claim.
pub open spec fn claim_proof_after(v: BondingView, ctx: CallContext, token: Seq<u8>, nonce: u64) -> int {
    v.compensation_of(claim_compensation_id(v, token, nonce)).proof_amount - claim_proof(v, ctx, token, nonce)
}

/// Whether the claim empties the compensation, which then closes.
pub open spec fn claim_closes(v: BondingView, ctx: CallContext, token: Seq<u8>, nonce: u64) -> bool {
    claim_accumulated_after(v, ctx, token, nonce) == 0 && claim_proof_after(v, ctx, token, nonce) == 0
}

/// The storage after a claim: the caller's refund is gone; a blacklisted
/// caller only takes its proof tokens back and leaves the blacklist, anyone
/// else also takes its share of the accumulated amount; an emptied
/// compensation is closed and its identifier released.
pub open spec fn claimed(v: BondingView, ctx: CallContext, token: Seq<u8>, nonce: u64) -> BondingView {
    let id = claim_compensation_id(v, token, nonce);
    let compensation = v.compensation_of(id);
    let closes = claim_closes(v, ctx, token, nonce);
    BondingView {
        compensation_records: v.compensation_records.insert(
            id,
            if closes {
                CompensationView { end_date: compensation.end_date, ..CompensationView::empty() }
            } else {
                CompensationView {
                    accumulated_amount: claim_accumulated_after(v, ctx, token, nonce) as nat,
                    proof_amount: claim_proof_after(v, ctx, token, nonce) as nat,
                    ..compensation
                }
            },
        ),
        compensation_blacklist: if claim_is_blacklisted(v, ctx, token, nonce) {
            v.compensation_blacklist.insert(id, set_swap_remove(v.blacklist_of(id), ctx.caller))
        } else {
            v.compensation_blacklist
        },
        address_refund: v.address_refund.remove((ctx.caller, id)),
        compensations: if closes {
            set_swap_remove(v.compensations, id)
        } else {
            v.compensations
        },
        compensations_ids: if closes {
            MapperView { last_id: v.compensations_ids.last_id, objects: v.compensations_ids.objects.remove(id) }
        } else {
            v.compensations_ids
        },
        ..v
    }
}

/// What a claim sends to the caller: the proof tokens back (unless there are
/// none, for a blacklisted caller), and for anyone not blacklisted also its
/// share in the bond token.
pub open spec fn claim_payouts_match(
    v: BondingView,
    ctx: CallContext,
    token: Seq<u8>,
    nonce: u64,
    sent: Seq<EsdtTokenPayment>,
) -> bool {
    let refund = v.refund_of(ctx.caller, claim_compensation_id(v, token, nonce)).unwrap();
    if claim_is_blacklisted(v, ctx, token, nonce) {
        if refund.proof_of_refund.amount == 0 {
            sent.len() == 0
        } else {
            sent.len() == 1 && sent[0]@ == refund.proof_of_refund
        }
    } else {
        &&& sent.len() == 2
        &&& sent[0]@ == refund.proof_of_refund
        &&& sent[1].token_identifier@ == v.bond_payment_token
        &&& sent[1].token_nonce == 0
        &&& sent[1].amount@ == claim_refund_amount(v, ctx, token, nonce)
    }
}

impl LifeBonding {
    /// Records a bond of the payment on the data NFT `(token, nonce)` for
    /// `original_caller`, locked for `lock_period` seconds, and opens an empty
    /// compensation for the same NFT. Callable by accepted caller contracts
    /// and privileged addresses.
    pub fn bond(
        &mut self,
        ctx: &CallContext,
        original_caller: Address,
        token_identifier: &Vec<u8>,
        nonce: u64,
        lock_period: u64,
        payments: &Vec<EsdtTokenPayment>,
    ) -> (r: Result<(), ContractError>)
        requires
            old(self).wf(),
        ensures
            final(self).wf(),
            match bond_refusal(old(self)@, *ctx, token_identifier@, nonce, lock_period, payments@) {
                Some(e) => r == Err::<(), ContractError>(e) && final(self)@ == old(self)@,
                None => r is Ok && final(self)@ == bonded(
                    old(self)@,
                    *ctx,
                    original_caller,
                    token_identifier@,
                    nonce,
                    lock_period,
                    payments@[0].amount@,
                ),
            },
    {
        self.require_contract_active()?;
        let accepted = ctx.caller_is_smart_contract && self.accepted_callers.contains(&ctx.caller);
        if !(accepted || self.is_privileged(ctx, &ctx.caller)) {
            return Err(ContractError::EndpointCallableOnlyByAcceptedCallers);
        }
        if payments.len() != 1 {
            return Err(ContractError::IncorrectNumberOfEsdtTransfers);
        }
        let payment = &payments[0];
        if !bytes_eq(&payment.token_identifier, &self.bond_payment_token) {
            return Err(ContractError::InvalidTokenIdentifier);
        }
        if !self.lock_periods.contains(&lock_period) {
            return Err(ContractError::InvalidLockPeriod);
        }
        let bond_amount = self.lock_period_bond_amount(lock_period);
        if bond_amount.is_zero() {
            return Err(ContractError::InvalidLockPeriod);
        }
        if !payment.amount.equals(&bond_amount) {
            return Err(ContractError::InvalidAmountSent);
        }
        if ctx.block_timestamp > u64::MAX - lock_period {
            return Err(ContractError::IntegerOverflow);
        }
        let unbond_timestamp = ctx.block_timestamp + lock_period;
        if self.bonds_ids.get_id(token_identifier, nonce) != 0 {
            return Err(ContractError::BondAlreadyCreated);
        }
        if self.bonds_ids.last_id() == u64::MAX {
            return Err(ContractError::IntegerOverflow);
        }
        if self.compensations_ids.get_id(token_identifier, nonce) != 0 {
            return Err(ContractError::ObjectAlreadyRegistered);
        }
        if self.compensations_ids.last_id() == u64::MAX {
            return Err(ContractError::IntegerOverflow);
        }
        let ghost v = old(self)@;
        let ghost amount = payment.amount@;
        let bond_id = match self.bonds_ids.insert_new(token_identifier, nonce) {
            Ok(id) => id,
            Err(e) => {
                return Err(e);
            },
        };
        self.bond_records.insert(
            bond_id,
            BondRecord {
                address: original_caller,
                token_identifier: copy_bytes(token_identifier),
                nonce,
                lock_period,
                bond_timestamp: ctx.block_timestamp,
                unbond_timestamp,
                bond_amount: payment.amount.duplicate(),
                remaining_amount: payment.amount.duplicate(),
            },
        );
        let mut owned = match self.address_bonds.take(&original_caller) {
            Some(set) => set,
            None => UnorderedSet::new(),
        };
        proof {
            lemma_set_insert_no_dup(owned@, bond_id);
        }
        owned.insert(bond_id);
        self.address_bonds.insert(original_caller, owned);
        proof {
            lemma_set_insert_no_dup(self.bonds@, bond_id);
        }
        self.bonds.insert(bond_id);
        let compensation_id = match self.compensations_ids.insert_new(token_identifier, nonce) {
            Ok(id) => id,
            Err(e) => {
                return Err(e);
            },
        };
        proof {
            lemma_set_insert_no_dup(self.compensations@, compensation_id);
        }
        self.compensations.insert(compensation_id);
        self.compensation_records.insert(
            compensation_id,
            CompensationRecord {
                token_identifier: copy_bytes(token_identifier),
                nonce,
                accumulated_amount: Amount::zero(),
                proof_amount: Amount::zero(),
                end_date: 0,
            },
        );
        self.total_bond_amount = self.total_bond_amount.add(&payment.amount);
        proof {
            self.bonds_ids.lemma_valid();
            self.compensations_ids.lemma_valid();
            assert forall|a: Address| #[trigger] self@.address_bonds.contains_key(a)
                implies self@.address_bonds[a].no_duplicates() by {
                if a != original_caller {
                    assert(v.address_bonds.contains_key(a));
                }
            }
        }
        assert(self@ =~= bonded(v, *ctx, original_caller, token_identifier@, nonce, lock_period, amount));
        proof {
            law_bond_keeps_bonds_accounted(v, *ctx, original_caller, token_identifier@, nonce, lock_period, payments@);
        }
        Ok(())
    }

    /// Ends the caller's bond on `(token, nonce)` and pays its remaining
    /// amount out in the bond token; before the unbond time the withdraw
    /// penalty stays behind in the compensation.
    pub fn withdraw(&mut self, ctx: &CallContext, token_identifier: &Vec<u8>, nonce: u64) -> (r: Result<
        EsdtTokenPayment,
        ContractError,
    >)
        requires
            old(self).wf(),
        ensures
            final(self).wf(),
            match withdraw_refusal(old(self)@, *ctx, token_identifier@, nonce) {
                Some(e) => r is Err && r->Err_0 == e && final(self)@ == old(self)@,
                None => r is Ok && final(self)@ == withdrawn(old(self)@, *ctx, token_identifier@, nonce)
                    && r->Ok_0.token_identifier@ == old(self)@.bond_payment_token
                    && r->Ok_0.token_nonce == 0
                    && r->Ok_0.amount@ == withdraw_payout(old(self)@, *ctx, token_identifier@, nonce),
            },
    {
        self.require_contract_active()?;
        let bond_id = self.bonds_ids.get_id_non_zero(token_identifier, nonce)?;
        let compensation_id = self.compensations_ids.get_id_non_zero(token_identifier, nonce)?;
        let bond_cache = BondCache::new(self, bond_id);
        if bond_cache.address != ctx.caller {
            return Err(ContractError::BondNotFound);
        }
        let mut compensation_cache = CompensationCache::new(self, compensation_id);
        let payout;
        if bond_cache.unbond_timestamp >= ctx.block_timestamp {
            let penalty = apply_penalty(&bond_cache.bond_amount, self.withdraw_penalty);
            if bond_cache.remaining_amount.lt(&penalty) {
                return Err(ContractError::PenaltiesExceedWithdrawalAmount);
            }
            payout = bond_cache.remaining_amount.sub(&penalty);
            compensation_cache.accumulated_amount = compensation_cache.accumulated_amount.add(&penalty);
        } else {
            payout = bond_cache.remaining_amount.duplicate();
        }
        proof {
            crate::mapper::lemma_id_of(self@.bonds_ids, (token_identifier@, nonce));
            law_total_covers_every_bond(self@, bond_id);
        }
        self.total_bond_amount = self.total_bond_amount.sub(&bond_cache.remaining_amount);
        let ghost v = old(self)@;
        let sent = EsdtTokenPayment::new(copy_bytes(&self.bond_payment_token), 0, payout);
        bond_cache.clear(self);
        self.bonds_ids.remove_by_id(bond_id);
        match self.address_bonds.take(&ctx.caller) {
            Some(mut owned) => {
                proof {
                    lemma_set_swap_remove_no_dup(owned@, bond_id);
                }
                owned.swap_remove(&bond_id);
                self.address_bonds.insert(ctx.caller, owned);
            },
            None => {},
        }
        proof {
            lemma_set_swap_remove_no_dup(self.bonds@, bond_id);
        }
        self.bonds.swap_remove(&bond_id);
        bond_cache.store(self);
        compensation_cache.store(self);
        proof {
            self.bonds_ids.lemma_valid();
            assert forall|a: Address| #[trigger] self@.address_bonds.contains_key(a)
                implies self@.address_bonds[a].no_duplicates() by {
                if a != ctx.caller {
                    assert(v.address_bonds.contains_key(a));
                }
            }
            assert(self@.address_bonds =~= withdrawn(v, *ctx, token_identifier@, nonce).address_bonds);
        }
        assert(self@ =~= withdrawn(v, *ctx, token_identifier@, nonce));
        proof {
            law_withdraw_keeps_bonds_accounted(v, *ctx, token_identifier@, nonce);
        }
        Ok(sent)
    }

    /// Restarts the caller's bond on `(token, nonce)` from now.
    pub fn renew(&mut self, ctx: &CallContext, token_identifier: &Vec<u8>, nonce: u64) -> (r: Result<
        (),
        ContractError,
    >)
        requires
            old(self).wf(),
        ensures
            final(self).wf(),
            match renew_refusal(old(self)@, *ctx, token_identifier@, nonce) {
                Some(e) => r == Err::<(), ContractError>(e) && final(self)@ == old(self)@,
                None => r is Ok && final(self)@ == renewed(old(self)@, *ctx, token_identifier@, nonce),
            },
    {
        self.require_contract_active()?;
        let bond_id = self.bonds_ids.get_id_non_zero(token_identifier, nonce)?;
        let mut bond_cache = BondCache::new(self, bond_id);
        if bond_cache.address != ctx.caller {
            return Err(ContractError::BondNotFound);
        }
        if ctx.block_timestamp > u64::MAX - bond_cache.lock_period {
            return Err(ContractError::IntegerOverflow);
        }
        bond_cache.unbond_timestamp = ctx.block_timestamp + bond_cache.lock_period;
        bond_cache.bond_timestamp = ctx.block_timestamp;
        let ghost v = old(self)@;
        bond_cache.store(self);
        assert(self@ =~= renewed(v, *ctx, token_identifier@, nonce));
        proof {
            law_renew_keeps_bonds_accounted(v, *ctx, token_identifier@, nonce);
        }
        Ok(())
    }

    /// Hands in data NFTs of a compensation as proof, up to the
    /// compensation's end date once one is set: they count towards the
    /// compensation and become the caller's refund. `token_type` is the
    /// chain's type of the paid token.
    pub fn add_proof(
        &mut self,
        ctx: &CallContext,
        payments: &Vec<EsdtTokenPayment>,
        token_type: EsdtTokenType,
    ) -> (r: Result<(), ContractError>)
        requires
            old(self).wf(),
        ensures
            final(self).wf(),
            match add_proof_refusal(old(self)@, *ctx, payments@, token_type) {
                Some(e) => r == Err::<(), ContractError>(e) && final(self)@ == old(self)@,
                None => r is Ok && final(self)@ == proved(old(self)@, *ctx, payments@[0]),
            },
    {
        self.require_contract_active()?;
        if payments.len() != 1 {
            return Err(ContractError::IncorrectNumberOfEsdtTransfers);
        }
        let payment = &payments[0];
        let compensation_id = self.compensations_ids.get_id_non_zero(
            &payment.token_identifier,
            payment.token_nonce,
        )?;
        if token_type != EsdtTokenType::NonFungible {
            return Err(ContractError::InvalidPayment);
        }
        let mut compensation_cache = CompensationCache::new(self, compensation_id);
        if !(compensation_cache.end_date != 0 && ctx.block_timestamp <= compensation_cache.end_date) {
            return Err(ContractError::InvalidTimelineToProof);
        }
        compensation_cache.proof_amount = compensation_cache.proof_amount.add(&payment.amount);
        let ghost v = old(self)@;
        let refund = Refund { address: ctx.caller, proof_of_refund: payment.duplicate(), compensation_id };
        self.address_refund.insert((ctx.caller, compensation_id), refund);
        compensation_cache.store(self);
        assert(self@ =~= proved(v, *ctx, payments@[0]));
        Ok(())
    }
}

impl LifeBonding {
    /// The total refund amount of a compensation's blacklisted addresses.
    fn blacklist_refunds_sum(&self, compensation_id: u64) -> (r: Amount)
        requires
            self.wf(),
        ensures
            r@ == refunds_sum(self@, compensation_id, self@.blacklist_of(compensation_id)),
    {
        let ghost list = self@.blacklist_of(compensation_id);
        let empty: UnorderedSet<Address> = UnorderedSet::new();
        let blacklist = match self.compensation_blacklist.get(&compensation_id) {
            Some(set) => set,
            None => &empty,
        };
        assert(blacklist@ == list);
        let mut sum = Amount::zero();
        let mut i: usize = 0;
        while i < blacklist.len()
            invariant
                self.wf(),
                blacklist@ == list,
                list == self@.blacklist_of(compensation_id),
                i <= list.len(),
                sum@ == refunds_sum(self@, compensation_id, list.subrange(0, i as int)),
            decreases list.len() - i,
        {
            let address = blacklist.get(i);
            let amount = match self.address_refund.get(&(address, compensation_id)) {
                Some(refund) => refund.proof_of_refund.amount.duplicate(),
                None => Amount::zero(),
            };
            assert(list.subrange(0, i + 1).drop_last() =~= list.subrange(0, i as int));
            assert(amount@ == refund_amount_of(self@, list[i as int], compensation_id));
            sum = sum.add(&amount);
            i = i + 1;
        }
        assert(list.subrange(0, list.len() as int) =~= list);
        sum
    }

    /// Pays out the caller's refund for the compensation of `(token, nonce)`
    /// once the safe period after the compensation's end date is over. A blacklisted caller only gets its proof
    /// tokens back; anyone else also gets its proof amount times the
    /// accumulated amount per counted proof token. An emptied compensation is
    /// closed. The result is what is sent to the caller.
    pub fn claim_refund(&mut self, ctx: &CallContext, token_identifier: &Vec<u8>, nonce: u64) -> (r:
        Result<Vec<EsdtTokenPayment>, ContractError>)
        requires
            old(self).wf(),
        ensures
            final(self).wf(),
            match claim_refund_refusal(old(self)@, *ctx, token_identifier@, nonce) {
                Some(e) => r is Err && r->Err_0 == e && final(self)@ == old(self)@,
                None => r is Ok && final(self)@ == claimed(old(self)@, *ctx, token_identifier@, nonce)
                    && claim_payouts_match(old(self)@, *ctx, token_identifier@, nonce, r->Ok_0@),
            },
    {
        let ghost v = old(self)@;
        self.require_contract_active()?;
        let compensation_id = self.compensations_ids.get_id_non_zero(token_identifier, nonce)?;
        let mut cache = CompensationCache::new(self, compensation_id);
        if cache.end_date > u64::MAX - COMPENSATION_SAFE_PERIOD {
            return Err(ContractError::IntegerOverflow);
        }
        if !(ctx.block_timestamp >= cache.end_date + COMPENSATION_SAFE_PERIOD) {
            return Err(ContractError::InvalidTimelineToRefund);
        }
        let refund = match self.address_refund.get(&(ctx.caller, compensation_id)) {
            Some(refund) => refund.duplicate(),
            None => {
                return Err(ContractError::RefundNotFound);
            },
        };
        let amount = refund.proof_of_refund.amount.duplicate();
        let blacklisted = match self.compensation_blacklist.get(&compensation_id) {
            Some(set) => set.contains(&ctx.caller),
            None => false,
        };
        let mut sent: Vec<EsdtTokenPayment> = Vec::new();
        if blacklisted {
            if cache.proof_amount.lt(&amount) {
                return Err(ContractError::NegativeSubtraction);
            }
            cache.proof_amount = cache.proof_amount.sub(&amount);
            if !amount.is_zero() {
                sent.push(refund.proof_of_refund);
            }
            let mut set = match self.compensation_blacklist.take(&compensation_id) {
                Some(set) => set,
                None => UnorderedSet::new(),
            };
            proof {
                lemma_set_swap_remove_no_dup(set@, ctx.caller);
            }
            set.swap_remove(&ctx.caller);
            self.compensation_blacklist.insert(compensation_id, set);
            proof {
                assert forall|k: u64| #[trigger] self@.compensation_blacklist.contains_key(k)
                    implies self@.compensation_blacklist[k].no_duplicates() by {
                    if k != compensation_id {
                        assert(v.compensation_blacklist.contains_key(k));
                    }
                }
            }
        } else {
            let blacklisted_sum = self.blacklist_refunds_sum(compensation_id);
            if cache.proof_amount.lt(&blacklisted_sum) {
                return Err(ContractError::NegativeSubtraction);
            }
            let counted = cache.proof_amount.sub(&blacklisted_sum);
            if counted.is_zero() {
                return Err(ContractError::DivisionByZero);
            }
            let per_token = cache.accumulated_amount.div(&counted);
            let refund_amount = amount.mul(&per_token);
            if cache.accumulated_amount.lt(&refund_amount) {
                return Err(ContractError::NegativeSubtraction);
            }
            if cache.proof_amount.lt(&amount) {
                return Err(ContractError::NegativeSubtraction);
            }
            cache.accumulated_amount = cache.accumulated_amount.sub(&refund_amount);
            cache.proof_amount = cache.proof_amount.sub(&amount);
            sent.push(refund.proof_of_refund);
            sent.push(EsdtTokenPayment::new(copy_bytes(&self.bond_payment_token), 0, refund_amount));
        }
        self.address_refund.take(&(ctx.caller, compensation_id));
        if cache.accumulated_amount.is_zero() && cache.proof_amount.is_zero() {
            proof {
                lemma_set_swap_remove_no_dup(self.compensations@, compensation_id);
            }
            self.compensations.swap_remove(&compensation_id);
            cache.clear(self);
            self.compensations_ids.remove_by_id(compensation_id);
            proof {
                self.compensations_ids.lemma_valid();
            }
        }
        cache.store(self);
        assert(self@ =~= claimed(v, *ctx, token_identifier@, nonce));
        Ok(sent)
    }
}

} // verus!
