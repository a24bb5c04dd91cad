//! Endpoints of the owner and the administrator.
use vstd::prelude::*;
use crate::accounts::{
    law_modify_bond_keeps_bonds_accounted, law_sanction_keeps_bonds_accounted, law_total_covers_every_bond,
};
use crate::amount::Amount;
use crate::arith::{apply_penalty, penalty_amount};
use crate::collections::{
    lemma_set_insert_all_no_dup, set_insert_all,
    AssocMap,
    fresh_and_distinct, lemma_append_fresh_no_dup, lemma_remove_keep_order_all_no_dup,
    lemma_set_insert_no_dup, lemma_swap_remove_all_no_dup, present_and_distinct, set_insert,
    set_remove_keep_order_all, set_swap_remove_all, UnorderedSet,
};
use crate::errors::ContractError;
use crate::storage::{
    BondCache, BondView, BondingView, CallContext, CompensationCache, CompensationView,
    LifeBonding, PENALTY_BASE,
};
use crate::types::{copy_bytes, is_valid_esdt_identifier, is_valid_esdt_identifier_bytes, Address, PenaltyType, State};

verus! {

/// The largest minimum penalty that can be set.
pub const MINIMUM_PENALTY_CAP: u64 = 5_000;

/// Refused with `NotPrivileged` unless the caller is privileged, else by `rest`.
pub open spec fn privileged_then(
    v: BondingView,
    ctx: CallContext,
    rest: Option<ContractError>,
) -> Option<ContractError> {
    if !v.is_privileged(ctx.caller, ctx.owner) {
        Some(ContractError::NotPrivileged)
    } else {
        rest
    }
}

pub open spec fn set_contract_state_active_refusal(v: BondingView, ctx: CallContext) -> Option<
    ContractError,
> {
    privileged_then(
        v,
        ctx,
        if v.contract_state != State::Inactive {
            Some(ContractError::AlreadyActive)
        } else {
            None
        },
    )
}

pub open spec fn set_contract_state_inactive_refusal(v: BondingView, ctx: CallContext) -> Option<
    ContractError,
> {
    privileged_then(v, ctx, None)
}

pub open spec fn set_minimum_penalty_refusal(v: BondingView, ctx: CallContext, penalty: u64) -> Option<
    ContractError,
> {
    if !(0 < penalty <= MINIMUM_PENALTY_CAP) {
        Some(ContractError::InvalidPenaltyValue)
    } else {
        privileged_then(v, ctx, None)
    }
}

/// Refusal of setting the maximum or the withdraw penalty.
pub open spec fn set_penalty_refusal(v: BondingView, ctx: CallContext, penalty: u64) -> Option<
    ContractError,
> {
    privileged_then(
        v,
        ctx,
        if !(0 < penalty <= PENALTY_BASE) {
            Some(ContractError::InvalidPenaltyValue)
        } else {
            None
        },
    )
}

pub open spec fn set_bond_token_refusal(v: BondingView, ctx: CallContext, token: Seq<u8>) -> Option<
    ContractError,
> {
    privileged_then(
        v,
        ctx,
        if !is_valid_esdt_identifier(token) {
            Some(ContractError::InvalidTokenIdentifier)
        } else {
            None
        },
    )
}

pub open spec fn set_accepted_callers_refusal(
    v: BondingView,
    ctx: CallContext,
    callers: Seq<Address>,
) -> Option<ContractError> {
    privileged_then(v, ctx, None)
}

pub open spec fn remove_accepted_callers_refusal(
    v: BondingView,
    ctx: CallContext,
    callers: Seq<Address>,
) -> Option<ContractError> {
    privileged_then(
        v,
        ctx,
        if !present_and_distinct(v.accepted_callers, callers) {
            Some(ContractError::NotInStorage)
        } else {
            None
        },
    )
}

/// The `(lock period, bond amount)` pairs with the amounts as numbers.
pub open spec fn period_pairs(args: Seq<(u64, Amount)>) -> Seq<(u64, nat)> {
    args.map_values(|a: (u64, Amount)| (a.0, a.1@))
}

/// The lock periods named by `(lock period, bond amount)` pairs.
pub open spec fn periods_of(args: Seq<(u64, nat)>) -> Seq<u64> {
    args.map_values(|a: (u64, nat)| a.0)
}

/// The bond amounts after each pair is set in turn; a zero amount reads as unset.
pub open spec fn with_period_amounts(m: Map<u64, nat>, args: Seq<(u64, nat)>) -> Map<u64, nat>
    decreases args.len(),
{
    if args.len() == 0 {
        m
    } else {
        let rest = with_period_amounts(m, args.drop_last());
        if args.last().1 != 0 {
            rest.insert(args.last().0, args.last().1)
        } else {
            rest.remove(args.last().0)
        }
    }
}

/// The bond amounts with the listed periods unset.
pub open spec fn without_periods(m: Map<u64, nat>, periods: Seq<u64>) -> Map<u64, nat>
    decreases periods.len(),
{
    if periods.len() == 0 {
        m
    } else {
        without_periods(m, periods.drop_last()).remove(periods.last())
    }
}

/// Setting amounts touches only the listed periods, and sets no others.
pub proof fn lemma_with_period_amounts(m: Map<u64, nat>, args: Seq<(u64, nat)>, p: u64)
    ensures
        !periods_of(args).contains(p) ==> with_period_amounts(m, args).contains_key(p)
            == m.contains_key(p),
        !periods_of(args).contains(p) && m.contains_key(p) ==> with_period_amounts(m, args)[p]
            == m[p],
        with_period_amounts(m, args).contains_key(p) ==> m.contains_key(p) || periods_of(
            args,
        ).contains(p),
    decreases args.len(),
{
    if args.len() > 0 {
        let pre = args.drop_last();
        lemma_with_period_amounts(m, pre, p);
        let ps = periods_of(args);
        let qs = periods_of(pre);
        assert(ps.len() == args.len());
        assert(ps[args.len() - 1] == args.last().0);
        if qs.contains(p) {
            let i = choose|i: int| 0 <= i < qs.len() && qs[i] == p;
            assert(ps[i] == p);
        }
    }
}

/// Unsetting periods removes exactly the listed ones.
pub proof fn lemma_without_periods(m: Map<u64, nat>, periods: Seq<u64>, p: u64)
    ensures
        without_periods(m, periods).contains_key(p) <==> m.contains_key(p) && !periods.contains(p),
        without_periods(m, periods).contains_key(p) ==> without_periods(m, periods)[p] == m[p],
    decreases periods.len(),
{
    if periods.len() > 0 {
        let pre = periods.drop_last();
        lemma_without_periods(m, pre, p);
        if pre.contains(p) {
            let i = choose|i: int| 0 <= i < pre.len() && pre[i] == p;
            assert(periods[i] == p);
        }
        if periods.contains(p) && p != periods.last() {
            let i = choose|i: int| 0 <= i < periods.len() && periods[i] == p;
            assert(pre[i] == p);
        }
    }
}

pub open spec fn add_lock_periods_refusal(
    v: BondingView,
    ctx: CallContext,
    args: Seq<(u64, nat)>,
) -> Option<ContractError> {
    privileged_then(
        v,
        ctx,
        if !fresh_and_distinct(v.lock_periods, periods_of(args)) {
            Some(ContractError::AlreadyInStorage)
        } else {
            None
        },
    )
}

pub open spec fn remove_lock_periods_refusal(
    v: BondingView,
    ctx: CallContext,
    periods: Seq<u64>,
) -> Option<ContractError> {
    privileged_then(
        v,
        ctx,
        if !present_and_distinct(v.lock_periods, periods) {
            Some(ContractError::NotInStorage)
        } else {
            None
        },
    )
}

pub open spec fn add_to_black_list_refusal(
    v: BondingView,
    ctx: CallContext,
    compensation_id: u64,
    addresses: Seq<Address>,
) -> Option<ContractError> {
    privileged_then(
        v,
        ctx,
        if !v.compensations_ids.objects.contains_key(compensation_id) {
            Some(ContractError::CompensationNotFound)
        } else if !fresh_and_distinct(v.blacklist_of(compensation_id), addresses) {
            Some(ContractError::AlreadyInStorage)
        } else {
            None
        },
    )
}

pub open spec fn remove_from_black_list_refusal(
    v: BondingView,
    ctx: CallContext,
    compensation_id: u64,
    addresses: Seq<Address>,
) -> Option<ContractError> {
    privileged_then(
        v,
        ctx,
        if !v.compensations_ids.objects.contains_key(compensation_id) {
            Some(ContractError::CompensationNotFound)
        } else if !present_and_distinct(v.blacklist_of(compensation_id), addresses) {
            Some(ContractError::NotInStorage)
        } else {
            None
        },
    )
}

pub open spec fn initiate_refund_refusal(
    v: BondingView,
    ctx: CallContext,
    token: Seq<u8>,
    nonce: u64,
    timestamp: u64,
) -> Option<ContractError> {
    privileged_then(
        v,
        ctx,
        if v.compensations_ids.id_of((token, nonce)) == 0 {
            Some(ContractError::UnknownObject)
        } else if timestamp <= ctx.block_timestamp {
            Some(ContractError::InvalidTimestamp)
        } else {
            None
        },
    )
}

pub open spec fn modify_bond_refusal(
    v: BondingView,
    ctx: CallContext,
    token: Seq<u8>,
    nonce: u64,
) -> Option<ContractError> {
    privileged_then(
        v,
        ctx,
        if v.bonds_ids.id_of((token, nonce)) == 0 {
            Some(ContractError::UnknownObject)
        } else {
            None
        },
    )
}

/// The identifier `initiate_bond_for_address` attaches: the bond's own, or the next one.
pub open spec fn initiated_bond_id(v: BondingView, token: Seq<u8>, nonce: u64) -> u64 {
    if v.bonds_ids.id_of((token, nonce)) != 0 {
        v.bonds_ids.id_of((token, nonce))
    } else {
        (v.bonds_ids.last_id + 1) as u64
    }
}

pub open spec fn initiate_bond_refusal(
    v: BondingView,
    ctx: CallContext,
    token: Seq<u8>,
    nonce: u64,
) -> Option<ContractError> {
    privileged_then(
        v,
        ctx,
        if v.bonds_ids.id_of((token, nonce)) == 0 && v.bonds_ids.last_id == u64::MAX {
            Some(ContractError::IntegerOverflow)
        } else {
            None
        },
    )
}

pub open spec fn initiated_bond(v: BondingView, address: Address, token: Seq<u8>, nonce: u64) -> BondingView {
    let id = initiated_bond_id(v, token, nonce);
    BondingView {
        bonds_ids: if v.bonds_ids.id_of((token, nonce)) != 0 {
            v.bonds_ids
        } else {
            crate::mapper::MapperView { last_id: id, objects: v.bonds_ids.objects.insert(id, (token, nonce)) }
        },
        address_bonds: v.address_bonds.insert(address, set_insert(v.bonds_of_address(address), id)),
        ..v
    }
}

/// The penalty rate a sanction applies, `None` when the custom rate is unusable.
pub open spec fn sanction_rate(v: BondingView, penalty: PenaltyType, custom_penalty: Option<u64>) -> Option<u64> {
    match penalty {
        PenaltyType::Minimum => Some(v.minimum_penalty),
        PenaltyType::Maximum => Some(v.maximum_penalty),
        PenaltyType::Custom => match custom_penalty {
            Some(c) => if c <= PENALTY_BASE && c > v.minimum_penalty {
                Some(c)
            } else {
                None
            },
            None => None,
        },
    }
}

/// The amount a sanction takes from the bond of `(token, nonce)`.
pub open spec fn sanction_amount(
    v: BondingView,
    token: Seq<u8>,
    nonce: u64,
    penalty: PenaltyType,
    custom_penalty: Option<u64>,
) -> nat {
    penalty_amount(
        v.bond_of(v.bonds_ids.id_of((token, nonce))).bond_amount,
        sanction_rate(v, penalty, custom_penalty).unwrap(),
    )
}

pub open spec fn sanction_refusal(
    v: BondingView,
    ctx: CallContext,
    token: Seq<u8>,
    nonce: u64,
    penalty: PenaltyType,
    custom_penalty: Option<u64>,
) -> Option<ContractError> {
    let bond_id = v.bonds_ids.id_of((token, nonce));
    let compensation_id = v.compensations_ids.id_of((token, nonce));
    let amount = sanction_amount(v, token, nonce, penalty, custom_penalty);
    privileged_then(
        v,
        ctx,
        if penalty != PenaltyType::Custom && (custom_penalty is Some) {
            Some(ContractError::InvalidPenaltyValue)
        } else if bond_id == 0 || compensation_id == 0 {
            Some(ContractError::UnknownObject)
        } else if (sanction_rate(v, penalty, custom_penalty) is None) {
            Some(ContractError::InvalidPenaltyValue)
        } else if v.bond_of(bond_id).remaining_amount < amount {
            Some(ContractError::InvalidPenaltyValue)
        } else {
            None
        },
    )
}

/// The storage after a sanction: the penalty moves from the bond's remaining
/// amount (and the total bonded) into the compensation's accumulated amount.
pub open spec fn sanctioned(
    v: BondingView,
    token: Seq<u8>,
    nonce: u64,
    penalty: PenaltyType,
    custom_penalty: Option<u64>,
) -> BondingView {
    let bond_id = v.bonds_ids.id_of((token, nonce));
    let compensation_id = v.compensations_ids.id_of((token, nonce));
    let amount = sanction_amount(v, token, nonce, penalty, custom_penalty);
    let bond = v.bond_of(bond_id);
    let compensation = v.compensation_of(compensation_id);
    BondingView {
        total_bond_amount: (v.total_bond_amount - amount) as nat,
        bond_records: v.bond_records.insert(
            bond_id,
            BondView { remaining_amount: (bond.remaining_amount - amount) as nat, ..bond },
        ),
        compensation_records: v.compensation_records.insert(
            compensation_id,
            CompensationView {
                accumulated_amount: compensation.accumulated_amount + amount,
                ..compensation
            },
        ),
        ..v
    }
}

/// Sets the bond amount of each pair in turn; a zero amount unsets the period.
fn set_period_amounts(m: &mut AssocMap<u64, Amount>, args: &Vec<(u64, Amount)>)
    requires
        old(m).wf(),
        forall|p: u64| #[trigger] old(m)@.contains_key(p) ==> old(m)@[p] != 0,
    ensures
        final(m).wf(),
        final(m)@ == with_period_amounts(old(m)@, period_pairs(args@)),
        forall|p: u64| #[trigger] final(m)@.contains_key(p) ==> final(m)@[p] != 0,
{
    let ghost m0 = m@;
    let mut k: usize = 0;
    while k < args.len()
        invariant
            k <= args@.len(),
            m.wf(),
            m@ == with_period_amounts(m0, period_pairs(args@.subrange(0, k as int))),
            forall|p: u64| #[trigger] m@.contains_key(p) ==> m@[p] != 0,
        decreases args@.len() - k,
    {
        let period = args[k].0;
        let amount = &args[k].1;
        if !amount.is_zero() {
            m.insert(period, amount.duplicate());
        } else {
            m.take(&period);
        }
        assert(period_pairs(args@.subrange(0, k + 1)).drop_last() =~= period_pairs(
            args@.subrange(0, k as int),
        ));
        k = k + 1;
    }
    assert(args@.subrange(0, args@.len() as int) =~= args@);
}

/// Unsets the bond amount of each listed period.
fn unset_period_amounts(m: &mut AssocMap<u64, Amount>, periods: &Vec<u64>)
    requires
        old(m).wf(),
        forall|p: u64| #[trigger] old(m)@.contains_key(p) ==> old(m)@[p] != 0,
    ensures
        final(m).wf(),
        final(m)@ == without_periods(old(m)@, periods@),
        forall|p: u64| #[trigger] final(m)@.contains_key(p) ==> final(m)@[p] != 0,
{
    let ghost m0 = m@;
    let mut k: usize = 0;
    while k < periods.len()
        invariant
            k <= periods@.len(),
            m.wf(),
            m@ == without_periods(m0, periods@.subrange(0, k as int)),
            forall|p: u64| #[trigger] m@.contains_key(p) ==> m@[p] != 0,
        decreases periods@.len() - k,
    {
        m.take(&periods[k]);
        assert(periods@.subrange(0, k + 1).drop_last() =~= periods@.subrange(0, k as int));
        k = k + 1;
    }
    assert(periods@.subrange(0, periods@.len() as int) =~= periods@);
}

impl LifeBonding {
    pub fn set_contract_state_active(&mut self, ctx: &CallContext) -> (r: Result<(), ContractError>)
        requires
            old(self).wf(),
        ensures
            final(self).wf(),
            match set_contract_state_active_refusal(old(self)@, *ctx) {
                Some(e) => r == Err::<(), ContractError>(e) && final(self)@ == old(self)@,
                None => r is Ok && final(self)@ == (BondingView {
                    contract_state: State::Active,
                    ..old(self)@
                }),
            },
    {
        self.require_privileged(ctx)?;
        if self.contract_state != State::Inactive {
            return Err(ContractError::AlreadyActive);
        }
        self.contract_state = State::Active;
        assert(self@ =~= (BondingView { contract_state: State::Active, ..old(self)@ }));
        Ok(())
    }

    pub fn set_contract_state_inactive(&mut self, ctx: &CallContext) -> (r: Result<(), ContractError>)
        requires
            old(self).wf(),
        ensures
            final(self).wf(),
            match set_contract_state_inactive_refusal(old(self)@, *ctx) {
                Some(e) => r == Err::<(), ContractError>(e) && final(self)@ == old(self)@,
                None => r is Ok && final(self)@ == (BondingView {
                    contract_state: State::Inactive,
                    ..old(self)@
                }),
            },
    {
        self.require_privileged(ctx)?;
        self.contract_state = State::Inactive;
        assert(self@ =~= (BondingView { contract_state: State::Inactive, ..old(self)@ }));
        Ok(())
    }

    pub fn set_minimum_penalty(&mut self, ctx: &CallContext, penalty: u64) -> (r: Result<(), ContractError>)
        requires
            old(self).wf(),
        ensures
            final(self).wf(),
            match set_minimum_penalty_refusal(old(self)@, *ctx, penalty) {
                Some(e) => r == Err::<(), ContractError>(e) && final(self)@ == old(self)@,
                None => r is Ok && final(self)@ == (BondingView {
                    minimum_penalty: penalty,
                    ..old(self)@
                }),
            },
    {
        if !(penalty <= MINIMUM_PENALTY_CAP && penalty > 0) {
            return Err(ContractError::InvalidPenaltyValue);
        }
        self.require_privileged(ctx)?;
        self.minimum_penalty = penalty;
        assert(self@ =~= (BondingView { minimum_penalty: penalty, ..old(self)@ }));
        Ok(())
    }

    pub fn set_maximum_penalty(&mut self, ctx: &CallContext, penalty: u64) -> (r: Result<(), ContractError>)
        requires
            old(self).wf(),
        ensures
            final(self).wf(),
            match set_penalty_refusal(old(self)@, *ctx, penalty) {
                Some(e) => r == Err::<(), ContractError>(e) && final(self)@ == old(self)@,
                None => r is Ok && final(self)@ == (BondingView {
                    maximum_penalty: penalty,
                    ..old(self)@
                }),
            },
    {
        self.require_privileged(ctx)?;
        if !(penalty <= PENALTY_BASE && penalty > 0) {
            return Err(ContractError::InvalidPenaltyValue);
        }
        self.maximum_penalty = penalty;
        assert(self@ =~= (BondingView { maximum_penalty: penalty, ..old(self)@ }));
        Ok(())
    }

    pub fn set_withdraw_penalty(&mut self, ctx: &CallContext, penalty: u64) -> (r: Result<(), ContractError>)
        requires
            old(self).wf(),
        ensures
            final(self).wf(),
            match set_penalty_refusal(old(self)@, *ctx, penalty) {
                Some(e) => r == Err::<(), ContractError>(e) && final(self)@ == old(self)@,
                None => r is Ok && final(self)@ == (BondingView {
                    withdraw_penalty: penalty,
                    ..old(self)@
                }),
            },
    {
        self.require_privileged(ctx)?;
        if !(penalty <= PENALTY_BASE && penalty > 0) {
            return Err(ContractError::InvalidPenaltyValue);
        }
        self.withdraw_penalty = penalty;
        assert(self@ =~= (BondingView { withdraw_penalty: penalty, ..old(self)@ }));
        Ok(())
    }

    pub fn set_bond_token(&mut self, ctx: &CallContext, token_identifier: &Vec<u8>) -> (r: Result<
        (),
        ContractError,
    >)
        requires
            old(self).wf(),
        ensures
            final(self).wf(),
            match set_bond_token_refusal(old(self)@, *ctx, token_identifier@) {
                Some(e) => r == Err::<(), ContractError>(e) && final(self)@ == old(self)@,
                None => r is Ok && final(self)@ == (BondingView {
                    bond_payment_token: token_identifier@,
                    ..old(self)@
                }),
            },
    {
        self.require_privileged(ctx)?;
        if !is_valid_esdt_identifier_bytes(token_identifier) {
            return Err(ContractError::InvalidTokenIdentifier);
        }
        self.bond_payment_token = copy_bytes(token_identifier);
        assert(self@ =~= (BondingView { bond_payment_token: token_identifier@, ..old(self)@ }));
        Ok(())
    }

    /// Adds accepted callers; ones accepted already stay where they are.
    pub fn set_accepted_callers(&mut self, ctx: &CallContext, callers: &Vec<Address>) -> (r: Result<
        (),
        ContractError,
    >)
        requires
            old(self).wf(),
        ensures
            final(self).wf(),
            match set_accepted_callers_refusal(old(self)@, *ctx, callers@) {
                Some(e) => r == Err::<(), ContractError>(e) && final(self)@ == old(self)@,
                None => r is Ok && final(self)@ == (BondingView {
                    accepted_callers: set_insert_all(old(self)@.accepted_callers, callers@),
                    ..old(self)@
                }),
            },
    {
        self.require_privileged(ctx)?;
        proof {
            lemma_set_insert_all_no_dup(old(self)@.accepted_callers, callers@);
        }
        self.accepted_callers.insert_each(callers);
        assert(self@ =~= (BondingView {
            accepted_callers: set_insert_all(old(self)@.accepted_callers, callers@),
            ..old(self)@
        }));
        Ok(())
    }

    /// Removes accepted callers; each must be present and listed once.
    pub fn remove_accepted_callers(&mut self, ctx: &CallContext, callers: &Vec<Address>) -> (r:
        Result<(), ContractError>)
        requires
            old(self).wf(),
        ensures
            final(self).wf(),
            match remove_accepted_callers_refusal(old(self)@, *ctx, callers@) {
                Some(e) => r == Err::<(), ContractError>(e) && final(self)@ == old(self)@,
                None => r is Ok && final(self)@ == (BondingView {
                    accepted_callers: set_swap_remove_all(old(self)@.accepted_callers, callers@),
                    ..old(self)@
                }),
            },
    {
        self.require_privileged(ctx)?;
        if !self.accepted_callers.all_present_and_distinct(callers) {
            return Err(ContractError::NotInStorage);
        }
        proof {
            lemma_swap_remove_all_no_dup(old(self)@.accepted_callers, callers@);
        }
        self.accepted_callers.swap_remove_all(callers);
        assert(self@ =~= (BondingView {
            accepted_callers: set_swap_remove_all(old(self)@.accepted_callers, callers@),
            ..old(self)@
        }));
        Ok(())
    }

    /// Adds lock periods with their bond amounts; each period must be new and listed once.
    pub fn add_lock_periods_with_bonds(&mut self, ctx: &CallContext, args: &Vec<(u64, Amount)>) -> (r:
        Result<(), ContractError>)
        requires
            old(self).wf(),
        ensures
            final(self).wf(),
            match add_lock_periods_refusal(old(self)@, *ctx, period_pairs(args@)) {
                Some(e) => r == Err::<(), ContractError>(e) && final(self)@ == old(self)@,
                None => r is Ok && final(self)@ == (BondingView {
                    lock_periods: old(self)@.lock_periods + periods_of(period_pairs(args@)),
                    lock_period_bond_amount: with_period_amounts(
                        old(self)@.lock_period_bond_amount,
                        period_pairs(args@),
                    ),
                    ..old(self)@
                }),
            },
    {
        self.require_privileged(ctx)?;
        let ghost named = periods_of(period_pairs(args@));
        let mut periods: Vec<u64> = Vec::new();
        let mut i: usize = 0;
        while i < args.len()
            invariant
                i <= args@.len(),
                named == periods_of(period_pairs(args@)),
                named.len() == args@.len(),
                periods@ == named.subrange(0, i as int),
            decreases args@.len() - i,
        {
            periods.push(args[i].0);
            assert(periods@ =~= named.subrange(0, i + 1));
            i = i + 1;
        }
        assert(periods@ =~= named);
        if !self.lock_periods.all_fresh_and_distinct(&periods) {
            return Err(ContractError::AlreadyInStorage);
        }
        proof {
            lemma_append_fresh_no_dup(old(self)@.lock_periods, periods@);
        }
        self.lock_periods.insert_all(&periods);
        set_period_amounts(&mut self.lock_period_bond_amount, args);
        proof {
            assert forall|p: u64| #[trigger] self@.lock_period_bond_amount.contains_key(p)
                implies self@.lock_periods.contains(p) by {
                lemma_with_period_amounts(old(self)@.lock_period_bond_amount, period_pairs(args@), p);
            }
        }
        assert(self@ =~= (BondingView {
            lock_periods: old(self)@.lock_periods + periods_of(period_pairs(args@)),
            lock_period_bond_amount: with_period_amounts(
                old(self)@.lock_period_bond_amount,
                period_pairs(args@),
            ),
            ..old(self)@
        }));
        Ok(())
    }

    /// Removes lock periods and their bond amounts; each must be present and listed once.
    pub fn remove_lock_periods_with_bonds(&mut self, ctx: &CallContext, lock_periods: &Vec<u64>) -> (r:
        Result<(), ContractError>)
        requires
            old(self).wf(),
        ensures
            final(self).wf(),
            match remove_lock_periods_refusal(old(self)@, *ctx, lock_periods@) {
                Some(e) => r == Err::<(), ContractError>(e) && final(self)@ == old(self)@,
                None => r is Ok && final(self)@ == (BondingView {
                    lock_periods: set_remove_keep_order_all(old(self)@.lock_periods, lock_periods@),
                    lock_period_bond_amount: without_periods(
                        old(self)@.lock_period_bond_amount,
                        lock_periods@,
                    ),
                    ..old(self)@
                }),
            },
    {
        self.require_privileged(ctx)?;
        if !self.lock_periods.all_present_and_distinct(lock_periods) {
            return Err(ContractError::NotInStorage);
        }
        proof {
            lemma_remove_keep_order_all_no_dup(old(self)@.lock_periods, lock_periods@);
        }
        self.lock_periods.remove_keep_order_all(lock_periods);
        unset_period_amounts(&mut self.lock_period_bond_amount, lock_periods);
        proof {
            assert forall|p: u64| #[trigger] self@.lock_period_bond_amount.contains_key(p)
                implies self@.lock_periods.contains(p) by {
                lemma_without_periods(old(self)@.lock_period_bond_amount, lock_periods@, p);
            }
        }
        assert(self@ =~= (BondingView {
            lock_periods: set_remove_keep_order_all(old(self)@.lock_periods, lock_periods@),
            lock_period_bond_amount: without_periods(old(self)@.lock_period_bond_amount, lock_periods@),
            ..old(self)@
        }));
        Ok(())
    }

    /// Blacklists addresses for a compensation; each must be new and listed once.
    pub fn add_to_black_list(
        &mut self,
        ctx: &CallContext,
        compensation_id: u64,
        addresses: &Vec<Address>,
    ) -> (r: Result<(), ContractError>)
        requires
            old(self).wf(),
        ensures
            final(self).wf(),
            match add_to_black_list_refusal(old(self)@, *ctx, compensation_id, addresses@) {
                Some(e) => r == Err::<(), ContractError>(e) && final(self)@ == old(self)@,
                None => r is Ok && final(self)@ == (BondingView {
                    compensation_blacklist: old(self)@.compensation_blacklist.insert(
                        compensation_id,
                        old(self)@.blacklist_of(compensation_id) + addresses@,
                    ),
                    ..old(self)@
                }),
            },
    {
        self.require_privileged(ctx)?;
        if !self.compensations_ids.contains_id(compensation_id) {
            return Err(ContractError::CompensationNotFound);
        }
        let fresh = match self.compensation_blacklist.get(&compensation_id) {
            Some(set) => set.all_fresh_and_distinct(addresses),
            None => UnorderedSet::<Address>::new().all_fresh_and_distinct(addresses),
        };
        if !fresh {
            return Err(ContractError::AlreadyInStorage);
        }
        let mut set = match self.compensation_blacklist.take(&compensation_id) {
            Some(set) => set,
            None => UnorderedSet::new(),
        };
        proof {
            lemma_append_fresh_no_dup(set@, addresses@);
        }
        set.insert_all(addresses);
        self.compensation_blacklist.insert(compensation_id, set);
        proof {
            assert forall|k: u64| #[trigger] self@.compensation_blacklist.contains_key(k)
                implies self@.compensation_blacklist[k].no_duplicates() by {
                if k != compensation_id {
                    assert(old(self)@.compensation_blacklist.contains_key(k));
                }
            }
        }
        assert(self@ =~= (BondingView {
            compensation_blacklist: old(self)@.compensation_blacklist.insert(
                compensation_id,
                old(self)@.blacklist_of(compensation_id) + addresses@,
            ),
            ..old(self)@
        }));
        Ok(())
    }

    /// Takes addresses off a compensation's blacklist; each must be present and listed once.
    pub fn remove_from_black_list(
        &mut self,
        ctx: &CallContext,
        compensation_id: u64,
        addresses: &Vec<Address>,
    ) -> (r: Result<(), ContractError>)
        requires
            old(self).wf(),
        ensures
            final(self).wf(),
            match remove_from_black_list_refusal(old(self)@, *ctx, compensation_id, addresses@) {
                Some(e) => r == Err::<(), ContractError>(e) && final(self)@ == old(self)@,
                None => r is Ok && final(self)@ == (BondingView {
                    compensation_blacklist: old(self)@.compensation_blacklist.insert(
                        compensation_id,
                        set_swap_remove_all(old(self)@.blacklist_of(compensation_id), addresses@),
                    ),
                    ..old(self)@
                }),
            },
    {
        self.require_privileged(ctx)?;
        if !self.compensations_ids.contains_id(compensation_id) {
            return Err(ContractError::CompensationNotFound);
        }
        let present = match self.compensation_blacklist.get(&compensation_id) {
            Some(set) => set.all_present_and_distinct(addresses),
            None => UnorderedSet::<Address>::new().all_present_and_distinct(addresses),
        };
        if !present {
            return Err(ContractError::NotInStorage);
        }
        let mut set = match self.compensation_blacklist.take(&compensation_id) {
            Some(set) => set,
            None => UnorderedSet::new(),
        };
        proof {
            lemma_swap_remove_all_no_dup(set@, addresses@);
        }
        set.swap_remove_all(addresses);
        self.compensation_blacklist.insert(compensation_id, set);
        proof {
            assert forall|k: u64| #[trigger] self@.compensation_blacklist.contains_key(k)
                implies self@.compensation_blacklist[k].no_duplicates() by {
                if k != compensation_id {
                    assert(old(self)@.compensation_blacklist.contains_key(k));
                }
            }
        }
        assert(self@ =~= (BondingView {
            compensation_blacklist: old(self)@.compensation_blacklist.insert(
                compensation_id,
                set_swap_remove_all(old(self)@.blacklist_of(compensation_id), addresses@),
            ),
            ..old(self)@
        }));
        Ok(())
    }

    /// Sets the end date of a compensation's proof window; it must lie in the future.
    pub fn initiate_refund(
        &mut self,
        ctx: &CallContext,
        token_identifier: &Vec<u8>,
        nonce: u64,
        timestamp: u64,
    ) -> (r: Result<(), ContractError>)
        requires
            old(self).wf(),
        ensures
            final(self).wf(),
            match initiate_refund_refusal(old(self)@, *ctx, token_identifier@, nonce, timestamp) {
                Some(e) => r == Err::<(), ContractError>(e) && final(self)@ == old(self)@,
                None => {
                    let id = old(self)@.compensations_ids.id_of((token_identifier@, nonce));
                    r is Ok && final(self)@ == (BondingView {
                        compensation_records: old(self)@.compensation_records.insert(
                            id,
                            CompensationView { end_date: timestamp, ..old(self)@.compensation_of(id) },
                        ),
                        ..old(self)@
                    })
                },
            },
    {
        self.require_privileged(ctx)?;
        let compensation_id = self.compensations_ids.get_id_non_zero(token_identifier, nonce)?;
        if !(timestamp > ctx.block_timestamp) {
            return Err(ContractError::InvalidTimestamp);
        }
        let mut cache = CompensationCache::new(self, compensation_id);
        cache.end_date = timestamp;
        cache.store(self);
        Ok(())
    }

    /// Moves a bond's unbond timestamp to now.
    pub fn modify_bond(&mut self, ctx: &CallContext, token_identifier: &Vec<u8>, nonce: u64) -> (r:
        Result<(), ContractError>)
        requires
            old(self).wf(),
        ensures
            final(self).wf(),
            match modify_bond_refusal(old(self)@, *ctx, token_identifier@, nonce) {
                Some(e) => r == Err::<(), ContractError>(e) && final(self)@ == old(self)@,
                None => {
                    let id = old(self)@.bonds_ids.id_of((token_identifier@, nonce));
                    r is Ok && final(self)@ == (BondingView {
                        bond_records: old(self)@.bond_records.insert(
                            id,
                            BondView { unbond_timestamp: ctx.block_timestamp, ..old(self)@.bond_of(id) },
                        ),
                        ..old(self)@
                    })
                },
            },
    {
        self.require_privileged(ctx)?;
        let bond_id = self.bonds_ids.get_id_non_zero(token_identifier, nonce)?;
        let mut cache = BondCache::new(self, bond_id);
        cache.unbond_timestamp = ctx.block_timestamp;
        cache.store(self);
        proof {
            law_modify_bond_keeps_bonds_accounted(old(self)@, *ctx, token_identifier@, nonce);
            assert(self@.bond_records =~= old(self)@.bond_records.insert(
                bond_id,
                BondView { unbond_timestamp: ctx.block_timestamp, ..old(self)@.bond_of(bond_id) },
            ));
        }
        Ok(())
    }

    /// Attaches the bond of `(token, nonce)` to `address`, registering the
    /// bond's identifier when it has none yet.
    pub fn initiate_bond_for_address(
        &mut self,
        ctx: &CallContext,
        address: Address,
        token_identifier: &Vec<u8>,
        nonce: u64,
    ) -> (r: Result<(), ContractError>)
        requires
            old(self).wf(),
        ensures
            final(self).wf(),
            match initiate_bond_refusal(old(self)@, *ctx, token_identifier@, nonce) {
                Some(e) => r == Err::<(), ContractError>(e) && final(self)@ == old(self)@,
                None => r is Ok && final(self)@ == initiated_bond(
                    old(self)@,
                    address,
                    token_identifier@,
                    nonce,
                ),
            },
    {
        self.require_privileged(ctx)?;
        let bond_id = match self.bonds_ids.get_id_or_insert(token_identifier, nonce) {
            Ok(id) => id,
            Err(e) => {
                return Err(e);
            },
        };
        proof {
            self.bonds_ids.lemma_valid();
        }
        let mut set = match self.address_bonds.take(&address) {
            Some(set) => set,
            None => UnorderedSet::new(),
        };
        proof {
            lemma_set_insert_no_dup(set@, bond_id);
        }
        set.insert(bond_id);
        self.address_bonds.insert(address, set);
        assert(self@ =~= initiated_bond(old(self)@, address, token_identifier@, nonce));
        Ok(())
    }

    /// Applies a penalty to a bond: the penalty leaves the bond's remaining
    /// amount and the total bonded and joins the compensation's accumulated amount.
    pub fn sanction(
        &mut self,
        ctx: &CallContext,
        token_identifier: &Vec<u8>,
        nonce: u64,
        penalty: PenaltyType,
        custom_penalty: Option<u64>,
    ) -> (r: Result<(), ContractError>)
        requires
            old(self).wf(),
        ensures
            final(self).wf(),
            match sanction_refusal(old(self)@, *ctx, token_identifier@, nonce, penalty, custom_penalty) {
                Some(e) => r == Err::<(), ContractError>(e) && final(self)@ == old(self)@,
                None => r is Ok && final(self)@ == sanctioned(
                    old(self)@,
                    token_identifier@,
                    nonce,
                    penalty,
                    custom_penalty,
                ),
            },
    {
        self.require_privileged(ctx)?;
        if penalty != PenaltyType::Custom && custom_penalty.is_some() {
            return Err(ContractError::InvalidPenaltyValue);
        }
        let bond_id = self.bonds_ids.get_id_non_zero(token_identifier, nonce)?;
        let compensation_id = self.compensations_ids.get_id_non_zero(token_identifier, nonce)?;
        let mut bond_cache = BondCache::new(self, bond_id);
        let mut compensation_cache = CompensationCache::new(self, compensation_id);
        let rate = match penalty {
            PenaltyType::Minimum => self.minimum_penalty,
            PenaltyType::Custom => match custom_penalty {
                Some(custom_value) => {
                    if !(custom_value <= PENALTY_BASE && custom_value > self.minimum_penalty) {
                        return Err(ContractError::InvalidPenaltyValue);
                    }
                    custom_value
                },
                None => {
                    return Err(ContractError::InvalidPenaltyValue);
                },
            },
            PenaltyType::Maximum => self.maximum_penalty,
        };
        let amount = apply_penalty(&bond_cache.bond_amount, rate);
        if !amount.le(&bond_cache.remaining_amount) {
            return Err(ContractError::InvalidPenaltyValue);
        }
        proof {
            crate::mapper::lemma_id_of(self@.bonds_ids, (token_identifier@, nonce));
            law_total_covers_every_bond(self@, bond_id);
        }
        self.total_bond_amount = self.total_bond_amount.sub(&amount);
        bond_cache.remaining_amount = bond_cache.remaining_amount.sub(&amount);
        compensation_cache.accumulated_amount = compensation_cache.accumulated_amount.add(&amount);
        bond_cache.store(self);
        compensation_cache.store(self);
        assert(self@ =~= sanctioned(old(self)@, token_identifier@, nonce, penalty, custom_penalty));
        proof {
            law_sanction_keeps_bonds_accounted(old(self)@, *ctx, token_identifier@, nonce, penalty, custom_penalty);
        }
        Ok(())
    }
}

} // verus!
