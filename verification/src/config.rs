//! Roles, readiness and the configuration slots of the contract.
use vstd::prelude::*;
use crate::amount::Amount;
use crate::errors::ContractError;
use crate::storage::{BondingView, CallContext, LifeBonding};
use crate::types::{copy_bytes, Address, State};

verus! {

/// Why `set_administrator` is refused, if it is.
pub open spec fn set_administrator_refusal(
    v: BondingView,
    ctx: CallContext,
    administrator: Address,
) -> Option<ContractError> {
    if ctx.caller != ctx.owner {
        Some(ContractError::OnlyOwner)
    } else if v.administrator == Some(administrator) {
        Some(ContractError::AlreadyInStorage)
    } else {
        None
    }
}

/// The contract is active and has an administrator, accepted callers, a
/// bond token and at least one lock period.
pub open spec fn is_ready(v: BondingView) -> bool {
    &&& v.contract_state == State::Active
    &&& v.administrator is Some
    &&& v.accepted_callers.len() > 0
    &&& v.bond_payment_token.len() > 0
    &&& v.lock_periods.len() > 0
}

impl LifeBonding {
    /// Sets the administrator; only the owner may, and not to the current one.
    pub fn set_administrator(&mut self, ctx: &CallContext, administrator: Address) -> (r: Result<
        (),
        ContractError,
    >)
        requires
            old(self).wf(),
        ensures
            final(self).wf(),
            match set_administrator_refusal(old(self)@, *ctx, administrator) {
                Some(e) => r == Err::<(), ContractError>(e) && final(self)@ == old(self)@,
                None => r is Ok && final(self)@ == (BondingView {
                    administrator: Some(administrator),
                    ..old(self)@
                }),
            },
    {
        if ctx.caller != ctx.owner {
            return Err(ContractError::OnlyOwner);
        }
        if let Some(current) = self.administrator {
            if current == administrator {
                return Err(ContractError::AlreadyInStorage);
            }
        }
        self.administrator = Some(administrator);
        assert(self@ =~= (BondingView { administrator: Some(administrator), ..old(self)@ }));
        Ok(())
    }

    pub fn is_contract_owner(&self, ctx: &CallContext, address: &Address) -> (r: bool)
        ensures
            r == (*address == ctx.owner),
    {
        ctx.owner == *address
    }

    /// Whether `address` is the administrator; no address is while none is set.
    pub fn is_admin(&self, address: &Address) -> (r: bool)
        ensures
            r == (self@.administrator == Some(*address)),
    {
        match self.administrator {
            Some(a) => a == *address,
            None => false,
        }
    }

    /// The owner and the administrator are privileged.
    pub fn is_privileged(&self, ctx: &CallContext, address: &Address) -> (r: bool)
        ensures
            r == self@.is_privileged(*address, ctx.owner),
    {
        self.is_contract_owner(ctx, address) || self.is_admin(address)
    }

    pub fn is_state_active(&self, state: State) -> (r: bool)
        ensures
            r == (state == State::Active),
    {
        state == State::Active
    }

    pub fn contract_is_ready(&self) -> (r: bool)
        ensures
            r == is_ready(self@),
    {
        let mut is_ready = true;
        if !self.is_state_active(self.contract_state) {
            is_ready = false;
        }
        if self.administrator.is_none() {
            is_ready = false;
        }
        if self.accepted_callers.is_empty() {
            is_ready = false;
        }
        if self.bond_payment_token.len() == 0 {
            is_ready = false;
        }
        if self.lock_periods.is_empty() {
            is_ready = false;
        }
        is_ready
    }

    /// Refused unless the caller is privileged.
    pub fn require_privileged(&self, ctx: &CallContext) -> (r: Result<(), ContractError>)
        ensures
            r is Ok <==> self@.is_privileged(ctx.caller, ctx.owner),
            r is Err ==> r == Err::<(), ContractError>(ContractError::NotPrivileged),
    {
        if self.is_privileged(ctx, &ctx.caller) {
            Ok(())
        } else {
            Err(ContractError::NotPrivileged)
        }
    }

    /// Refused unless the contract is active.
    pub fn require_contract_active(&self) -> (r: Result<(), ContractError>)
        ensures
            r is Ok <==> self@.is_active(),
            r is Err ==> r == Err::<(), ContractError>(ContractError::ContractInactive),
    {
        if self.is_state_active(self.contract_state) {
            Ok(())
        } else {
            Err(ContractError::ContractInactive)
        }
    }

    pub fn contract_state(&self) -> (r: State)
        ensures
            r == self@.contract_state,
    {
        self.contract_state
    }

    /// The administrator; the zero address while none is set.
    pub fn administrator(&self) -> (r: Address)
        ensures
            r == self@.admin_address(),
    {
        match self.administrator {
            Some(a) => a,
            None => Address::zero(),
        }
    }

    pub fn accepted_callers(&self) -> (r: Vec<Address>)
        ensures
            r@ == self@.accepted_callers,
    {
        self.accepted_callers.to_vec()
    }

    /// The bond token; empty while none is set.
    pub fn bond_payment_token(&self) -> (r: Vec<u8>)
        ensures
            r@ == self@.bond_payment_token,
    {
        copy_bytes(&self.bond_payment_token)
    }

    pub fn lock_periods(&self) -> (r: Vec<u64>)
        ensures
            r@ == self@.lock_periods,
    {
        self.lock_periods.to_vec()
    }

    /// The bond amount of a lock period; 0 when none is set.
    pub fn lock_period_bond_amount(&self, lock_period: u64) -> (r: Amount)
        requires
            self.wf(),
        ensures
            r@ == self@.bond_amount_for(lock_period),
    {
        match self.lock_period_bond_amount.get(&lock_period) {
            Some(a) => a.duplicate(),
            None => Amount::zero(),
        }
    }

    pub fn minimum_penalty(&self) -> (r: u64)
        ensures
            r == self@.minimum_penalty,
    {
        self.minimum_penalty
    }

    pub fn maximum_penalty(&self) -> (r: u64)
        ensures
            r == self@.maximum_penalty,
    {
        self.maximum_penalty
    }

    pub fn withdraw_penalty(&self) -> (r: u64)
        ensures
            r == self@.withdraw_penalty,
    {
        self.withdraw_penalty
    }

    pub fn total_bond_amount(&self) -> (r: Amount)
        ensures
            r@ == self@.total_bond_amount,
    {
        self.total_bond_amount.duplicate()
    }
}

} // verus!
