//! Read-only queries over the storage.
use vstd::prelude::*;
use crate::amount::Amount;
use crate::errors::ContractError;
use crate::storage::{
    stored_bond, BondCache, BondView, BondingView, CompensationCache, CompensationView, LifeBonding, Refund,
    RefundView,
};
use crate::types::{Address, State};

verus! {

/// A bond as the queries report it.
#[derive(Debug)]
pub struct Bond {
    pub bond_id: u64,
    pub address: Address,
    pub token_identifier: Vec<u8>,
    pub nonce: u64,
    pub lock_period: u64,
    pub bond_timestamp: u64,
    pub unbond_timestamp: u64,
    pub bond_amount: Amount,
    pub remaining_amount: Amount,
}

impl Bond {
    /// This is bond `id` with stored fields `b`.
    pub open spec fn shows(&self, id: u64, b: BondView) -> bool {
        &&& self.bond_id == id
        &&& self.address == b.address
        &&& self.token_identifier@ == b.token_identifier
        &&& self.nonce == b.nonce
        &&& self.lock_period == b.lock_period
        &&& self.bond_timestamp == b.bond_timestamp
        &&& self.unbond_timestamp == b.unbond_timestamp
        &&& self.bond_amount@ == b.bond_amount
        &&& self.remaining_amount@ == b.remaining_amount
    }
}

/// A compensation as the queries report it.
#[derive(Debug)]
pub struct Compensation {
    pub compensation_id: u64,
    pub token_identifier: Vec<u8>,
    pub nonce: u64,
    pub accumulated_amount: Amount,
    pub proof_amount: Amount,
    pub end_date: u64,
}

impl Compensation {
    /// This is compensation `id` with stored fields `c`.
    pub open spec fn shows(&self, id: u64, c: CompensationView) -> bool {
        &&& self.compensation_id == id
        &&& self.token_identifier@ == c.token_identifier
        &&& self.nonce == c.nonce
        &&& self.accumulated_amount@ == c.accumulated_amount
        &&& self.proof_amount@ == c.proof_amount
        &&& self.end_date == c.end_date
    }
}

/// The whole configuration of the contract.
#[derive(Debug)]
pub struct ContractConfiguration {
    pub contract_state: State,
    pub bond_payment_token_identifier: Vec<u8>,
    pub lock_periods: Vec<u64>,
    pub bond_amounts: Vec<Amount>,
    pub minimum_penalty: u64,
    pub maximum_penalty: u64,
    pub withdraw_penalty: u64,
    pub accepted_callers: Vec<Address>,
}

/// The known identifiers of the listed objects, in order, unknown ones left out.
pub open spec fn known_ids(m: crate::mapper::MapperView, objects: Seq<(Vec<u8>, u64)>) -> Seq<u64>
    decreases objects.len(),
{
    if objects.len() == 0 {
        Seq::empty()
    } else {
        let rest = known_ids(m, objects.drop_last());
        let id = m.id_of((objects.last().0@, objects.last().1));
        if id != 0 {
            rest.push(id)
        } else {
            rest
        }
    }
}

/// The refunds of `address` for the listed compensations, in order, missing ones left out.
pub open spec fn refunds_for(v: BondingView, address: Address, ids: Seq<u64>) -> Seq<RefundView>
    decreases ids.len(),
{
    if ids.len() == 0 {
        Seq::empty()
    } else {
        let rest = refunds_for(v, address, ids.drop_last());
        match v.refund_of(address, ids.last()) {
            Some(r) => rest.push(r),
            None => rest,
        }
    }
}

/// The slice of `s` that starts at `start` and holds at most `count` elements.
pub open spec fn page<K>(s: Seq<K>, start: int, count: int) -> Seq<K> {
    if start >= s.len() {
        Seq::empty()
    } else if start + count >= s.len() {
        s.subrange(start, s.len() as int)
    } else {
        s.subrange(start, start + count)
    }
}

/// Why a page from `start` to `end` (both inclusive) cannot be listed.
pub open spec fn page_refusal(start: u64, end: u64) -> Option<ContractError> {
    if end < start || end - start + 1 > u64::MAX {
        Some(ContractError::IntegerOverflow)
    } else {
        None
    }
}

/// The score of a bond that unbonds after `timestamp`.
pub open spec fn bond_score(b: BondView, timestamp: u64) -> int {
    (10_000_000_000_000int / (b.lock_period as int)) * (b.unbond_timestamp - timestamp)
        / 1_000_000_000int
}

/// Score-weighted remaining amounts and remaining amounts of the listed
/// bonds that have not unbonded at `timestamp`, or why they cannot be summed.
pub open spec fn score_totals(v: BondingView, timestamp: u64, ids: Seq<u64>) -> Result<(int, int), ContractError>
    decreases ids.len(),
{
    if ids.len() == 0 {
        Ok((0, 0))
    } else {
        match score_totals(v, timestamp, ids.drop_last()) {
            Err(e) => Err(e),
            Ok((total, count)) => {
                let b = v.bond_of(ids.last());
                if timestamp >= b.unbond_timestamp {
                    Ok((total, count))
                } else if b.lock_period == 0 {
                    Err(ContractError::DivisionByZero)
                } else {
                    Ok((total + bond_score(b, timestamp) * b.remaining_amount, count + b.remaining_amount))
                }
            },
        }
    }
}

/// The average bond score of an address, weighted by remaining amounts.
pub open spec fn avg_score(v: BondingView, timestamp: u64, address: Address) -> Result<int, ContractError> {
    let ids = v.bonds_of_address(address);
    if ids.len() == 0 {
        Ok(0)
    } else {
        match score_totals(v, timestamp, ids) {
            Err(e) => Err(e),
            Ok((total, count)) => if count == 0 {
                Err(ContractError::DivisionByZero)
            } else {
                Ok(total / count)
            },
        }
    }
}

/// The sum of the remaining amounts of the listed bonds.
pub open spec fn remaining_sum(records: Map<u64, BondView>, ids: Seq<u64>) -> int
    decreases ids.len(),
{
    if ids.len() == 0 {
        0
    } else {
        remaining_sum(records, ids.drop_last()) + stored_bond(records, ids.last()).remaining_amount
    }
}


impl LifeBonding {
    /// Bond `bond_id`; unset fields read as zero.
    pub fn get_bond(&self, bond_id: u64) -> (r: Bond)
        requires
            self.wf(),
        ensures
            r.shows(bond_id, self@.bond_of(bond_id)),
    {
        let c = BondCache::new(self, bond_id);
        Bond {
            bond_id,
            address: c.address,
            token_identifier: c.token_identifier,
            nonce: c.nonce,
            lock_period: c.lock_period,
            bond_timestamp: c.bond_timestamp,
            unbond_timestamp: c.unbond_timestamp,
            bond_amount: c.bond_amount,
            remaining_amount: c.remaining_amount,
        }
    }

    /// Compensation `compensation_id`; unset fields read as zero.
    pub fn get_compensation(&self, compensation_id: u64) -> (r: Compensation)
        requires
            self.wf(),
        ensures
            r.shows(compensation_id, self@.compensation_of(compensation_id)),
    {
        let c = CompensationCache::new(self, compensation_id);
        Compensation {
            compensation_id,
            token_identifier: c.token_identifier,
            nonce: c.nonce,
            accumulated_amount: c.accumulated_amount,
            proof_amount: c.proof_amount,
            end_date: c.end_date,
        }
    }

    /// The bonds with the given identifiers, in order.
    pub fn get_bonds(&self, bond_ids: &Vec<u64>) -> (r: Vec<Bond>)
        requires
            self.wf(),
        ensures
            r@.len() == bond_ids@.len(),
            forall|i: int| 0 <= i < bond_ids@.len() ==> #[trigger] r@[i].shows(
                bond_ids@[i],
                self@.bond_of(bond_ids@[i]),
            ),
    {
        let mut r: Vec<Bond> = Vec::new();
        let mut i: usize = 0;
        while i < bond_ids.len()
            invariant
                self.wf(),
                i <= bond_ids@.len(),
                r@.len() == i,
                forall|j: int| 0 <= j < i ==> #[trigger] r@[j].shows(bond_ids@[j], self@.bond_of(bond_ids@[j])),
            decreases bond_ids@.len() - i,
        {
            r.push(self.get_bond(bond_ids[i]));
            i = i + 1;
        }
        r
    }

    /// The compensations with the given identifiers, in order.
    fn compensations_by_id(&self, ids: &Vec<u64>) -> (r: Vec<Compensation>)
        requires
            self.wf(),
        ensures
            r@.len() == ids@.len(),
            forall|i: int| 0 <= i < ids@.len() ==> #[trigger] r@[i].shows(
                ids@[i],
                self@.compensation_of(ids@[i]),
            ),
    {
        let mut r: Vec<Compensation> = Vec::new();
        let mut i: usize = 0;
        while i < ids.len()
            invariant
                self.wf(),
                i <= ids@.len(),
                r@.len() == i,
                forall|j: int| 0 <= j < i ==> #[trigger] r@[j].shows(ids@[j], self@.compensation_of(ids@[j])),
            decreases ids@.len() - i,
        {
            r.push(self.get_compensation(ids[i]));
            i = i + 1;
        }
        r
    }

    /// The compensations of the listed `(token, nonce)` pairs that have one, in order.
    pub fn get_compensations(&self, input: &Vec<(Vec<u8>, u64)>) -> (r: Vec<Compensation>)
        requires
            self.wf(),
        ensures
            r@.len() == known_ids(self@.compensations_ids, input@).len(),
            forall|i: int| 0 <= i < r@.len() ==> #[trigger] r@[i].shows(
                known_ids(self@.compensations_ids, input@)[i],
                self@.compensation_of(known_ids(self@.compensations_ids, input@)[i]),
            ),
    {
        let mut ids: Vec<u64> = Vec::new();
        let mut i: usize = 0;
        while i < input.len()
            invariant
                self.wf(),
                i <= input@.len(),
                ids@ == known_ids(self@.compensations_ids, input@.subrange(0, i as int)),
            decreases input@.len() - i,
        {
            let id = self.compensations_ids.get_id(&input[i].0, input[i].1);
            assert(input@.subrange(0, i + 1).drop_last() =~= input@.subrange(0, i as int));
            if id != 0 {
                ids.push(id);
            }
            i = i + 1;
        }
        assert(input@.subrange(0, input@.len() as int) =~= input@);
        self.compensations_by_id(&ids)
    }

    /// The bonds of the listed `(token, nonce)` pairs that have one, in order.
    pub fn get_bonds_by_token_identifier_nonce(&self, input: &Vec<(Vec<u8>, u64)>) -> (r: Vec<Bond>)
        requires
            self.wf(),
        ensures
            r@.len() == known_ids(self@.bonds_ids, input@).len(),
            forall|i: int| 0 <= i < r@.len() ==> #[trigger] r@[i].shows(
                known_ids(self@.bonds_ids, input@)[i],
                self@.bond_of(known_ids(self@.bonds_ids, input@)[i]),
            ),
    {
        let mut ids: Vec<u64> = Vec::new();
        let mut i: usize = 0;
        while i < input.len()
            invariant
                self.wf(),
                i <= input@.len(),
                ids@ == known_ids(self@.bonds_ids, input@.subrange(0, i as int)),
            decreases input@.len() - i,
        {
            let id = self.bonds_ids.get_id(&input[i].0, input[i].1);
            assert(input@.subrange(0, i + 1).drop_last() =~= input@.subrange(0, i as int));
            if id != 0 {
                ids.push(id);
            }
            i = i + 1;
        }
        assert(input@.subrange(0, input@.len() as int) =~= input@);
        self.get_bonds(&ids)
    }

    /// The elements of `s` from `start` to `end`, both inclusive and clipped to `s`.
    fn page_of(s: &Vec<u64>, start: u64, end: u64) -> (r: Result<Vec<u64>, ContractError>)
        ensures
            match page_refusal(start, end) {
                Some(e) => r is Err && r->Err_0 == e,
                None => r is Ok && r->Ok_0@ == page(s@, start as int, end - start + 1),
            },
    {
        if end < start || end - start == u64::MAX {
            return Err(ContractError::IntegerOverflow);
        }
        let count = end - start + 1;
        let mut r: Vec<u64> = Vec::new();
        let len = s.len();
        if (len as u64) <= start {
            return Ok(r);
        }
        let stop: usize = if count >= (len as u64) - start {
            len
        } else {
            (start + count) as usize
        };
        let mut i: usize = start as usize;
        while i < stop
            invariant
                start <= i <= stop <= len == s@.len(),
                r@ == s@.subrange(start as int, i as int),
            decreases stop - i,
        {
            r.push(s[i]);
            i = i + 1;
        }
        Ok(r)
    }

    /// The compensations from position `start` to `end` (both inclusive) of
    /// the open compensations.
    pub fn get_paged_compensations(&self, start_index: u64, end_index: u64) -> (r: Result<
        Vec<Compensation>,
        ContractError,
    >)
        requires
            self.wf(),
        ensures
            match page_refusal(start_index, end_index) {
                Some(e) => r is Err && r->Err_0 == e,
                None => r is Ok && {
                    let ids = page(self@.compensations, start_index as int, end_index - start_index + 1);
                    &&& r->Ok_0@.len() == ids.len()
                    &&& forall|i: int| 0 <= i < ids.len() ==> #[trigger] r->Ok_0@[i].shows(
                        ids[i],
                        self@.compensation_of(ids[i]),
                    )
                },
            },
    {
        let all = self.compensations.to_vec();
        let ids = Self::page_of(&all, start_index, end_index)?;
        Ok(self.compensations_by_id(&ids))
    }

    /// The bonds from position `start` to `end` (both inclusive) of all bonds.
    pub fn get_paged_bonds(&self, start_index: u64, end_index: u64) -> (r: Result<Vec<Bond>, ContractError>)
        requires
            self.wf(),
        ensures
            match page_refusal(start_index, end_index) {
                Some(e) => r is Err && r->Err_0 == e,
                None => r is Ok && {
                    let ids = page(self@.bonds, start_index as int, end_index - start_index + 1);
                    &&& r->Ok_0@.len() == ids.len()
                    &&& forall|i: int| 0 <= i < ids.len() ==> #[trigger] r->Ok_0@[i].shows(
                        ids[i],
                        self@.bond_of(ids[i]),
                    )
                },
            },
    {
        let all = self.bonds.to_vec();
        let ids = Self::page_of(&all, start_index, end_index)?;
        Ok(self.get_bonds(&ids))
    }

    /// Every bond, in the order of the bond list.
    pub fn get_all_bonds(&self) -> (r: Vec<Bond>)
        requires
            self.wf(),
        ensures
            r@.len() == self@.bonds.len(),
            forall|i: int| 0 <= i < self@.bonds.len() ==> #[trigger] r@[i].shows(
                self@.bonds[i],
                self@.bond_of(self@.bonds[i]),
            ),
    {
        let ids = self.bonds.to_vec();
        self.get_bonds(&ids)
    }

    /// The bonds attached to `address`, in order.
    pub fn get_address_bonds(&self, address: Address) -> (r: Vec<Bond>)
        requires
            self.wf(),
        ensures
            r@.len() == self@.bonds_of_address(address).len(),
            forall|i: int| 0 <= i < r@.len() ==> #[trigger] r@[i].shows(
                self@.bonds_of_address(address)[i],
                self@.bond_of(self@.bonds_of_address(address)[i]),
            ),
    {
        let ids = match self.address_bonds.get(&address) {
            Some(set) => set.to_vec(),
            None => Vec::new(),
        };
        self.get_bonds(&ids)
    }

    pub fn get_bonds_len(&self) -> (r: usize)
        ensures
            r == self@.bonds.len(),
    {
        self.bonds.len()
    }

    pub fn get_compensations_len(&self) -> (r: usize)
        ensures
            r == self@.compensations.len(),
    {
        self.compensations.len()
    }

    /// The blacklisted addresses of a compensation.
    pub fn compensation_blacklist(&self, compensation_id: u64) -> (r: Vec<Address>)
        requires
            self.wf(),
        ensures
            r@ == self@.blacklist_of(compensation_id),
    {
        match self.compensation_blacklist.get(&compensation_id) {
            Some(set) => set.to_vec(),
            None => Vec::new(),
        }
    }

    /// The compensation of `(token, nonce)` together with the refund of
    /// `address` for it, if any; `None` when the NFT has no compensation.
    pub fn get_address_refund_for_compensation(
        &self,
        address: Address,
        token_identifier: &Vec<u8>,
        nonce: u64,
    ) -> (r: Option<(Compensation, Option<Refund>)>)
        requires
            self.wf(),
        ensures
            ({
                let id = self@.compensations_ids.id_of((token_identifier@, nonce));
                match r {
                    Some((compensation, refund)) => id != 0 && compensation.shows(
                        id,
                        self@.compensation_of(id),
                    ) && match refund {
                        Some(refund) => self@.refund_of(address, id) == Some(refund@),
                        None => self@.refund_of(address, id) is None,
                    },
                    None => id == 0,
                }
            }),
    {
        let compensation_id = self.compensations_ids.get_id(token_identifier, nonce);
        if compensation_id == 0 {
            None
        } else {
            let compensation = self.get_compensation(compensation_id);
            let refund = match self.address_refund.get(&(address, compensation_id)) {
                Some(refund) => Some(refund.duplicate()),
                None => None,
            };
            Some((compensation, refund))
        }
    }

    /// The refunds of `address` for the listed compensations that it has one for, in order.
    pub fn get_address_refund_for_compensations(&self, address: Address, compensation_ids: &Vec<u64>) -> (r:
        Vec<Refund>)
        requires
            self.wf(),
        ensures
            r@.len() == refunds_for(self@, address, compensation_ids@).len(),
            forall|i: int| 0 <= i < r@.len() ==> #[trigger] r@[i]@ == refunds_for(
                self@,
                address,
                compensation_ids@,
            )[i],
    {
        let mut r: Vec<Refund> = Vec::new();
        let mut i: usize = 0;
        while i < compensation_ids.len()
            invariant
                self.wf(),
                i <= compensation_ids@.len(),
                r@.len() == refunds_for(self@, address, compensation_ids@.subrange(0, i as int)).len(),
                forall|j: int| 0 <= j < r@.len() ==> #[trigger] r@[j]@ == refunds_for(
                    self@,
                    address,
                    compensation_ids@.subrange(0, i as int),
                )[j],
            decreases compensation_ids@.len() - i,
        {
            assert(compensation_ids@.subrange(0, i + 1).drop_last() =~= compensation_ids@.subrange(0, i as int));
            match self.address_refund.get(&(address, compensation_ids[i])) {
                Some(refund) => {
                    r.push(refund.duplicate());
                },
                None => {},
            }
            i = i + 1;
        }
        assert(compensation_ids@.subrange(0, compensation_ids@.len() as int) =~= compensation_ids@);
        r
    }

    /// The sum of the remaining amounts of the bonds attached to `address`.
    pub fn get_address_bonds_total_value(&self, address: Address) -> (r: Amount)
        requires
            self.wf(),
        ensures
            r@ == remaining_sum(self@.bond_records, self@.bonds_of_address(address)),
    {
        let ids = match self.address_bonds.get(&address) {
            Some(set) => set.to_vec(),
            None => Vec::new(),
        };
        let mut total = Amount::zero();
        let mut i: usize = 0;
        while i < ids.len()
            invariant
                self.wf(),
                ids@ == self@.bonds_of_address(address),
                i <= ids@.len(),
                total@ == remaining_sum(self@.bond_records, ids@.subrange(0, i as int)),
            decreases ids@.len() - i,
        {
            let remaining = self.get_bond(ids[i]).remaining_amount;
            assert(ids@.subrange(0, i + 1).drop_last() =~= ids@.subrange(0, i as int));
            total = total.add(&remaining);
            i = i + 1;
        }
        assert(ids@.subrange(0, ids@.len() as int) =~= ids@);
        total
    }

    /// The average score of the bonds of `address` that have not unbonded at
    /// `timestamp`, weighted by their remaining amounts: a bond scores
    /// 10_000 per second left of each second of its lock period, scaled down by 10^9.
    pub fn get_address_bonds_avg_score(&self, timestamp: u64, address: Address) -> (r: Result<
        Amount,
        ContractError,
    >)
        requires
            self.wf(),
        ensures
            match avg_score(self@, timestamp, address) {
                Ok(score) => r is Ok && r->Ok_0@ == score,
                Err(e) => r is Err && r->Err_0 == e,
            },
    {
        let ids = match self.address_bonds.get(&address) {
            Some(set) => set.to_vec(),
            None => Vec::new(),
        };
        if ids.len() == 0 {
            return Ok(Amount::zero());
        }
        let mut total = Amount::zero();
        let mut count = Amount::zero();
        let mut i: usize = 0;
        while i < ids.len()
            invariant
                self.wf(),
                ids@ == self@.bonds_of_address(address),
                i <= ids@.len(),
                score_totals(self@, timestamp, ids@.subrange(0, i as int)) == Ok::<(int, int), ContractError>(
                    (total@ as int, count@ as int),
                ),
            decreases ids@.len() - i,
        {
            let bond = self.get_bond(ids[i]);
            assert(ids@.subrange(0, i + 1).drop_last() =~= ids@.subrange(0, i as int));
            if timestamp < bond.unbond_timestamp {
                if bond.lock_period == 0 {
                    proof {
                        lemma_score_totals_err_sticks(self@, timestamp, ids@, i + 1);
                    }
                    return Err(ContractError::DivisionByZero);
                }
                let per_second: u128 = (10_000_000_000_000u64 / bond.lock_period) as u128;
                let left: u128 = (bond.unbond_timestamp - timestamp) as u128;
                assert(per_second * left <= 10_000_000_000_000 * 0xffff_ffff_ffff_ffff) by (nonlinear_arith)
                    requires
                        per_second <= 10_000_000_000_000,
                        left <= 0xffff_ffff_ffff_ffff,
                ;
                let score = Amount::from_u128(per_second * left / 1_000_000_000);
                let weighted = score.mul(&bond.remaining_amount);
                total = total.add(&weighted);
                count = count.add(&bond.remaining_amount);
            }
            i = i + 1;
        }
        assert(ids@.subrange(0, ids@.len() as int) =~= ids@);
        if count.is_zero() {
            return Err(ContractError::DivisionByZero);
        }
        Ok(total.div(&count))
    }

    /// The lock periods and, position by position, their bond amounts.
    pub fn get_lock_periods_bonds(&self) -> (r: (Vec<u64>, Vec<Amount>))
        requires
            self.wf(),
        ensures
            r.0@ == self@.lock_periods,
            r.1@.len() == self@.lock_periods.len(),
            forall|i: int| 0 <= i < r.1@.len() ==> #[trigger] r.1@[i]@ == self@.bond_amount_for(
                self@.lock_periods[i],
            ),
    {
        let periods = self.lock_periods.to_vec();
        let mut amounts: Vec<Amount> = Vec::new();
        let mut i: usize = 0;
        while i < periods.len()
            invariant
                self.wf(),
                periods@ == self@.lock_periods,
                i <= periods@.len(),
                amounts@.len() == i,
                forall|j: int| 0 <= j < i ==> #[trigger] amounts@[j]@ == self@.bond_amount_for(periods@[j]),
            decreases periods@.len() - i,
        {
            amounts.push(self.lock_period_bond_amount(periods[i]));
            i = i + 1;
        }
        (periods, amounts)
    }

    pub fn get_contract_configuration(&self) -> (r: ContractConfiguration)
        requires
            self.wf(),
        ensures
            r.contract_state == self@.contract_state,
            r.bond_payment_token_identifier@ == self@.bond_payment_token,
            r.lock_periods@ == self@.lock_periods,
            r.bond_amounts@.len() == self@.lock_periods.len(),
            forall|i: int| 0 <= i < r.bond_amounts@.len() ==> #[trigger] r.bond_amounts@[i]@
                == self@.bond_amount_for(self@.lock_periods[i]),
            r.minimum_penalty == self@.minimum_penalty,
            r.maximum_penalty == self@.maximum_penalty,
            r.withdraw_penalty == self@.withdraw_penalty,
            r.accepted_callers@ == self@.accepted_callers,
    {
        let (lock_periods, bond_amounts) = self.get_lock_periods_bonds();
        ContractConfiguration {
            contract_state: self.contract_state(),
            bond_payment_token_identifier: self.bond_payment_token(),
            lock_periods,
            bond_amounts,
            minimum_penalty: self.minimum_penalty(),
            maximum_penalty: self.maximum_penalty(),
            withdraw_penalty: self.withdraw_penalty(),
            accepted_callers: self.accepted_callers(),
        }
    }
}

/// Once the fold over a prefix fails, it fails the same way over the whole list.
proof fn lemma_score_totals_err_sticks(v: BondingView, timestamp: u64, ids: Seq<u64>, i: int)
    requires
        0 <= i <= ids.len(),
        score_totals(v, timestamp, ids.subrange(0, i)) is Err,
    ensures
        score_totals(v, timestamp, ids) == score_totals(v, timestamp, ids.subrange(0, i)),
    decreases ids.len() - i,
{
    if i == ids.len() {
        assert(ids.subrange(0, i) =~= ids);
    } else {
        assert(ids.subrange(0, i + 1).drop_last() =~= ids.subrange(0, i));
        lemma_score_totals_err_sticks(v, timestamp, ids, i + 1);
    }
}

} // verus!
