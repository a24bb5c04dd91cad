//! The contract's storage as one value, its spec view, and the two caches
//! through which endpoints read and write a bond or a compensation.
use vstd::prelude::*;
use crate::collections::{AssocMap, UnorderedSet};
use crate::accounts::bonds_accounted;
use crate::amount::Amount;
use crate::mapper::{MapperView, ObjectToIdMapper};
use crate::types::{copy_bytes, Address, EsdtTokenPayment, PaymentView, State};

verus! {

/// The percentage base of penalties: 10_000 stands for 100%.
pub const PENALTY_BASE: u64 = 10_000;

/// Seconds after a compensation's end date before its refunds can be claimed.
pub const COMPENSATION_SAFE_PERIOD: u64 = 86_400;

/// What the chain tells an endpoint about the call.
#[derive(Clone, Copy, Debug)]
pub struct CallContext {
    pub caller: Address,
    /// The contract's owner.
    pub owner: Address,
    pub block_timestamp: u64,
    /// Whether the caller is itself a smart contract.
    pub caller_is_smart_contract: bool,
}

/// The stored fields of one bond.
pub struct BondRecord {
    pub address: Address,
    pub token_identifier: Vec<u8>,
    pub nonce: u64,
    pub lock_period: u64,
    pub bond_timestamp: u64,
    pub unbond_timestamp: u64,
    pub bond_amount: Amount,
    pub remaining_amount: Amount,
}

pub struct BondView {
    pub address: Address,
    pub token_identifier: Seq<u8>,
    pub nonce: u64,
    pub lock_period: u64,
    pub bond_timestamp: u64,
    pub unbond_timestamp: u64,
    pub bond_amount: nat,
    pub remaining_amount: nat,
}

impl BondView {
    /// What an unset bond slot reads as.
    pub open spec fn empty() -> BondView {
        BondView {
            address: Address::spec_zero(),
            token_identifier: Seq::empty(),
            nonce: 0,
            lock_period: 0,
            bond_timestamp: 0,
            unbond_timestamp: 0,
            bond_amount: 0,
            remaining_amount: 0,
        }
    }
}

impl View for BondRecord {
    type V = BondView;

    open spec fn view(&self) -> BondView {
        BondView {
            address: self.address,
            token_identifier: self.token_identifier@,
            nonce: self.nonce,
            lock_period: self.lock_period,
            bond_timestamp: self.bond_timestamp,
            unbond_timestamp: self.unbond_timestamp,
            bond_amount: self.bond_amount@,
            remaining_amount: self.remaining_amount@,
        }
    }
}

/// The stored fields of one compensation.
pub struct CompensationRecord {
    pub token_identifier: Vec<u8>,
    pub nonce: u64,
    pub accumulated_amount: Amount,
    pub proof_amount: Amount,
    pub end_date: u64,
}

pub struct CompensationView {
    pub token_identifier: Seq<u8>,
    pub nonce: u64,
    pub accumulated_amount: nat,
    pub proof_amount: nat,
    pub end_date: u64,
}

impl CompensationView {
    /// What an unset compensation slot reads as.
    pub open spec fn empty() -> CompensationView {
        CompensationView {
            token_identifier: Seq::empty(),
            nonce: 0,
            accumulated_amount: 0,
            proof_amount: 0,
            end_date: 0,
        }
    }
}

impl View for CompensationRecord {
    type V = CompensationView;

    open spec fn view(&self) -> CompensationView {
        CompensationView {
            token_identifier: self.token_identifier@,
            nonce: self.nonce,
            accumulated_amount: self.accumulated_amount@,
            proof_amount: self.proof_amount@,
            end_date: self.end_date,
        }
    }
}

/// A proof handed in by an address for a compensation: the tokens it sent.
#[derive(Debug)]
pub struct Refund {
    pub address: Address,
    pub proof_of_refund: EsdtTokenPayment,
    pub compensation_id: u64,
}

pub struct RefundView {
    pub address: Address,
    pub proof_of_refund: PaymentView,
    pub compensation_id: u64,
}

impl View for Refund {
    type V = RefundView;

    open spec fn view(&self) -> RefundView {
        RefundView {
            address: self.address,
            proof_of_refund: self.proof_of_refund@,
            compensation_id: self.compensation_id,
        }
    }
}

impl Refund {
    pub fn duplicate(&self) -> (r: Refund)
        ensures
            r@ == self@,
    {
        Refund {
            address: self.address,
            proof_of_refund: self.proof_of_refund.duplicate(),
            compensation_id: self.compensation_id,
        }
    }
}

/// The whole storage of the contract.
pub struct LifeBonding {
    pub contract_state: State,
    pub administrator: Option<Address>,
    pub accepted_callers: UnorderedSet<Address>,
    /// Empty while no bond token is set.
    pub bond_payment_token: Vec<u8>,
    pub lock_periods: UnorderedSet<u64>,
    /// Bond amount of each lock period; an absent entry reads as 0.
    pub lock_period_bond_amount: AssocMap<u64, Amount>,
    pub minimum_penalty: u64,
    pub maximum_penalty: u64,
    pub withdraw_penalty: u64,
    pub total_bond_amount: Amount,
    pub compensations_ids: ObjectToIdMapper,
    pub compensations: UnorderedSet<u64>,
    pub compensation_records: AssocMap<u64, CompensationRecord>,
    pub compensation_blacklist: AssocMap<u64, UnorderedSet<Address>>,
    pub bonds_ids: ObjectToIdMapper,
    pub bonds: UnorderedSet<u64>,
    pub bond_records: AssocMap<u64, BondRecord>,
    pub address_bonds: AssocMap<Address, UnorderedSet<u64>>,
    pub address_refund: AssocMap<(Address, u64), Refund>,
}

#[verifier::ext_equal]
pub struct BondingView {
    pub contract_state: State,
    pub administrator: Option<Address>,
    pub accepted_callers: Seq<Address>,
    pub bond_payment_token: Seq<u8>,
    pub lock_periods: Seq<u64>,
    pub lock_period_bond_amount: Map<u64, nat>,
    pub minimum_penalty: u64,
    pub maximum_penalty: u64,
    pub withdraw_penalty: u64,
    pub total_bond_amount: nat,
    pub compensations_ids: MapperView,
    pub compensations: Seq<u64>,
    pub compensation_records: Map<u64, CompensationView>,
    pub compensation_blacklist: Map<u64, Seq<Address>>,
    pub bonds_ids: MapperView,
    pub bonds: Seq<u64>,
    pub bond_records: Map<u64, BondView>,
    pub address_bonds: Map<Address, Seq<u64>>,
    pub address_refund: Map<(Address, u64), RefundView>,
}

impl View for LifeBonding {
    type V = BondingView;

    open spec fn view(&self) -> BondingView {
        BondingView {
            contract_state: self.contract_state,
            administrator: self.administrator,
            accepted_callers: self.accepted_callers@,
            bond_payment_token: self.bond_payment_token@,
            lock_periods: self.lock_periods@,
            lock_period_bond_amount: self.lock_period_bond_amount@,
            minimum_penalty: self.minimum_penalty,
            maximum_penalty: self.maximum_penalty,
            withdraw_penalty: self.withdraw_penalty,
            total_bond_amount: self.total_bond_amount@,
            compensations_ids: self.compensations_ids@,
            compensations: self.compensations@,
            compensation_records: self.compensation_records@,
            compensation_blacklist: self.compensation_blacklist@,
            bonds_ids: self.bonds_ids@,
            bonds: self.bonds@,
            bond_records: self.bond_records@,
            address_bonds: self.address_bonds@,
            address_refund: self.address_refund@,
        }
    }
}

/// Bond `id` in the stored records; an unset bond reads as empty.
pub open spec fn stored_bond(records: Map<u64, BondView>, id: u64) -> BondView {
    if records.contains_key(id) {
        records[id]
    } else {
        BondView::empty()
    }
}

impl BondingView {
    /// The storage right after deployment.
    pub open spec fn initial() -> BondingView {
        BondingView {
            contract_state: State::Inactive,
            administrator: None,
            accepted_callers: Seq::empty(),
            bond_payment_token: Seq::empty(),
            lock_periods: Seq::empty(),
            lock_period_bond_amount: Map::empty(),
            minimum_penalty: 500,
            maximum_penalty: 10_000,
            withdraw_penalty: 8_000,
            total_bond_amount: 0,
            compensations_ids: MapperView::empty(),
            compensations: Seq::empty(),
            compensation_records: Map::empty(),
            compensation_blacklist: Map::empty(),
            bonds_ids: MapperView::empty(),
            bonds: Seq::empty(),
            bond_records: Map::empty(),
            address_bonds: Map::empty(),
            address_refund: Map::empty(),
        }
    }

    /// What holds of every reachable storage.
    pub open spec fn valid(self) -> bool {
        &&& self.accepted_callers.no_duplicates()
        &&& self.lock_periods.no_duplicates()
        &&& self.compensations.no_duplicates()
        &&& self.bonds.no_duplicates()
        &&& forall|id: u64| #[trigger] self.compensation_blacklist.contains_key(id)
            ==> self.compensation_blacklist[id].no_duplicates()
        &&& forall|a: Address| #[trigger] self.address_bonds.contains_key(a)
            ==> self.address_bonds[a].no_duplicates()
        &&& forall|p: u64| #[trigger] self.lock_period_bond_amount.contains_key(p)
            ==> self.lock_period_bond_amount[p] != 0 && self.lock_periods.contains(p)
        &&& self.minimum_penalty <= PENALTY_BASE
        &&& self.maximum_penalty <= PENALTY_BASE
        &&& self.withdraw_penalty <= PENALTY_BASE
        &&& self.compensations_ids.valid()
        &&& self.bonds_ids.valid()
    }

    pub open spec fn bond_of(self, id: u64) -> BondView {
        stored_bond(self.bond_records, id)
    }

    pub open spec fn compensation_of(self, id: u64) -> CompensationView {
        if self.compensation_records.contains_key(id) {
            self.compensation_records[id]
        } else {
            CompensationView::empty()
        }
    }

    pub open spec fn blacklist_of(self, id: u64) -> Seq<Address> {
        if self.compensation_blacklist.contains_key(id) {
            self.compensation_blacklist[id]
        } else {
            Seq::empty()
        }
    }

    pub open spec fn bonds_of_address(self, a: Address) -> Seq<u64> {
        if self.address_bonds.contains_key(a) {
            self.address_bonds[a]
        } else {
            Seq::empty()
        }
    }

    pub open spec fn refund_of(self, a: Address, id: u64) -> Option<RefundView> {
        if self.address_refund.contains_key((a, id)) {
            Some(self.address_refund[(a, id)])
        } else {
            None
        }
    }

    /// The bond amount asked for a lock period, 0 when none is set.
    pub open spec fn bond_amount_for(self, period: u64) -> nat {
        if self.lock_period_bond_amount.contains_key(period) {
            self.lock_period_bond_amount[period]
        } else {
            0
        }
    }

    /// The administrator slot as an address; unset reads as the zero address.
    pub open spec fn admin_address(self) -> Address {
        match self.administrator {
            Some(a) => a,
            None => Address::spec_zero(),
        }
    }

    /// The owner and the administrator, when one is set, are privileged.
    pub open spec fn is_privileged(self, address: Address, owner: Address) -> bool {
        address == owner || self.administrator == Some(address)
    }

    pub open spec fn is_active(self) -> bool {
        self.contract_state == State::Active
    }
}

impl LifeBonding {
    /// What holds between calls: the parts are well formed and the bond
    /// bookkeeping is in place.
    pub open spec fn wf(&self) -> bool {
        &&& self.inv()
        &&& bonds_accounted(self@)
    }

    /// The parts are well formed and the view is valid; this also holds
    /// in the middle of an endpoint, while a bond is being rewritten.
    pub open spec fn inv(&self) -> bool {
        &&& self.lock_period_bond_amount.wf()
        &&& self.compensations_ids.wf()
        &&& self.compensation_records.wf()
        &&& self.compensation_blacklist.wf()
        &&& self.bonds_ids.wf()
        &&& self.bond_records.wf()
        &&& self.address_bonds.wf()
        &&& self.address_refund.wf()
        &&& self@.valid()
    }

    /// Deployment: the contract starts inactive with the default penalties.
    pub fn init() -> (r: LifeBonding)
        ensures
            r.wf(),
            r@ == BondingView::initial(),
    {
        let r = LifeBonding {
            contract_state: State::Inactive,
            administrator: None,
            accepted_callers: UnorderedSet::new(),
            bond_payment_token: Vec::new(),
            lock_periods: UnorderedSet::new(),
            lock_period_bond_amount: AssocMap::new(),
            minimum_penalty: 500,
            maximum_penalty: 10_000,
            withdraw_penalty: 8_000,
            total_bond_amount: Amount::zero(),
            compensations_ids: ObjectToIdMapper::new(),
            compensations: UnorderedSet::new(),
            compensation_records: AssocMap::new(),
            compensation_blacklist: AssocMap::new(),
            bonds_ids: ObjectToIdMapper::new(),
            bonds: UnorderedSet::new(),
            bond_records: AssocMap::new(),
            address_bonds: AssocMap::new(),
            address_refund: AssocMap::new(),
        };
        assert(r@ =~= BondingView::initial());
        r
    }

    /// Upgrading the contract puts it back to inactive.
    pub fn upgrade(&mut self)
        requires
            old(self).wf(),
        ensures
            final(self).wf(),
            final(self)@ == (BondingView { contract_state: State::Inactive, ..old(self)@ }),
    {
        self.contract_state = State::Inactive;
        assert(self@ =~= (BondingView { contract_state: State::Inactive, ..old(self)@ }));
    }
}

/// A bond read out of storage; endpoints change it and then write it back.
pub struct BondCache {
    pub bond_id: u64,
    pub address: Address,
    pub token_identifier: Vec<u8>,
    pub nonce: u64,
    pub lock_period: u64,
    pub bond_timestamp: u64,
    pub unbond_timestamp: u64,
    pub bond_amount: Amount,
    pub remaining_amount: Amount,
}

impl BondCache {
    /// The cache holds exactly the stored fields `v`.
    pub open spec fn holds(&self, v: BondView) -> bool {
        &&& self.address == v.address
        &&& self.token_identifier@ == v.token_identifier
        &&& self.nonce == v.nonce
        &&& self.lock_period == v.lock_period
        &&& self.bond_timestamp == v.bond_timestamp
        &&& self.unbond_timestamp == v.unbond_timestamp
        &&& self.bond_amount@ == v.bond_amount
        &&& self.remaining_amount@ == v.remaining_amount
    }

    /// The stored bond `v` after the cache's lock period, timestamps and
    /// amounts are written over it.
    pub open spec fn written_over(&self, v: BondView) -> BondView {
        BondView {
            lock_period: self.lock_period,
            bond_timestamp: self.bond_timestamp,
            unbond_timestamp: self.unbond_timestamp,
            bond_amount: self.bond_amount@,
            remaining_amount: self.remaining_amount@,
            ..v
        }
    }

    /// Reads bond `bond_id` out of storage.
    pub fn new(sc: &LifeBonding, bond_id: u64) -> (r: BondCache)
        requires
            sc.inv(),
        ensures
            r.bond_id == bond_id,
            r.holds(sc@.bond_of(bond_id)),
    {
        match sc.bond_records.get(&bond_id) {
            Some(rec) => BondCache {
                bond_id,
                address: rec.address,
                token_identifier: copy_bytes(&rec.token_identifier),
                nonce: rec.nonce,
                lock_period: rec.lock_period,
                bond_timestamp: rec.bond_timestamp,
                unbond_timestamp: rec.unbond_timestamp,
                bond_amount: rec.bond_amount.duplicate(),
                remaining_amount: rec.remaining_amount.duplicate(),
            },
            None => BondCache {
                bond_id,
                address: Address::zero(),
                token_identifier: Vec::new(),
                nonce: 0,
                lock_period: 0,
                bond_timestamp: 0,
                unbond_timestamp: 0,
                bond_amount: Amount::zero(),
                remaining_amount: Amount::zero(),
            },
        }
    }

    /// Clears every stored field of the bond.
    pub fn clear(&self, sc: &mut LifeBonding)
        requires
            old(sc).inv(),
        ensures
            final(sc).inv(),
            final(sc)@ == (BondingView {
                bond_records: old(sc)@.bond_records.insert(self.bond_id, BondView::empty()),
                ..old(sc)@
            }),
    {
        let rec = BondRecord {
            address: Address::zero(),
            token_identifier: Vec::new(),
            nonce: 0,
            lock_period: 0,
            bond_timestamp: 0,
            unbond_timestamp: 0,
            bond_amount: Amount::zero(),
            remaining_amount: Amount::zero(),
        };
        assert(rec@ =~= BondView::empty());
        sc.bond_records.insert(self.bond_id, rec);
        assert(sc@ =~= (BondingView {
            bond_records: old(sc)@.bond_records.insert(self.bond_id, BondView::empty()),
            ..old(sc)@
        }));
    }

    /// Writes the cached lock period, timestamps and amounts back to storage;
    /// the stored address, token and nonce stay as they are.
    pub fn store(&self, sc: &mut LifeBonding)
        requires
            old(sc).inv(),
        ensures
            final(sc).inv(),
            final(sc)@ == (BondingView {
                bond_records: old(sc)@.bond_records.insert(
                    self.bond_id,
                    self.written_over(old(sc)@.bond_of(self.bond_id)),
                ),
                ..old(sc)@
            }),
    {
        let (address, token_identifier, nonce) = match sc.bond_records.get(&self.bond_id) {
            Some(rec) => (rec.address, copy_bytes(&rec.token_identifier), rec.nonce),
            None => (Address::zero(), Vec::new(), 0),
        };
        let rec = BondRecord {
            address,
            token_identifier,
            nonce,
            lock_period: self.lock_period,
            bond_timestamp: self.bond_timestamp,
            unbond_timestamp: self.unbond_timestamp,
            bond_amount: self.bond_amount.duplicate(),
            remaining_amount: self.remaining_amount.duplicate(),
        };
        assert(rec@ =~= self.written_over(old(sc)@.bond_of(self.bond_id)));
        sc.bond_records.insert(self.bond_id, rec);
        assert(sc@ =~= (BondingView {
            bond_records: old(sc)@.bond_records.insert(
                self.bond_id,
                self.written_over(old(sc)@.bond_of(self.bond_id)),
            ),
            ..old(sc)@
        }));
    }
}

/// A compensation read out of storage; endpoints change it and then write it back.
pub struct CompensationCache {
    pub compensation_id: u64,
    pub token_identifier: Vec<u8>,
    pub nonce: u64,
    pub accumulated_amount: Amount,
    pub proof_amount: Amount,
    pub end_date: u64,
}

impl CompensationCache {
    pub open spec fn holds(&self, v: CompensationView) -> bool {
        &&& self.token_identifier@ == v.token_identifier
        &&& self.nonce == v.nonce
        &&& self.accumulated_amount@ == v.accumulated_amount
        &&& self.proof_amount@ == v.proof_amount
        &&& self.end_date == v.end_date
    }

    /// The stored compensation `v` after the cache's amounts and end date
    /// are written over it.
    pub open spec fn written_over(&self, v: CompensationView) -> CompensationView {
        CompensationView {
            accumulated_amount: self.accumulated_amount@,
            proof_amount: self.proof_amount@,
            end_date: self.end_date,
            ..v
        }
    }

    /// Reads compensation `compensation_id` out of storage.
    pub fn new(sc: &LifeBonding, compensation_id: u64) -> (r: CompensationCache)
        requires
            sc.inv(),
        ensures
            r.compensation_id == compensation_id,
            r.holds(sc@.compensation_of(compensation_id)),
    {
        match sc.compensation_records.get(&compensation_id) {
            Some(rec) => CompensationCache {
                compensation_id,
                token_identifier: copy_bytes(&rec.token_identifier),
                nonce: rec.nonce,
                accumulated_amount: rec.accumulated_amount.duplicate(),
                proof_amount: rec.proof_amount.duplicate(),
                end_date: rec.end_date,
            },
            None => CompensationCache {
                compensation_id,
                token_identifier: Vec::new(),
                nonce: 0,
                accumulated_amount: Amount::zero(),
                proof_amount: Amount::zero(),
                end_date: 0,
            },
        }
    }

    /// Clears every stored field of the compensation.
    pub fn clear(&self, sc: &mut LifeBonding)
        requires
            old(sc).inv(),
        ensures
            final(sc).inv(),
            final(sc)@ == (BondingView {
                compensation_records: old(sc)@.compensation_records.insert(
                    self.compensation_id,
                    CompensationView::empty(),
                ),
                ..old(sc)@
            }),
    {
        let rec = CompensationRecord {
            token_identifier: Vec::new(),
            nonce: 0,
            accumulated_amount: Amount::zero(),
            proof_amount: Amount::zero(),
            end_date: 0,
        };
        assert(rec@ =~= CompensationView::empty());
        sc.compensation_records.insert(self.compensation_id, rec);
        assert(sc@ =~= (BondingView {
            compensation_records: old(sc)@.compensation_records.insert(
                self.compensation_id,
                CompensationView::empty(),
            ),
            ..old(sc)@
        }));
    }

    /// Writes the cached amounts and end date back to storage; the stored
    /// token and nonce stay as they are.
    pub fn store(&self, sc: &mut LifeBonding)
        requires
            old(sc).inv(),
        ensures
            final(sc).inv(),
            final(sc)@ == (BondingView {
                compensation_records: old(sc)@.compensation_records.insert(
                    self.compensation_id,
                    self.written_over(old(sc)@.compensation_of(self.compensation_id)),
                ),
                ..old(sc)@
            }),
    {
        let (token_identifier, nonce) = match sc.compensation_records.get(&self.compensation_id) {
            Some(rec) => (copy_bytes(&rec.token_identifier), rec.nonce),
            None => (Vec::new(), 0),
        };
        let rec = CompensationRecord {
            token_identifier,
            nonce,
            accumulated_amount: self.accumulated_amount.duplicate(),
            proof_amount: self.proof_amount.duplicate(),
            end_date: self.end_date,
        };
        assert(rec@ =~= self.written_over(old(sc)@.compensation_of(self.compensation_id)));
        sc.compensation_records.insert(self.compensation_id, rec);
        assert(sc@ =~= (BondingView {
            compensation_records: old(sc)@.compensation_records.insert(
                self.compensation_id,
                self.written_over(old(sc)@.compensation_of(self.compensation_id)),
            ),
            ..old(sc)@
        }));
    }
}

} // verus!
