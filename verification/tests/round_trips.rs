use core_mx_life_bonding_sc::errors::ContractError;
use core_mx_life_bonding_sc::storage::{CallContext, LifeBonding};
use core_mx_life_bonding_sc::types::{Address, EsdtTokenPayment, EsdtTokenType, PenaltyType, State};
use core_mx_life_bonding_sc::amount::Amount;

fn amt(x: u128) -> Amount {
    Amount::from_u128(x)
}

/// The amount as a number, for comparing with expected values.
fn n(a: &Amount) -> u128 {
    a.to_le_bytes().iter().rev().fold(0u128, |acc, b| acc * 256 + *b as u128)
}

fn pairs(v: &[(u64, u128)]) -> Vec<(u64, Amount)> {
    v.iter().map(|(p, a)| (*p, amt(*a))).collect()
}


const ITHEUM: &[u8] = b"ITHEUM-fce905";
const NFT: &[u8] = b"DATANFT-12345";

fn address(n: u128) -> Address {
    Address { hi: n, lo: n }
}

struct Setup {
    sc: LifeBonding,
    owner: Address,
    minter: Address,
    user: Address,
    now: u64,
}

impl Setup {
    /// An active contract with a minter contract as accepted caller, the bond
    /// token and a lock period of 10 seconds for a bond of 100.
    fn new() -> Self {
        let mut s = Setup {
            sc: LifeBonding::init(),
            owner: address(1),
            minter: address(2),
            user: address(3),
            now: 0,
        };
        let owner = s.ctx(s.owner);
        s.sc.set_accepted_callers(&owner, &vec![s.minter]).unwrap();
        s.sc.set_bond_token(&owner, &ITHEUM.to_vec()).unwrap();
        s.sc.add_lock_periods_with_bonds(&owner, &pairs(&[(10, 100)])).unwrap();
        s.sc.set_contract_state_active(&owner).unwrap();
        s
    }

    fn ctx(&self, caller: Address) -> CallContext {
        CallContext {
            caller,
            owner: self.owner,
            block_timestamp: self.now,
            caller_is_smart_contract: caller == self.minter,
        }
    }

    fn bond(&mut self, nonce: u64) {
        let ctx = self.ctx(self.minter);
        let payments = vec![EsdtTokenPayment::new(ITHEUM.to_vec(), 0, amt(100))];
        self.sc.bond(&ctx, self.user, &NFT.to_vec(), nonce, 10, &payments).unwrap();
    }
}

#[test]
fn deactivating_undoes_activating() {
    let mut sc = LifeBonding::init();
    let owner = address(1);
    let ctx = CallContext { caller: owner, owner, block_timestamp: 0, caller_is_smart_contract: false };
    sc.set_contract_state_active(&ctx).unwrap();
    assert_eq!(sc.contract_state(), State::Active);
    sc.set_contract_state_inactive(&ctx).unwrap();
    assert_eq!(sc.contract_state(), State::Inactive);
    assert_eq!(sc.get_contract_configuration().contract_state, State::Inactive);
}

#[test]
fn removing_accepted_callers_undoes_adding_them() {
    let mut s = Setup::new();
    let owner = s.ctx(s.owner);
    let before = s.sc.accepted_callers();
    let added = vec![address(10), address(11), address(12)];
    s.sc.set_accepted_callers(&owner, &added).unwrap();
    assert_eq!(s.sc.accepted_callers(), vec![s.minter, address(10), address(11), address(12)]);
    s.sc.remove_accepted_callers(&owner, &added).unwrap();
    assert_eq!(s.sc.accepted_callers(), before);
}

#[test]
fn removing_from_blacklist_undoes_adding() {
    let mut s = Setup::new();
    s.bond(1);
    let owner = s.ctx(s.owner);
    s.sc.add_to_black_list(&owner, 1, &vec![address(20)]).unwrap();
    let before = s.sc.compensation_blacklist(1);
    let added = vec![address(21), address(22)];
    s.sc.add_to_black_list(&owner, 1, &added).unwrap();
    assert_eq!(s.sc.compensation_blacklist(1), vec![address(20), address(21), address(22)]);
    s.sc.remove_from_black_list(&owner, 1, &added).unwrap();
    assert_eq!(s.sc.compensation_blacklist(1), before);
}

#[test]
fn removing_lock_periods_undoes_adding_them() {
    let mut s = Setup::new();
    let owner = s.ctx(s.owner);
    let periods_before = s.sc.lock_periods();
    let bonds_before = lock_periods_bonds(&s.sc);
    s.sc.add_lock_periods_with_bonds(&owner, &pairs(&[(20, 200), (30, 300)])).unwrap();
    assert_eq!(s.sc.lock_periods(), vec![10, 20, 30]);
    assert_eq!(n(&s.sc.lock_period_bond_amount(30)), 300);
    s.sc.remove_lock_periods_with_bonds(&owner, &vec![20, 30]).unwrap();
    assert_eq!(s.sc.lock_periods(), periods_before);
    assert_eq!(lock_periods_bonds(&s.sc), bonds_before);
    assert_eq!(n(&s.sc.lock_period_bond_amount(20)), 0);
}

#[test]
fn early_withdrawal_leaves_the_penalty_behind() {
    let mut s = Setup::new();
    s.now = 5;
    s.bond(1);
    s.now = 15;
    let paid = s.sc.withdraw(&s.ctx(s.user), &NFT.to_vec(), 1).unwrap();
    // 80% of 100 stays in the compensation
    assert_eq!(n(&paid.amount), 20);
    assert_eq!(n(&paid.amount) + n(&s.sc.get_compensation(1).accumulated_amount), 100);
    assert_eq!(s.sc.bonds_ids.get_id(&NFT.to_vec(), 1), 0);
    assert_eq!(s.sc.get_bonds_len(), 0);
    assert!(s.sc.get_address_bonds(s.user).is_empty());
}

#[test]
fn late_withdrawal_pays_the_whole_bond() {
    let mut s = Setup::new();
    s.now = 5;
    s.bond(1);
    s.now = 16;
    let paid = s.sc.withdraw(&s.ctx(s.user), &NFT.to_vec(), 1).unwrap();
    assert_eq!(n(&paid.amount), 100);
    assert_eq!(n(&s.sc.get_compensation(1).accumulated_amount), 0);
    assert_eq!(s.sc.get_bonds_len(), 0);
}

#[test]
fn full_withdraw_penalty_pays_nothing() {
    let mut s = Setup::new();
    let owner = s.ctx(s.owner);
    s.sc.set_withdraw_penalty(&owner, 10_000).unwrap();
    s.bond(1);
    let paid = s.sc.withdraw(&s.ctx(s.user), &NFT.to_vec(), 1).unwrap();
    assert_eq!(n(&paid.amount), 0);
    assert_eq!(n(&s.sc.get_compensation(1).accumulated_amount), 100);
}

#[test]
fn sanction_moves_value_into_the_compensation() {
    let mut s = Setup::new();
    s.bond(1);
    let owner = s.ctx(s.owner);
    s.sc.sanction(&owner, &NFT.to_vec(), 1, PenaltyType::Custom, Some(2_500)).unwrap();
    let bond = s.sc.get_bond(1);
    let compensation = s.sc.get_compensation(1);
    assert_eq!(n(&bond.remaining_amount), 75);
    assert_eq!(n(&compensation.accumulated_amount), 25);
    assert_eq!(n(&bond.remaining_amount) + n(&compensation.accumulated_amount), 100);
    assert_eq!(n(&s.sc.total_bond_amount()), 75);
}

#[test]
fn a_refund_is_claimed_once() {
    let mut s = Setup::new();
    s.bond(1);
    let owner = s.ctx(s.owner);
    s.sc.sanction(&owner, &NFT.to_vec(), 1, PenaltyType::Maximum, None).unwrap();
    s.sc.initiate_refund(&owner, &NFT.to_vec(), 1, 12).unwrap();
    s.now = 12;
    let proof = vec![EsdtTokenPayment::new(NFT.to_vec(), 1, amt(2))];
    s.sc.add_proof(&s.ctx(address(30)), &proof, EsdtTokenType::NonFungible).unwrap();
    let proof = vec![EsdtTokenPayment::new(NFT.to_vec(), 1, amt(3))];
    s.sc.add_proof(&s.ctx(address(31)), &proof, EsdtTokenType::NonFungible).unwrap();
    s.now = 12 + core_mx_life_bonding_sc::storage::COMPENSATION_SAFE_PERIOD;

    let sent = s.sc.claim_refund(&s.ctx(address(30)), &NFT.to_vec(), 1).unwrap();
    assert_eq!(n(&sent[1].amount), 40);
    assert_eq!(n(&s.sc.get_compensation(1).accumulated_amount), 60);
    assert_eq!(n(&s.sc.get_compensation(1).proof_amount), 3);
    let again = s.sc.claim_refund(&s.ctx(address(30)), &NFT.to_vec(), 1);
    assert_eq!(again.unwrap_err(), ContractError::RefundNotFound);

    // the last claim empties the compensation, which closes
    let sent = s.sc.claim_refund(&s.ctx(address(31)), &NFT.to_vec(), 1).unwrap();
    assert_eq!(n(&sent[1].amount), 60);
    let again = s.sc.claim_refund(&s.ctx(address(31)), &NFT.to_vec(), 1);
    assert_eq!(again.unwrap_err(), ContractError::UnknownObject);
}

#[test]
fn total_bonded_is_the_sum_of_remaining_amounts() {
    let mut s = Setup::new();
    let owner = s.ctx(s.owner);
    let sum = |s: &Setup| s.sc.get_all_bonds().iter().map(|b| n(&b.remaining_amount)).sum::<u128>();
    s.bond(1);
    s.bond(2);
    s.bond(3);
    assert_eq!(n(&s.sc.total_bond_amount()), 300);
    s.sc.sanction(&owner, &NFT.to_vec(), 2, PenaltyType::Minimum, None).unwrap();
    assert_eq!(n(&s.sc.total_bond_amount()), 295);
    assert_eq!(n(&s.sc.total_bond_amount()), sum(&s));
    s.sc.withdraw(&s.ctx(s.user), &NFT.to_vec(), 1).unwrap();
    assert_eq!(n(&s.sc.total_bond_amount()), 195);
    assert_eq!(n(&s.sc.total_bond_amount()), sum(&s));
    s.now = 20;
    s.sc.renew(&s.ctx(s.user), &NFT.to_vec(), 3).unwrap();
    s.sc.modify_bond(&owner, &NFT.to_vec(), 2).unwrap();
    assert_eq!(n(&s.sc.total_bond_amount()), sum(&s));
    s.sc.withdraw(&s.ctx(s.user), &NFT.to_vec(), 2).unwrap();
    assert_eq!(n(&s.sc.total_bond_amount()), 100);
    assert_eq!(n(&s.sc.total_bond_amount()), sum(&s));
}

#[test]
fn configuration_needs_privilege() {
    let mut s = Setup::new();
    s.bond(1);
    let stranger = s.ctx(address(40));
    let nft = NFT.to_vec();
    let refused = |r: Result<(), ContractError>| assert_eq!(r, Err(ContractError::NotPrivileged));
    refused(s.sc.set_contract_state_inactive(&stranger));
    refused(s.sc.set_maximum_penalty(&stranger, 100));
    refused(s.sc.set_bond_token(&stranger, &ITHEUM.to_vec()));
    refused(s.sc.set_accepted_callers(&stranger, &vec![address(40)]));
    refused(s.sc.add_lock_periods_with_bonds(&stranger, &pairs(&[(20, 1)])));
    refused(s.sc.add_to_black_list(&stranger, 1, &vec![address(41)]));
    refused(s.sc.initiate_refund(&stranger, &nft, 1, 100));
    refused(s.sc.modify_bond(&stranger, &nft, 1));
    refused(s.sc.sanction(&stranger, &nft, 1, PenaltyType::Maximum, None));
    assert_eq!(s.sc.set_administrator(&stranger, address(40)), Err(ContractError::OnlyOwner));
    assert_eq!(s.sc.contract_state(), State::Active);
    assert_eq!(n(&s.sc.get_bond(1).remaining_amount), 100);
}

#[test]
fn unset_administrator_matches_no_caller() {
    let mut sc = LifeBonding::init();
    let zero = Address { hi: 0, lo: 0 };
    let ctx = CallContext { caller: zero, owner: address(1), block_timestamp: 0, caller_is_smart_contract: false };
    assert!(!sc.is_admin(&zero));
    assert_eq!(sc.set_contract_state_active(&ctx), Err(ContractError::NotPrivileged));
    let owner = CallContext { caller: address(1), ..ctx };
    sc.set_administrator(&owner, address(2)).unwrap();
    assert!(sc.is_admin(&address(2)));
    assert!(!sc.is_admin(&zero));
}

fn lock_periods_bonds(sc: &LifeBonding) -> (Vec<u64>, Vec<u128>) {
    let (periods, amounts) = sc.get_lock_periods_bonds();
    (periods, amounts.iter().map(n).collect())
}
