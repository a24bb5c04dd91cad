use core_mx_life_bonding_sc::types::{EsdtTokenType, PenaltyType};
use core_mx_life_bonding_sc::views::{Bond, Compensation};
use core_mx_life_bonding_sc::errors::ContractError;
use core_mx_life_bonding_sc::storage::{CallContext, LifeBonding};
use core_mx_life_bonding_sc::types::{Address, EsdtTokenPayment};
use core_mx_life_bonding_sc::amount::Amount;

fn amt(x: u128) -> Amount {
    Amount::from_u128(x)
}

/// The amount as a number, for comparing with expected values.
fn n(a: &Amount) -> u128 {
    a.to_le_bytes().iter().rev().fold(0u128, |acc, b| acc * 256 + *b as u128)
}

fn pairs(v: &[(u64, u128)]) -> Vec<(u64, Amount)> {
    v.iter().map(|(p, a)| (*p, amt(*a))).collect()
}


const ITHEUM_TOKEN_IDENTIFIER: &[u8] = b"ITHEUM-fce905";
const DATA_NFT_IDENTIFIER: &[u8] = b"DATANFT-12345";

/// A user address in the style of `address:name`.
fn user(name: &str) -> Address {
    let mut bytes = [b'_'; 32];
    bytes[..name.len()].copy_from_slice(name.as_bytes());
    to_address(bytes)
}

/// A contract address in the style of `sc:name`: eight leading zero bytes.
fn contract(name: &str) -> Address {
    let mut bytes = [b'_'; 32];
    bytes[..8].copy_from_slice(&[0u8; 8]);
    bytes[8..8 + name.len()].copy_from_slice(name.as_bytes());
    to_address(bytes)
}

fn to_address(bytes: [u8; 32]) -> Address {
    let mut hi = [0u8; 16];
    let mut lo = [0u8; 16];
    hi.copy_from_slice(&bytes[..16]);
    lo.copy_from_slice(&bytes[16..]);
    Address { hi: u128::from_be_bytes(hi), lo: u128::from_be_bytes(lo) }
}

fn expect_error<T: std::fmt::Debug>(r: Result<T, ContractError>, message: &str) {
    match r {
        Ok(v) => panic!("expected `{}`, got Ok({:?})", message, v),
        Err(e) => assert_eq!(e.message(), message),
    }
}

struct World {
    sc: LifeBonding,
    owner: Address,
    admin: Address,
    first_user: Address,
    second_user: Address,
    third_user: Address,
    minter: Address,
    now: u64,
}

impl World {
    fn new() -> Self {
        World {
            sc: LifeBonding::init(),
            owner: user("owner"),
            admin: user("admin"),
            first_user: user("first_user"),
            second_user: user("second_user"),
            third_user: user("third_user"),
            minter: contract("minter"),
            now: 0,
        }
    }

    fn ctx(&self, caller: Address) -> CallContext {
        CallContext {
            caller,
            owner: self.owner,
            block_timestamp: self.now,
            caller_is_smart_contract: caller == self.minter,
        }
    }

    /// Deploys with an administrator (also an accepted caller), the bond
    /// token and one lock period with its bond amount.
    fn default_deploy_and_set(&mut self, lock_period: u64, bond_amount: u128) {
        let owner = self.ctx(self.owner);
        self.sc.set_administrator(&owner, self.admin).unwrap();
        self.sc.set_accepted_callers(&owner, &vec![self.admin]).unwrap();
        self.sc.set_bond_token(&owner, &ITHEUM_TOKEN_IDENTIFIER.to_vec()).unwrap();
        self.sc.add_lock_periods_with_bonds(&owner, &pairs(&[(lock_period, bond_amount)])).unwrap();
    }

    fn bond(
        &mut self,
        caller: Address,
        original_caller: Address,
        nonce: u64,
        lock_period: u64,
        payment: (&[u8], u64, u128),
    ) -> Result<(), ContractError> {
        let ctx = self.ctx(caller);
        let payments = vec![EsdtTokenPayment::new(payment.0.to_vec(), payment.1, amt(payment.2))];
        self.sc.bond(&ctx, original_caller, &DATA_NFT_IDENTIFIER.to_vec(), nonce, lock_period, &payments)
    }
}

const ANOTHER_TOKEN_IDENTIFIER: &[u8] = b"ANOTHER-123456";

fn bond_fields(b: &Bond) -> (u64, Address, Vec<u8>, u64, u64, u64, u64, u128, u128) {
    (
        b.bond_id,
        b.address,
        b.token_identifier.clone(),
        b.nonce,
        b.lock_period,
        b.bond_timestamp,
        b.unbond_timestamp,
        n(&b.bond_amount),
        n(&b.remaining_amount),
    )
}

fn compensation_fields(c: &Compensation) -> (u64, Vec<u8>, u64, u128, u128, u64) {
    (c.compensation_id, c.token_identifier.clone(), c.nonce, n(&c.accumulated_amount), n(&c.proof_amount), c.end_date)
}

/// The standard setup of the endpoint tests: a minter contract is the only accepted caller.
fn minter_world() -> World {
    let mut w = World::new();
    w.default_deploy_and_set(10, 100);
    let owner = w.ctx(w.owner);
    w.sc.remove_accepted_callers(&owner, &vec![w.admin]).unwrap();
    w.sc.set_accepted_callers(&owner, &vec![w.minter]).unwrap();
    w
}

#[test]
fn bond() {
    let mut w = minter_world();
    let first_user = w.first_user;
    let minter = w.minter;
    w.sc.set_contract_state_active(&w.ctx(w.admin)).unwrap();

    expect_error(
        w.bond(minter, first_user, 1, 10, (ANOTHER_TOKEN_IDENTIFIER, 0, 100)),
        "Invalid token identifier",
    );
    expect_error(w.bond(minter, first_user, 1, 11, (ITHEUM_TOKEN_IDENTIFIER, 0, 50)), "Invalid lock period");
    expect_error(w.bond(minter, first_user, 1, 10, (ITHEUM_TOKEN_IDENTIFIER, 0, 50)), "Invalid amount");
    w.bond(minter, first_user, 1, 10, (ITHEUM_TOKEN_IDENTIFIER, 0, 100)).unwrap();

    let expected_bond = (1, first_user, DATA_NFT_IDENTIFIER.to_vec(), 1, 10, 0, 10, 100, 100);
    let expected_compensation = (1, DATA_NFT_IDENTIFIER.to_vec(), 1, 0, 0, 0);
    assert_eq!(compensation_fields(&w.sc.get_compensation(1)), expected_compensation);
    assert_eq!(bond_fields(&w.sc.get_bond(1)), expected_bond);

    let address_bonds: Vec<_> = w.sc.get_address_bonds(first_user).iter().map(bond_fields).collect();
    assert_eq!(address_bonds, vec![expected_bond.clone()]);
    let paged: Vec<_> = w.sc.get_paged_bonds(0, 1).unwrap().iter().map(bond_fields).collect();
    assert_eq!(paged, vec![expected_bond.clone()]);
    assert_eq!(w.sc.get_bonds_len(), 1);
    let by_id: Vec<_> = w.sc.get_bonds(&vec![1]).iter().map(bond_fields).collect();
    assert_eq!(by_id, vec![expected_bond.clone()]);

    let tokens = vec![(DATA_NFT_IDENTIFIER.to_vec(), 1u64), (DATA_NFT_IDENTIFIER.to_vec(), 2u64)];
    let by_token: Vec<_> =
        w.sc.get_bonds_by_token_identifier_nonce(&tokens).iter().map(bond_fields).collect();
    assert_eq!(by_token, vec![expected_bond.clone()]);
    let compensations: Vec<_> = w.sc.get_compensations(&tokens).iter().map(compensation_fields).collect();
    assert_eq!(compensations, vec![expected_compensation.clone()]);
    let paged_compensations: Vec<_> =
        w.sc.get_paged_compensations(0, 1).unwrap().iter().map(compensation_fields).collect();
    assert_eq!(paged_compensations, vec![expected_compensation.clone()]);

    let (periods, amounts) = w.sc.get_lock_periods_bonds();
    assert_eq!((periods, amounts.iter().map(n).collect::<Vec<_>>()), (vec![10], vec![100]));
}

#[test]
fn renew() {
    let mut w = minter_world();
    let first_user = w.first_user;
    let minter = w.minter;
    let nft = DATA_NFT_IDENTIFIER.to_vec();

    expect_error(w.sc.renew(&w.ctx(first_user), &nft, 1), "Contract not ready");
    w.sc.set_contract_state_active(&w.ctx(w.owner)).unwrap();
    expect_error(w.sc.renew(&w.ctx(first_user), &nft, 1), "Unknown object");

    w.bond(minter, first_user, 1, 10, (ITHEUM_TOKEN_IDENTIFIER, 0, 100)).unwrap();
    expect_error(w.sc.renew(&w.ctx(w.second_user), &nft, 1), "Bond not found");

    w.now = 2;
    w.sc.renew(&w.ctx(first_user), &nft, 1).unwrap();
    assert_eq!(bond_fields(&w.sc.get_bond(1)), (1, first_user, nft.clone(), 1, 10, 2, 12, 100, 100));
}

#[test]
fn withdraw_with_withdraw_penalty_test() {
    let mut w = minter_world();
    let first_user = w.first_user;
    let minter = w.minter;
    let nft = DATA_NFT_IDENTIFIER.to_vec();

    expect_error(w.sc.withdraw(&w.ctx(first_user), &nft, 1), "Contract not ready");
    w.sc.set_contract_state_active(&w.ctx(w.owner)).unwrap();
    expect_error(w.sc.withdraw(&w.ctx(first_user), &nft, 1), "Unknown object");

    w.bond(minter, first_user, 1, 10, (ITHEUM_TOKEN_IDENTIFIER, 0, 100)).unwrap();
    expect_error(w.sc.withdraw(&w.ctx(w.second_user), &nft, 1), "Bond not found");

    let paid = w.sc.withdraw(&w.ctx(first_user), &nft, 1).unwrap();
    assert_eq!(paid.token_identifier, ITHEUM_TOKEN_IDENTIFIER.to_vec());
    assert_eq!(paid.token_nonce, 0);
    assert_eq!(n(&paid.amount), 20);

    assert!(w.sc.get_all_bonds().is_empty());
    assert_eq!(
        compensation_fields(&w.sc.get_compensation(1)),
        (1, nft.clone(), 1, 80, 0, 0),
    );
}

#[test]
fn withdraw_with_no_penalty_test() {
    let mut w = minter_world();
    let first_user = w.first_user;
    let minter = w.minter;
    let nft = DATA_NFT_IDENTIFIER.to_vec();
    w.sc.set_contract_state_active(&w.ctx(w.owner)).unwrap();

    w.bond(minter, first_user, 1, 10, (ITHEUM_TOKEN_IDENTIFIER, 0, 100)).unwrap();
    w.now = 11;
    let paid = w.sc.withdraw(&w.ctx(first_user), &nft, 1).unwrap();
    assert_eq!(n(&paid.amount), 100);

    assert!(w.sc.get_all_bonds().is_empty());
    assert!(w.sc.get_paged_compensations(1, 1).unwrap().is_empty());
}

#[test]
fn withdraw_after_penalty_was_enforced_test() {
    let mut w = minter_world();
    let (first, second, minter) = (w.first_user, w.second_user, w.minter);
    let nft = DATA_NFT_IDENTIFIER.to_vec();
    w.sc.set_contract_state_active(&w.ctx(w.owner)).unwrap();

    w.bond(minter, first, 1, 10, (ITHEUM_TOKEN_IDENTIFIER, 0, 100)).unwrap();
    w.sc.sanction(&w.ctx(w.owner), &nft, 1, PenaltyType::Custom, Some(3_000)).unwrap();
    // 80 of withdraw penalty exceed the 70 left of the bond
    expect_error(w.sc.withdraw(&w.ctx(first), &nft, 1), "Penalties exceed withdrawal amount");

    w.bond(minter, second, 2, 10, (ITHEUM_TOKEN_IDENTIFIER, 0, 100)).unwrap();
    w.sc.sanction(&w.ctx(w.owner), &nft, 2, PenaltyType::Minimum, None).unwrap();

    w.now = 11;
    // 5% penalty
    assert_eq!(w.sc.withdraw(&w.ctx(second), &nft, 2).unwrap().amount.to_le_bytes(), amt(95).to_le_bytes());
    let held = |w: &World| {
        n(&w.sc.total_bond_amount()) + n(&w.sc.get_compensation(1).accumulated_amount)
            + n(&w.sc.get_compensation(2).accumulated_amount)
    };
    assert_eq!(held(&w), 105);

    // after unbond period: 30% penalty
    assert_eq!(w.sc.withdraw(&w.ctx(first), &nft, 1).unwrap().amount.to_le_bytes(), amt(70).to_le_bytes());
    // 30% first user penalty + 5% second user penalty
    assert_eq!(held(&w), 35);
    assert_eq!(n(&w.sc.total_bond_amount()), 0);
}

#[test]
fn early_withdrawal_after_sanction_pays_from_remaining() {
    let mut w = minter_world();
    let minter = w.minter;
    let nft = DATA_NFT_IDENTIFIER.to_vec();
    w.sc.set_contract_state_active(&w.ctx(w.owner)).unwrap();
    w.sc.set_withdraw_penalty(&w.ctx(w.owner), 1_000).unwrap();
    w.bond(minter, w.first_user, 1, 10, (ITHEUM_TOKEN_IDENTIFIER, 0, 100)).unwrap();
    w.sc.sanction(&w.ctx(w.admin), &nft, 1, PenaltyType::Custom, Some(5_000)).unwrap();
    // 50 remain; an early withdrawal leaves 10% of the bond amount behind
    assert_eq!(w.sc.withdraw(&w.ctx(w.first_user), &nft, 1).unwrap().amount.to_le_bytes(), amt(40).to_le_bytes());
    assert_eq!(n(&w.sc.get_compensation(1).accumulated_amount), 60);
    // the identifier is released, the compensation stays
    assert_eq!(w.sc.bonds_ids.get_id(&nft, 1), 0);
    assert_eq!(w.sc.compensations_ids.get_id(&nft, 1), 1);
    // the same NFT cannot be bonded again while its compensation is open
    expect_error(w.bond(minter, w.first_user, 1, 10, (ITHEUM_TOKEN_IDENTIFIER, 0, 100)), "Object already registered");
}

#[test]
fn bond_refused_for_unaccepted_callers() {
    let mut w = minter_world();
    let first_user = w.first_user;
    w.sc.set_contract_state_active(&w.ctx(w.owner)).unwrap();
    expect_error(
        w.bond(first_user, first_user, 1, 10, (ITHEUM_TOKEN_IDENTIFIER, 0, 100)),
        "Endpoint callable only by accepted callers",
    );
    let ctx = w.ctx(w.minter);
    expect_error(
        w.sc.bond(&ctx, first_user, &DATA_NFT_IDENTIFIER.to_vec(), 1, 10, &vec![]),
        "incorrect number of ESDT transfers",
    );
    w.bond(w.minter, first_user, 1, 10, (ITHEUM_TOKEN_IDENTIFIER, 0, 100)).unwrap();
    expect_error(
        w.bond(w.minter, first_user, 1, 10, (ITHEUM_TOKEN_IDENTIFIER, 0, 100)),
        "Bond already created",
    );
    assert_eq!(n(&w.sc.total_bond_amount()), 100);
}

/// Sets up a compensation of 100 after a maximum sanction, with its proof window ended at 12.
fn compensation_world() -> World {
    let mut w = minter_world();
    let minter = w.minter;
    let nft = DATA_NFT_IDENTIFIER.to_vec();
    w.sc.set_contract_state_active(&w.ctx(w.owner)).unwrap();
    w.bond(minter, w.first_user, 1, 10, (ITHEUM_TOKEN_IDENTIFIER, 0, 100)).unwrap();
    w.sc.sanction(&w.ctx(w.admin), &nft, 1, PenaltyType::Maximum, None).unwrap();
    w.sc.initiate_refund(&w.ctx(w.admin), &nft, 1, 12).unwrap();
    w
}

fn prove(w: &mut World, caller: Address, amount: u128) -> Result<(), core_mx_life_bonding_sc::errors::ContractError> {
    let ctx = w.ctx(caller);
    let payments = vec![EsdtTokenPayment::new(DATA_NFT_IDENTIFIER.to_vec(), 1, amt(amount))];
    w.sc.add_proof(&ctx, &payments, EsdtTokenType::NonFungible)
}

#[test]
fn proof_test() {
    let mut w = minter_world();
    let first = w.first_user;
    let minter = w.minter;
    let nft = DATA_NFT_IDENTIFIER.to_vec();

    expect_error(prove(&mut w, first, 2), "Contract not ready");
    w.sc.set_contract_state_active(&w.ctx(w.owner)).unwrap();
    expect_error(prove(&mut w, first, 2), "Unknown object");

    w.bond(minter, first, 1, 10, (ITHEUM_TOKEN_IDENTIFIER, 0, 100)).unwrap();
    expect_error(prove(&mut w, first, 2), "Invalid timeline to proof");

    w.sc.sanction(&w.ctx(w.admin), &nft, 1, PenaltyType::Maximum, None).unwrap();
    expect_error(prove(&mut w, first, 2), "Invalid timeline to proof");

    w.sc.initiate_refund(&w.ctx(w.admin), &nft, 1, 12).unwrap();
    w.now = 13;
    expect_error(prove(&mut w, first, 2), "Invalid timeline to proof");
    w.now = 12;
    prove(&mut w, first, 2).unwrap();

    let (compensation, refund) = w.sc.get_address_refund_for_compensation(first, &nft, 1).unwrap();
    assert_eq!(compensation_fields(&compensation), (1, nft.clone(), 1, 100, 2, 12));
    let refund = refund.unwrap();
    assert_eq!(refund.address, first);
    assert_eq!(
        (refund.proof_of_refund.token_identifier.clone(), n(&refund.proof_of_refund.amount), refund.proof_of_refund.token_nonce),
        (nft.clone(), 2, 1),
    );
    assert_eq!(refund.compensation_id, 1);
}

#[test]
fn claim_refund_without_blacklist_test() {
    let mut w = minter_world();
    let (first, second, third, minter) = (w.first_user, w.second_user, w.third_user, w.minter);
    let nft = DATA_NFT_IDENTIFIER.to_vec();

    expect_error(w.sc.claim_refund(&w.ctx(first), &nft, 1), "Contract not ready");
    w.sc.set_contract_state_active(&w.ctx(w.owner)).unwrap();
    expect_error(w.sc.claim_refund(&w.ctx(first), &nft, 1), "Unknown object");

    w.bond(minter, first, 1, 10, (ITHEUM_TOKEN_IDENTIFIER, 0, 100)).unwrap();
    w.sc.sanction(&w.ctx(w.admin), &nft, 1, PenaltyType::Maximum, None).unwrap();
    w.sc.initiate_refund(&w.ctx(w.admin), &nft, 1, 12).unwrap();

    w.now = 12;
    prove(&mut w, first, 2).unwrap();
    prove(&mut w, second, 2).unwrap();

    w.now = 13;
    expect_error(w.sc.claim_refund(&w.ctx(first), &nft, 1), "Invalid timeline to refund");

    w.now = 13 + COMPENSATION_SAFE_PERIOD_FOR_TESTS;
    expect_error(w.sc.claim_refund(&w.ctx(third), &nft, 1), "Refund not found");
    let sent = w.sc.claim_refund(&w.ctx(first), &nft, 1).unwrap();
    assert_eq!(compensation_fields(&w.sc.get_compensation(1)), (1, nft.clone(), 1, 50, 2, 12));
    // the first user gets its 2 NFTs back and 50 of the bond token
    assert_eq!(sent.len(), 2);
    assert_eq!((sent[0].token_identifier.clone(), sent[0].token_nonce, n(&sent[0].amount)), (nft.clone(), 1, 2));
    assert_eq!(
        (sent[1].token_identifier.clone(), sent[1].token_nonce, n(&sent[1].amount)),
        (ITHEUM_TOKEN_IDENTIFIER.to_vec(), 0, 50),
    );

    let sent = w.sc.claim_refund(&w.ctx(second), &nft, 1).unwrap();
    assert_eq!((sent[0].token_nonce, n(&sent[0].amount)), (1, 2));
    assert_eq!(n(&sent[1].amount), 50);
    // nothing is left in the compensation
    assert_eq!(compensation_fields(&w.sc.get_compensation(1)).3, 0);
    assert_eq!(compensation_fields(&w.sc.get_compensation(1)).4, 0);
}

#[test]
fn claim_refund_with_blacklist_test() {
    let mut w = minter_world();
    let (first, second, third, minter) = (w.first_user, w.second_user, w.third_user, w.minter);
    let nft = DATA_NFT_IDENTIFIER.to_vec();

    expect_error(w.sc.claim_refund(&w.ctx(first), &nft, 1), "Contract not ready");
    w.sc.set_contract_state_active(&w.ctx(w.owner)).unwrap();

    w.bond(minter, first, 1, 10, (ITHEUM_TOKEN_IDENTIFIER, 0, 100)).unwrap();
    w.sc.sanction(&w.ctx(w.admin), &nft, 1, PenaltyType::Maximum, None).unwrap();
    w.sc.initiate_refund(&w.ctx(w.admin), &nft, 1, 12).unwrap();

    w.now = 12;
    prove(&mut w, first, 2).unwrap();
    prove(&mut w, second, 2).unwrap();
    prove(&mut w, third, 2).unwrap();

    // entering the safe period
    w.now = 13;
    w.sc.add_to_black_list(&w.ctx(w.admin), 1, &vec![first]).unwrap();
    w.sc.add_to_black_list(&w.ctx(w.admin), 1, &vec![third]).unwrap();
    assert_eq!(compensation_fields(&w.sc.get_compensation(1)), (1, nft.clone(), 1, 100, 6, 12));

    w.now = 13 + COMPENSATION_SAFE_PERIOD_FOR_TESTS;
    // the blacklisted first user only gets its NFTs back
    let sent = w.sc.claim_refund(&w.ctx(first), &nft, 1).unwrap();
    assert_eq!(sent.len(), 1);
    assert_eq!((sent[0].token_identifier.clone(), sent[0].token_nonce, n(&sent[0].amount)), (nft.clone(), 1, 2));
    assert_eq!(compensation_fields(&w.sc.get_compensation(1)), (1, nft.clone(), 1, 100, 4, 12));

    // the second user gets all the funds
    let sent = w.sc.claim_refund(&w.ctx(second), &nft, 1).unwrap();
    assert_eq!((sent[0].token_nonce, n(&sent[0].amount)), (1, 2));
    assert_eq!(n(&sent[1].amount), 100);
    assert_eq!(compensation_fields(&w.sc.get_compensation(1)), (1, nft.clone(), 1, 0, 2, 12));

    let sent = w.sc.claim_refund(&w.ctx(third), &nft, 1).unwrap();
    assert_eq!(sent.len(), 1);
    assert_eq!((sent[0].token_nonce, n(&sent[0].amount)), (1, 2));
}

const COMPENSATION_SAFE_PERIOD_FOR_TESTS: u64 = core_mx_life_bonding_sc::storage::COMPENSATION_SAFE_PERIOD;

#[test]
fn proofs_and_refund_views() {
    let mut w = compensation_world();
    let nft = DATA_NFT_IDENTIFIER.to_vec();
    let (first, second) = (w.first_user, w.second_user);
    w.now = 12;
    let ctx = w.ctx(first);
    let bad = vec![EsdtTokenPayment::new(nft.clone(), 1, amt(2))];
    expect_error(w.sc.add_proof(&ctx, &bad, EsdtTokenType::Fungible), "Invalid payment");
    let unknown = vec![EsdtTokenPayment::new(nft.clone(), 7, amt(2))];
    expect_error(w.sc.add_proof(&ctx, &unknown, EsdtTokenType::NonFungible), "Unknown object");
    expect_error(w.sc.add_proof(&ctx, &vec![], EsdtTokenType::NonFungible), "incorrect number of ESDT transfers");
    prove(&mut w, first, 2).unwrap();
    prove(&mut w, second, 3).unwrap();
    assert_eq!(w.sc.get_address_refund_for_compensations(second, &vec![1, 2]).len(), 1);
    let (compensation, refund) = w.sc.get_address_refund_for_compensation(w.third_user, &nft, 1).unwrap();
    assert_eq!(compensation.compensation_id, 1);
    assert!(refund.is_none());
    assert!(w.sc.get_address_refund_for_compensation(first, &nft, 2).is_none());
}

#[test]
fn claims_open_when_the_safe_period_ends() {
    let mut w = compensation_world();
    let nft = DATA_NFT_IDENTIFIER.to_vec();
    let (first, second) = (w.first_user, w.second_user);
    w.now = 12;
    prove(&mut w, first, 2).unwrap();
    prove(&mut w, second, 2).unwrap();
    w.now = 11 + COMPENSATION_SAFE_PERIOD_FOR_TESTS;
    expect_error(w.sc.claim_refund(&w.ctx(first), &nft, 1), "Invalid timeline to refund");
    w.now = 12 + COMPENSATION_SAFE_PERIOD_FOR_TESTS;
    assert_eq!(w.sc.claim_refund(&w.ctx(first), &nft, 1).unwrap()[1].amount.to_le_bytes(), amt(50).to_le_bytes());
    assert!(w.sc.get_address_refund_for_compensation(first, &nft, 1).unwrap().1.is_none());
    expect_error(w.sc.claim_refund(&w.ctx(first), &nft, 1), "Refund not found");
    assert_eq!(w.sc.claim_refund(&w.ctx(second), &nft, 1).unwrap()[1].amount.to_le_bytes(), amt(50).to_le_bytes());
    // the emptied compensation is closed; only its end date stays stored
    assert_eq!(w.sc.get_compensations_len(), 0);
    assert_eq!(w.sc.compensations_ids.get_id(&nft, 1), 0);
    assert_eq!(compensation_fields(&w.sc.get_compensation(1)), (1, vec![], 0, 0, 0, 12));
    expect_error(w.sc.claim_refund(&w.ctx(first), &nft, 1), "Unknown object");
}

#[test]
fn avg_score_and_total_value() {
    let mut w = minter_world();
    let minter = w.minter;
    let first = w.first_user;
    w.sc.set_contract_state_active(&w.ctx(w.owner)).unwrap();
    assert_eq!(w.sc.get_address_bonds_avg_score(0, first).map(|a| n(&a)), Ok(0));
    w.bond(minter, first, 1, 10, (ITHEUM_TOKEN_IDENTIFIER, 0, 100)).unwrap();
    w.bond(minter, first, 2, 10, (ITHEUM_TOKEN_IDENTIFIER, 0, 100)).unwrap();
    assert_eq!(n(&w.sc.get_address_bonds_total_value(first)), 200);
    // at time 5 each bond has 5 of its 10 seconds left: (10^13 / 10) * 5 / 10^9 = 5000
    assert_eq!(w.sc.get_address_bonds_avg_score(5, first).map(|a| n(&a)), Ok(5_000));
    // at time 0 each bond has its whole lock period left
    assert_eq!(w.sc.get_address_bonds_avg_score(0, first).map(|a| n(&a)), Ok(10_000));
    // once every bond has unbonded there is nothing to average over
    expect_error(w.sc.get_address_bonds_avg_score(10, first), "division by zero");
}

#[test]
fn paging_refuses_reversed_bounds() {
    let w = minter_world();
    expect_error(w.sc.get_paged_bonds(2, 1), "arithmetic overflow");
    expect_error(w.sc.get_paged_compensations(0, u64::MAX), "arithmetic overflow");
    assert!(w.sc.get_paged_bonds(5, 9).unwrap().is_empty());
}

#[test]
fn initiate_bond_for_address_attaches_bond() {
    let mut w = minter_world();
    let nft = DATA_NFT_IDENTIFIER.to_vec();
    let second = w.second_user;
    expect_error(w.sc.initiate_bond_for_address(&w.ctx(second), second, &nft, 5), "Not privileged");
    w.sc.initiate_bond_for_address(&w.ctx(w.admin), second, &nft, 5).unwrap();
    assert_eq!(w.sc.bonds_ids.get_id(&nft, 5), 1);
    let bonds = w.sc.get_address_bonds(second);
    assert_eq!(bonds.len(), 1);
    assert_eq!(bonds[0].bond_id, 1);
    // a second call reuses the identifier
    w.sc.initiate_bond_for_address(&w.ctx(w.admin), second, &nft, 5).unwrap();
    assert_eq!(w.sc.get_address_bonds(second).len(), 1);
}
