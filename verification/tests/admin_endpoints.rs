use core_mx_life_bonding_sc::types::{PenaltyType, State};
use core_mx_life_bonding_sc::errors::ContractError;
use core_mx_life_bonding_sc::storage::{CallContext, LifeBonding};
use core_mx_life_bonding_sc::types::{Address, EsdtTokenPayment};
use core_mx_life_bonding_sc::amount::Amount;

fn amt(x: u128) -> Amount {
    Amount::from_u128(x)
}

/// The amount as a number, for comparing with expected values.
fn n(a: &Amount) -> u128 {
    a.to_le_bytes().iter().rev().fold(0u128, |acc, b| acc * 256 + *b as u128)
}

fn pairs(v: &[(u64, u128)]) -> Vec<(u64, Amount)> {
    v.iter().map(|(p, a)| (*p, amt(*a))).collect()
}


const ITHEUM_TOKEN_IDENTIFIER: &[u8] = b"ITHEUM-fce905";
const DATA_NFT_IDENTIFIER: &[u8] = b"DATANFT-12345";

/// A user address in the style of `address:name`.
fn user(name: &str) -> Address {
    let mut bytes = [b'_'; 32];
    bytes[..name.len()].copy_from_slice(name.as_bytes());
    to_address(bytes)
}

/// A contract address in the style of `sc:name`: eight leading zero bytes.
fn contract(name: &str) -> Address {
    let mut bytes = [b'_'; 32];
    bytes[..8].copy_from_slice(&[0u8; 8]);
    bytes[8..8 + name.len()].copy_from_slice(name.as_bytes());
    to_address(bytes)
}

fn to_address(bytes: [u8; 32]) -> Address {
    let mut hi = [0u8; 16];
    let mut lo = [0u8; 16];
    hi.copy_from_slice(&bytes[..16]);
    lo.copy_from_slice(&bytes[16..]);
    Address { hi: u128::from_be_bytes(hi), lo: u128::from_be_bytes(lo) }
}

fn expect_error<T: std::fmt::Debug>(r: Result<T, ContractError>, message: &str) {
    match r {
        Ok(v) => panic!("expected `{}`, got Ok({:?})", message, v),
        Err(e) => assert_eq!(e.message(), message),
    }
}

struct World {
    sc: LifeBonding,
    owner: Address,
    admin: Address,
    first_user: Address,
    second_user: Address,
    third_user: Address,
    minter: Address,
    now: u64,
}

impl World {
    fn new() -> Self {
        World {
            sc: LifeBonding::init(),
            owner: user("owner"),
            admin: user("admin"),
            first_user: user("first_user"),
            second_user: user("second_user"),
            third_user: user("third_user"),
            minter: contract("minter"),
            now: 0,
        }
    }

    fn ctx(&self, caller: Address) -> CallContext {
        CallContext {
            caller,
            owner: self.owner,
            block_timestamp: self.now,
            caller_is_smart_contract: caller == self.minter,
        }
    }

    /// Deploys with an administrator (also an accepted caller), the bond
    /// token and one lock period with its bond amount.
    fn default_deploy_and_set(&mut self, lock_period: u64, bond_amount: u128) {
        let owner = self.ctx(self.owner);
        self.sc.set_administrator(&owner, self.admin).unwrap();
        self.sc.set_accepted_callers(&owner, &vec![self.admin]).unwrap();
        self.sc.set_bond_token(&owner, &ITHEUM_TOKEN_IDENTIFIER.to_vec()).unwrap();
        self.sc.add_lock_periods_with_bonds(&owner, &pairs(&[(lock_period, bond_amount)])).unwrap();
    }

    fn bond(
        &mut self,
        caller: Address,
        original_caller: Address,
        nonce: u64,
        lock_period: u64,
        payment: (&[u8], u64, u128),
    ) -> Result<(), ContractError> {
        let ctx = self.ctx(caller);
        let payments = vec![EsdtTokenPayment::new(payment.0.to_vec(), payment.1, amt(payment.2))];
        self.sc.bond(&ctx, original_caller, &DATA_NFT_IDENTIFIER.to_vec(), nonce, lock_period, &payments)
    }
}

fn bond_of(w: &World, id: u64) -> (Address, Vec<u8>, u64, u64, u64, u64, u128, u128) {
    let b = w.sc.get_bond(id);
    assert_eq!(b.bond_id, id);
    (
        b.address,
        b.token_identifier,
        b.nonce,
        b.lock_period,
        b.bond_timestamp,
        b.unbond_timestamp,
        n(&b.bond_amount),
        n(&b.remaining_amount),
    )
}

fn compensation_of(w: &World, id: u64) -> (Vec<u8>, u64, u128, u128, u64) {
    let c = w.sc.get_compensation(id);
    assert_eq!(c.compensation_id, id);
    (c.token_identifier, c.nonce, n(&c.accumulated_amount), n(&c.proof_amount), c.end_date)
}

#[test]
fn pause_unpause_test() {
    let mut w = World::new();
    let owner = w.ctx(w.owner);
    w.sc.set_administrator(&owner, w.admin).unwrap();
    assert_eq!(w.sc.contract_state(), State::Inactive);
    w.sc.set_contract_state_active(&owner).unwrap();
    assert_eq!(w.sc.contract_state(), State::Active);
    expect_error(w.sc.set_contract_state_inactive(&w.ctx(w.first_user)), "Not privileged");
    w.sc.set_contract_state_inactive(&w.ctx(w.admin)).unwrap();
    assert_eq!(w.sc.contract_state(), State::Inactive);
}

#[test]
fn accepted_callers_test() {
    let mut w = World::new();
    let owner = w.ctx(w.owner);
    let minter_address = w.first_user;
    w.sc.set_administrator(&owner, w.admin).unwrap();
    w.sc.set_accepted_callers(&w.ctx(w.admin), &vec![minter_address]).unwrap();
    expect_error(w.sc.set_accepted_callers(&w.ctx(w.first_user), &vec![minter_address]), "Not privileged");
    expect_error(w.sc.remove_accepted_callers(&w.ctx(w.first_user), &vec![minter_address]), "Not privileged");
    w.sc.set_accepted_callers(&owner, &vec![minter_address]).unwrap();
    w.sc.remove_accepted_callers(&owner, &vec![minter_address]).unwrap();
    assert_eq!(w.sc.accepted_callers(), Vec::<Address>::new());
}

#[test]
fn bond_token_test() {
    let mut w = World::new();
    let owner = w.ctx(w.owner);
    w.sc.set_administrator(&owner, w.admin).unwrap();
    w.sc.set_bond_token(&owner, &ITHEUM_TOKEN_IDENTIFIER.to_vec()).unwrap();
    w.sc.set_bond_token(&w.ctx(w.admin), &ITHEUM_TOKEN_IDENTIFIER.to_vec()).unwrap();
    expect_error(
        w.sc.set_bond_token(&w.ctx(w.first_user), &ITHEUM_TOKEN_IDENTIFIER.to_vec()),
        "Not privileged",
    );
    assert_eq!(w.sc.bond_payment_token(), ITHEUM_TOKEN_IDENTIFIER.to_vec());
}

#[test]
fn periods_and_bonds_test() {
    let mut w = World::new();
    let owner = w.ctx(w.owner);
    let admin = w.ctx(w.admin);
    let user = w.ctx(w.first_user);
    w.sc.set_administrator(&owner, w.admin).unwrap();
    w.sc.add_lock_periods_with_bonds(&owner, &pairs(&[(900, 10)])).unwrap();
    w.sc.add_lock_periods_with_bonds(&admin, &pairs(&[(400, 20)])).unwrap();
    expect_error(w.sc.add_lock_periods_with_bonds(&user, &pairs(&[(500, 30)])), "Not privileged");
    assert_eq!(lock_periods_bonds(&w.sc), (vec![900, 400], vec![10, 20]));
    w.sc.remove_lock_periods_with_bonds(&owner, &vec![900]).unwrap();
    w.sc.remove_lock_periods_with_bonds(&admin, &vec![400]).unwrap();
    expect_error(w.sc.remove_lock_periods_with_bonds(&user, &vec![500]), "Not privileged");
    assert_eq!(lock_periods_bonds(&w.sc), (vec![], vec![]));
}

#[test]
fn penalty_test() {
    let mut w = World::new();
    let owner = w.ctx(w.owner);
    let admin = w.ctx(w.admin);
    let user = w.ctx(w.first_user);
    w.sc.set_administrator(&owner, w.admin).unwrap();

    w.sc.set_minimum_penalty(&owner, 100).unwrap();
    w.sc.set_minimum_penalty(&admin, 200).unwrap();
    expect_error(w.sc.set_minimum_penalty(&user, 300), "Not privileged");

    w.sc.set_maximum_penalty(&owner, 500).unwrap();
    w.sc.set_maximum_penalty(&admin, 10_000).unwrap();
    expect_error(w.sc.set_maximum_penalty(&user, 3000), "Not privileged");

    w.sc.set_withdraw_penalty(&admin, 4_000).unwrap();
    w.sc.set_withdraw_penalty(&owner, 10_000).unwrap();
    expect_error(w.sc.set_withdraw_penalty(&user, 150_000), "Not privileged");

    expect_error(w.sc.set_minimum_penalty(&admin, 6_000), "Invalid penalty value");
    expect_error(w.sc.set_minimum_penalty(&admin, 0), "Invalid penalty value");
    expect_error(w.sc.set_maximum_penalty(&admin, 15_000), "Invalid penalty value");
    expect_error(w.sc.set_maximum_penalty(&admin, 0), "Invalid penalty value");
    expect_error(w.sc.set_withdraw_penalty(&admin, 15_000), "Invalid penalty value");
    expect_error(w.sc.set_withdraw_penalty(&admin, 0), "Invalid penalty value");

    assert_eq!(w.sc.minimum_penalty(), 200);
    assert_eq!(w.sc.maximum_penalty(), 10_000);
    assert_eq!(w.sc.withdraw_penalty(), 10_000);
}

#[test]
fn initiate_refund_test() {
    let mut w = World::new();
    let first_user = w.first_user;
    w.default_deploy_and_set(10, 100);
    w.sc.set_contract_state_active(&w.ctx(w.owner)).unwrap();

    expect_error(
        w.sc.initiate_refund(&w.ctx(w.admin), &DATA_NFT_IDENTIFIER.to_vec(), 1, 20),
        "Unknown object",
    );

    w.bond(w.owner, first_user, 1, 10, (ITHEUM_TOKEN_IDENTIFIER, 0, 100)).unwrap();

    assert_eq!(compensation_of(&w, 1), (DATA_NFT_IDENTIFIER.to_vec(), 1, 0, 0, 0));
    assert_eq!(bond_of(&w, 1), (first_user, DATA_NFT_IDENTIFIER.to_vec(), 1, 10, 0, 10, 100, 100));

    expect_error(
        w.sc.initiate_refund(&w.ctx(w.first_user), &DATA_NFT_IDENTIFIER.to_vec(), 1, 20),
        "Not privileged",
    );
    w.sc.initiate_refund(&w.ctx(w.admin), &DATA_NFT_IDENTIFIER.to_vec(), 1, 20).unwrap();
    assert_eq!(compensation_of(&w, 1), (DATA_NFT_IDENTIFIER.to_vec(), 1, 0, 0, 20));
}

#[test]
fn modify_bond() {
    let mut w = World::new();
    let first_user = w.first_user;
    w.default_deploy_and_set(10, 100);
    w.sc.set_contract_state_active(&w.ctx(w.owner)).unwrap();

    expect_error(
        w.sc.modify_bond(&w.ctx(w.admin), &DATA_NFT_IDENTIFIER.to_vec(), 1),
        "Unknown object",
    );
    w.bond(w.owner, first_user, 1, 10, (ITHEUM_TOKEN_IDENTIFIER, 0, 100)).unwrap();
    assert_eq!(compensation_of(&w, 1), (DATA_NFT_IDENTIFIER.to_vec(), 1, 0, 0, 0));
    assert_eq!(bond_of(&w, 1), (first_user, DATA_NFT_IDENTIFIER.to_vec(), 1, 10, 0, 10, 100, 100));

    w.now = 1;
    expect_error(
        w.sc.modify_bond(&w.ctx(w.first_user), &DATA_NFT_IDENTIFIER.to_vec(), 1),
        "Not privileged",
    );
    w.sc.modify_bond(&w.ctx(w.admin), &DATA_NFT_IDENTIFIER.to_vec(), 1).unwrap();
    assert_eq!(bond_of(&w, 1), (first_user, DATA_NFT_IDENTIFIER.to_vec(), 1, 10, 0, 1, 100, 100));
}

#[test]
fn sanction_test() {
    let mut w = World::new();
    let first_user = w.first_user;
    let nft = DATA_NFT_IDENTIFIER.to_vec();
    w.default_deploy_and_set(10, 100);
    w.sc.set_contract_state_active(&w.ctx(w.owner)).unwrap();
    let admin = w.ctx(w.admin);

    expect_error(w.sc.sanction(&admin, &nft, 1, PenaltyType::Custom, Some(20)), "Unknown object");

    w.bond(w.owner, first_user, 1, 10, (ITHEUM_TOKEN_IDENTIFIER, 0, 100)).unwrap();
    assert_eq!(compensation_of(&w, 1), (nft.clone(), 1, 0, 0, 0));
    assert_eq!(bond_of(&w, 1), (first_user, nft.clone(), 1, 10, 0, 10, 100, 100));

    expect_error(
        w.sc.sanction(&w.ctx(w.first_user), &nft, 1, PenaltyType::Minimum, None),
        "Not privileged",
    );
    w.sc.sanction(&admin, &nft, 1, PenaltyType::Minimum, None).unwrap();
    assert_eq!(compensation_of(&w, 1), (nft.clone(), 1, 5, 0, 0));
    assert_eq!(bond_of(&w, 1), (first_user, nft.clone(), 1, 10, 0, 10, 100, 95));

    expect_error(w.sc.sanction(&admin, &nft, 1, PenaltyType::Custom, None), "Invalid penalty value");
    w.sc.sanction(&admin, &nft, 1, PenaltyType::Custom, Some(1_000)).unwrap();
    assert_eq!(compensation_of(&w, 1), (nft.clone(), 1, 15, 0, 0));
    assert_eq!(bond_of(&w, 1), (first_user, nft.clone(), 1, 10, 0, 10, 100, 85));

    expect_error(
        w.sc.sanction(&admin, &nft, 1, PenaltyType::Maximum, Some(10_000)),
        "Invalid penalty value",
    );
    w.sc.sanction(&admin, &nft, 1, PenaltyType::Custom, Some(8_500)).unwrap();
    assert_eq!(compensation_of(&w, 1), (nft.clone(), 1, 100, 0, 0));
    assert_eq!(bond_of(&w, 1), (first_user, nft.clone(), 1, 10, 0, 10, 100, 0));
    assert_eq!(n(&w.sc.total_bond_amount()), 0);
}

#[test]
fn blacklist_test() {
    let mut w = World::new();
    let first_user = w.first_user;
    w.default_deploy_and_set(10, 100);
    w.sc.set_contract_state_active(&w.ctx(w.owner)).unwrap();
    let admin = w.ctx(w.admin);
    let user = w.ctx(w.first_user);

    expect_error(w.sc.add_to_black_list(&user, 1, &vec![first_user]), "Not privileged");
    expect_error(w.sc.remove_from_black_list(&user, 1, &vec![first_user]), "Not privileged");
    expect_error(w.sc.add_to_black_list(&admin, 1, &vec![first_user]), "Compensation not found");
    expect_error(w.sc.remove_from_black_list(&admin, 1, &vec![first_user]), "Compensation not found");

    w.bond(w.owner, first_user, 1, 10, (ITHEUM_TOKEN_IDENTIFIER, 0, 100)).unwrap();

    w.sc.add_to_black_list(&admin, 1, &vec![first_user]).unwrap();
    assert_eq!(w.sc.compensation_blacklist(1), vec![first_user]);
    w.sc.remove_from_black_list(&admin, 1, &vec![first_user]).unwrap();
    assert_eq!(w.sc.compensation_blacklist(1), Vec::<Address>::new());
}

#[test]
fn bond_deploy_deploy_and_pause() {
    let mut w = World::new();
    let owner = w.ctx(w.owner);
    w.sc.set_administrator(&owner, w.admin).unwrap();
    w.sc.set_contract_state_inactive(&owner).unwrap();
    assert_eq!(w.sc.contract_state(), State::Inactive);
    w.sc.set_contract_state_active(&owner).unwrap();
    assert_eq!(w.sc.contract_state(), State::Active);
    expect_error(w.sc.set_contract_state_inactive(&w.ctx(w.first_user)), "Not privileged");
    w.sc.set_contract_state_inactive(&w.ctx(w.admin)).unwrap();
    assert_eq!(w.sc.contract_state(), State::Inactive);
}

#[test]
fn bonding_test_deploy_and_pause() {
    let mut w = World::new();
    let owner = w.ctx(w.owner);
    w.sc.set_administrator(&owner, w.admin).unwrap();
    w.sc.set_contract_state_inactive(&owner).unwrap();
    assert_eq!(w.sc.contract_state(), State::Inactive);
    w.sc.set_contract_state_active(&owner).unwrap();
    assert_eq!(w.sc.contract_state(), State::Active);
    expect_error(w.sc.set_contract_state_inactive(&w.ctx(w.first_user)), "Not privileged");
    w.sc.set_contract_state_inactive(&w.ctx(w.admin)).unwrap();
    assert_eq!(w.sc.contract_state(), State::Inactive);
}

#[test]
fn deploy_and_upgrade() {
    let mut w = World::new();
    w.sc.set_contract_state_active(&w.ctx(w.owner)).unwrap();
    assert_eq!(w.sc.contract_state(), State::Active);
    w.sc.upgrade();
    assert_eq!(w.sc.contract_state(), State::Inactive);
}

fn lock_periods_bonds(sc: &LifeBonding) -> (Vec<u64>, Vec<u128>) {
    let (periods, amounts) = sc.get_lock_periods_bonds();
    (periods, amounts.iter().map(n).collect())
}
