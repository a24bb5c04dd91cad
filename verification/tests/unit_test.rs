use core_mx_life_bonding_sc::storage::{CallContext, LifeBonding};
use core_mx_life_bonding_sc::types::{is_valid_esdt_identifier_bytes, Address, State};
use core_mx_life_bonding_sc::amount::Amount;

fn amt(x: u128) -> Amount {
    Amount::from_u128(x)
}

/// The amount as a number, for comparing with expected values.
fn n(a: &Amount) -> u128 {
    a.to_le_bytes().iter().rev().fold(0u128, |acc, b| acc * 256 + *b as u128)
}

fn pairs(v: &[(u64, u128)]) -> Vec<(u64, Amount)> {
    v.iter().map(|(p, a)| (*p, amt(*a))).collect()
}


fn address(n: u128) -> Address {
    Address { hi: n, lo: n }
}

#[test]
fn bonding_ready_test() {
    let mut bond_contract = LifeBonding::init();
    let owner = address(1);
    let ctx = CallContext { caller: owner, owner, block_timestamp: 0, caller_is_smart_contract: false };

    assert_eq!(false, bond_contract.contract_is_ready());

    bond_contract.set_administrator(&ctx, address(2)).unwrap();
    assert_eq!(false, bond_contract.contract_is_ready());

    bond_contract.set_contract_state_active(&ctx).unwrap();
    assert_eq!(false, bond_contract.contract_is_ready());

    bond_contract.set_accepted_callers(&ctx, &vec![address(3)]).unwrap();
    assert_eq!(false, bond_contract.contract_is_ready());

    bond_contract.set_bond_token(&ctx, &b"TEST-123456".to_vec()).unwrap();
    assert_eq!(false, bond_contract.contract_is_ready());

    bond_contract.add_lock_periods_with_bonds(&ctx, &pairs(&[(1, 1)])).unwrap();
    assert_eq!(true, bond_contract.contract_is_ready());

    bond_contract.remove_lock_periods_with_bonds(&ctx, &vec![1]).unwrap();
    assert_eq!(false, bond_contract.contract_is_ready());

    bond_contract.add_lock_periods_with_bonds(&ctx, &pairs(&[(1, 1)])).unwrap();
    assert_eq!(true, bond_contract.contract_is_ready());

    bond_contract.set_contract_state_inactive(&ctx).unwrap();
    assert_eq!(bond_contract.contract_state(), State::Inactive);
    assert_eq!(false, bond_contract.contract_is_ready());
}

#[test]
fn token_identifier_shapes() {
    assert!(is_valid_esdt_identifier_bytes(&b"ITHEUM-fce905".to_vec()));
    assert!(is_valid_esdt_identifier_bytes(&b"ABC-123456".to_vec()));
    assert!(is_valid_esdt_identifier_bytes(&b"ABCDEFGHIJ-abcdef".to_vec()));
    assert!(!is_valid_esdt_identifier_bytes(&b"TEST-1234".to_vec()));
    assert!(!is_valid_esdt_identifier_bytes(&b"AB-123456".to_vec()));
    assert!(!is_valid_esdt_identifier_bytes(&b"ABCDEFGHIJK-abcdef".to_vec()));
    assert!(!is_valid_esdt_identifier_bytes(&b"abc-123456".to_vec()));
    assert!(!is_valid_esdt_identifier_bytes(&b"ABC-12345F".to_vec()));
    assert!(!is_valid_esdt_identifier_bytes(&b"ABC_123456".to_vec()));
}

#[test]
fn set_bond_token_refuses_malformed_identifier() {
    let mut c = LifeBonding::init();
    let owner = address(1);
    let ctx = CallContext { caller: owner, owner, block_timestamp: 0, caller_is_smart_contract: false };
    let r = c.set_bond_token(&ctx, &b"TEST-1234".to_vec());
    assert_eq!(r.unwrap_err().message(), "Invalid token identifier");
    assert!(c.bond_payment_token().is_empty());
}

#[test]
fn administrator_only_by_owner_and_only_once() {
    let mut c = LifeBonding::init();
    let owner = address(1);
    let ctx = CallContext { caller: owner, owner, block_timestamp: 0, caller_is_smart_contract: false };
    assert_eq!(c.administrator(), Address { hi: 0, lo: 0 });
    let other = CallContext { caller: address(2), ..ctx };
    assert_eq!(c.set_administrator(&other, address(2)).unwrap_err().message(), "Endpoint can only be called by owner");
    c.set_administrator(&ctx, address(2)).unwrap();
    assert_eq!(c.set_administrator(&ctx, address(2)).unwrap_err().message(), "Already in storage");
    assert!(c.is_admin(&address(2)));
    assert!(c.is_privileged(&ctx, &address(2)));
    assert!(c.is_privileged(&ctx, &owner));
    assert!(!c.is_privileged(&ctx, &address(3)));
}
