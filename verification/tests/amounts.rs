use core_mx_life_bonding_sc::amount::Amount;
use core_mx_life_bonding_sc::storage::{CallContext, LifeBonding};
use core_mx_life_bonding_sc::types::{Address, EsdtTokenPayment};

fn amt(x: u128) -> Amount {
    Amount::from_u128(x)
}

fn address(n: u128) -> Address {
    Address { hi: n, lo: n }
}

#[test]
fn arithmetic_past_128_bits() {
    let half = amt(1u128 << 127);
    let whole = half.add(&half);
    // 2^128 takes seventeen bytes: sixteen zeros and a one
    let mut expected = vec![0u8; 16];
    expected.push(1);
    assert_eq!(whole.to_le_bytes(), expected);
    assert!(half.lt(&whole));
    assert!(whole.sub(&half).equals(&half));
    let square = whole.mul(&whole);
    assert!(square.div(&whole).equals(&whole));
    let (q, r) = square.add(&amt(5)).div_rem(&whole);
    assert!(q.equals(&whole));
    assert!(r.equals(&amt(5)));
    assert!(whole.sub(&whole).is_zero());
}

#[test]
fn bytes_round_trip() {
    let bytes = vec![1u8, 2, 3, 4, 5, 6, 7, 8, 9, 10, 11, 12, 13, 14, 15, 16, 17, 18, 19, 20];
    let a = Amount::from_be_bytes(&bytes);
    let mut back = a.to_le_bytes();
    back.reverse();
    assert_eq!(back, bytes);
    assert!(Amount::from_be_bytes(&vec![0, 0, 7]).equals(&amt(7)));
    assert!(Amount::zero().to_le_bytes().is_empty());
}

#[test]
fn bonds_past_128_bits_are_accepted() {
    let mut sc = LifeBonding::init();
    let owner = address(1);
    let minter = address(2);
    let ctx = CallContext { caller: owner, owner, block_timestamp: 0, caller_is_smart_contract: false };
    let big = amt(1u128 << 127);
    sc.set_accepted_callers(&ctx, &vec![minter]).unwrap();
    sc.set_bond_token(&ctx, &b"ITHEUM-fce905".to_vec()).unwrap();
    sc.add_lock_periods_with_bonds(&ctx, &vec![(10, big.duplicate())]).unwrap();
    sc.set_contract_state_active(&ctx).unwrap();
    let call = CallContext { caller: minter, owner, block_timestamp: 0, caller_is_smart_contract: true };
    for nonce in 1..=3u64 {
        let payments = vec![EsdtTokenPayment::new(b"ITHEUM-fce905".to_vec(), 0, big.duplicate())];
        sc.bond(&call, address(3), &b"DATANFT-12345".to_vec(), nonce, 10, &payments).unwrap();
    }
    // three bonds of 2^127 make 3 * 2^127
    assert!(sc.total_bond_amount().equals(&big.mul(&amt(3))));
    assert!(sc.get_address_bonds_total_value(address(3)).equals(&big.mul(&amt(3))));
    let paid = sc.withdraw(&CallContext { caller: address(3), ..call }, &b"DATANFT-12345".to_vec(), 1).unwrap();
    // an early withdrawal leaves 80% behind
    assert!(paid.amount.equals(&big.sub(&big.mul(&amt(8_000)).div(&amt(10_000)))));
    assert!(sc.total_bond_amount().equals(&big.mul(&amt(2))));
}
