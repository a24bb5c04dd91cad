use core_mx_life_bonding_sc::mapper::ObjectToIdMapper;

const TOKEN_IDENTIFIER: &[u8] = b"TEST-1234";

#[test]
fn test_mapper() {
    let mut mapper = ObjectToIdMapper::new();
    let token_identifier = TOKEN_IDENTIFIER.to_vec();
    let nonce = 1u64;

    let id = mapper.get_id(&token_identifier, nonce);
    assert_eq!(id, 0u64); // is not in the storage

    let id = mapper.get_id_or_insert(&token_identifier, nonce).unwrap();
    assert_eq!(id, 1u64);

    let id = mapper.get_id_or_insert(&token_identifier, nonce).unwrap();
    assert_eq!(id, 1u64); // same id as before

    assert!(mapper.contains_id(1u64));
    assert!(!mapper.contains_id(2u64));

    let (token_identifier_from_storage, nonce_from_storage) = mapper.get_object(1u64).unwrap();

    let response = mapper.get_object(0u64);
    assert_eq!(response, Option::None);

    let response_none = mapper.get_object(10u64);
    assert_eq!(response_none, Option::None);

    println!("token_identifier_from_storage: {:?}", token_identifier_from_storage);

    assert_eq!(token_identifier_from_storage, token_identifier.clone());
    assert_eq!(nonce_from_storage, nonce);

    // new entry to the storage
    let another_token_identifier = TOKEN_IDENTIFIER.to_vec();
    let another_nonce = 3u64;

    let id = mapper.insert_new(&another_token_identifier, another_nonce).unwrap();
    assert_eq!(id, 2u64);

    let same_id = mapper.get_id_or_insert(&another_token_identifier, another_nonce).unwrap();
    assert_eq!(same_id, 2u64);

    assert!(mapper.contains_id(2u64));

    // remove by id
    let removed = mapper.remove_by_id(2u64);
    assert_eq!(removed, Option::Some((another_token_identifier.clone(), another_nonce)));

    let removed_again = mapper.remove_by_id(2u64);
    assert_eq!(removed_again, Option::None);

    // remove by object
    let removed_by_object = mapper.remove_by_object(&token_identifier, nonce);
    assert_eq!(removed_by_object, 1u64);

    let removed_by_object_again = mapper.remove_by_object(&token_identifier, nonce);
    assert_eq!(removed_by_object_again, 0u64);
}

#[test]
#[should_panic(expected = "Object already registered")]
fn test_insert_new_error_handling() {
    let mut mapper = ObjectToIdMapper::new();
    let token_identifier = TOKEN_IDENTIFIER.to_vec();
    let nonce = 3u64;

    let _id = mapper.insert_new(&token_identifier, nonce).unwrap();
    let _same_id = mapper.get_id_or_insert(&token_identifier, nonce).unwrap();
    // This should panic
    let _another_id = mapper
        .insert_new(&token_identifier, nonce)
        .unwrap_or_else(|e| panic!("{}", e.message()));
}

#[test]
#[should_panic(expected = "Unknown object")]
fn test_get_id_non_zero() {
    let mut mapper = ObjectToIdMapper::new();
    let token_identifier = TOKEN_IDENTIFIER.to_vec();
    let nonce = 3u64;

    let id = mapper.get_id_or_insert(&token_identifier, nonce).unwrap();
    let found_id = mapper.get_id_non_zero(&token_identifier, nonce).unwrap();
    assert_eq!(id, found_id);

    // This should panic
    mapper
        .get_id_non_zero(&token_identifier, 4u64)
        .unwrap_or_else(|e| panic!("{}", e.message()));
}

#[test]
fn identifiers_are_not_reused() {
    let mut mapper = ObjectToIdMapper::new();
    let token_identifier = TOKEN_IDENTIFIER.to_vec();
    assert_eq!(mapper.insert_new(&token_identifier, 1).unwrap(), 1);
    assert_eq!(mapper.remove_by_id(1), Some((token_identifier.clone(), 1)));
    assert_eq!(mapper.insert_new(&token_identifier, 1).unwrap(), 2);
    assert_eq!(mapper.last_id(), 2);
    assert_eq!(mapper.get_id(&token_identifier, 1), 2);
}
