use cfx_evm::account::{Account, StorageValue};
use cfx_evm::statedb::StateDb;
use cfx_evm::storage::{InMemoryDb, StorageTrait};
use cfx_evm::storage_key::StateKey;
use cfx_evm::types::{Address, H256, U256};
use cfx_evm::uint::random_address;

fn addr(last: u8) -> Address {
    let mut b = [0u8; 20];
    b[0] = 0x10;
    b[19] = last;
    Address(b)
}

#[test]
fn in_memory_db_get_after_set_and_delete() {
    let mut db = InMemoryDb::new();
    assert_eq!(db.get(vec![1, 2]).unwrap(), None);
    db.set(vec![1, 2], vec![9, 9, 9]).unwrap();
    assert_eq!(db.get(vec![1, 2]).unwrap(), Some(vec![9, 9, 9]));
    db.set(vec![1, 2], vec![7]).unwrap();
    assert_eq!(db.get(vec![1, 2]).unwrap(), Some(vec![7]));
    db.delete(vec![1, 2]).unwrap();
    assert_eq!(db.get(vec![1, 2]).unwrap(), None);
}

#[test]
fn statedb_account_read_after_write() {
    let mut db = StateDb::new(InMemoryDb::new());
    let a = addr(1).with_evm_space();
    assert_eq!(db.get_account(&a).unwrap(), None);
    let account = Account::new_empty_with_balance(&a, &U256::from_u64(1000), &U256::from_u64(3));
    db.set_account(&a, &account, None).unwrap();
    let read = db.get_account(&a).unwrap().unwrap();
    assert_eq!(read, account);
}

#[test]
fn statedb_default_account_is_deleted() {
    let mut db = StateDb::new(InMemoryDb::new());
    let a = addr(2).with_evm_space();
    let account = Account::new_empty_with_balance(&a, &U256::from_u64(5), &U256::zero());
    db.set_account(&a, &account, None).unwrap();
    assert!(db.get_account(&a).unwrap().is_some());
    db.set_account(&a, &Account::new_empty(&a), None).unwrap();
    assert_eq!(db.get_account(&a).unwrap(), None);
    assert_eq!(db.get_raw(StateKey::new_account_key(&a)).unwrap(), None);
}

#[test]
fn statedb_storage_read_after_write() {
    let mut db = StateDb::new(InMemoryDb::new());
    let a = addr(3).with_evm_space();
    db.set_storage_value(&a, &[5, 6], &StorageValue { value: U256::from_u64(77) }, None).unwrap();
    assert_eq!(db.get_storage_value(&a, &[5, 6]).unwrap(), Some(StorageValue { value: U256::from_u64(77) }));
    db.set_storage_value(&a, &[5, 6], &StorageValue { value: U256::zero() }, None).unwrap();
    assert_eq!(db.get_storage_value(&a, &[5, 6]).unwrap(), None);
}

#[test]
fn statedb_total_issued_tokens_round_trip() {
    let mut db = StateDb::new(InMemoryDb::new());
    assert_eq!(db.get_total_issued_tokens().unwrap(), U256::zero());
    db.set_total_issued_tokens(&U256::from_u64(123_456_789), None).unwrap();
    assert_eq!(db.get_total_issued_tokens().unwrap(), U256::from_u64(123_456_789));
}

fn test_random_account(type_bits: Option<u8>, non_empty_hash: bool) {
    let mut address = random_address();
    address.0[0] = (address.0[0] & 0x0f) | type_bits.unwrap_or(0x40);
    let a = address.with_evm_space();
    let mut account = Account::new_empty_with_balance(&a, &U256::from_u64(1000), &U256::from_u64(123));
    if non_empty_hash {
        account.code_hash = H256(keccak_hash::keccak(random_address().0).0);
    }
    assert_eq!(account, Account::new_from_rlp(account.address_local_info.address, &account.rlp_bytes()).unwrap());
}

#[test]
fn test_account_serde() {
    // Normal address
    test_random_account(Some(0x10), false);
    // Contract address
    test_random_account(Some(0x80), true);
    // Uninitialized contract address && new normal address
    test_random_account(Some(0x80), false);
    // New normal address
    test_random_account(None, false);
    test_random_account(None, true);
}

#[test]
fn account_from_bad_rlp_is_an_error() {
    assert!(Account::new_from_rlp(addr(5), &[0xc0]).is_err());
}

#[test]
fn state_keys_have_the_documented_layout() {
    let a = addr(6).with_evm_space();
    let account_key = StateKey::new_account_key(&a).into_owned().into_bytes();
    assert_eq!(account_key, a.address.0.to_vec());
    let storage_key = StateKey::new_storage_key(&a, &[1, 2]).into_owned().into_bytes();
    let mut expected = a.address.0.to_vec();
    expected.extend_from_slice(b"store");
    expected.extend_from_slice(&[1, 2]);
    assert_eq!(storage_key, expected);
    let code_key = StateKey::new_code_key(&a).into_owned().into_bytes();
    let mut expected = a.address.0.to_vec();
    expected.extend_from_slice(b"code");
    assert_eq!(code_key, expected);
}
