use cfx_evm::account::{IsDefault, StorageValue};
use cfx_evm::statedb::StateDb;
use cfx_evm::storage::InMemoryDb;
use cfx_evm::overlay::{AccountEntry, OverlayAccount};
use cfx_evm::types::{Address, U256};

fn address_from_hex(s: &str) -> Address {
    let mut bytes = [0u8; 20];
    for i in 0..20 {
        bytes[i] = u8::from_str_radix(&s[2 * i..2 * i + 2], 16).unwrap();
    }
    Address(bytes)
}

fn test_account_is_default(account: &OverlayAccount) {
    assert!(account.as_account().is_default());
}

#[test]
fn new_overlay_account_is_default() {
    let normal_addr = address_from_hex("1000000000000000000000000000000000000000").with_evm_space();
    let contract_addr = address_from_hex("8000000000000000000000000000000000000000").with_evm_space();
    let builtin_addr = address_from_hex("0000000000000000000000000000000000000000").with_evm_space();

    test_account_is_default(&OverlayAccount::new_basic(&normal_addr, U256::zero(), U256::zero()));
    test_account_is_default(&OverlayAccount::new_contract(
        &contract_addr,
        U256::zero(),
        U256::zero(),
        false,
        /* storage_layout = */ None,
    ));
    test_account_is_default(&OverlayAccount::new_basic(&builtin_addr, U256::zero(), U256::zero()));
}

#[test]
fn account_with_balance_or_nonce_is_not_default() {
    let a = address_from_hex("1000000000000000000000000000000000000001").with_evm_space();
    assert!(!OverlayAccount::new_basic(&a, U256::from_u64(1), U256::zero()).as_account().is_default());
    assert!(!OverlayAccount::new_basic(&a, U256::zero(), U256::from_u64(1)).as_account().is_default());
}

#[test]
fn overlay_account_balance_and_nonce() {
    let a = address_from_hex("1000000000000000000000000000000000000002").with_evm_space();
    let mut acc = OverlayAccount::new_basic(&a, U256::from_u64(100), U256::from_u64(7));
    acc.add_balance(&U256::from_u64(50));
    acc.sub_balance(&U256::from_u64(30));
    acc.inc_nonce();
    assert_eq!(*acc.balance(), U256::from_u64(120));
    assert_eq!(*acc.nonce(), U256::from_u64(8));
    assert!(acc.is_basic());
    assert!(!acc.is_contract());
    assert!(!acc.is_null());
}

#[test]
fn storage_written_is_read_back_from_cache() {
    let a = address_from_hex("8000000000000000000000000000000000000003").with_evm_space();
    let mut acc = OverlayAccount::new_contract(&a, U256::zero(), U256::one(), false, None);
    acc.set_storage(vec![1, 2, 3], U256::from_u64(42));
    assert_eq!(acc.cached_storage_at(&[1, 2, 3]), Some(U256::from_u64(42)));
    assert_eq!(acc.cached_storage_at(&[1, 2, 4]), None);
}

#[test]
fn removed_account_is_removed_without_update() {
    let a = address_from_hex("8000000000000000000000000000000000000004").with_evm_space();
    let acc = OverlayAccount::new_removed(&a);
    assert!(acc.removed_without_update());
    assert!(acc.invalidated_storage());
    let entry = AccountEntry::new_dirty(Some(acc));
    assert!(entry.is_dirty());
}

#[test]
fn init_code_sets_code_and_hash() {
    let a = address_from_hex("8000000000000000000000000000000000000005").with_evm_space();
    let mut acc = OverlayAccount::new_contract(&a, U256::zero(), U256::one(), false, None);
    acc.init_code(vec![0x60, 0x00]);
    assert_eq!(acc.code_size(), Some(2));
    assert_eq!(acc.code(), Some(vec![0x60, 0x00]));
    assert_eq!(acc.code_hash().0, keccak_hash::keccak([0x60u8, 0x00]).0);
    assert!(acc.is_code_loaded());
}

#[test]
fn new_contract_storage_is_fresh_except_at_builtin_addresses() {
    let contract = address_from_hex("8000000000000000000000000000000000000001").with_evm_space();
    let builtin = address_from_hex("0000000000000000000000000000000000000001").with_evm_space();
    let mut db = StateDb::new(InMemoryDb::new());
    for a in [contract, builtin] {
        db.set_storage_value(&a, &[5], &StorageValue { value: U256::from_u64(77) }, None).unwrap();
    }
    let fresh = OverlayAccount::new_contract(&contract, U256::zero(), U256::one(), false, None);
    assert_eq!(fresh.storage_at(&db, &[5]).unwrap(), U256::zero());
    let at_builtin = OverlayAccount::new_contract(&builtin, U256::zero(), U256::one(), false, None);
    assert_eq!(at_builtin.storage_at(&db, &[5]).unwrap(), U256::from_u64(77));
}

#[test]
fn empty_init_code_holds_empty_code() {
    let a = address_from_hex("8000000000000000000000000000000000000006").with_evm_space();
    let mut acc = OverlayAccount::new_contract(&a, U256::zero(), U256::one(), false, None);
    acc.init_code(vec![]);
    assert_eq!(acc.code(), Some(vec![]));
    assert_eq!(acc.code_size(), Some(0));
    assert_eq!(acc.code_hash().0, keccak_hash::KECCAK_EMPTY.0);
    assert!(acc.is_code_loaded());
}

#[test]
fn committed_code_is_read_back() {
    let a = address_from_hex("8000000000000000000000000000000000000007").with_evm_space();
    let mut db = StateDb::new(InMemoryDb::new());
    let mut acc = OverlayAccount::new_contract(&a, U256::from_u64(3), U256::one(), false, None);
    acc.init_code(vec![0x60, 0x01, 0x60, 0x02]);
    acc.commit(&mut db, &a, None).unwrap();
    let code = db.get_code(&a, &acc.code_hash()).unwrap().unwrap();
    assert_eq!(code.code, vec![0x60, 0x01, 0x60, 0x02]);
}
