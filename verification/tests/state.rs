use cfx_evm::state::{CleanupMode, State};
use cfx_evm::statedb::StateDb;
use cfx_evm::storage::InMemoryDb;
use cfx_evm::types::{Address, AddressWithSpace, H256, U256};

fn addr(last: u8) -> AddressWithSpace {
    let mut b = [0u8; 20];
    b[0] = 0x10;
    b[19] = last;
    Address(b).with_evm_space()
}

fn new_state() -> State<InMemoryDb> {
    State::new(StateDb::new(InMemoryDb::new())).unwrap()
}

fn fund(state: &mut State<InMemoryDb>, a: &AddressWithSpace, v: u64) {
    state.add_balance(a, &U256::from_u64(v), &mut CleanupMode::NoEmpty, U256::zero()).unwrap();
}

#[test]
fn fresh_state_is_empty() {
    let state = new_state();
    let a = addr(1);
    assert_eq!(state.balance(&a).unwrap(), U256::zero());
    assert_eq!(state.nonce(&a).unwrap(), U256::zero());
    assert!(!state.account_exists(&a).unwrap());
    assert_eq!(state.total_issued_tokens(), U256::zero());
    assert_eq!(state.code(&a).unwrap(), None);
}

#[test]
fn add_and_sub_balance() {
    let mut state = new_state();
    let a = addr(2);
    fund(&mut state, &a, 1000);
    assert_eq!(state.balance(&a).unwrap(), U256::from_u64(1000));
    assert!(state.account_exists(&a).unwrap());
    state.sub_balance(&a, &U256::from_u64(300), &mut CleanupMode::NoEmpty).unwrap();
    assert_eq!(state.balance(&a).unwrap(), U256::from_u64(700));
}

#[test]
fn adding_zero_creates_no_account_unless_forced() {
    let mut state = new_state();
    let a = addr(3);
    state.add_balance(&a, &U256::zero(), &mut CleanupMode::NoEmpty, U256::zero()).unwrap();
    assert!(!state.account_exists(&a).unwrap());
    state.add_balance(&a, &U256::zero(), &mut CleanupMode::ForceCreate, U256::zero()).unwrap();
    assert!(state.account_exists(&a).unwrap());
}

#[test]
fn nonce_increments_from_start_nonce() {
    let mut state = new_state();
    let a = addr(4);
    state.inc_nonce(&a, &U256::from_u64(5)).unwrap();
    assert_eq!(state.nonce(&a).unwrap(), U256::from_u64(6));
    state.inc_nonce(&a, &U256::from_u64(5)).unwrap();
    assert_eq!(state.nonce(&a).unwrap(), U256::from_u64(7));
    state.set_nonce(&a, &U256::from_u64(100)).unwrap();
    assert_eq!(state.nonce(&a).unwrap(), U256::from_u64(100));
}

#[test]
fn missing_account_cannot_be_charged() {
    let mut state = new_state();
    let a = addr(5);
    assert!(state.sub_balance(&a, &U256::from_u64(1), &mut CleanupMode::NoEmpty).is_err());
}

#[test]
fn transfer_balance_moves_value() {
    let mut state = new_state();
    let (a, b) = (addr(6), addr(7));
    fund(&mut state, &a, 500);
    fund(&mut state, &b, 20);
    state.transfer_balance(&a, &b, &U256::from_u64(120), &mut CleanupMode::NoEmpty, U256::zero()).unwrap();
    assert_eq!(state.balance(&a).unwrap(), U256::from_u64(380));
    assert_eq!(state.balance(&b).unwrap(), U256::from_u64(140));
}

#[test]
fn storage_read_after_write() {
    let mut state = new_state();
    let a = addr(8);
    fund(&mut state, &a, 1);
    assert_eq!(state.storage_at(&a, &[1]).unwrap(), U256::zero());
    state.set_storage(&a, vec![1], U256::from_u64(99)).unwrap();
    assert_eq!(state.storage_at(&a, &[1]).unwrap(), U256::from_u64(99));
}

#[test]
fn system_storage_read_after_write() {
    let mut state = new_state();
    let system = cfx_evm::parameters::system_storage_address().with_evm_space();
    fund(&mut state, &system, 1);
    state.set_system_storage(vec![3, 4], U256::from_u64(11)).unwrap();
    assert_eq!(state.get_system_storage(&[3, 4]).unwrap(), U256::from_u64(11));
}

#[test]
fn revert_to_checkpoint_restores_accounts() {
    let mut state = new_state();
    let (a, b) = (addr(9), addr(10));
    fund(&mut state, &a, 1000);
    let index = state.checkpoint();
    assert_eq!(index, 0);
    fund(&mut state, &a, 1);
    fund(&mut state, &b, 2);
    state.inc_nonce(&a, &U256::zero()).unwrap();
    state.set_storage(&a, vec![7], U256::from_u64(8)).unwrap();
    state.revert_to_checkpoint();
    assert_eq!(state.balance(&a).unwrap(), U256::from_u64(1000));
    assert_eq!(state.nonce(&a).unwrap(), U256::zero());
    assert_eq!(state.storage_at(&a, &[7]).unwrap(), U256::zero());
    assert!(!state.account_exists(&b).unwrap());
}

#[test]
fn nested_checkpoints_revert_one_level() {
    let mut state = new_state();
    let a = addr(11);
    fund(&mut state, &a, 10);
    assert_eq!(state.checkpoint(), 0);
    fund(&mut state, &a, 20);
    assert_eq!(state.checkpoint(), 1);
    fund(&mut state, &a, 40);
    state.revert_to_checkpoint();
    assert_eq!(state.balance(&a).unwrap(), U256::from_u64(30));
    state.revert_to_checkpoint();
    assert_eq!(state.balance(&a).unwrap(), U256::from_u64(10));
}

#[test]
fn discard_checkpoint_keeps_changes_and_merges_records() {
    let mut state = new_state();
    let a = addr(12);
    fund(&mut state, &a, 10);
    state.checkpoint();
    fund(&mut state, &a, 5);
    state.checkpoint();
    fund(&mut state, &a, 7);
    state.discard_checkpoint();
    assert_eq!(state.balance(&a).unwrap(), U256::from_u64(22));
    state.revert_to_checkpoint();
    assert_eq!(state.balance(&a).unwrap(), U256::from_u64(10));
}

#[test]
fn revert_restores_total_issued() {
    let mut state = new_state();
    state.add_total_issued(U256::from_u64(1000));
    state.checkpoint();
    state.subtract_total_issued(U256::from_u64(300));
    assert_eq!(state.total_issued_tokens(), U256::from_u64(700));
    state.revert_to_checkpoint();
    assert_eq!(state.total_issued_tokens(), U256::from_u64(1000));
}

#[test]
fn subtract_total_issued_saturates() {
    let mut state = new_state();
    state.add_total_issued(U256::from_u64(5));
    state.subtract_total_issued(U256::from_u64(9));
    assert_eq!(state.total_issued_tokens(), U256::zero());
}

#[test]
fn commit_then_reload_sees_accounts() {
    let mut state = new_state();
    let (a, b) = (addr(13), addr(14));
    fund(&mut state, &a, 4321);
    state.inc_nonce(&a, &U256::zero()).unwrap();
    fund(&mut state, &b, 1);
    state.add_total_issued(U256::from_u64(4322));
    state.commit(H256([0; 32]), None).unwrap();
    assert_eq!(state.balance(&a).unwrap(), U256::from_u64(4321));
    assert_eq!(state.nonce(&a).unwrap(), U256::one());
    assert_eq!(state.total_issued_tokens(), U256::from_u64(4322));
}

#[test]
fn removed_contract_is_deleted_on_commit() {
    let mut state = new_state();
    let a = addr(15);
    fund(&mut state, &a, 50);
    state.commit(H256([0; 32]), None).unwrap();
    assert!(state.account_exists(&a).unwrap());
    state.remove_contract(&a).unwrap();
    assert_eq!(state.balance(&a).unwrap(), U256::zero());
    state.commit(H256([1; 32]), None).unwrap();
    assert!(!state.account_exists(&a).unwrap());
}

#[test]
fn new_contract_keeps_nonce_and_balance() {
    let mut state = new_state();
    let c = addr(16);
    state.new_contract(&c, U256::from_u64(9), U256::one(), None).unwrap();
    assert_eq!(state.balance(&c).unwrap(), U256::from_u64(9));
    assert_eq!(state.nonce(&c).unwrap(), U256::one());
    assert!(state.is_contract_with_code(&c).unwrap() == false);
    assert!(state.exists_and_not_null(&c).unwrap());
}

#[test]
fn tracked_cleanup_records_touched_accounts() {
    let mut state = new_state();
    let a = addr(17);
    fund(&mut state, &a, 3);
    let mut mode = CleanupMode::TrackTouched(cfx_evm::assoc::AssocMap::new());
    state.add_balance(&a, &U256::from_u64(1), &mut mode, U256::zero()).unwrap();
    match mode {
        CleanupMode::TrackTouched(set) => assert!(set.contains_key(&a)),
        _ => panic!("mode changed"),
    }
}

#[test]
fn discard_inner_then_revert_undoes_both_rounds() {
    let mut state = new_state();
    let (a, b) = (addr(40), addr(41));
    state.add_balance(&a, &U256::from_u64(7), &mut CleanupMode::NoEmpty, U256::zero()).unwrap();
    state.checkpoint();
    state.add_balance(&a, &U256::from_u64(3), &mut CleanupMode::NoEmpty, U256::zero()).unwrap();
    state.checkpoint();
    state.add_balance(&b, &U256::from_u64(9), &mut CleanupMode::NoEmpty, U256::zero()).unwrap();
    state.discard_checkpoint();
    assert_eq!(state.open_checkpoints(), 1);
    assert_eq!(state.balance(&a).unwrap(), U256::from_u64(10));
    assert_eq!(state.balance(&b).unwrap(), U256::from_u64(9));
    state.revert_to_checkpoint();
    assert_eq!(state.open_checkpoints(), 0);
    assert_eq!(state.balance(&a).unwrap(), U256::from_u64(7));
    assert_eq!(state.balance(&b).unwrap(), U256::zero());
}

#[test]
fn committed_storage_is_read_back() {
    let mut state = new_state();
    let a = addr(16);
    fund(&mut state, &a, 5);
    state.commit(H256([0; 32]), None).unwrap();
    state.set_storage(&a, vec![1], U256::from_u64(99)).unwrap();
    state.set_storage(&a, vec![2], U256::from_u64(7)).unwrap();
    state.commit(H256([1; 32]), None).unwrap();
    assert_eq!(state.storage_at(&a, &[1]).unwrap(), U256::from_u64(99));
    assert_eq!(state.storage_at(&a, &[2]).unwrap(), U256::from_u64(7));
    state.set_storage(&a, vec![2], U256::zero()).unwrap();
    state.commit(H256([2; 32]), None).unwrap();
    assert_eq!(state.storage_at(&a, &[1]).unwrap(), U256::from_u64(99));
    assert_eq!(state.storage_at(&a, &[2]).unwrap(), U256::zero());
    assert_eq!(state.storage_at(&a, &[3]).unwrap(), U256::zero());
}
