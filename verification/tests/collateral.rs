use cfx_evm::assoc::AssocMap;
use cfx_evm::collateral::{sort_addresses, CollateralChanges, StorageChange};
use cfx_evm::execution::{Action, ExecutionError, ExecutionOutcome, SignedTransaction, TXExecutor};
use cfx_evm::executive::{FrameResult, Spec, VmError};
use cfx_evm::observer::MultiObservers;
use cfx_evm::state::{CleanupMode, State};
use cfx_evm::statedb::StateDb;
use cfx_evm::storage::InMemoryDb;
use cfx_evm::types::{Address, Space, U256};

fn addr(first: u8, last: u8) -> Address {
    let mut b = [0u8; 20];
    b[0] = first;
    b[19] = last;
    Address(b)
}

fn change(address: Address, collaterals: u64) -> StorageChange {
    StorageChange { address, collaterals: U256::from_u64(collaterals) }
}

#[test]
fn addresses_sort_by_their_bytes() {
    let sorted = sort_addresses(vec![addr(2, 0), addr(1, 9), addr(1, 3), addr(0, 200)]);
    assert_eq!(sorted, vec![addr(0, 200), addr(1, 3), addr(1, 9), addr(2, 0)]);
}

#[test]
fn collateral_changes_are_netted_and_sorted() {
    let mut c = CollateralChanges::new();
    c.record_storage_occupy(addr(5, 0), 10);
    c.record_storage_release(addr(5, 0), 3);
    c.record_storage_occupy(addr(2, 0), 4);
    c.record_storage_release(addr(9, 0), 7);
    c.record_storage_occupy(addr(1, 0), 2);
    c.record_storage_release(addr(1, 0), 2);
    assert_eq!(c.get_collateral_change(&addr(5, 0)), (7, 0));
    assert_eq!(c.get_collateral_change(&addr(9, 0)), (0, 7));
    assert_eq!(c.get_collateral_change(&addr(1, 0)), (0, 0));
    assert_eq!(c.get_collateral_change(&addr(3, 0)), (0, 0));
    let (grown, shrunk) = c.storage_changes();
    assert_eq!(grown, vec![change(addr(2, 0), 4), change(addr(5, 0), 7)]);
    assert_eq!(shrunk, vec![change(addr(9, 0), 7)]);
}

#[test]
fn accrued_collateral_adds_up() {
    let mut a = CollateralChanges::new();
    a.record_storage_occupy(addr(4, 0), 5);
    let mut b = CollateralChanges::new();
    b.record_storage_occupy(addr(4, 0), 6);
    b.record_storage_release(addr(6, 0), 1);
    a.accrue(b);
    assert_eq!(a.get_collateral_change(&addr(4, 0)), (11, 0));
    assert_eq!(a.get_collateral_change(&addr(6, 0)), (0, 1));
    let mut keys = a.keys_for_collateral_changed();
    keys.sort();
    assert_eq!(keys, vec![addr(4, 0), addr(6, 0)]);
}

#[test]
fn collateral_saturates() {
    let mut c = CollateralChanges::new();
    c.record_storage_occupy(addr(4, 0), u64::MAX);
    c.record_storage_occupy(addr(4, 0), 1);
    assert_eq!(c.get_collateral_change(&addr(4, 0)), (u64::MAX, 0));
}

fn spec() -> Spec {
    Spec {
        tx_gas: 21000,
        tx_create_gas: 53000,
        tx_data_zero_gas: 4,
        tx_data_non_zero_gas: 16,
        account_start_nonce: U256::zero(),
    }
}

fn finalize_with(collateral: &CollateralChanges, apply_state: bool) -> ExecutionOutcome {
    let s = addr(0x10, 1);
    let state = State::new(StateDb::new(InMemoryDb::new())).unwrap();
    let mut ex = TXExecutor::new(state, spec(), 1);
    let t = SignedTransaction {
        sender: s,
        nonce: U256::zero(),
        gas_price: U256::zero(),
        gas: U256::from_u64(100_000),
        value: U256::zero(),
        action: Action::Call(addr(0x10, 2)),
        data: vec![],
    };
    let result = Ok(FrameResult {
        space: Space::Ethereum,
        gas_left: U256::from_u64(10_000),
        apply_state,
        return_data: vec![],
        create_address: None,
    });
    let mut observer = MultiObservers::with_no_tracing();
    ex.finalize(&t, &AssocMap::new(), vec![], collateral, &mut CleanupMode::NoEmpty, result, vec![], &mut observer, None)
        .unwrap()
}

#[test]
fn finalize_reports_collateral_changes() {
    let mut c = CollateralChanges::new();
    c.record_storage_occupy(addr(7, 0), 64);
    c.record_storage_occupy(addr(3, 0), 128);
    c.record_storage_release(addr(5, 0), 32);
    match finalize_with(&c, true) {
        ExecutionOutcome::Finished(e) => {
            assert_eq!(e.storage_collateralized, vec![change(addr(3, 0), 128), change(addr(7, 0), 64)]);
            assert_eq!(e.storage_released, vec![change(addr(5, 0), 32)]);
            assert_eq!(e.estimated_storage_limit, 128);
        },
        _ => panic!("expected finished"),
    }
}

#[test]
fn reverted_transaction_reports_no_collateral() {
    let mut c = CollateralChanges::new();
    c.record_storage_occupy(addr(7, 0), 64);
    match finalize_with(&c, false) {
        ExecutionOutcome::ExecutionErrorBumpNonce(ExecutionError::VmError(VmError::Reverted), e) => {
            assert!(e.storage_collateralized.is_empty());
            assert!(e.storage_released.is_empty());
            assert_eq!(e.estimated_storage_limit, 0);
        },
        _ => panic!("expected reverted"),
    }
}
