use cfx_evm::assoc::AssocMap;
use cfx_evm::collateral::CollateralChanges;
use cfx_evm::execution::{
    ChargeCollateral, virtual_sender_grant_for,
    estimated_gas_limit, revise_estimate, Action, EstimateRequest, Executed, ExecutionError, ExecutionOutcome,
    SignedTransaction, ToRepackError, TransactCheckSettings, TransactOptions, TransactStep, TxDropError, TXExecutor,
};
use cfx_evm::executive::{ActionValue, CallType, CreateType, FrameResult, Spec, VmError};
use cfx_evm::observer::{AddressPocket, MultiObservers};
use cfx_evm::state::{CleanupMode, State};
use cfx_evm::statedb::StateDb;
use cfx_evm::storage::InMemoryDb;
use cfx_evm::types::{Address, AddressWithSpace, Space, U256, U512};

fn spec() -> Spec {
    Spec {
        tx_gas: 21000,
        tx_create_gas: 53000,
        tx_data_zero_gas: 4,
        tx_data_non_zero_gas: 16,
        account_start_nonce: U256::zero(),
    }
}

fn addr(last: u8) -> Address {
    let mut b = [0u8; 20];
    b[0] = 0x10;
    b[19] = last;
    Address(b)
}

fn tx(sender: Address, nonce: u64, gas: u64, gas_price: u64, value: u64, action: Action) -> SignedTransaction {
    SignedTransaction {
        sender,
        nonce: U256::from_u64(nonce),
        gas_price: U256::from_u64(gas_price),
        gas: U256::from_u64(gas),
        value: U256::from_u64(value),
        action,
        data: vec![],
    }
}

fn executor_with(sender: AddressWithSpace, balance: u64) -> TXExecutor<InMemoryDb> {
    let mut state = State::new(StateDb::new(InMemoryDb::new())).unwrap();
    if balance > 0 {
        state.add_balance(&sender, &U256::from_u64(balance), &mut CleanupMode::NoEmpty, U256::zero()).unwrap();
    }
    TXExecutor::new(state, spec(), 1)
}

#[test]
fn old_nonce_is_dropped() {
    let s = addr(1);
    let mut ex = executor_with(s.with_evm_space(), 1_000_000);
    ex.state.inc_nonce(&s.with_evm_space(), &U256::zero()).unwrap();
    let t = tx(s, 0, 21000, 1, 0, Action::Call(addr(2)));
    let mut observer = MultiObservers::with_no_tracing();
    let step = ex
        .transact_prepare(&t, TransactCheckSettings::all_checks(), &mut observer, &mut CleanupMode::NoEmpty)
        .unwrap();
    match step {
        TransactStep::Done(ExecutionOutcome::NotExecutedDrop(TxDropError::OldNonce(expected, got))) => {
            assert_eq!(expected, U256::one());
            assert_eq!(got, U256::zero());
        },
        _ => panic!("expected a dropped transaction"),
    }
}

#[test]
fn future_nonce_is_repacked() {
    let s = addr(3);
    let mut ex = executor_with(s.with_evm_space(), 1_000_000);
    let t = tx(s, 5, 21000, 1, 0, Action::Call(addr(2)));
    let mut observer = MultiObservers::with_no_tracing();
    let step = ex
        .transact_prepare(&t, TransactCheckSettings::all_checks(), &mut observer, &mut CleanupMode::NoEmpty)
        .unwrap();
    match step {
        TransactStep::Done(ExecutionOutcome::NotExecutedToReconsiderPacking(ToRepackError::InvalidNonce {
            expected,
            got,
        })) => {
            assert_eq!(expected, U256::zero());
            assert_eq!(got, U256::from_u64(5));
        },
        _ => panic!("expected a repack"),
    }
}

#[test]
fn missing_sender_is_repacked_in_real_execution() {
    let s = addr(4);
    let mut ex = executor_with(s.with_evm_space(), 0);
    let t = tx(s, 0, 21000, 1, 0, Action::Call(addr(2)));
    let mut observer = MultiObservers::with_no_tracing();
    let step = ex
        .transact_prepare(&t, TransactCheckSettings::all_checks(), &mut observer, &mut CleanupMode::NoEmpty)
        .unwrap();
    assert!(matches!(
        step,
        TransactStep::Done(ExecutionOutcome::NotExecutedToReconsiderPacking(ToRepackError::SenderDoesNotExist))
    ));
}

#[test]
fn poor_sender_pays_what_it_can() {
    let s = addr(5);
    let sender = s.with_evm_space();
    let mut ex = executor_with(sender, 15000);
    let t = tx(s, 0, 21000, 1, 100, Action::Call(addr(2)));
    let mut observer = MultiObservers::with_tracing();
    let step = ex
        .transact_prepare(&t, TransactCheckSettings::all_checks(), &mut observer, &mut CleanupMode::NoEmpty)
        .unwrap();
    match step {
        TransactStep::Done(ExecutionOutcome::ExecutionErrorBumpNonce(
            ExecutionError::NotEnoughCash { required, got, actual_gas_cost, max_storage_limit_cost },
            executed,
        )) => {
            assert_eq!(required, U512::from_u256(U256::from_u64(21100)));
            assert_eq!(got, U512::from_u256(U256::from_u64(15000)));
            assert_eq!(actual_gas_cost, U256::from_u64(15000));
            assert_eq!(max_storage_limit_cost, U256::zero());
            assert_eq!(executed.fee, U256::from_u64(15000));
            assert_eq!(executed.gas_charged, U256::from_u64(15000));
            assert_eq!(executed.gas_used, U256::from_u64(21000));
            assert_eq!(executed.trace.len(), 1);
            assert_eq!(executed.trace[0].from, AddressPocket::Balance(sender));
            assert_eq!(executed.trace[0].to, AddressPocket::GasPayment);
            assert_eq!(executed.trace[0].value, U256::from_u64(15000));
        },
        _ => panic!("expected not enough cash"),
    }
    assert_eq!(ex.state.balance(&sender).unwrap(), U256::zero());
    assert_eq!(ex.state.nonce(&sender).unwrap(), U256::one());
}

#[test]
fn rich_sender_call_is_executed() {
    let s = addr(6);
    let sender = s.with_evm_space();
    let mut ex = executor_with(sender, 100_000);
    let mut t = tx(s, 0, 30000, 2, 7, Action::Call(addr(2)));
    t.data = vec![0, 1];
    let mut observer = MultiObservers::with_no_tracing();
    let step = ex
        .transact_prepare(&t, TransactCheckSettings::all_checks(), &mut observer, &mut CleanupMode::NoEmpty)
        .unwrap();
    match step {
        TransactStep::Execute { params, is_create, base_gas_required } => {
            assert!(!is_create);
            assert_eq!(base_gas_required, 21000 + 4 + 16);
            assert_eq!(params.gas, U256::from_u64(30000 - 21020));
            assert_eq!(params.address, addr(2));
            assert_eq!(params.sender, s);
            assert!(matches!(params.value, ActionValue::Transfer(v) if v == U256::from_u64(7)));
            assert_eq!(params.call_type, CallType::Call);
            assert_eq!(params.data, Some(vec![0, 1]));
            assert_eq!(params.code, None);
        },
        _ => panic!("expected execution"),
    }
    assert_eq!(ex.state.balance(&sender).unwrap(), U256::from_u64(100_000 - 60000));
    assert_eq!(ex.state.nonce(&sender).unwrap(), U256::one());
}

#[test]
fn create_is_executed_at_the_derived_address() {
    let s = addr(7);
    let sender = s.with_evm_space();
    let mut ex = executor_with(sender, 100_000);
    let t = tx(s, 0, 60000, 1, 0, Action::Create);
    let mut observer = MultiObservers::with_no_tracing();
    let step = ex
        .transact_prepare(&t, TransactCheckSettings::all_checks(), &mut observer, &mut CleanupMode::NoEmpty)
        .unwrap();
    let (expected, _) = cfx_evm::executive::contract_address(
        cfx_evm::executive::CreateContractAddress::FromSenderNonce,
        0,
        &sender,
        &U256::zero(),
        &[],
    );
    match step {
        TransactStep::Execute { params, is_create, base_gas_required } => {
            assert!(is_create);
            assert_eq!(base_gas_required, 53000);
            assert_eq!(params.address, expected.address);
            assert_eq!(params.create_type, CreateType::CREATE);
            assert_eq!(params.code, Some(vec![]));
        },
        _ => panic!("expected execution"),
    }
}

#[test]
fn finalize_refunds_unused_gas() {
    let s = addr(8);
    let sender = s.with_evm_space();
    let mut ex = executor_with(sender, 1000);
    let t = tx(s, 0, 100_000, 2, 0, Action::Call(addr(2)));
    let result = Ok(FrameResult {
        space: Space::Ethereum,
        gas_left: U256::from_u64(10_000),
        apply_state: true,
        return_data: vec![],
        create_address: None,
    });
    let mut observer = MultiObservers::with_no_tracing();
    let outcome = ex
        .finalize(&t, &AssocMap::new(), vec![], &CollateralChanges::new(), &mut CleanupMode::NoEmpty, result, vec![3], &mut observer, None)
        .unwrap();
    match outcome {
        ExecutionOutcome::Finished(e) => {
            assert_eq!(e.gas_used, U256::from_u64(90_000));
            assert_eq!(e.gas_charged, U256::from_u64(90_000));
            assert_eq!(e.fee, U256::from_u64(180_000));
            assert_eq!(e.output, vec![3]);
        },
        _ => panic!("expected finished"),
    }
    assert_eq!(ex.state.balance(&sender).unwrap(), U256::from_u64(1000 + 20_000));
}

#[test]
fn finalize_charges_three_quarters_when_much_gas_is_left() {
    let s = addr(9);
    let sender = s.with_evm_space();
    let mut ex = executor_with(sender, 1);
    let t = tx(s, 0, 100_000, 3, 0, Action::Call(addr(2)));
    let result = Ok(FrameResult {
        space: Space::Ethereum,
        gas_left: U256::from_u64(60_000),
        apply_state: false,
        return_data: vec![],
        create_address: None,
    });
    let mut observer = MultiObservers::with_no_tracing();
    let outcome = ex
        .finalize(&t, &AssocMap::new(), vec![], &CollateralChanges::new(), &mut CleanupMode::NoEmpty, result, vec![], &mut observer, None)
        .unwrap();
    match outcome {
        ExecutionOutcome::ExecutionErrorBumpNonce(ExecutionError::VmError(VmError::Reverted), e) => {
            assert_eq!(e.gas_used, U256::from_u64(40_000));
            assert_eq!(e.gas_charged, U256::from_u64(75_000));
            assert_eq!(e.fee, U256::from_u64(225_000));
        },
        _ => panic!("expected reverted"),
    }
    assert_eq!(ex.state.balance(&sender).unwrap(), U256::from_u64(1 + 75_000));
}

#[test]
fn finalize_charges_a_vm_error_fully() {
    let s = addr(10);
    let sender = s.with_evm_space();
    let mut ex = executor_with(sender, 1);
    let t = tx(s, 0, 100_000, 3, 0, Action::Call(addr(2)));
    let mut observer = MultiObservers::with_no_tracing();
    let outcome = ex
        .finalize(
            &t,
            &AssocMap::new(),
            vec![],
            &CollateralChanges::new(),
            &mut CleanupMode::NoEmpty,
            Err(VmError::MutableCallInStaticContext),
            vec![],
            &mut observer,
            None,
        )
        .unwrap();
    match outcome {
        ExecutionOutcome::ExecutionErrorBumpNonce(ExecutionError::VmError(VmError::MutableCallInStaticContext), e) => {
            assert_eq!(e.gas_used, U256::from_u64(100_000));
            assert_eq!(e.gas_charged, U256::from_u64(100_000));
            assert_eq!(e.fee, U256::from_u64(300_000));
        },
        _ => panic!("expected a vm error"),
    }
    // With no gas left nothing is refunded.
    assert_eq!(ex.state.balance(&sender).unwrap(), U256::from_u64(1));
}

#[test]
fn kill_process_burns_suicided_contracts() {
    let (c1, c2) = (addr(11).with_evm_space(), addr(12).with_evm_space());
    let mut ex = executor_with(c1, 40);
    ex.state.add_balance(&c2, &U256::from_u64(60), &mut CleanupMode::NoEmpty, U256::zero()).unwrap();
    ex.state.add_total_issued(U256::from_u64(150));
    let mut suicides = AssocMap::new();
    suicides.insert(c1, ());
    suicides.insert(c2, ());
    let mut observer = MultiObservers::with_tracing();
    ex.kill_process(&suicides, &mut observer).unwrap();
    assert_eq!(ex.state.total_issued_tokens(), U256::from_u64(50));
    assert_eq!(ex.state.balance(&c1).unwrap(), U256::zero());
    assert_eq!(ex.state.balance(&c2).unwrap(), U256::zero());
    let traces = observer.drain_traces();
    assert_eq!(traces.len(), 2);
    for (t, (c, v)) in traces.iter().zip([(c1, 40u64), (c2, 60u64)]) {
        assert_eq!(t.from, AddressPocket::Balance(c));
        assert_eq!(t.to, AddressPocket::MintBurn);
        assert_eq!(t.value, U256::from_u64(v));
        assert!(t.valid);
    }
}

#[test]
fn finalize_traces_the_refund_then_the_burns() {
    let s = addr(15);
    let sender = s.with_evm_space();
    let c = addr(16).with_evm_space();
    let mut ex = executor_with(sender, 1000);
    ex.state.add_balance(&c, &U256::from_u64(70), &mut CleanupMode::NoEmpty, U256::zero()).unwrap();
    ex.state.add_total_issued(U256::from_u64(1070));
    let mut suicides = AssocMap::new();
    suicides.insert(c, ());
    let t = tx(s, 0, 100_000, 2, 0, Action::Call(addr(2)));
    let result = Ok(FrameResult {
        space: Space::Ethereum,
        gas_left: U256::from_u64(10_000),
        apply_state: true,
        return_data: vec![],
        create_address: None,
    });
    let mut observer = MultiObservers::with_tracing();
    let outcome = ex
        .finalize(&t, &suicides, vec![], &CollateralChanges::new(), &mut CleanupMode::NoEmpty, result, vec![], &mut observer, None)
        .unwrap();
    match outcome {
        ExecutionOutcome::Finished(e) => {
            assert_eq!(e.trace.len(), 2);
            assert_eq!(e.trace[0].from, AddressPocket::GasPayment);
            assert_eq!(e.trace[0].to, AddressPocket::Balance(sender));
            assert_eq!(e.trace[0].value, U256::from_u64(20_000));
            assert_eq!(e.trace[1].from, AddressPocket::Balance(c));
            assert_eq!(e.trace[1].to, AddressPocket::MintBurn);
            assert_eq!(e.trace[1].value, U256::from_u64(70));
        },
        _ => panic!("expected finished"),
    }
    assert_eq!(ex.state.total_issued_tokens(), U256::from_u64(1000));
}

fn executed(gas_used: u64, gas_charged: u64, fee: u64, estimated: Option<u64>) -> Executed {
    Executed {
        gas_used: U256::from_u64(gas_used),
        fee: U256::from_u64(fee),
        gas_charged: U256::from_u64(gas_charged),
        output: vec![],
        trace: vec![],
        estimated_gas_limit: estimated.map(U256::from_u64),
        contracts_created: vec![],
        gas_sponsor_paid: false,
        storage_sponsor_paid: false,
        storage_collateralized: vec![],
        storage_released: vec![],
        estimated_storage_limit: 0,
    }
}

#[test]
fn revise_estimate_without_gas_limit() {
    let t = tx(addr(13), 0, 1_000_000, 2, 0, Action::Call(addr(2)));
    let request = EstimateRequest {
        has_sender: false,
        has_gas_limit: false,
        has_gas_price: false,
        has_nonce: false,
        has_storage_limit: false,
    };
    match revise_estimate(&t, request, U256::zero(), executed(30_000, 30_000, 60_000, Some(50_000))) {
        ExecutionOutcome::Finished(e) => {
            assert_eq!(e.gas_charged, U256::from_u64(37_500));
            assert_eq!(e.fee, U256::from_u64(75_000));
        },
        _ => panic!("expected finished"),
    }
    match revise_estimate(&t, request, U256::zero(), executed(45_000, 45_000, 90_000, Some(50_000))) {
        ExecutionOutcome::Finished(e) => assert_eq!(e.gas_charged, U256::from_u64(45_000)),
        _ => panic!("expected finished"),
    }
}

#[test]
fn revise_estimate_rechecks_the_sender_balance() {
    let t = tx(addr(14), 0, 1_000_000, 2, 100, Action::Call(addr(2)));
    let request = EstimateRequest {
        has_sender: true,
        has_gas_limit: true,
        has_gas_price: true,
        has_nonce: true,
        has_storage_limit: false,
    };
    match revise_estimate(&t, request, U256::from_u64(1000), executed(300, 300, 600, Some(400))) {
        ExecutionOutcome::Finished(e) => {
            assert_eq!(e.gas_charged, U256::from_u64(300));
            assert_eq!(e.fee, U256::from_u64(600));
        },
        _ => panic!("expected finished"),
    }
    match revise_estimate(&t, request, U256::from_u64(500), executed(300, 300, 600, Some(400))) {
        ExecutionOutcome::ExecutionErrorBumpNonce(ExecutionError::NotEnoughCash { required, got, actual_gas_cost, .. }, _) => {
            assert_eq!(required, U512::from_u256(U256::from_u64(900)));
            assert_eq!(got, U512::from_u256(U256::from_u64(500)));
            assert_eq!(actual_gas_cost, U256::from_u64(500));
        },
        _ => panic!("expected not enough cash"),
    }
}

#[test]
fn estimated_gas_limit_is_seven_sixths_plus_base() {
    let mut observer = MultiObservers::virtual_call();
    observer.gas_man.as_mut().unwrap().record_gas_required(U256::from_u64(60_000));
    assert_eq!(estimated_gas_limit(&observer, 21_000), Some(U256::from_u64(70_000 + 21_000)));
    assert_eq!(estimated_gas_limit(&MultiObservers::with_no_tracing(), 21_000), None);
}

#[test]
fn executed_constructors() {
    let t = tx(addr(15), 0, 1000, 4, 0, Action::Call(addr(2)));
    let e = Executed::not_enough_balance_fee_charged(&t, &U256::from_u64(402), vec![]);
    assert_eq!(e.gas_charged, U256::from_u64(100));
    assert_eq!(e.fee, U256::from_u64(402));
    let e = Executed::execution_error_fully_charged(&t, vec![]);
    assert_eq!(e.fee, U256::from_u64(4000));
    let free = tx(addr(15), 0, 1000, 0, 0, Action::Call(addr(2)));
    assert_eq!(Executed::not_enough_balance_fee_charged(&free, &U256::zero(), vec![]).gas_charged, U256::zero());
}

#[test]
fn transact_options() {
    let o = TransactOptions::exec_with_tracing();
    assert!(o.observer.tracer.is_some() && o.observer.gas_man.is_none());
    assert!(o.check_settings.charge_gas && o.check_settings.real_execution);
    let o = TransactOptions::exec_with_no_tracing();
    assert!(o.observer.tracer.is_none());
    let request = EstimateRequest {
        has_sender: true,
        has_gas_limit: false,
        has_gas_price: true,
        has_nonce: false,
        has_storage_limit: false,
    };
    let o = TransactOptions::estimate_first_pass(request);
    assert!(o.observer.gas_man.is_some());
    assert!(!o.check_settings.charge_gas);
    assert!(!o.check_settings.real_execution);
    assert_eq!(o.check_settings.charge_collateral, ChargeCollateral::EstimateSender);
    let o = TransactOptions::estimate_second_pass(request);
    assert_eq!(o.check_settings.charge_collateral, ChargeCollateral::EstimateSponsor);
    assert!(!o.check_settings.check_epoch_height);
    assert!(TransactOptions::exec_with_tracing().check_settings.check_epoch_height);
}

#[test]
fn virtual_execution_reverts_its_changes() {
    let s = addr(16);
    let sender = s.with_evm_space();
    let mut ex = executor_with(sender, 500);
    let mut t = tx(s, 9, 100_000, 0, 0, Action::Call(addr(2)));
    let request = EstimateRequest {
        has_sender: true,
        has_gas_limit: true,
        has_gas_price: false,
        has_nonce: false,
        has_storage_limit: false,
    };
    let balance = ex.transact_virtual_prepare(&mut t, request).unwrap();
    assert_eq!(balance, U256::from_u64(500));
    assert_eq!(t.nonce, U256::zero());
    ex.state.add_balance(&sender, &U256::from_u64(1), &mut CleanupMode::NoEmpty, U256::zero()).unwrap();
    let outcome = ex.transact_virtual_finish(&t, request, balance, ExecutionOutcome::Finished(executed(1, 1, 0, Some(1))));
    assert!(matches!(outcome, ExecutionOutcome::Finished(_)));
    assert_eq!(ex.state.balance(&sender).unwrap(), U256::from_u64(500));
}

#[test]
fn virtual_execution_without_sender_makes_one_up() {
    let mut ex = executor_with(addr(17).with_evm_space(), 0);
    let mut t = tx(Address([0; 20]), 0, 100_000, 0, 5, Action::Call(addr(2)));
    let request = EstimateRequest {
        has_sender: false,
        has_gas_limit: true,
        has_gas_price: false,
        has_nonce: false,
        has_storage_limit: false,
    };
    let balance = ex.transact_virtual_prepare(&mut t, request).unwrap();
    // One billion CFX plus the value.
    let expected = U256([0x9fd0_803c_e800_0005, 0x33b2e3c, 0, 0]);
    assert_eq!(balance, expected);
    assert_eq!(ex.state.total_issued_tokens(), expected);
    assert_eq!(ex.state.balance(&t.sender()).unwrap(), expected);
    assert_eq!(virtual_sender_grant_for(U256::from_u64(5)), expected);
}

#[test]
fn stale_nonce_needs_no_base_gas() {
    let s = addr(18);
    let mut ex = executor_with(s.with_evm_space(), 1_000_000);
    ex.state.inc_nonce(&s.with_evm_space(), &U256::zero()).unwrap();
    // Far too little gas, but the nonce is stale: the nonce outcome comes first.
    let t = tx(s, 0, 1, 1, 0, Action::Call(addr(2)));
    let mut observer = MultiObservers::with_no_tracing();
    let step = ex
        .transact_prepare(&t, TransactCheckSettings::all_checks(), &mut observer, &mut CleanupMode::NoEmpty)
        .unwrap();
    assert!(matches!(step, TransactStep::Done(ExecutionOutcome::NotExecutedDrop(TxDropError::OldNonce(_, _)))));
}

#[test]
fn finalize_keeps_the_sender_nonce() {
    let s = addr(19);
    let sender = s.with_evm_space();
    let mut ex = executor_with(sender, 1000);
    ex.state.inc_nonce(&sender, &U256::zero()).unwrap();
    let t = tx(s, 0, 100_000, 1, 0, Action::Call(addr(2)));
    let result = Ok(FrameResult {
        space: Space::Ethereum,
        gas_left: U256::from_u64(79_000),
        apply_state: true,
        return_data: vec![],
        create_address: None,
    });
    let mut observer = MultiObservers::with_no_tracing();
    let created = vec![addr(20).with_evm_space()];
    match ex.finalize(&t, &AssocMap::new(), created.clone(), &CollateralChanges::new(), &mut CleanupMode::NoEmpty, result, vec![], &mut observer, None).unwrap() {
        ExecutionOutcome::Finished(e) => {
            assert_eq!(e.gas_charged, U256::from_u64(75_000));
            assert_eq!(e.contracts_created, created);
        },
        _ => panic!("expected finished"),
    }
    assert_eq!(ex.state.nonce(&sender).unwrap(), U256::one());
    assert_eq!(ex.state.balance(&sender).unwrap(), U256::from_u64(26_000));
}

#[test]
fn made_up_sender_keeps_its_grant_after_the_estimate() {
    let other = addr(19).with_evm_space();
    let mut ex = executor_with(other, 300);
    let mut t = tx(Address([0; 20]), 0, 100_000, 0, 5, Action::Call(addr(2)));
    let request = EstimateRequest {
        has_sender: false,
        has_gas_limit: true,
        has_gas_price: false,
        has_nonce: false,
        has_storage_limit: false,
    };
    let before = ex.state.open_checkpoints();
    let balance = ex.transact_virtual_prepare(&mut t, request).unwrap();
    let grant = virtual_sender_grant_for(U256::from_u64(5));
    // What the estimated run does is undone.
    ex.state.add_balance(&other, &U256::from_u64(7), &mut CleanupMode::NoEmpty, U256::zero()).unwrap();
    ex.state.inc_nonce(&t.sender(), &U256::zero()).unwrap();
    let outcome = ex.transact_virtual_finish(&t, request, balance, ExecutionOutcome::Finished(executed(1, 1, 0, Some(1))));
    assert!(matches!(outcome, ExecutionOutcome::Finished(_)));
    assert_eq!(ex.state.open_checkpoints(), before);
    assert_eq!(ex.state.balance(&other).unwrap(), U256::from_u64(300));
    assert_eq!(ex.state.balance(&t.sender()).unwrap(), grant);
    assert_eq!(ex.state.nonce(&t.sender()).unwrap(), U256::zero());
    assert_eq!(ex.state.total_issued_tokens(), grant);
}
