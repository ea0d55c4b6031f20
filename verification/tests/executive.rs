use cfx_evm::assoc::AssocMap;
use cfx_evm::observer::{AddressPocket, MultiObservers};
use cfx_evm::executive::{
    check_static_flag, contract_address, CallCreateFrame, FrameAction, FrameEvent, FrameKind, FrameStack, gas_required_for, into_contract_create_result, into_message_call_result,
    suicide, transfer_exec_balance, transfer_exec_balance_and_init_contract, ActionParams, ActionValue, CallType,
    ContractCreateResult, CreateContractAddress, CreateType, FrameResult, MessageCallResult, ParamsType, Spec,
    VmError,
};
use cfx_evm::state::{CleanupMode, State};
use cfx_evm::statedb::StateDb;
use cfx_evm::storage::InMemoryDb;
use cfx_evm::types::{Address, AddressWithSpace, Space, H256, U256};

fn spec() -> Spec {
    Spec {
        tx_gas: 21000,
        tx_create_gas: 53000,
        tx_data_zero_gas: 4,
        tx_data_non_zero_gas: 16,
        account_start_nonce: U256::zero(),
    }
}

fn address_from_hex(s: &str) -> Address {
    let mut bytes = [0u8; 20];
    for i in 0..20 {
        bytes[i] = u8::from_str_radix(&s[2 * i..2 * i + 2], 16).unwrap();
    }
    Address(bytes)
}

fn addr(last: u8) -> AddressWithSpace {
    let mut b = [0u8; 20];
    b[0] = 0x10;
    b[19] = last;
    Address(b).with_evm_space()
}

fn params(sender: AddressWithSpace, receiver: AddressWithSpace, value: ActionValue, call_type: CallType) -> ActionParams {
    ActionParams {
        space: Space::Ethereum,
        code_address: receiver.address,
        code_hash: None,
        address: receiver.address,
        sender: sender.address,
        original_sender: sender.address,
        gas: U256::from_u64(100_000),
        gas_price: U256::one(),
        value,
        code: None,
        data: None,
        call_type,
        create_type: CreateType::Nothing,
        params_type: ParamsType::Separate,
    }
}

fn new_state() -> State<InMemoryDb> {
    State::new(StateDb::new(InMemoryDb::new())).unwrap()
}

#[test]
fn gas_required_for_adds_over_concatenation_and_ignores_order() {
    let base = gas_required_for(false, &[], &spec());
    let a = gas_required_for(false, &[0, 1], &spec());
    let b = gas_required_for(false, &[0, 0, 2], &spec());
    assert_eq!(gas_required_for(false, &[0, 1, 0, 0, 2], &spec()), a + b - base);
    assert_eq!(gas_required_for(false, &[2, 0, 1, 0, 0], &spec()), a + b - base);
    assert!(gas_required_for(true, &[5, 0], &spec()) >= gas_required_for(true, &[], &spec()));
}

#[test]
fn gas_required_for_counts_zero_and_non_zero_bytes() {
    assert_eq!(gas_required_for(false, &[], &spec()), 21000);
    assert_eq!(gas_required_for(true, &[], &spec()), 53000);
    assert_eq!(gas_required_for(false, &[0, 1, 2, 0], &spec()), 21000 + 4 + 16 + 16 + 4);
    assert_eq!(gas_required_for(true, &[0xff; 10], &spec()), 53000 + 160);
}

#[test]
fn contract_address_from_sender_nonce_matches_known_addresses() {
    let sender = address_from_hex("6ac7ea33f8831ea9dcc53393aaa88b25a785dbf0").with_evm_space();
    let (a0, h0) = contract_address(CreateContractAddress::FromSenderNonce, 0, &sender, &U256::zero(), &[]);
    assert_eq!(a0.address, address_from_hex("cd234a471b72ba2f1ccf0a70fcaba648a5eecd8d"));
    assert_eq!(a0.space, Space::Ethereum);
    assert_eq!(h0.unwrap().0, keccak_hash::KECCAK_EMPTY.0);
    let (a1, _) = contract_address(CreateContractAddress::FromSenderNonce, 0, &sender, &U256::one(), &[]);
    assert_eq!(a1.address, address_from_hex("343c43a37d37dff08ae8c4a11544c718abb4fcf8"));
}

#[test]
fn contract_address_from_salt_and_code_hash() {
    let sender = address_from_hex("0000000000000000000000000000000000000000").with_evm_space();
    let salt = H256([0u8; 32]);
    let code = [0x00u8];
    let (a, h) = contract_address(CreateContractAddress::FromSenderSaltAndCodeHash(salt), 0, &sender, &U256::zero(), &code);
    let code_hash = keccak_hash::keccak(code);
    assert_eq!(h.unwrap().0, code_hash.0);
    let mut buffer = vec![0xffu8];
    buffer.extend_from_slice(&sender.address.0);
    buffer.extend_from_slice(&salt.0);
    buffer.extend_from_slice(&code_hash.0);
    let expected = keccak_hash::keccak(&buffer);
    assert_eq!(a.address.0[..], expected.0[12..]);
    // The CREATE2 example of EIP-1014 with address 0x00.., salt 0x00.., code 0x00.
    assert_eq!(a.address, address_from_hex("4d1a2e2bb4f88f0250f26ffff098b0b30b26bf38"));
}

#[test]
fn static_flag_forbids_value_and_creates() {
    let (s, r) = (addr(1), addr(2));
    let with_value = params(s, r, ActionValue::Transfer(U256::one()), CallType::Call);
    let without_value = params(s, r, ActionValue::Transfer(U256::zero()), CallType::Call);
    assert_eq!(check_static_flag(&with_value, true, false), Err(VmError::MutableCallInStaticContext));
    assert_eq!(check_static_flag(&without_value, true, false), Ok(()));
    assert_eq!(check_static_flag(&with_value, false, false), Ok(()));
    let delegate = params(s, r, ActionValue::Apparent(U256::one()), CallType::DelegateCall);
    assert_eq!(check_static_flag(&delegate, true, false), Ok(()));
    assert_eq!(check_static_flag(&without_value, true, true), Err(VmError::MutableCallInStaticContext));
    assert_eq!(check_static_flag(&without_value, false, true), Ok(()));
}

#[test]
fn message_call_results() {
    let ok = FrameResult {
        space: Space::Ethereum,
        gas_left: U256::from_u64(5),
        apply_state: true,
        return_data: vec![1],
        create_address: None,
    };
    match into_message_call_result(Ok(ok)) {
        MessageCallResult::Success(g, d) => {
            assert_eq!(g, U256::from_u64(5));
            assert_eq!(d, vec![1]);
        },
        _ => panic!("expected success"),
    }
    let reverted = FrameResult {
        space: Space::Ethereum,
        gas_left: U256::from_u64(6),
        apply_state: false,
        return_data: vec![2],
        create_address: None,
    };
    match into_message_call_result(Ok(reverted)) {
        MessageCallResult::Reverted(g, d) => {
            assert_eq!(g, U256::from_u64(6));
            assert_eq!(d, vec![2]);
        },
        _ => panic!("expected revert"),
    }
    match into_message_call_result(Err(VmError::Reverted)) {
        MessageCallResult::Failed(e) => assert_eq!(e, VmError::Reverted),
        _ => panic!("expected failure"),
    }
}

#[test]
fn contract_create_results() {
    let created = FrameResult {
        space: Space::Ethereum,
        gas_left: U256::from_u64(5),
        apply_state: true,
        return_data: vec![],
        create_address: Some(addr(9).address),
    };
    match into_contract_create_result(Ok(created)) {
        ContractCreateResult::Created(a, g) => {
            assert_eq!(a, addr(9));
            assert_eq!(g, U256::from_u64(5));
        },
        _ => panic!("expected creation"),
    }
    match into_contract_create_result(Err(VmError::MutableCallInStaticContext)) {
        ContractCreateResult::Failed(e) => assert_eq!(e, VmError::MutableCallInStaticContext),
        _ => panic!("expected failure"),
    }
}

#[test]
fn transfer_exec_balance_moves_transfer_values_only() {
    let mut state = new_state();
    let (s, r) = (addr(3), addr(4));
    state.add_balance(&s, &U256::from_u64(100), &mut CleanupMode::NoEmpty, U256::zero()).unwrap();
    let p = params(s, r, ActionValue::Transfer(U256::from_u64(40)), CallType::Call);
    transfer_exec_balance(&p, &mut state, &mut CleanupMode::NoEmpty, U256::zero()).unwrap();
    assert_eq!(state.balance(&s).unwrap(), U256::from_u64(60));
    assert_eq!(state.balance(&r).unwrap(), U256::from_u64(40));
    let p = params(s, r, ActionValue::Apparent(U256::from_u64(40)), CallType::DelegateCall);
    transfer_exec_balance(&p, &mut state, &mut CleanupMode::NoEmpty, U256::zero()).unwrap();
    assert_eq!(state.balance(&s).unwrap(), U256::from_u64(60));
}

#[test]
fn init_contract_keeps_prior_balance() {
    let mut state = new_state();
    let (s, c) = (addr(5), addr(6));
    state.add_balance(&s, &U256::from_u64(100), &mut CleanupMode::NoEmpty, U256::zero()).unwrap();
    state.add_balance(&c, &U256::from_u64(7), &mut CleanupMode::NoEmpty, U256::zero()).unwrap();
    let p = params(s, c, ActionValue::Transfer(U256::from_u64(30)), CallType::Nothing);
    transfer_exec_balance_and_init_contract(&p, &mut state, &mut CleanupMode::NoEmpty, None).unwrap();
    assert_eq!(state.balance(&s).unwrap(), U256::from_u64(70));
    assert_eq!(state.balance(&c).unwrap(), U256::from_u64(37));
    assert_eq!(state.nonce(&c).unwrap(), U256::one());
}

#[test]
fn suicide_to_self_burns_balance() {
    let mut state = new_state();
    let c = addr(7);
    state.add_balance(&c, &U256::from_u64(50), &mut CleanupMode::NoEmpty, U256::zero()).unwrap();
    state.add_total_issued(U256::from_u64(80));
    let mut suicides = AssocMap::new();
    let mut observer = MultiObservers::with_tracing();
    suicide(&c, &c, &mut state, &mut suicides, &mut CleanupMode::NoEmpty, &mut observer, U256::zero()).unwrap();
    assert!(suicides.contains_key(&c));
    let traces = observer.drain_traces();
    assert_eq!(traces.len(), 1);
    assert_eq!(traces[0].from, AddressPocket::Balance(c));
    assert_eq!(traces[0].to, AddressPocket::MintBurn);
    assert_eq!(traces[0].value, U256::from_u64(50));
    assert_eq!(state.balance(&c).unwrap(), U256::zero());
    assert_eq!(state.total_issued_tokens(), U256::from_u64(30));
}

#[test]
fn suicide_to_other_transfers_balance() {
    let mut state = new_state();
    let (c, r) = (addr(8), addr(10));
    state.add_balance(&c, &U256::from_u64(50), &mut CleanupMode::NoEmpty, U256::zero()).unwrap();
    let mut suicides = AssocMap::new();
    let mut observer = MultiObservers::with_tracing();
    suicide(&c, &r, &mut state, &mut suicides, &mut CleanupMode::NoEmpty, &mut observer, U256::zero()).unwrap();
    let traces = observer.drain_traces();
    assert_eq!(traces.len(), 1);
    assert_eq!(traces[0].to, AddressPocket::Balance(r));
    assert_eq!(state.balance(&c).unwrap(), U256::zero());
    assert_eq!(state.balance(&r).unwrap(), U256::from_u64(50));
}

#[test]
fn call_frames_by_kind() {
    let (s, r) = (addr(20), addr(21));
    let transfer = CallCreateFrame::new_call_raw(params(s, r, ActionValue::Transfer(U256::one()), CallType::Call), 0, false, false, false);
    assert_eq!(transfer.kind, FrameKind::Transfer);
    assert!(!transfer.static_flag);
    let mut with_code = params(s, r, ActionValue::Transfer(U256::one()), CallType::StaticCall);
    with_code.code = Some(vec![0x00]);
    let exec = CallCreateFrame::new_call_raw(with_code, 1, false, false, false);
    assert_eq!(exec.kind, FrameKind::ExecCall);
    assert!(exec.static_flag);
    let builtin = CallCreateFrame::new_call_raw(params(s, r, ActionValue::Transfer(U256::one()), CallType::Call), 0, true, true, true);
    assert_eq!(builtin.kind, FrameKind::CallBuiltin);
    assert!(builtin.static_flag);
    let internal = CallCreateFrame::new_call_raw(params(s, r, ActionValue::Transfer(U256::one()), CallType::Call), 0, false, false, true);
    assert_eq!(internal.kind, FrameKind::CallInternalContract);
    let create = CallCreateFrame::new_create_raw(params(s, r, ActionValue::Transfer(U256::one()), CallType::Nothing), 0, false);
    assert_eq!(create.kind, FrameKind::ExecCreate);
    assert_eq!(create.create_address, Some(r.address));
    assert_eq!(*create.get_recipient(), r.address);
}

#[test]
fn frame_stack_nests_and_unwinds() {
    let (s, r) = (addr(22), addr(23));
    let mut state = new_state();
    let mut stack = FrameStack::new(21000, &state);
    let top = CallCreateFrame::new_call_raw(params(s, r, ActionValue::Transfer(U256::zero()), CallType::Call), 0, false, false, false);
    let (top, top_sub) = match stack.exec(top) {
        FrameAction::Exec(f, sub) => (f, sub),
        _ => panic!("expected exec"),
    };
    top.enter(&mut state, &mut CleanupMode::NoEmpty, U256::zero()).unwrap();
    let (callee, mut callee_sub) = match stack.step(&mut state, top, top_sub, FrameEvent::SubCall {
        params: params(r, s, ActionValue::Transfer(U256::zero()), CallType::StaticCall),
        is_builtin: false,
        is_internal_contract: false,
    }) {
        FrameAction::Exec(f, sub) => (f, sub),
        _ => panic!("expected the callee to run"),
    };
    assert_eq!(callee.depth, 1);
    assert!(callee.static_flag);
    assert!(!stack.is_empty());
    assert_eq!(stack.waiting(), 1);
    callee.enter(&mut state, &mut CleanupMode::NoEmpty, U256::zero()).unwrap();
    assert_eq!(state.open_checkpoints(), 2);
    callee_sub.suicides.insert(addr(30), ());
    let returned = FrameResult {
        space: Space::Ethereum,
        gas_left: U256::from_u64(3),
        apply_state: true,
        return_data: vec![],
        create_address: None,
    };
    let (parent, parent_sub) = match stack.step(&mut state, callee, callee_sub, FrameEvent::Return(Ok(returned))) {
        FrameAction::Resume(parent, sub, Ok(res)) => {
            assert_eq!(res.gas_left, U256::from_u64(3));
            (parent, sub)
        },
        _ => panic!("expected the caller to resume"),
    };
    assert!(parent_sub.suicides.contains_key(&addr(30)));
    assert_eq!(parent.depth, 0);
    assert!(stack.is_empty());
    assert_eq!(state.open_checkpoints(), 1);
    assert!(matches!(
        stack.step(&mut state, parent, parent_sub, FrameEvent::Return(Err(VmError::Reverted))),
        FrameAction::Done(Err(VmError::Reverted))
    ));
    // Every checkpoint the frames opened is closed again.
    assert_eq!(state.open_checkpoints(), 0);
    assert_eq!(stack.base_gas_required(), 21000);
    // The top frame failed, so what its callee destroyed is dropped.
    assert!(!stack.into_top_substate().suicides.contains_key(&addr(30)));
}

#[test]
fn reverted_frame_substate_is_dropped_and_created_contracts_kept() {
    let (s, r) = (addr(26), addr(27));
    let mut state = new_state();
    let mut stack = FrameStack::new(0, &state);
    let top = CallCreateFrame::new_create_raw(params(s, r, ActionValue::Transfer(U256::zero()), CallType::Nothing), 0, false);
    let (top, top_sub) = match stack.exec(top) {
        FrameAction::Exec(f, sub) => (f, sub),
        _ => panic!("expected exec"),
    };
    top.enter(&mut state, &mut CleanupMode::NoEmpty, U256::zero()).unwrap();
    let (callee, mut callee_sub) = match stack.step(&mut state, top, top_sub, FrameEvent::SubCall {
        params: params(r, s, ActionValue::Transfer(U256::zero()), CallType::Call),
        is_builtin: false,
        is_internal_contract: false,
    }) {
        FrameAction::Exec(f, sub) => (f, sub),
        _ => panic!("expected the callee to run"),
    };
    callee.enter(&mut state, &mut CleanupMode::NoEmpty, U256::zero()).unwrap();
    state.add_balance(&addr(32), &U256::from_u64(5), &mut CleanupMode::NoEmpty, U256::zero()).unwrap();
    callee_sub.suicides.insert(addr(31), ());
    let reverted = FrameResult {
        space: Space::Ethereum,
        gas_left: U256::zero(),
        apply_state: false,
        return_data: vec![],
        create_address: None,
    };
    let (parent, parent_sub) = match stack.step(&mut state, callee, callee_sub, FrameEvent::Return(Ok(reverted))) {
        FrameAction::Resume(parent, sub, _) => (parent, sub),
        _ => panic!("expected the caller to resume"),
    };
    assert!(!parent_sub.suicides.contains_key(&addr(31)));
    // The callee did not apply its state: what it did is undone.
    assert_eq!(state.balance(&addr(32)).unwrap(), U256::zero());
    let applied = FrameResult {
        space: Space::Ethereum,
        gas_left: U256::zero(),
        apply_state: true,
        return_data: vec![],
        create_address: Some(r.address),
    };
    assert!(matches!(stack.step(&mut state, parent, parent_sub, FrameEvent::Return(Ok(applied))), FrameAction::Done(Ok(_))));
    assert_eq!(state.open_checkpoints(), 0);
    let top = stack.into_top_substate();
    assert_eq!(top.contracts_created, vec![r]);
}

#[test]
fn frame_enter_and_leave() {
    let mut state = new_state();
    let (s, r) = (addr(24), addr(25));
    state.add_balance(&s, &U256::from_u64(100), &mut CleanupMode::NoEmpty, U256::zero()).unwrap();
    let frame = CallCreateFrame::new_call_raw(params(s, r, ActionValue::Transfer(U256::from_u64(10)), CallType::Call), 0, false, false, false);
    frame.enter(&mut state, &mut CleanupMode::NoEmpty, U256::zero()).unwrap();
    assert_eq!(state.balance(&r).unwrap(), U256::from_u64(10));
    CallCreateFrame::leave(&mut state, false);
    assert_eq!(state.balance(&r).unwrap(), U256::zero());
    assert_eq!(state.balance(&s).unwrap(), U256::from_u64(100));
    let create = CallCreateFrame::new_create_raw(params(s, r, ActionValue::Transfer(U256::from_u64(10)), CallType::Nothing), 0, false);
    create.enter(&mut state, &mut CleanupMode::NoEmpty, U256::zero()).unwrap();
    CallCreateFrame::leave(&mut state, true);
    assert_eq!(state.balance(&r).unwrap(), U256::from_u64(10));
    assert_eq!(state.nonce(&r).unwrap(), U256::one());
}
