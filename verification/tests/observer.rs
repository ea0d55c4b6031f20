use cfx_evm::observer::{AddressPocket, ExecutiveTracer, MultiObservers, StateTracer, VmObserve};
use cfx_evm::types::{Address, U256};

fn pocket() -> AddressPocket {
    let mut b = [0u8; 20];
    b[19] = 7;
    AddressPocket::Balance(Address(b).with_evm_space())
}

#[test]
fn address_pocket_names() {
    assert_eq!(pocket().pocket(), "balance");
    assert_eq!(AddressPocket::MintBurn.pocket(), "mint_or_burn");
    assert_eq!(AddressPocket::GasPayment.pocket(), "gas_payment");
    assert_eq!(pocket().space(), "evm");
    assert_eq!(AddressPocket::GasPayment.space(), "none");
    assert_eq!(AddressPocket::MintBurn.type_number(), 0);
    assert_eq!(AddressPocket::GasPayment.type_number(), 1);
    assert_eq!(pocket().type_number(), 2);
}

#[test]
fn address_pocket_addresses() {
    let mut b = [0u8; 20];
    b[19] = 7;
    assert_eq!(pocket().inner_address(), Some(&Address(b)));
    assert_eq!(pocket().inner_address_or_default(), Address(b));
    assert_eq!(AddressPocket::MintBurn.inner_address(), None);
    assert_eq!(AddressPocket::MintBurn.inner_address_or_default(), Address([0; 20]));
}

#[test]
fn observers_by_kind() {
    assert!(matches!(MultiObservers::with_tracing().as_vm_observe(), VmObserve::Tracer));
    assert!(matches!(MultiObservers::with_no_tracing().as_vm_observe(), VmObserve::Nothing));
    assert!(matches!(MultiObservers::virtual_call().as_vm_observe(), VmObserve::TracerAndGasMan));
}

#[test]
fn tracer_marks_reverted_transfers() {
    let mut tracer = ExecutiveTracer::new();
    tracer.trace_internal_transfer(pocket(), AddressPocket::GasPayment, U256::one());
    tracer.checkpoint();
    tracer.trace_internal_transfer(AddressPocket::GasPayment, pocket(), U256::one());
    tracer.revert_to_checkpoint();
    tracer.checkpoint();
    tracer.trace_internal_transfer(AddressPocket::MintBurn, pocket(), U256::one());
    tracer.discard_checkpoint();
    let traces = tracer.drain();
    assert_eq!(traces.len(), 3);
    assert!(traces[0].valid);
    assert!(!traces[1].valid);
    assert!(traces[2].valid);
    assert!(tracer.drain().is_empty());
}

#[test]
fn observers_without_tracer_record_nothing() {
    let mut observers = MultiObservers::with_no_tracing();
    observers.trace_internal_transfer(pocket(), AddressPocket::MintBurn, U256::one());
    assert!(observers.drain_traces().is_empty());
    let mut observers = MultiObservers::with_tracing();
    observers.trace_internal_transfer(pocket(), AddressPocket::MintBurn, U256::one());
    assert_eq!(observers.drain_traces().len(), 1);
}

#[test]
fn address_pocket_rlp_round_trip() {
    for p in [pocket(), AddressPocket::MintBurn, AddressPocket::GasPayment] {
        assert_eq!(AddressPocket::decode(&p.rlp_bytes()), Ok(p));
    }
    let mut s = rlp::RlpStream::new_list(1);
    s.append(&3u8);
    assert_eq!(
        AddressPocket::decode(&s.out()),
        Err(cfx_evm::codec::RlpError::Custom("Invalid internal transfer address."))
    );
}
