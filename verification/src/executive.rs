//! Transaction execution around the VM: the intrinsic gas of a
//! transaction, the address of a new contract, the checks and transfers
//! that open a call or a create, and the results that close them.
use crate::assoc::AssocMap;
use crate::collateral::{accrued, CollateralChanges};
use crate::codec::{keccak, rlp_encode_address_nonce, spec_keccak, spec_rlp_encode_address_nonce};
use crate::observer::{traced_amount, AddressPocket, MultiObservers, StateTracer};
use crate::overlay::{contract_view, storage_layout_regular_v0, OverlayView, StorageLayout};
use crate::state::{balance_of, read_matches, spec_balance, unit_of, CleanupMode, State};
use crate::statedb::{DbError, DbResult};
use crate::storage::StorageTrait;
use crate::types::{u256_modulus, Address, AddressWithSpace, Space, H256, U256};
use crate::uint::{u256_is_zero, u256_saturating_add};
use vstd::prelude::*;

verus! {

/// The gas schedule and settings of the VM that transaction execution reads.
#[derive(Clone, Copy, Debug)]
pub struct Spec {
    /// Transaction cost
    pub tx_gas: usize,
    /// `CREATE` transaction cost
    pub tx_create_gas: usize,
    /// Additional cost for empty data transaction
    pub tx_data_zero_gas: usize,
    /// Additional cost for non-empty data transaction
    pub tx_data_non_zero_gas: usize,
    /// Account start nonce.
    pub account_start_nonce: U256,
}

/// The gas that the data of a transaction costs before it runs: the base
/// cost of a call or a create, plus a cost for each byte of data, which
/// depends on whether the byte is zero.
pub open spec fn spec_gas_required(is_create: bool, data: Seq<u8>, spec: Spec) -> nat
    decreases data.len(),
{
    if data.len() == 0 {
        if is_create {
            spec.tx_create_gas as nat
        } else {
            spec.tx_gas as nat
        }
    } else {
        spec_gas_required(is_create, data.drop_last(), spec) + if data.last() == 0 {
            spec.tx_data_zero_gas as nat
        } else {
            spec.tx_data_non_zero_gas as nat
        }
    }
}

/// The gas required for data made of `a` then `b` is that for `a` plus that
/// for `b`, less the base cost counted twice.
pub proof fn lemma_gas_required_concat(is_create: bool, a: Seq<u8>, b: Seq<u8>, spec: Spec)
    ensures
        spec_gas_required(is_create, a + b, spec) == spec_gas_required(is_create, a, spec) + spec_gas_required(
            is_create,
            b,
            spec,
        ) - spec_gas_required(is_create, Seq::<u8>::empty(), spec),
    decreases b.len(),
{
    if b.len() == 0 {
        assert(a + b =~= a);
    } else {
        lemma_gas_required_concat(is_create, a, b.drop_last(), spec);
        assert((a + b).drop_last() =~= a + b.drop_last());
        assert((a + b).last() == b.last());
    }
}

/// The gas required for data is its base cost plus the cost of each zero
/// byte and of each other byte: it depends on how many bytes are zero, and
/// not on their order.
pub proof fn lemma_gas_required_counts(is_create: bool, data: Seq<u8>, spec: Spec)
    ensures
        data.to_multiset().count(0u8) <= data.len(),
        spec_gas_required(is_create, Seq::<u8>::empty(), spec) <= spec_gas_required(is_create, data, spec),
        spec_gas_required(is_create, data, spec) == spec_gas_required(is_create, Seq::<u8>::empty(), spec)
            + data.to_multiset().count(0u8) * (spec.tx_data_zero_gas as nat)
            + (data.len() - data.to_multiset().count(0u8)) * (spec.tx_data_non_zero_gas as nat),
    decreases data.len(),
{
    broadcast use vstd::seq_lib::group_to_multiset_ensures;

    if data.len() == 0 {
        assert(data.to_multiset() =~= vstd::multiset::Multiset::<u8>::empty());
    } else {
        let d = data.drop_last();
        let x = data.last();
        lemma_gas_required_counts(is_create, d, spec);
        assert(d.push(x) =~= data);
        assert(data.to_multiset() =~= d.to_multiset().insert(x));
        let z = d.to_multiset().count(0u8);
        let zg = spec.tx_data_zero_gas as nat;
        let ng = spec.tx_data_non_zero_gas as nat;
        if x == 0 {
            assert(data.to_multiset().count(0u8) == z + 1);
            assert((z + 1) * zg == z * zg + zg) by (nonlinear_arith);
            assert((data.len() - (z + 1)) == d.len() - z);
        } else {
            assert(data.to_multiset().count(0u8) == z);
            assert((data.len() - z) * ng == (d.len() - z) * ng + ng) by (nonlinear_arith)
                requires
                    data.len() == d.len() + 1,
                    d.len() >= z,
            ;
        }
    }
}

/// Data that holds the same bytes in another order takes the same gas.
pub proof fn lemma_gas_required_permutation(is_create: bool, a: Seq<u8>, b: Seq<u8>, spec: Spec)
    requires
        a.to_multiset() == b.to_multiset(),
    ensures
        spec_gas_required(is_create, a, spec) == spec_gas_required(is_create, b, spec),
{
    broadcast use vstd::seq_lib::group_to_multiset_ensures;

    lemma_gas_required_counts(is_create, a, spec);
    lemma_gas_required_counts(is_create, b, spec);
    assert(a.len() == a.to_multiset().len());
    assert(b.len() == b.to_multiset().len());
}

/// The gas required for a prefix of the data is at most that for the data.
pub proof fn lemma_gas_required_prefix(is_create: bool, data: Seq<u8>, spec: Spec, i: int)
    requires
        0 <= i <= data.len(),
    ensures
        spec_gas_required(is_create, data.take(i), spec) <= spec_gas_required(is_create, data, spec),
    decreases data.len() - i,
{
    if i < data.len() {
        lemma_gas_required_prefix(is_create, data, spec, i + 1);
        assert(data.take(i + 1).drop_last() =~= data.take(i));
    } else {
        assert(data.take(i) =~= data);
    }
}

/// The gas a transaction takes before it runs: the base cost of a call or a
/// create, plus the cost of each byte of its data.
pub fn gas_required_for(is_create: bool, data: &[u8], spec: &Spec) -> (r: u64)
    requires
        spec_gas_required(is_create, data@, *spec) <= u64::MAX,
    ensures
        r == spec_gas_required(is_create, data@, *spec),
{
    let mut g: u64 = if is_create {
        spec.tx_create_gas as u64
    } else {
        spec.tx_gas as u64
    };
    let mut i: usize = 0;
    assert(data@.take(0) =~= Seq::<u8>::empty());
    while i < data.len()
        invariant
            0 <= i <= data@.len(),
            g == spec_gas_required(is_create, data@.take(i as int), *spec),
            spec_gas_required(is_create, data@, *spec) <= u64::MAX,
        decreases data@.len() - i,
    {
        proof {
            lemma_gas_required_prefix(is_create, data@, *spec, i + 1);
            assert(data@.take(i + 1).drop_last() =~= data@.take(i as int));
        }
        let cost: u64 = if data[i] == 0 {
            spec.tx_data_zero_gas as u64
        } else {
            spec.tx_data_non_zero_gas as u64
        };
        g = g + cost;
        i += 1;
    }
    assert(data@.take(i as int) =~= data@);
    g
}

/// The gas a transaction takes before it runs, where it fits in 64 bits;
/// `None` where it does not, on which `gas_required_for` overflows.
pub fn checked_gas_required_for(is_create: bool, data: &[u8], spec: &Spec) -> (r: Option<u64>)
    ensures
        r is Some <==> spec_gas_required(is_create, data@, *spec) <= u64::MAX,
        r matches Some(g) ==> g == spec_gas_required(is_create, data@, *spec),
{
    let mut g: u64 = if is_create {
        spec.tx_create_gas as u64
    } else {
        spec.tx_gas as u64
    };
    let mut i: usize = 0;
    assert(data@.take(0) =~= Seq::<u8>::empty());
    while i < data.len()
        invariant
            0 <= i <= data@.len(),
            g == spec_gas_required(is_create, data@.take(i as int), *spec),
        decreases data@.len() - i,
    {
        proof {
            lemma_gas_required_prefix(is_create, data@, *spec, i + 1);
            assert(data@.take(i + 1).drop_last() =~= data@.take(i as int));
        }
        let cost: u64 = if data[i] == 0 {
            spec.tx_data_zero_gas as u64
        } else {
            spec.tx_data_non_zero_gas as u64
        };
        match g.checked_add(cost) {
            Some(next) => {
                g = next;
            },
            None => {
                return None;
            },
        }
        i += 1;
    }
    assert(data@.take(i as int) =~= data@);
    Some(g)
}

/// How the address of a new contract is derived.
#[derive(Clone, Copy, Debug)]
pub enum CreateContractAddress {
    /// From the sender and its nonce.
    FromSenderNonce,
    /// From the sender, a salt and the hash of the code.
    FromSenderSaltAndCodeHash(H256),
}

/// The address taken from a 32-byte hash: its last 20 bytes.
pub open spec fn address_of_hash(h: Seq<u8>) -> Seq<u8> {
    h.subrange(12, 32)
}

/// `0xff`, then the sender, the salt and the code hash.
pub open spec fn salt_preimage(sender: Seq<u8>, salt: Seq<u8>, code_hash: Seq<u8>) -> Seq<u8> {
    seq![0xffu8] + sender + salt + code_hash
}

/// The address of a contract created by `sender`.
pub open spec fn spec_contract_address(
    scheme: CreateContractAddress,
    sender: AddressWithSpace,
    nonce: nat,
    code: Seq<u8>,
) -> Seq<u8> {
    match scheme {
        CreateContractAddress::FromSenderNonce => address_of_hash(
            spec_keccak(spec_rlp_encode_address_nonce(sender.address@, nonce)),
        ),
        CreateContractAddress::FromSenderSaltAndCodeHash(salt) => address_of_hash(
            spec_keccak(salt_preimage(sender.address@, salt@, spec_keccak(code))),
        ),
    }
}

/// The address made of the last 20 bytes of a hash.
fn address_from_hash(h: &H256) -> (r: Address)
    ensures
        r@ == address_of_hash(h@),
{
    let mut a = [0u8; 20];
    let mut i: usize = 0;
    while i < 20
        invariant
            0 <= i <= 20,
            forall|j: int| 0 <= j < i ==> a[j] == h.0[j + 12],
        decreases 20 - i,
    {
        a[i] = h.0[i + 12];
        i += 1;
    }
    let r = Address(a);
    assert(r@ =~= address_of_hash(h@));
    r
}

/// Appends the bytes of `src` to `buf`.
fn push_all(buf: &mut Vec<u8>, src: &[u8])
    ensures
        final(buf)@ == old(buf)@ + src@,
{
    let mut i: usize = 0;
    while i < src.len()
        invariant
            0 <= i <= src@.len(),
            buf@ == old(buf)@ + src@.take(i as int),
        decreases src@.len() - i,
    {
        buf.push(src[i]);
        i += 1;
        assert(buf@ =~= old(buf)@ + src@.take(i as int));
    }
    assert(src@.take(i as int) =~= src@);
}

/// Calculate new contract address.
pub fn contract_address(
    address_scheme: CreateContractAddress,
    _block_number: u64,
    sender: &AddressWithSpace,
    nonce: &U256,
    code: &[u8],
) -> (r: (AddressWithSpace, Option<H256>))
    ensures
        r.0.space == sender.space,
        r.0.address@ == spec_contract_address(address_scheme, *sender, nonce@, code@),
        r.1 matches Some(h) && h@ == spec_keccak(code@),
{
    let code_hash = keccak(code);
    let address = match address_scheme {
        CreateContractAddress::FromSenderNonce => {
            let raw = rlp_encode_address_nonce(sender.address, *nonce);
            address_from_hash(&keccak(raw.as_slice()))
        },
        CreateContractAddress::FromSenderSaltAndCodeHash(salt) => {
            let mut buffer: Vec<u8> = Vec::new();
            buffer.push(0xff);
            push_all(&mut buffer, &sender.address.0);
            push_all(&mut buffer, &salt.0);
            push_all(&mut buffer, &code_hash.0);
            assert(buffer@ =~= salt_preimage(sender.address@, salt@, code_hash@));
            address_from_hash(&keccak(buffer.as_slice()))
        },
    };
    (AddressWithSpace { address, space: sender.space }, Some(code_hash))
}

} // verus!

verus! {

/// The value a call carries.
#[derive(Clone, Copy, Debug)]
pub enum ActionValue {
    /// Value that should be transferred
    Transfer(U256),
    /// Apparent value for transaction (not transferred)
    Apparent(U256),
}

impl ActionValue {
    pub open spec fn spec_value(&self) -> U256 {
        match *self {
            ActionValue::Transfer(v) => v,
            ActionValue::Apparent(v) => v,
        }
    }

    /// Returns action value as U256.
    pub fn value(&self) -> (r: U256)
        ensures
            r == self.spec_value(),
    {
        match *self {
            ActionValue::Transfer(v) => v,
            ActionValue::Apparent(v) => v,
        }
    }
}

/// The type of the call-like instruction.
#[derive(Clone, Copy, Debug, PartialEq, Eq, Structural)]
pub enum CallType {
    /// Not a CALL.
    Nothing,
    /// CALL.
    Call,
    /// CALLCODE.
    CallCode,
    /// DELEGATECALL.
    DelegateCall,
    /// STATICCALL.
    StaticCall,
}

/// The type of the create-like instruction.
#[derive(Clone, Copy, Debug, PartialEq, Eq, Structural)]
pub enum CreateType {
    /// Not a create.
    Nothing,
    /// CREATE.
    CREATE,
    /// CREATE2.
    CREATE2,
}

/// How the code and the data of a call are given.
#[derive(Clone, Copy, Debug, PartialEq, Eq, Structural)]
pub enum ParamsType {
    /// Parameters are included in code
    Embedded,
    /// Parameters are passed in data section
    Separate,
}

/// Action (call/create) input params. Everything else should be specified in
/// Externalities.
#[derive(Debug)]
pub struct ActionParams {
    /// The space of the call.
    pub space: Space,
    /// Address of currently executed code.
    pub code_address: Address,
    /// Hash of currently executed code.
    pub code_hash: Option<H256>,
    /// Receive address. Usually equal to code_address,
    /// except when called using CALLCODE.
    pub address: Address,
    /// Sender of current part of the transaction.
    pub sender: Address,
    /// Transaction initiator.
    pub original_sender: Address,
    /// Gas paid up front for transaction execution
    pub gas: U256,
    /// Gas price.
    pub gas_price: U256,
    /// Transaction value.
    pub value: ActionValue,
    /// Code being executed.
    pub code: Option<Vec<u8>>,
    /// Input data.
    pub data: Option<Vec<u8>>,
    /// Type of call
    pub call_type: CallType,
    /// Type of create
    pub create_type: CreateType,
    /// Param types encoding
    pub params_type: ParamsType,
}

impl ActionParams {
    pub open spec fn spec_sender(&self) -> AddressWithSpace {
        AddressWithSpace { address: self.sender, space: self.space }
    }

    pub open spec fn spec_receiver(&self) -> AddressWithSpace {
        AddressWithSpace { address: self.address, space: self.space }
    }
}

/// The errors of a VM execution that transaction execution tells apart.
#[derive(Debug, Clone, PartialEq)]
pub enum VmError {
    /// A mutable call or a create in a static context.
    MutableCallInStaticContext,
    /// Execution was reverted by the REVERT instruction.
    Reverted,
    /// The state database failed.
    StateDbError(DbError),
}

/// Where value may not move: a create, or a call that carries value, in a
/// static context.
pub open spec fn static_violation(params: &ActionParams, static_flag: bool, is_create: bool) -> bool {
    if is_create {
        static_flag
    } else {
        static_flag && (params.call_type == CallType::StaticCall || params.call_type == CallType::Call)
            && params.value.spec_value()@ > 0
    }
}

/// Refuses a frame that would change the state inside a static call: a
/// create, or a plain or static call that moves value.
pub fn check_static_flag(params: &ActionParams, static_flag: bool, is_create: bool) -> (r: Result<(), VmError>)
    ensures
        static_violation(params, static_flag, is_create) ==> r == Err::<(), VmError>(VmError::MutableCallInStaticContext),
        !static_violation(params, static_flag, is_create) ==> r is Ok,
{
    // This is the function check whether contract creation or value
    // transferring happens in static context at callee executive. However,
    // it is meaningless because the caller has checked this constraint
    // before message call. Currently, if we panic when this
    // function returns error, all the tests can still pass.
    // So we no longer check the logic for reentrancy here,
    if is_create {
        if static_flag {
            return Err(VmError::MutableCallInStaticContext);
        }
    } else {
        if static_flag && (params.call_type == CallType::StaticCall || params.call_type == CallType::Call)
            && !u256_is_zero(params.value.value()) {
            return Err(VmError::MutableCallInStaticContext);
        }
    }
    Ok(())
}

/// The result contains more data than finalization result.
#[derive(Debug)]
pub struct FrameResult {
    /// Space
    pub space: Space,
    /// Final amount of gas left.
    pub gas_left: U256,
    /// Apply execution state changes or revert them.
    pub apply_state: bool,
    /// Return data buffer.
    pub return_data: Vec<u8>,
    /// Create address.
    pub create_address: Option<Address>,
}

/// The result of a message call, as the caller's VM sees it.
#[derive(Debug)]
pub enum MessageCallResult {
    /// Returned when message call was successful.
    /// Contains gas left and output data.
    Success(U256, Vec<u8>),
    /// Returned when message call failed.
    /// VM doesn't have to know the reason.
    Failed(VmError),
    /// Returned when message call was reverted.
    /// Contains gas left and output data.
    Reverted(U256, Vec<u8>),
}

/// The result of a contract creation, as the caller's VM sees it.
#[derive(Debug)]
pub enum ContractCreateResult {
    /// Returned when creation was successful.
    /// Contains an address of newly created contract and gas left.
    Created(AddressWithSpace, U256),
    /// Returned when contract creation failed.
    /// VM doesn't have to know the reason.
    Failed(VmError),
    /// Reverted with REVERT.
    Reverted(U256, Vec<u8>),
}

/// Convert a finalization result into a VM message call result.
pub fn into_message_call_result(result: Result<FrameResult, VmError>) -> (r: MessageCallResult)
    ensures
        match result {
            Ok(f) => if f.apply_state {
                r matches MessageCallResult::Success(g, d) && g == f.gas_left && d@ == f.return_data@
            } else {
                r matches MessageCallResult::Reverted(g, d) && g == f.gas_left && d@ == f.return_data@
            },
            Err(e) => r == MessageCallResult::Failed(e),
        },
{
    match result {
        Ok(FrameResult { gas_left, return_data, apply_state: true, .. }) => MessageCallResult::Success(
            gas_left,
            return_data,
        ),
        Ok(FrameResult { gas_left, return_data, apply_state: false, .. }) => MessageCallResult::Reverted(
            gas_left,
            return_data,
        ),
        Err(err) => MessageCallResult::Failed(err),
    }
}

/// Convert a finalization result into a VM contract create result.
pub fn into_contract_create_result(result: Result<FrameResult, VmError>) -> (r: ContractCreateResult)
    requires
        match result {
            Ok(f) => f.apply_state ==> f.create_address is Some,
            Err(_) => true,
        },
    ensures
        match result {
            Ok(f) => if f.apply_state {
                r == ContractCreateResult::Created(
                    AddressWithSpace { address: f.create_address.unwrap(), space: f.space },
                    f.gas_left,
                )
            } else {
                r matches ContractCreateResult::Reverted(g, d) && g == f.gas_left && d@ == f.return_data@
            },
            Err(e) => r == ContractCreateResult::Failed(e),
        },
{
    match result {
        Ok(FrameResult { space, gas_left, apply_state: true, create_address, .. }) => {
            // Move the change of contracts_created in substate to
            // process_return.
            let address = create_address.unwrap();
            let address = AddressWithSpace { address, space };
            ContractCreateResult::Created(address, gas_left)
        },
        Ok(FrameResult { gas_left, apply_state: false, return_data, .. }) => ContractCreateResult::Reverted(
            gas_left,
            return_data,
        ),
        Err(err) => ContractCreateResult::Failed(err),
    }
}

} // verus!

verus! {

/// Everything but the accounts at `a` and `b` is as in `old`.
pub open spec fn frame_two<S: StorageTrait>(new: &State<S>, old: &State<S>, a: AddressWithSpace, b: AddressWithSpace) -> bool {
    &&& new.frame_all(old)
    &&& forall|c: AddressWithSpace| c != a && c != b ==> #[trigger] new.effective(c) == old.effective(c)
}

/// A transfer of `by` from `from` to `to` as `State::transfer_balance`
/// makes it: `r` is what it returned, `new` what it left.
pub open spec fn transferred<S: StorageTrait>(
    new: &State<S>,
    old: &State<S>,
    from: AddressWithSpace,
    to: AddressWithSpace,
    by: nat,
    tracks: bool,
    r: DbResult<()>,
) -> bool {
    &&& frame_two(new, old, from, to)
    &&& read_matches(r, old.transfer_outcome(from, to, by, tracks))
    &&& r is Ok && from != to ==> balance_of(new.effective(from)) + balance_of(new.effective(to))
        == balance_of(old.effective(from)) + balance_of(old.effective(to))
    &&& r is Ok && from != to ==> balance_of(new.effective(from)) == balance_of(old.effective(from)) - by
        && balance_of(new.effective(to)) == balance_of(old.effective(to)) + by
    &&& r is Ok && from == to ==> balance_of(new.effective(from)) == balance_of(old.effective(from))
}

/// Moves the value of a call from its sender to its receiver.
pub fn transfer_exec_balance<S: StorageTrait>(
    params: &ActionParams,
    state: &mut State<S>,
    cleanup_mode: &mut CleanupMode,
    account_start_nonce: U256,
) -> (r: DbResult<()>)
    requires
        old(state).wf(),
        old(cleanup_mode).wf(),
        params.value matches ActionValue::Transfer(val) ==> {
            &&& val@ != 0 ==> (old(state).require_present(params.spec_sender()) matches Ok(v) ==> v.balance >= val@)
            &&& params.spec_sender() != params.spec_receiver() && val@ != 0 ==> (old(state).require_basic(
                params.spec_receiver(),
                account_start_nonce@,
            ) matches Ok(v) ==> v.balance + val@ < u256_modulus())
        },
    ensures
        old(state).infallible() ==> !(r matches Err(DbError::Storage(_))),
        final(cleanup_mode).wf(),
        match params.value {
            ActionValue::Transfer(val) => transferred(
                final(state),
                old(state),
                params.spec_sender(),
                params.spec_receiver(),
                val@,
                old(cleanup_mode).touched() is Some,
                r,
            ),
            ActionValue::Apparent(_) => r is Ok && final(state).unchanged(old(state)) && *final(cleanup_mode)
                == *old(cleanup_mode),
        },
        params.value is Transfer && r is Ok ==> final(cleanup_mode).touched() == old(state).touched_by_transfer(
            old(cleanup_mode).touched(),
            params.spec_sender(),
            params.spec_receiver(),
            params.value.spec_value()@,
        ),
{
    let sender = AddressWithSpace { address: params.sender, space: params.space };
    let receiver = AddressWithSpace { address: params.address, space: params.space };
    if let ActionValue::Transfer(val) = params.value {
        state.transfer_balance(&sender, &receiver, &val, cleanup_mode, account_start_nonce)
    } else {
        Ok(())
    }
}

/// Whether the account read from `eff` is a removed account.
pub open spec fn was_invalidated(eff: DbResult<Option<OverlayView>>) -> bool {
    eff matches Ok(Some(p)) && p.invalidated
}

/// What opening a create returns, but for failures of the storage backend.
pub open spec fn init_contract_outcome<S: StorageTrait>(
    state: &State<S>,
    sender: AddressWithSpace,
    receiver: AddressWithSpace,
    val: nat,
    tracks: bool,
) -> DbResult<()> {
    match state.effective(receiver) {
        Err(e) => Err(e),
        Ok(_) => if val != 0 {
            unit_of(state.require_present(sender))
        } else if tracks {
            unit_of(state.effective(sender))
        } else {
            Ok(())
        },
    }
}

/// Moves the value of a create from its sender to the new contract, which
/// keeps what its address held before, and creates the contract with
/// nonce 1.
pub fn transfer_exec_balance_and_init_contract<S: StorageTrait>(
    params: &ActionParams,
    state: &mut State<S>,
    cleanup_mode: &mut CleanupMode,
    storage_layout: Option<StorageLayout>,
) -> (r: DbResult<()>)
    requires
        old(state).wf(),
        old(cleanup_mode).wf(),
        params.value is Transfer,
        params.value.spec_value()@ != 0 ==> (old(state).require_present(params.spec_sender()) matches Ok(v) ==> v.balance
            >= params.value.spec_value()@),
    ensures
        old(state).infallible() ==> !(r matches Err(DbError::Storage(_))),
        final(cleanup_mode).wf(),
        frame_two(final(state), old(state), params.spec_sender(), params.spec_receiver()),
        ({
            let val = params.value.spec_value()@;
            let prev = balance_of(old(state).effective(params.spec_receiver()));
            &&& read_matches(
                r,
                init_contract_outcome(
                    old(state),
                    params.spec_sender(),
                    params.spec_receiver(),
                    val,
                    old(cleanup_mode).touched() is Some,
                ),
            )
            &&& r is Ok ==> final(state).effective(params.spec_receiver()) == Ok::<Option<OverlayView>, DbError>(
                Some(contract_view(
                    params.spec_receiver(),
                    if val + prev < u256_modulus() { val + prev } else { (u256_modulus() - 1) as nat },
                    1,
                    was_invalidated(old(state).effective(params.spec_receiver())),
                    storage_layout,
                )),
            )
            &&& r is Ok && params.spec_sender() != params.spec_receiver() ==> balance_of(
                final(state).effective(params.spec_sender()),
            ) == balance_of(old(state).effective(params.spec_sender())) - val
            &&& r is Ok ==> final(cleanup_mode).touched() == old(cleanup_mode).touched_after(
                params.spec_sender(),
                val != 0 || old(state).effective(params.spec_sender()) matches Ok(Some(_)),
            )
        }),
{
    let sender = AddressWithSpace { address: params.sender, space: params.space };
    let receiver = AddressWithSpace { address: params.address, space: params.space };
    let val = params.value.value();
    let ghost s0 = *state;
    // It is possible to first send money to a pre-calculated
    // contract address.
    let prev_balance = match state.balance(&receiver) {
        Ok(b) => b,
        Err(e) => {
            return Err(e);
        },
    };
    match state.sub_balance(&sender, &val, cleanup_mode) {
        Ok(()) => {},
        Err(e) => {
            return Err(e);
        },
    }
    let ghost s1 = *state;
    assert(s1.effective(receiver) is Ok);
    assert(was_invalidated(s1.effective(receiver)) == was_invalidated(s0.effective(receiver)));
    let nonce = U256::one();
    state.new_contract(&receiver, u256_saturating_add(val, prev_balance), nonce, storage_layout)
}

/// Destroys a contract: its balance goes to `refund_address`, or is burnt
/// where that is the contract itself. The contract is recorded among the
/// `suicides`.
pub fn suicide<S: StorageTrait>(
    contract_address: &AddressWithSpace,
    refund_address: &AddressWithSpace,
    state: &mut State<S>,
    suicides: &mut AssocMap<AddressWithSpace, ()>,
    cleanup_mode: &mut CleanupMode,
    tracer: &mut MultiObservers,
    account_start_nonce: U256,
) -> (r: Result<(), VmError>)
    requires
        old(state).wf(),
        old(suicides).wf(),
        old(cleanup_mode).wf(),
        *refund_address != *contract_address ==> (old(state).require_basic(*refund_address, account_start_nonce@) matches Ok(v)
            ==> v.balance + balance_of(old(state).effective(*contract_address)) < u256_modulus()),
    ensures
        final(suicides).wf(),
        final(suicides).view().dom() == old(suicides).view().dom().insert(*contract_address),
        final(cleanup_mode).wf(),
        final(state).db_view() == old(state).db_view(),
        final(state).checkpoint_count() == old(state).checkpoint_count(),
        forall|i: int| #[trigger] final(state).snapshot(i) == old(state).snapshot(i),
        old(state).consistent() ==> final(state).consistent(),
        forall|c: AddressWithSpace| c != *contract_address && c != *refund_address ==> #[trigger] final(state).effective(c)
            == old(state).effective(c),
        ({
            let balance = balance_of(old(state).effective(*contract_address));
            let expected = match spec_balance(old(state).effective(*contract_address)) {
                Err(e) => Err(e),
                Ok(_) => if *refund_address == *contract_address {
                    Ok(())
                } else {
                    old(state).transfer_outcome(*contract_address, *refund_address, balance, old(cleanup_mode).touched() is Some)
                },
            };
            &&& read_matches(
                match r {
                    Ok(()) => Ok::<(), DbError>(()),
                    Err(VmError::StateDbError(e)) => Err::<(), DbError>(e),
                    Err(_) => Err::<(), DbError>(DbError::IncompleteDatabase(contract_address.address)),
                },
                expected,
            )
            &&& r is Err ==> (r matches Err(VmError::StateDbError(_)))
            &&& r is Ok ==> final(cleanup_mode).touched() == if *refund_address == *contract_address {
                old(cleanup_mode).touched_after(
                    *contract_address,
                    balance != 0 || old(state).effective(*contract_address) matches Ok(Some(_)),
                )
            } else {
                old(state).touched_by_transfer(old(cleanup_mode).touched(), *contract_address, *refund_address, balance)
            }
            &&& r is Ok ==> traced_amount(
                *old(tracer),
                *final(tracer),
                AddressPocket::Balance(*contract_address),
                if *refund_address == *contract_address {
                    AddressPocket::MintBurn
                } else {
                    AddressPocket::Balance(*refund_address)
                },
                balance,
            )
            &&& r is Err ==> final(tracer).gas_man == old(tracer).gas_man
            &&& old(state).infallible() ==> !(r matches Err(VmError::StateDbError(DbError::Storage(_))))
            &&& r is Ok ==> balance_of(final(state).effective(*contract_address)) == 0
            &&& r is Ok && *refund_address == *contract_address ==> final(state).total_issued() == if balance
                <= old(state).total_issued() {
                (old(state).total_issued() - balance) as nat
            } else {
                0
            }
            &&& r is Ok && *refund_address != *contract_address ==> {
                &&& final(state).total_issued() == old(state).total_issued()
                &&& balance_of(final(state).effective(*refund_address)) == balance_of(old(state).effective(*refund_address))
                    + balance
            }
        }),
{
    suicides.insert(*contract_address, ());
    let balance = match state.balance(contract_address) {
        Ok(b) => b,
        Err(e) => {
            return Err(VmError::StateDbError(e));
        },
    };
    if refund_address.same(contract_address) {
        tracer.trace_internal_transfer(
            AddressPocket::Balance(*contract_address),
            AddressPocket::MintBurn,
            balance,
        );
        // When destroying, the balance will be burnt.
        match state.sub_balance(contract_address, &balance, cleanup_mode) {
            Ok(()) => {},
            Err(e) => {
                return Err(VmError::StateDbError(e));
            },
        }
        state.subtract_total_issued(balance);
    } else {
        tracer.trace_internal_transfer(
            AddressPocket::Balance(*contract_address),
            AddressPocket::Balance(*refund_address),
            balance,
        );
        match state.transfer_balance(contract_address, refund_address, &balance, cleanup_mode, account_start_nonce) {
            Ok(()) => {},
            Err(e) => {
                return Err(VmError::StateDbError(e));
            },
        }
    }
    Ok(())
}

} // verus!

verus! {

/// The result that a call into the other VM space hands back.
pub struct CrossVmResult;

} // verus!

verus! {

/// How a frame runs.
#[derive(Clone, Copy, Debug, PartialEq, Eq, Structural)]
pub enum FrameKind {
    /// A plain transfer: no code runs.
    Transfer,
    /// A builtin contract runs.
    CallBuiltin,
    /// An internal contract runs.
    CallInternalContract,
    /// The code of a contract runs.
    ExecCall,
    /// The init code of a new contract runs.
    ExecCreate,
}

/// How a call frame runs: a call of a builtin or an internal contract runs
/// that, a call of an account with code runs the code, and any other call is
/// a transfer.
pub open spec fn call_frame_kind(params: &ActionParams, is_builtin: bool, is_internal_contract: bool) -> FrameKind {
    if is_builtin {
        FrameKind::CallBuiltin
    } else if is_internal_contract {
        FrameKind::CallInternalContract
    } else if params.code is Some {
        FrameKind::ExecCall
    } else {
        FrameKind::Transfer
    }
}

/// A call or create frame: its input, and what the state does around the
/// run of its code.
pub struct CallCreateFrame {
    pub params: ActionParams,
    pub depth: usize,
    pub static_flag: bool,
    pub create_address: Option<Address>,
    pub kind: FrameKind,
}

impl CallCreateFrame {
    /// Create a new call frame: a call of a builtin or an internal contract
    /// runs that, a call of an account with code runs the code, and any
    /// other call is a transfer. A static call makes the frame static.
    pub fn new_call_raw(
        params: ActionParams,
        depth: usize,
        parent_static_flag: bool,
        is_builtin: bool,
        is_internal_contract: bool,
    ) -> (r: Self)
        ensures
            r.static_flag == (parent_static_flag || params.call_type == CallType::StaticCall),
            r.kind == call_frame_kind(&params, is_builtin, is_internal_contract),
            r.create_address is None,
            r.depth == depth,
            r.params == params,
    {
        let static_flag = parent_static_flag || params.call_type == CallType::StaticCall;
        // Builtin is located for both Conflux Space and EVM Space.
        let kind = if is_builtin {
            FrameKind::CallBuiltin
        } else if is_internal_contract {
            FrameKind::CallInternalContract
        } else {
            if params.code.is_some() {
                FrameKind::ExecCall
            } else {
                FrameKind::Transfer
            }
        };
        CallCreateFrame { params, depth, static_flag, create_address: None, kind }
    }

    /// Create a new create frame, which creates the contract at the address
    /// of its code.
    pub fn new_create_raw(params: ActionParams, depth: usize, static_flag: bool) -> (r: Self)
        ensures
            r.static_flag == static_flag,
            r.kind == FrameKind::ExecCreate,
            r.create_address == Some(params.code_address),
            r.depth == depth,
            r.params == params,
    {
        let create_address = Some(params.code_address);
        CallCreateFrame { params, depth, static_flag, create_address, kind: FrameKind::ExecCreate }
    }

    /// Get the recipient of this executive. The recipient is the address whose
    /// state will change.
    pub fn get_recipient(&self) -> (r: &Address)
        ensures
            *r == self.params.address,
    {
        &self.params.address
    }

    /// What the state does before the code of the frame runs: a checkpoint
    /// is made, then the value is transferred, and a create makes the new
    /// contract with the regular storage layout.
    pub fn enter<S: StorageTrait>(
        &self,
        state: &mut State<S>,
        cleanup_mode: &mut CleanupMode,
        account_start_nonce: U256,
    ) -> (r: DbResult<()>)
        requires
            old(state).wf(),
            old(cleanup_mode).wf(),
            !static_violation(&self.params, self.static_flag, self.create_address is Some),
            self.create_address is Some ==> self.params.value is Transfer,
            self.params.value matches ActionValue::Transfer(val) ==> {
                &&& val@ != 0 ==> (old(state).require_present(self.params.spec_sender()) matches Ok(v) ==> v.balance >= val@)
                &&& self.create_address is None && self.params.spec_sender() != self.params.spec_receiver() && val@ != 0
                    ==> (old(state).require_basic(self.params.spec_receiver(), account_start_nonce@) matches Ok(v)
                    ==> v.balance + val@ < u256_modulus())
            },
        ensures
            old(state).infallible() ==> !(r matches Err(DbError::Storage(_))),
            final(state).wf(),
            final(cleanup_mode).wf(),
            old(state).consistent() ==> final(state).consistent(),
            final(state).db_view() == old(state).db_view(),
            final(state).checkpoint_count() == old(state).checkpoint_count() + 1,
            forall|b: AddressWithSpace| #[trigger] (final(state).snapshot(old(state).checkpoint_count() as int))(b)
                == old(state).effective(b),
            final(state).snapshot_total_issued(old(state).checkpoint_count() as int) == old(state).total_issued(),
            forall|i: int| 0 <= i < old(state).checkpoint_count() ==> #[trigger] final(state).snapshot(i) == old(state).snapshot(i),
            forall|i: int| 0 <= i < old(state).checkpoint_count() ==> #[trigger] final(state).snapshot_total_issued(i)
                == old(state).snapshot_total_issued(i),
            forall|c: AddressWithSpace| c != self.params.spec_sender() && c != self.params.spec_receiver()
                ==> #[trigger] final(state).effective(c) == old(state).effective(c),
            self.create_address is Some ==> ({
                let val = self.params.value.spec_value()@;
                let prev = balance_of(old(state).effective(self.params.spec_receiver()));
                &&& read_matches(
                    r,
                    init_contract_outcome(
                        old(state),
                        self.params.spec_sender(),
                        self.params.spec_receiver(),
                        val,
                        old(cleanup_mode).touched() is Some,
                    ),
                )
                &&& r is Ok ==> final(state).effective(self.params.spec_receiver()) == Ok::<Option<OverlayView>, DbError>(
                    Some(contract_view(
                        self.params.spec_receiver(),
                        if val + prev < u256_modulus() { val + prev } else { (u256_modulus() - 1) as nat },
                        1,
                        was_invalidated(old(state).effective(self.params.spec_receiver())),
                        Some(StorageLayout::Regular(0)),
                    )),
                )
            }),
            self.create_address is None ==> match self.params.value {
                ActionValue::Transfer(val) => read_matches(
                    r,
                    old(state).transfer_outcome(
                        self.params.spec_sender(),
                        self.params.spec_receiver(),
                        val@,
                        old(cleanup_mode).touched() is Some,
                    ),
                ) && (r is Ok && self.params.spec_sender() != self.params.spec_receiver() ==> balance_of(
                    final(state).effective(self.params.spec_sender()),
                ) + balance_of(final(state).effective(self.params.spec_receiver())) == balance_of(
                    old(state).effective(self.params.spec_sender()),
                ) + balance_of(old(state).effective(self.params.spec_receiver()))),
                ActionValue::Apparent(_) => r is Ok && forall|b: AddressWithSpace| #[trigger] final(state).effective(b)
                    == old(state).effective(b),
            },
    {
        let is_create = self.create_address.is_some();
        // Make checkpoint for this executive, callstack is always maintained
        // with checkpoint.
        state.checkpoint();
        // Pre execution: transfer value and init contract.
        if is_create {
            transfer_exec_balance_and_init_contract(&self.params, state, cleanup_mode, Some(storage_layout_regular_v0()))
        } else {
            transfer_exec_balance(&self.params, state, cleanup_mode, account_start_nonce)
        }
    }

    /// What the state does once the code of the frame returned: its changes
    /// are kept where they apply, and reverted otherwise.
    pub fn leave<S: StorageTrait>(state: &mut State<S>, apply_state: bool)
        requires
            old(state).wf(),
        ensures
            final(state).wf(),
            old(state).consistent() ==> final(state).consistent(),
            final(state).db_view() == old(state).db_view(),
            apply_state ==> forall|b: AddressWithSpace| #[trigger] final(state).effective(b) == old(state).effective(b),
            !apply_state && old(state).checkpoint_count() > 0 && old(state).consistent() ==> forall|b: AddressWithSpace|
                #[trigger] final(state).effective(b) == (old(state).snapshot(old(state).checkpoint_count() - 1))(b),
            old(state).checkpoint_count() > 0 ==> final(state).checkpoint_count() == old(state).checkpoint_count() - 1,
            old(state).checkpoint_count() == 0 ==> final(state).checkpoint_count() == 0,
            apply_state ==> final(state).total_issued() == old(state).total_issued(),
            !apply_state && old(state).checkpoint_count() > 0 ==> final(state).total_issued()
                == old(state).snapshot_total_issued(old(state).checkpoint_count() - 1),
            forall|i: int| 0 <= i < final(state).checkpoint_count() ==> #[trigger] final(state).snapshot(i) == old(state).snapshot(i),
            forall|i: int| 0 <= i < final(state).checkpoint_count() ==> #[trigger] final(state).snapshot_total_issued(i)
                == old(state).snapshot_total_issued(i),
    {
        if apply_state {
            state.discard_checkpoint();
        } else {
            state.revert_to_checkpoint();
        }
    }
}

} // verus!

verus! {

/// What a frame leaves for its transaction where it applies its state: the
/// contracts it destroyed, those it created, and the storage collateral
/// occupied and released.
pub struct Substate {
    pub suicides: AssocMap<AddressWithSpace, ()>,
    pub contracts_created: Vec<AddressWithSpace>,
    pub collateral: CollateralChanges,
}

impl Substate {
    /// A substate that holds nothing.
    pub fn new() -> (r: Self)
        ensures
            r.wf(),
            r.suicides.view().dom() == Set::<AddressWithSpace>::empty(),
            r.contracts_created@ == Seq::<AddressWithSpace>::empty(),
            r.collateral.changed() == Set::<Address>::empty(),
            forall|a: Address| r.collateral.occupied(a) == 0 && r.collateral.released(a) == 0,
    {
        let r = Substate { suicides: AssocMap::new(), contracts_created: Vec::new(), collateral: CollateralChanges::new() };
        assert(r.suicides.view().dom() =~= Set::<AddressWithSpace>::empty());
        r
    }

    pub open spec fn wf(&self) -> bool {
        &&& self.suicides.wf()
        &&& self.collateral.wf()
    }

    /// Takes in what `other` holds: its destroyed contracts join those of
    /// this substate, its created contracts follow them, and its collateral
    /// changes add to those of this substate.
    pub fn accrue(&mut self, other: Substate)
        requires
            old(self).wf(),
            other.wf(),
        ensures
            final(self).wf(),
            final(self).suicides.view().dom() == old(self).suicides.view().dom().union(other.suicides.view().dom()),
            final(self).contracts_created@ == old(self).contracts_created@ + other.contracts_created@,
            accrued(final(self).collateral, old(self).collateral, other.collateral),
    {
        let Substate { suicides, contracts_created, collateral } = other;
        let mut suicides = suicides;
        let ghost o = suicides;
        let entries = suicides.take_all();
        let ghost s0 = self.suicides.view().dom();
        let mut i: usize = 0;
        while i < entries.len()
            invariant
                0 <= i <= entries@.len(),
                entries@ == o.entry_seq(),
                self.suicides.wf(),
                self.contracts_created@ == old(self).contracts_created@,
                self.collateral == old(self).collateral,
                forall|a: AddressWithSpace| #[trigger] self.suicides.view().contains_key(a) <==> (s0.contains(a)
                    || exists|j: int| 0 <= j < i && entries@[j].0 == a),
            decreases entries@.len() - i,
        {
            let (k, _) = entries[i];
            self.suicides.insert(k, ());
            proof {
                assert forall|a: AddressWithSpace| #[trigger] self.suicides.view().contains_key(a) <==> (s0.contains(a)
                    || exists|j: int| 0 <= j < i + 1 && entries@[j].0 == a) by {
                    if a == k {
                        assert(entries@[i as int].0 == a);
                    }
                }
            }
            i += 1;
        }
        proof {
            assert(self.suicides.view().dom() =~= s0.union(o.view().dom())) by {
                assert forall|a: AddressWithSpace| o.view().dom().contains(a) == (exists|j: int|
                    0 <= j < entries@.len() && entries@[j].0 == a) by {
                    if o.view().dom().contains(a) {
                        assert(o.key_at(o.index_of(a)) == a);
                    }
                    if exists|j: int| 0 <= j < entries@.len() && entries@[j].0 == a {
                        let j = choose|j: int| 0 <= j < entries@.len() && entries@[j].0 == a;
                        assert(o.key_at(j) == a);
                    }
                }
            }
        }
        let mut created = contracts_created;
        self.contracts_created.append(&mut created);
        self.collateral.accrue(collateral);
    }
}

/// A frame leaves the checkpoints as they were before it entered, and a
/// frame that does not apply its state leaves every account and the total
/// of issued tokens as they were too: `entered` is what
/// `CallCreateFrame::enter` made of `before`, `ran` the state once the frame
/// ran (its own run and those of its callees keep the checkpoints), and
/// `left` what the frame's return made of `ran`.
pub proof fn lemma_frame_run<S: StorageTrait>(
    before: &State<S>,
    entered: &State<S>,
    ran: &State<S>,
    left: &State<S>,
    applied: bool,
)
    requires
        entered.checkpoint_count() == before.checkpoint_count() + 1,
        forall|b: AddressWithSpace| #[trigger] (entered.snapshot(before.checkpoint_count() as int))(b) == before.effective(b),
        entered.snapshot_total_issued(before.checkpoint_count() as int) == before.total_issued(),
        forall|i: int| 0 <= i < before.checkpoint_count() ==> #[trigger] entered.snapshot(i) == before.snapshot(i),
        forall|i: int| 0 <= i < before.checkpoint_count() ==> #[trigger] entered.snapshot_total_issued(i)
            == before.snapshot_total_issued(i),
        ran.checkpoint_count() == entered.checkpoint_count(),
        forall|i: int| 0 <= i < ran.checkpoint_count() ==> #[trigger] ran.snapshot(i) == entered.snapshot(i),
        forall|i: int| 0 <= i < ran.checkpoint_count() ==> #[trigger] ran.snapshot_total_issued(i)
            == entered.snapshot_total_issued(i),
        left.checkpoint_count() == ran.checkpoint_count() - 1,
        forall|i: int| 0 <= i < left.checkpoint_count() ==> #[trigger] left.snapshot(i) == ran.snapshot(i),
        forall|i: int| 0 <= i < left.checkpoint_count() ==> #[trigger] left.snapshot_total_issued(i)
            == ran.snapshot_total_issued(i),
        applied ==> left.total_issued() == ran.total_issued()
            && forall|b: AddressWithSpace| #[trigger] left.effective(b) == ran.effective(b),
        !applied ==> left.total_issued() == ran.snapshot_total_issued(left.checkpoint_count() as int)
            && forall|b: AddressWithSpace| #[trigger] left.effective(b) == (ran.snapshot(left.checkpoint_count() as int))(b),
    ensures
        left.checkpoint_count() == before.checkpoint_count(),
        forall|i: int| 0 <= i < left.checkpoint_count() ==> #[trigger] left.snapshot(i) == before.snapshot(i),
        forall|i: int| 0 <= i < left.checkpoint_count() ==> #[trigger] left.snapshot_total_issued(i)
            == before.snapshot_total_issued(i),
        !applied ==> left.total_issued() == before.total_issued()
            && forall|b: AddressWithSpace| #[trigger] left.effective(b) == before.effective(b),
{
    let n = before.checkpoint_count() as int;
    assert(ran.snapshot(n) == entered.snapshot(n));
    assert(ran.snapshot_total_issued(n) == entered.snapshot_total_issued(n));
    assert forall|i: int| 0 <= i < left.checkpoint_count() implies #[trigger] left.snapshot(i) == before.snapshot(i) by {
        assert(ran.snapshot(i) == entered.snapshot(i));
    }
    assert forall|i: int| 0 <= i < left.checkpoint_count() implies #[trigger] left.snapshot_total_issued(i)
        == before.snapshot_total_issued(i) by {
        assert(ran.snapshot_total_issued(i) == entered.snapshot_total_issued(i));
    }
    if !applied {
        assert forall|b: AddressWithSpace| #[trigger] left.effective(b) == before.effective(b) by {
            assert((entered.snapshot(n))(b) == before.effective(b));
        }
    }
}

/// What the VM reports of the frame it ran.
pub enum FrameEvent {
    /// The frame returned.
    Return(Result<FrameResult, VmError>),
    /// The frame asks for a call; whether the callee is a builtin or an
    /// internal contract is the VM's to tell.
    SubCall { params: ActionParams, is_builtin: bool, is_internal_contract: bool },
    /// The frame asks for a create.
    SubCreate { params: ActionParams },
}

/// What the VM is to do next.
pub enum FrameAction {
    /// Run the code of this frame from its start, with this substate, which
    /// holds nothing yet.
    Exec(CallCreateFrame, Substate),
    /// Resume this frame, with its substate, with the result of the call or
    /// create it asked for.
    Resume(CallCreateFrame, Substate, Result<FrameResult, VmError>),
    /// The top frame returned with this result.
    Done(Result<FrameResult, VmError>),
}

/// The callee of a sub-call or sub-create, one level deeper than its caller
/// and static where the caller is.
pub fn from_trap_error(event_params: ActionParams, caller: &CallCreateFrame, is_create: bool, is_builtin: bool, is_internal_contract: bool) -> (r: CallCreateFrame)
    requires
        caller.depth < usize::MAX,
    ensures
        r.depth == caller.depth + 1,
        r.params == event_params,
        is_create ==> r == (CallCreateFrame {
            params: event_params,
            depth: (caller.depth + 1) as usize,
            static_flag: caller.static_flag,
            create_address: Some(event_params.code_address),
            kind: FrameKind::ExecCreate,
        }),
        !is_create ==> r.kind != FrameKind::ExecCreate && r.create_address is None
            && r.static_flag == (caller.static_flag || event_params.call_type == CallType::StaticCall)
            && r.kind == call_frame_kind(&event_params, is_builtin, is_internal_contract),
{
    let depth = caller.depth + 1;
    if is_create {
        CallCreateFrame::new_create_raw(event_params, depth, caller.static_flag)
    } else {
        CallCreateFrame::new_call_raw(event_params, depth, caller.static_flag, is_builtin, is_internal_contract)
    }
}

/// Whether a frame that returned `result` applies its state.
pub open spec fn applies(result: Result<FrameResult, VmError>) -> bool {
    result matches Ok(f) && f.apply_state
}

/// `new` is the substate `parent` once its child returned: where the child
/// applies its state, the child's substate `child`, followed by the contract
/// the child created if it is a create, is taken in; otherwise the child's
/// substate is dropped.
pub open spec fn returned_into(
    new: Substate,
    parent: Substate,
    child: Substate,
    applied: bool,
    created: Option<AddressWithSpace>,
) -> bool {
    &&& new.wf()
    &&& new.suicides.view().dom() == if applied {
        parent.suicides.view().dom().union(child.suicides.view().dom())
    } else {
        parent.suicides.view().dom()
    }
    &&& new.contracts_created@ == if applied {
        parent.contracts_created@ + child.contracts_created@ + match created {
            Some(a) => seq![a],
            None => Seq::<AddressWithSpace>::empty(),
        }
    } else {
        parent.contracts_created@
    }
    &&& if applied {
        accrued(new.collateral, parent.collateral, child.collateral)
    } else {
        new.collateral == parent.collateral
    }
}

/// The contract a frame creates, in its space.
pub open spec fn created_by(frame: CallCreateFrame) -> Option<AddressWithSpace> {
    match frame.create_address {
        Some(a) => Some(AddressWithSpace { address: a, space: frame.params.space }),
        None => None,
    }
}

/// The frames waiting for their callees to return, the last one innermost,
/// each with its substate, and the substate of the transaction that the
/// top frame returns into.
pub struct FrameStack {
    frame_stack: Vec<CallCreateFrame>,
    substates: Vec<Substate>,
    top_substate: Substate,
    base_gas_required: u64,
    /// The open checkpoints of the state before the top frame entered.
    base_checkpoints: Ghost<nat>,
}

impl FrameStack {
    /// The waiting frames, the innermost last.
    pub closed spec fn frames(&self) -> Seq<CallCreateFrame> {
        self.frame_stack@
    }

    /// The substates of the waiting frames, in the same order.
    pub closed spec fn waiting_substates(&self) -> Seq<Substate> {
        self.substates@
    }

    /// What the frames that returned into the transaction left.
    pub closed spec fn spec_top_substate(&self) -> Substate {
        self.top_substate
    }

    pub closed spec fn spec_base_gas_required(&self) -> u64 {
        self.base_gas_required
    }

    /// The open checkpoints of the state before the top frame entered: each
    /// waiting frame and the running one hold one more.
    pub closed spec fn base_checkpoints(&self) -> nat {
        self.base_checkpoints@
    }

    pub closed spec fn wf(&self) -> bool {
        &&& self.frame_stack@.len() == self.substates@.len()
        &&& forall|i: int| 0 <= i < self.substates@.len() ==> #[trigger] self.substates@[i].wf()
        &&& self.top_substate.wf()
    }

    pub fn new<S: StorageTrait>(base_gas_required: u64, state: &State<S>) -> (r: Self)
        ensures
            r.wf(),
            r.base_checkpoints() == state.checkpoint_count(),
            r.frames() == Seq::<CallCreateFrame>::empty(),
            r.spec_top_substate().suicides.view().dom() == Set::<AddressWithSpace>::empty(),
            r.spec_top_substate().contracts_created@ == Seq::<AddressWithSpace>::empty(),
            r.spec_base_gas_required() == base_gas_required,
    {
        FrameStack {
            frame_stack: Vec::new(),
            substates: Vec::new(),
            top_substate: Substate::new(),
            base_gas_required,
            base_checkpoints: Ghost(state.checkpoint_count()),
        }
    }

    /// The gas taken before the top frame ran.
    pub fn base_gas_required(&self) -> (r: u64)
        ensures
            r == self.spec_base_gas_required(),
    {
        self.base_gas_required
    }

    /// The number of waiting frames.
    pub fn waiting(&self) -> (r: usize)
        ensures
            r == self.frames().len(),
    {
        self.frame_stack.len()
    }

    /// Whether no frame waits.
    pub fn is_empty(&self) -> (r: bool)
        ensures
            r == (self.frames().len() == 0),
    {
        self.frame_stack.len() == 0
    }

    /// Runs the top frame, with a substate that holds nothing yet.
    pub fn exec(&self, top_frame: CallCreateFrame) -> (r: FrameAction)
        ensures
            r matches FrameAction::Exec(f, sub) && f == top_frame && sub.wf()
                && sub.suicides.view().dom() == Set::<AddressWithSpace>::empty()
                && sub.contracts_created@ == Seq::<AddressWithSpace>::empty(),
    {
        FrameAction::Exec(top_frame, Substate::new())
    }

    /// What the frames that returned into the transaction left.
    pub fn into_top_substate(self) -> (r: Substate)
        ensures
            r == self.spec_top_substate(),
    {
        self.top_substate
    }

    /// Decides what follows an event of the running frame `caller`, whose
    /// substate is `substate`: a returned frame resumes the frame that waits
    /// for it, or ends the run where none waits, and its substate is taken
    /// into that of the frame it returns into where it applies its state; a
    /// frame that asks for a call or a create waits, with its substate,
    /// while its callee runs with a substate of its own.
    pub fn step<S: StorageTrait>(
        &mut self,
        state: &mut State<S>,
        caller: CallCreateFrame,
        substate: Substate,
        event: FrameEvent,
    ) -> (r: FrameAction)
        requires
            old(self).wf(),
            substate.wf(),
            old(state).wf(),
            old(state).checkpoint_count() == old(self).base_checkpoints() + old(self).frames().len() + 1,
            !(event is Return) ==> caller.depth < usize::MAX,
        ensures
            final(self).wf(),
            final(self).spec_base_gas_required() == old(self).spec_base_gas_required(),
            final(self).base_checkpoints() == old(self).base_checkpoints(),
            final(state).wf(),
            old(state).consistent() ==> final(state).consistent(),
            final(state).db_view() == old(state).db_view(),
            forall|i: int| 0 <= i < final(state).checkpoint_count() ==> #[trigger] final(state).snapshot(i) == old(state).snapshot(i),
            forall|i: int| 0 <= i < final(state).checkpoint_count() ==> #[trigger] final(state).snapshot_total_issued(i)
                == old(state).snapshot_total_issued(i),
            r is Done ==> final(state).checkpoint_count() == final(self).base_checkpoints(),
            !(r is Done) ==> final(state).checkpoint_count() == final(self).base_checkpoints() + final(self).frames().len()
                + if r is Resume { 1int } else { 0int },
            event matches FrameEvent::Return(result) ==> {
                let n = old(state).checkpoint_count() - 1;
                &&& final(state).checkpoint_count() == n
                &&& applies(result) ==> final(state).total_issued() == old(state).total_issued()
                    && forall|b: AddressWithSpace| #[trigger] final(state).effective(b) == old(state).effective(b)
                &&& !applies(result) ==> final(state).total_issued() == old(state).snapshot_total_issued(n)
                &&& !applies(result) && old(state).consistent() ==> forall|b: AddressWithSpace| #[trigger] final(state).effective(b)
                    == (old(state).snapshot(n))(b)
            },
            !(event is Return) ==> *final(state) == *old(state),
            match event {
                FrameEvent::Return(result) => if old(self).frames().len() == 0 {
                    &&& r == FrameAction::Done(result)
                    &&& final(self).frames() == old(self).frames()
                    &&& returned_into(
                        final(self).spec_top_substate(),
                        old(self).spec_top_substate(),
                        substate,
                        applies(result),
                        created_by(caller),
                    )
                } else {
                    &&& (r matches FrameAction::Resume(parent, sub, res) && parent == old(self).frames().last()
                        && res == result && returned_into(
                        sub,
                        old(self).waiting_substates().last(),
                        substate,
                        applies(result),
                        created_by(caller),
                    ))
                    &&& final(self).frames() == old(self).frames().drop_last()
                    &&& final(self).waiting_substates() == old(self).waiting_substates().drop_last()
                    &&& final(self).spec_top_substate() == old(self).spec_top_substate()
                },
                FrameEvent::SubCall { params, is_builtin, is_internal_contract } => {
                    &&& (r matches FrameAction::Exec(callee, sub)
                        && callee.params == params && callee.create_address is None
                        && callee.depth == caller.depth + 1
                        && callee.static_flag == (caller.static_flag || params.call_type == CallType::StaticCall)
                        && callee.kind == call_frame_kind(&params, is_builtin, is_internal_contract)
                        && sub.wf() && sub.suicides.view().dom() == Set::<AddressWithSpace>::empty()
                        && sub.contracts_created@ == Seq::<AddressWithSpace>::empty())
                    &&& final(self).frames() == old(self).frames().push(caller)
                    &&& final(self).waiting_substates() == old(self).waiting_substates().push(substate)
                    &&& final(self).spec_top_substate() == old(self).spec_top_substate()
                },
                FrameEvent::SubCreate { params } => {
                    &&& (r matches FrameAction::Exec(callee, sub)
                        && callee.params == params && callee.kind == FrameKind::ExecCreate
                        && callee.create_address == Some(params.code_address)
                        && callee.depth == caller.depth + 1
                        && callee.static_flag == caller.static_flag
                        && sub.wf() && sub.suicides.view().dom() == Set::<AddressWithSpace>::empty()
                        && sub.contracts_created@ == Seq::<AddressWithSpace>::empty())
                    &&& final(self).frames() == old(self).frames().push(caller)
                    &&& final(self).waiting_substates() == old(self).waiting_substates().push(substate)
                    &&& final(self).spec_top_substate() == old(self).spec_top_substate()
                },
            },
    {
        match event {
            FrameEvent::Return(result) => {
                let mut child = substate;
                let applied = match &result {
                    Ok(f) => f.apply_state,
                    Err(_) => false,
                };
                CallCreateFrame::leave(state, applied);
                if applied {
                    if let Some(a) = caller.create_address {
                        child.contracts_created.push(AddressWithSpace { address: a, space: caller.params.space });
                    }
                }
                assert(applied == applies(result));
                assert(applied ==> child.contracts_created@ =~= substate.contracts_created@ + match created_by(caller) {
                    Some(a) => seq![a],
                    None => Seq::<AddressWithSpace>::empty(),
                });
                match self.frame_stack.pop() {
                    Some(parent) => {
                        let mut sub = self.substates.pop().unwrap();
                        proof {
                            assert(old(self).substates@[old(self).substates@.len() - 1].wf());
                        }
                        let ghost sub0 = sub;
                        if applied {
                            sub.accrue(child);
                            assert(sub.contracts_created@ =~= sub0.contracts_created@ + substate.contracts_created@
                                + match created_by(caller) {
                                Some(a) => seq![a],
                                None => Seq::<AddressWithSpace>::empty(),
                            });
                        }
                        proof {
                            assert forall|i: int| 0 <= i < self.substates@.len() implies #[trigger] self.substates@[i].wf() by {
                                assert(old(self).substates@[i].wf());
                            }
                        }
                        FrameAction::Resume(parent, sub, result)
                    },
                    None => {
                        if applied {
                            let mut top = Substate::new();
                            std::mem::swap(&mut top, &mut self.top_substate);
                            let ghost top0 = top;
                            top.accrue(child);
                            assert(top.contracts_created@ =~= top0.contracts_created@ + substate.contracts_created@
                                + match created_by(caller) {
                                Some(a) => seq![a],
                                None => Seq::<AddressWithSpace>::empty(),
                            });
                            self.top_substate = top;
                        }
                        FrameAction::Done(result)
                    },
                }
            },
            FrameEvent::SubCall { params, is_builtin, is_internal_contract } => {
                let callee = from_trap_error(params, &caller, false, is_builtin, is_internal_contract);
                self.frame_stack.push(caller);
                self.substates.push(substate);
                proof {
                    assert forall|i: int| 0 <= i < self.substates@.len() implies #[trigger] self.substates@[i].wf() by {
                        if i < old(self).substates@.len() {
                            assert(old(self).substates@[i].wf());
                        }
                    }
                }
                FrameAction::Exec(callee, Substate::new())
            },
            FrameEvent::SubCreate { params } => {
                let callee = from_trap_error(params, &caller, true, false, false);
                self.frame_stack.push(caller);
                self.substates.push(substate);
                proof {
                    assert forall|i: int| 0 <= i < self.substates@.len() implies #[trigger] self.substates@[i].wf() by {
                        if i < old(self).substates@.len() {
                            assert(old(self).substates@[i].wf());
                        }
                    }
                }
                FrameAction::Exec(callee, Substate::new())
            },
        }
    }
}

} // verus!
