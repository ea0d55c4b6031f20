//! Transactions and what executing them gives: the options of an
//! execution, its outcome, and the revision of a gas estimate.
use crate::assoc::AssocMap;
use crate::collateral::{reports_changes, CollateralChanges, StorageChange};
use crate::executive::{
    contract_address, gas_required_for, spec_contract_address, spec_gas_required, ActionParams, ActionValue, CallType,
    CreateContractAddress, CreateType, FrameResult, ParamsType, Spec, VmError,
};
use crate::observer::{burn_traces, checkpointed, discarded, reverted, spec_traces, traced_after, traced_amount, traced_one, traces_with, AddressPocket, InternalTransfer, MultiObservers, StateTracer};
use crate::overlay::{removed_view, OverlayView};
use crate::state::{balance_of, read_matches, required_account, unit_of, spec_balance, spec_code, spec_code_hash, spec_nonce, CleanupMode, State};
use crate::statedb::{DbError, DbResult};
use crate::storage::StorageTrait;
use crate::parameters::ONE_CFX_IN_DRIP;
use crate::types::{limb_base, u256_modulus, Address, AddressWithSpace, Space, U256, U512};
use crate::uint::{
    random_address, u256_mul, u256_add, u256_div, u256_full_mul, u256_is_zero, u256_lt, u256_max, u256_min, u256_saturating_add,
    u256_saturating_mul, u256_shr, u256_sub, u512_add, u512_lt, u512_min, u512_try_into_u256,
};
use vstd::prelude::*;

verus! {

/// What a transaction does.
#[derive(Clone, Copy, Debug, PartialEq, Eq)]
pub enum Action {
    /// Create creates new contract.
    Create,
    /// Calls contract at given address.
    /// In the case of a transfer, this is the receiver's address.'
    Call(Address),
}

/// A signed transaction, with its sender recovered.
#[derive(Clone, Debug)]
pub struct SignedTransaction {
    pub sender: Address,
    pub nonce: U256,
    pub gas_price: U256,
    pub gas: U256,
    pub value: U256,
    pub action: Action,
    pub data: Vec<u8>,
}

impl SignedTransaction {
    pub open spec fn spec_sender(&self) -> AddressWithSpace {
        AddressWithSpace { address: self.sender, space: Space::Ethereum }
    }

    /// The sender, in the space of the transaction.
    pub fn sender(&self) -> (r: AddressWithSpace)
        ensures
            r == self.spec_sender(),
    {
        AddressWithSpace { address: self.sender, space: Space::Ethereum }
    }

    pub fn space(&self) -> (r: Space)
        ensures
            r == Space::Ethereum,
    {
        Space::Ethereum
    }
}

/// Why a transaction is dropped without execution.
#[derive(Clone, Copy, Debug, PartialEq, Eq)]
pub enum TxDropError {
    /// The account nonce in world-state is larger than tx nonce
    OldNonce(U256, U256),
}

/// Why a transaction is not executed and may be packed again later.
#[derive(Clone, Copy, Debug, PartialEq, Eq)]
pub enum ToRepackError {
    /// Returned when transaction nonce does not match state nonce.
    InvalidNonce {
        /// Nonce expected.
        expected: U256,
        /// Nonce found.
        got: U256,
    },
    /// Returned when a non-sponsored transaction's sender does not exist
    /// yet.
    SenderDoesNotExist,
}

/// Why an executed transaction failed.
#[derive(Clone, Debug, PartialEq)]
pub enum ExecutionError {
    /// Returned when cost of transaction (value + gas_price * gas) exceeds
    /// current sender balance.
    NotEnoughCash {
        /// Minimum required balance.
        required: U512,
        /// Actual balance.
        got: U512,
        /// Actual gas cost. This should be min(gas_fee, balance).
        actual_gas_cost: U256,
        /// The storage collateral the sender would have paid at most.
        max_storage_limit_cost: U256,
    },
    VmError(VmError),
}

/// What an executed transaction did.
#[derive(Debug)]
pub struct Executed {
    /// Gas used during execution of transaction.
    pub gas_used: U256,
    /// Fee that need to be paid by execution of this transaction.
    pub fee: U256,
    /// Gas charged during execution of transaction.
    pub gas_charged: U256,
    /// Transaction output.
    pub output: Vec<u8>,
    /// The internal transfers made.
    pub trace: Vec<InternalTransfer>,
    /// The gas limit estimated for the transaction, where it was estimated.
    pub estimated_gas_limit: Option<U256>,
    /// The contracts the transaction created.
    pub contracts_created: Vec<AddressWithSpace>,
    /// Whether a sponsor paid for the gas; no sponsor pays in the EVM space.
    pub gas_sponsor_paid: bool,
    /// Whether a sponsor paid for the storage; no sponsor pays in the EVM
    /// space.
    pub storage_sponsor_paid: bool,
    /// The addresses whose storage collateral grew, in ascending order,
    /// each with what it gained.
    pub storage_collateralized: Vec<StorageChange>,
    /// The addresses whose storage collateral shrank, in ascending order,
    /// each with what it lost.
    pub storage_released: Vec<StorageChange>,
    /// The storage limit estimated for the transaction: the collateral
    /// gained by the first address of `storage_collateralized`, or zero.
    pub estimated_storage_limit: u64,
}

impl Executed {
    /// A transaction whose sender could not pay for it in full: `fee` is
    /// what was charged, all the gas is counted as used.
    pub fn not_enough_balance_fee_charged(tx: &SignedTransaction, fee: &U256, trace: Vec<InternalTransfer>) -> (r: Self)
        ensures
            r.gas_used == tx.gas,
            r.gas_charged@ == if tx.gas_price@ == 0 { 0 } else { fee@ / tx.gas_price@ },
            r.fee == *fee,
            r.output@.len() == 0,
            r.trace@ == trace@,
            r.estimated_gas_limit is None,
            r.contracts_created@.len() == 0,
            r.storage_collateralized@.len() == 0 && r.storage_released@.len() == 0,
            !r.gas_sponsor_paid && !r.storage_sponsor_paid && r.estimated_storage_limit == 0,
    {
        let gas_charged = if u256_is_zero(tx.gas_price) {
            U256::zero()
        } else {
            u256_div(*fee, tx.gas_price)
        };
        Executed {
            gas_used: tx.gas,
            fee: *fee,
            gas_charged,
            output: Vec::new(),
            trace,
            estimated_gas_limit: None,
            contracts_created: Vec::new(),
            gas_sponsor_paid: false,
            storage_sponsor_paid: false,
            storage_collateralized: Vec::new(),
            storage_released: Vec::new(),
            estimated_storage_limit: 0,
        }
    }

    /// A transaction that failed in the VM: all its gas is used and charged.
    pub fn execution_error_fully_charged(tx: &SignedTransaction, trace: Vec<InternalTransfer>) -> (r: Self)
        ensures
            r.gas_used == tx.gas,
            r.gas_charged == tx.gas,
            r.fee@ == saturating(tx.gas@ * tx.gas_price@),
            r.output@.len() == 0,
            r.trace@ == trace@,
            r.estimated_gas_limit is None,
            r.contracts_created@.len() == 0,
            r.storage_collateralized@.len() == 0 && r.storage_released@.len() == 0,
            !r.gas_sponsor_paid && !r.storage_sponsor_paid && r.estimated_storage_limit == 0,
    {
        Executed {
            gas_used: tx.gas,
            fee: u256_saturating_mul(tx.gas, tx.gas_price),
            gas_charged: tx.gas,
            output: Vec::new(),
            trace,
            estimated_gas_limit: None,
            contracts_created: Vec::new(),
            gas_sponsor_paid: false,
            storage_sponsor_paid: false,
            storage_collateralized: Vec::new(),
            storage_released: Vec::new(),
            estimated_storage_limit: 0,
        }
    }
}

/// `v`, or the largest 256-bit value where `v` does not fit.
pub open spec fn saturating(v: nat) -> nat {
    if v < u256_modulus() {
        v
    } else {
        (u256_modulus() - 1) as nat
    }
}

/// The outcome of a transaction.
#[derive(Debug)]
pub enum ExecutionOutcome {
    NotExecutedDrop(TxDropError),
    NotExecutedToReconsiderPacking(ToRepackError),
    ExecutionErrorBumpNonce(ExecutionError, Executed),
    Finished(Executed),
}

/// Which parts of a transaction request an estimate was given.
#[derive(Debug, Clone, Copy)]
pub struct EstimateRequest {
    pub has_sender: bool,
    pub has_gas_limit: bool,
    pub has_gas_price: bool,
    pub has_nonce: bool,
    pub has_storage_limit: bool,
}

impl EstimateRequest {
    pub open spec fn spec_recheck_gas_fee(&self) -> bool {
        self.has_sender && self.has_gas_price
    }

    pub open spec fn spec_charge_gas(&self) -> bool {
        self.has_sender && self.has_gas_limit && self.has_gas_price
    }

    /// Whether the balance of the sender is checked against the gas fee
    /// once the estimate ran.
    pub fn recheck_gas_fee(&self) -> (r: bool)
        ensures
            r == self.spec_recheck_gas_fee(),
    {
        self.has_sender && self.has_gas_price
    }

    /// Whether the estimate charges gas.
    pub fn charge_gas(&self) -> (r: bool)
        ensures
            r == self.spec_charge_gas(),
    {
        self.has_sender && self.has_gas_limit && self.has_gas_price
    }
}

/// Who pays for storage collateral in an estimate.
#[derive(Debug, Clone, Copy, PartialEq, Eq, Structural)]
pub enum ChargeCollateral {
    Normal,
    EstimateSender,
    EstimateSponsor,
}

/// Which checks an execution makes and what it charges.
#[derive(Debug, Clone, Copy)]
pub struct TransactCheckSettings {
    /// Who pays for storage collateral.
    pub charge_collateral: ChargeCollateral,
    pub charge_gas: bool,
    pub real_execution: bool,
    /// Whether the epoch height of the transaction is checked.
    pub check_epoch_height: bool,
}

impl TransactCheckSettings {
    /// The settings of a real execution: every check is made and gas is charged.
    pub fn all_checks() -> (r: Self)
        ensures
            r.charge_collateral == ChargeCollateral::Normal,
            r.charge_gas,
            r.real_execution,
            r.check_epoch_height,
    {
        Self { charge_collateral: ChargeCollateral::Normal, charge_gas: true, real_execution: true, check_epoch_height: true }
    }

    /// The settings of an estimate: gas is charged only where the request
    /// gives the sender, the gas limit and the gas price.
    pub fn from_estimate_request(request: EstimateRequest, charge_collateral: ChargeCollateral) -> (r: Self)
        ensures
            r.charge_collateral == charge_collateral,
            r.charge_gas == request.spec_charge_gas(),
            !r.real_execution,
            !r.check_epoch_height,
    {
        Self { charge_collateral, charge_gas: request.charge_gas(), real_execution: false, check_epoch_height: false }
    }
}

/// Transaction execution options.
pub struct TransactOptions {
    pub observer: MultiObservers,
    pub check_settings: TransactCheckSettings,
}

impl TransactOptions {
    /// A real execution whose internal transfers are traced.
    pub fn exec_with_tracing() -> (r: Self)
        ensures
            r.observer.tracer matches Some(t) && t.traces().len() == 0 && t.open_checkpoints().len() == 0,
            r.observer.gas_man is None,
            r.check_settings.charge_gas && r.check_settings.real_execution,
    {
        Self { observer: MultiObservers::with_tracing(), check_settings: TransactCheckSettings::all_checks() }
    }

    /// A real execution that traces nothing.
    pub fn exec_with_no_tracing() -> (r: Self)
        ensures
            r.observer.tracer is None,
            r.observer.gas_man is None,
            r.check_settings.charge_gas && r.check_settings.real_execution,
    {
        Self { observer: MultiObservers::with_no_tracing(), check_settings: TransactCheckSettings::all_checks() }
    }

    /// The first pass of an estimate: traced, with the gas it needs recorded.
    pub fn estimate_first_pass(request: EstimateRequest) -> (r: Self)
        ensures
            r.observer.tracer matches Some(t) && t.traces().len() == 0 && t.open_checkpoints().len() == 0,
            r.observer.gas_man matches Some(g) && g.spec_gas_required() == 0,
            r.check_settings.charge_collateral == ChargeCollateral::EstimateSender,
            r.check_settings.charge_gas == request.spec_charge_gas(),
            !r.check_settings.real_execution,
            !r.check_settings.check_epoch_height,
    {
        Self {
            observer: MultiObservers::virtual_call(),
            check_settings: TransactCheckSettings::from_estimate_request(request, ChargeCollateral::EstimateSender),
        }
    }

    /// The second pass of an estimate, where the sponsor pays for storage:
    /// traced, with the gas it needs recorded.
    pub fn estimate_second_pass(request: EstimateRequest) -> (r: Self)
        ensures
            r.observer.tracer matches Some(t) && t.traces().len() == 0 && t.open_checkpoints().len() == 0,
            r.observer.gas_man matches Some(g) && g.spec_gas_required() == 0,
            r.check_settings.charge_collateral == ChargeCollateral::EstimateSponsor,
            r.check_settings.charge_gas == request.spec_charge_gas(),
            !r.check_settings.real_execution,
            !r.check_settings.check_epoch_height,
    {
        Self {
            observer: MultiObservers::virtual_call(),
            check_settings: TransactCheckSettings::from_estimate_request(request, ChargeCollateral::EstimateSponsor),
        }
    }
}

/// The gas charged in an estimate made without a gas limit: three quarters
/// of the estimated limit, rounded up, or the gas used where that is more.
pub open spec fn revised_gas_charged(estimated_gas_limit: nat, gas_used: nat) -> nat {
    let g = (estimated_gas_limit - estimated_gas_limit / 4) as nat;
    if g >= gas_used {
        g
    } else {
        gas_used
    }
}

/// The value of `tx` and, where it is rechecked, the fee of the estimated
/// gas limit, saturated to 256 bits.
pub open spec fn estimate_value_and_fee(tx: &SignedTransaction, request: EstimateRequest, executed: &Executed) -> nat {
    let gas_fee = if request.spec_recheck_gas_fee() {
        saturating(executed.estimated_gas_limit.unwrap()@ * tx.gas_price@)
    } else {
        0
    };
    saturating(tx.value@ + gas_fee)
}

/// What revising an estimate gives for `executed`: where no gas limit was
/// given, the gas charged and the fee follow the estimated gas limit; where
/// a sender was given whose `balance` cannot cover the value and the
/// estimated fee, the outcome is that error.
pub open spec fn revised_outcome(
    tx: &SignedTransaction,
    request: EstimateRequest,
    balance: U256,
    executed: Executed,
    r: ExecutionOutcome,
) -> bool {
    let est = executed.estimated_gas_limit.unwrap()@;
    let gas_charged = if !request.has_gas_limit { revised_gas_charged(est, executed.gas_used@) } else { executed.gas_charged@ };
    let fee = if !request.has_gas_limit { saturating(gas_charged * tx.gas_price@) } else { executed.fee@ };
    let gas_fee = if request.spec_recheck_gas_fee() { saturating(est * tx.gas_price@) } else { 0 };
    let value_and_fee = saturating(tx.value@ + gas_fee);
    let revised = |e: Executed| e.gas_used == executed.gas_used && e.gas_charged@ == gas_charged && e.fee@ == fee
        && e.output@ == executed.output@ && e.trace@ == executed.trace@ && e.estimated_gas_limit == executed.estimated_gas_limit
        && e.contracts_created@ == executed.contracts_created@ && e.gas_sponsor_paid == executed.gas_sponsor_paid
        && e.storage_sponsor_paid == executed.storage_sponsor_paid
        && e.storage_collateralized@ == executed.storage_collateralized@
        && e.storage_released@ == executed.storage_released@
        && e.estimated_storage_limit == executed.estimated_storage_limit;
    if request.has_sender && balance@ < value_and_fee {
        r matches ExecutionOutcome::ExecutionErrorBumpNonce(ExecutionError::NotEnoughCash { required, got, actual_gas_cost, max_storage_limit_cost }, e)
            && max_storage_limit_cost@ == 0 && required@ == value_and_fee && got@ == balance@
            && actual_gas_cost@ == (if balance@ <= gas_fee { balance@ } else { gas_fee })
            && revised(e)
    } else {
        r matches ExecutionOutcome::Finished(e) && revised(e)
    }
}

/// The result of a virtual execution whose first pass finished with
/// `executed`: where no gas limit was given, the gas charged and the fee are
/// revised after the estimated gas limit; where a sender was given, its
/// `balance` must cover the value and the estimated fee.
pub fn revise_estimate(tx: &SignedTransaction, request: EstimateRequest, balance: U256, executed: Executed) -> (r: ExecutionOutcome)
    requires
        !request.has_gas_limit || request.spec_recheck_gas_fee() ==> executed.estimated_gas_limit is Some,
        request.has_storage_limit ==> request.has_sender && balance@ < estimate_value_and_fee(tx, request, &executed),
    ensures
        revised_outcome(tx, request, balance, executed, r),
{
    let mut executed = executed;
    // Revise the gas used in result, if we estimate the transaction with a
    // default large enough gas.
    if !request.has_gas_limit {
        let estimated_gas_limit = executed.estimated_gas_limit.unwrap();
        let quarter = u256_shr(estimated_gas_limit, 2);
        proof {
            vstd::arithmetic::power2::lemma2_to64();
        }
        executed.gas_charged = u256_max(u256_sub(estimated_gas_limit, quarter), executed.gas_used);
        executed.fee = u256_saturating_mul(executed.gas_charged, tx.gas_price);
    }
    // If the request has a sender, recheck the balance requirement matched.
    if request.has_sender {
        let gas_fee = if request.recheck_gas_fee() {
            u256_saturating_mul(executed.estimated_gas_limit.unwrap(), tx.gas_price)
        } else {
            U256::zero()
        };
        let value_and_fee = u256_saturating_add(tx.value, gas_fee);
        if u256_lt(balance, value_and_fee) {
            return ExecutionOutcome::ExecutionErrorBumpNonce(
                ExecutionError::NotEnoughCash {
                    required: U512::from_u256(value_and_fee),
                    got: U512::from_u256(balance),
                    actual_gas_cost: u256_min(balance, gas_fee),
                    max_storage_limit_cost: U256::zero(),
                },
                executed,
            );
        }
    }
    ExecutionOutcome::Finished(executed)
}

} // verus!

verus! {

/// What the VM left of the gas of a transaction: nothing where it failed.
pub open spec fn spec_gas_left(result: Result<FrameResult, VmError>) -> nat {
    match result {
        Ok(f) => f.gas_left@,
        Err(_) => 0,
    }
}

/// Whether all but a quarter of the gas limit is charged: where more than
/// a quarter of it is left.
pub open spec fn charges_all(gas: nat, gas_left: nat) -> bool {
    3 * gas_left >= gas - gas_left
}

/// The gas charged for a transaction with gas limit `gas`.
pub open spec fn spec_gas_charged(gas: nat, gas_left: nat) -> nat {
    if charges_all(gas, gas_left) {
        (gas - gas / 4) as nat
    } else {
        (gas - gas_left) as nat
    }
}

/// The gas given back to the sender.
pub open spec fn spec_gas_refunded(gas: nat, gas_left: nat) -> nat {
    if charges_all(gas, gas_left) {
        gas / 4
    } else {
        gas_left
    }
}

/// The sum of `balance_of` over the accounts at `keys`, as `s` sees them.
pub open spec fn burnt_balances<S: StorageTrait>(s: &State<S>, keys: Seq<(AddressWithSpace, ())>) -> nat
    decreases keys.len(),
{
    if keys.len() == 0 {
        0
    } else {
        burnt_balances(s, keys.drop_last()) + balance_of(s.effective(keys.last().0))
    }
}

/// `a - b`, or zero where `b` is larger.
pub open spec fn saturating_sub(a: nat, b: nat) -> nat {
    if b <= a {
        (a - b) as nat
    } else {
        0
    }
}

/// The gas charged and the refund are a division of the gas limit.
pub proof fn lemma_gas_split(gas: nat, gas_left: nat)
    requires
        gas_left <= gas,
    ensures
        spec_gas_charged(gas, gas_left) + spec_gas_refunded(gas, gas_left) == gas,
{
}

/// The gas charged for a run that left `gas_left` of the gas limit `gas`:
/// where at least a quarter of the gas limit is left, all but a quarter of
/// it (rounded down) is charged and that quarter is refunded; otherwise the
/// gas used is charged and what is left is refunded.
pub proof fn lemma_gas_charged_threshold(gas: nat, gas_left: nat)
    requires
        gas_left <= gas,
    ensures
        4 * gas_left >= gas ==> spec_gas_charged(gas, gas_left) == gas - gas / 4
            && spec_gas_refunded(gas, gas_left) == gas / 4,
        4 * gas_left < gas ==> spec_gas_charged(gas, gas_left) == gas - gas_left
            && spec_gas_refunded(gas, gas_left) == gas_left,
        spec_gas_charged(gas, gas_left) >= gas - gas_left,
        spec_gas_charged(gas, gas_left) <= gas,
{
}

/// Where the gas limit times the gas price fits in 256 bits, the fee charged
/// and the value refunded add up to what the sender paid for gas up front.
pub proof fn lemma_fee_and_refund_cover_gas_cost(gas: nat, gas_left: nat, gas_price: nat)
    requires
        gas_left <= gas,
        gas * gas_price < u256_modulus(),
    ensures
        saturating(spec_gas_charged(gas, gas_left) * gas_price) + saturating(spec_gas_refunded(gas, gas_left) * gas_price)
            == gas * gas_price,
{
    let c = spec_gas_charged(gas, gas_left);
    let f = spec_gas_refunded(gas, gas_left);
    lemma_gas_split(gas, gas_left);
    assert(c * gas_price + f * gas_price == gas * gas_price) by (nonlinear_arith)
        requires
            c + f == gas,
    ;
    assert(c * gas_price <= gas * gas_price) by (nonlinear_arith)
        requires
            c <= gas,
    ;
    assert(f * gas_price <= gas * gas_price) by (nonlinear_arith)
        requires
            f <= gas,
    ;
}

/// Transaction executor.
pub struct TXExecutor<S> {
    pub state: State<S>,
    pub spec: Spec,
    /// The number of the block the transactions are executed in.
    pub env_number: u64,
    /// The call depth the top frame runs at.
    pub depth: usize,
    /// Whether the top frame runs in a static context.
    pub static_flag: bool,
}

/// The error of the first balance read that fails, reading the accounts
/// of `keys` in order from `eff`; `Ok` where every read succeeds.
pub open spec fn first_balance_error(
    eff: spec_fn(AddressWithSpace) -> DbResult<Option<OverlayView>>,
    keys: Seq<AddressWithSpace>,
) -> DbResult<()>
    decreases keys.len(),
{
    if keys.len() == 0 {
        Ok(())
    } else {
        match first_balance_error(eff, keys.drop_last()) {
            Err(e) => Err(e),
            Ok(()) => match spec_balance(eff(keys.last())) {
                Ok(_) => Ok(()),
                Err(e) => Err(e),
            },
        }
    }
}

/// The accounts of `st`, as read.
pub open spec fn state_reads<S: StorageTrait>(st: &State<S>) -> spec_fn(AddressWithSpace) -> DbResult<Option<OverlayView>> {
    |c: AddressWithSpace| st.effective(c)
}

/// The accounts of `st` as read once `sender` is refunded: the sender's
/// reads without fail, the others as in `st`.
pub open spec fn reads_after_refund<S: StorageTrait>(
    st: &State<S>,
    sender: AddressWithSpace,
) -> spec_fn(AddressWithSpace) -> DbResult<Option<OverlayView>> {
    |c: AddressWithSpace| if c == sender { Ok::<Option<OverlayView>, DbError>(None) } else { st.effective(c) }
}

/// The error `finalize` meets, but for failures of the storage backend:
/// that of the sender's account, then that of the first destroyed contract
/// whose balance cannot be read (the sender's is read after its refund),
/// then the database error the run itself ended with.
pub open spec fn finalize_error<S: StorageTrait>(
    st: &State<S>,
    sender: AddressWithSpace,
    keys: Seq<AddressWithSpace>,
    result: Result<FrameResult, VmError>,
) -> DbResult<()> {
    match st.effective(sender) {
        Err(e) => Err(e),
        Ok(_) => match first_balance_error(reads_after_refund(st, sender), keys) {
            Err(e) => Err(e),
            Ok(()) => match result {
                Err(VmError::StateDbError(e)) => Err(e),
                _ => Ok(()),
            },
        },
    }
}

/// Two ways of reading the accounts of `keys` that fail alike meet the
/// same first failure.
proof fn lemma_first_balance_error_agree(
    eff1: spec_fn(AddressWithSpace) -> DbResult<Option<OverlayView>>,
    eff2: spec_fn(AddressWithSpace) -> DbResult<Option<OverlayView>>,
    keys: Seq<AddressWithSpace>,
)
    requires
        forall|j: int| 0 <= j < keys.len() ==> #[trigger] unit_of(spec_balance(eff1(keys[j]))) == unit_of(
            spec_balance(eff2(keys[j])),
        ),
    ensures
        first_balance_error(eff1, keys) == first_balance_error(eff2, keys),
    decreases keys.len(),
{
    if keys.len() > 0 {
        let k = keys.drop_last();
        assert forall|j: int| 0 <= j < k.len() implies #[trigger] unit_of(spec_balance(eff1(k[j]))) == unit_of(
            spec_balance(eff2(k[j])),
        ) by {
            assert(k[j] == keys[j]);
        }
        lemma_first_balance_error_agree(eff1, eff2, k);
        assert(unit_of(spec_balance(eff1(keys[keys.len() - 1]))) == unit_of(spec_balance(eff2(keys[keys.len() - 1]))));
    }
}

/// Once a prefix of `keys` holds a failing read, the first failing read of
/// `keys` is that of the prefix.
proof fn lemma_first_balance_error_prefix(
    eff: spec_fn(AddressWithSpace) -> DbResult<Option<OverlayView>>,
    keys: Seq<AddressWithSpace>,
    m: int,
)
    requires
        0 <= m <= keys.len(),
        first_balance_error(eff, keys.take(m)) is Err,
    ensures
        first_balance_error(eff, keys) == first_balance_error(eff, keys.take(m)),
    decreases keys.len() - m,
{
    if m < keys.len() {
        assert(keys.take(m + 1).drop_last() =~= keys.take(m));
        lemma_first_balance_error_prefix(eff, keys, m + 1);
    } else {
        assert(keys.take(m) =~= keys);
    }
}

/// Tracing the burning of the balance of `keys[i]` extends the traces of
/// the first `i` burnings by one.
proof fn lemma_traced_after_push(
    t0: MultiObservers,
    before: MultiObservers,
    after: MultiObservers,
    keys: Seq<AddressWithSpace>,
    i: int,
    bal: spec_fn(AddressWithSpace) -> nat,
    value: U256,
)
    requires
        0 <= i < keys.len(),
        traced_after(t0, before, keys.take(i), bal),
        traced_one(before, after, InternalTransfer {
            from: AddressPocket::Balance(keys[i]),
            to: AddressPocket::MintBurn,
            value,
            valid: true,
        }),
        value@ == bal(keys[i]),
    ensures
        traced_after(t0, after, keys.take(i + 1), bal),
{
    if let Some(t) = t0.tracer {
        let n = t.traces().len() as int;
        let u = before.tracer->0.traces();
        let w = after.tracer->0.traces();
        assert(w.take(n) =~= u.take(n));
        assert(w.skip(n) =~= u.skip(n).push(w.last()));
        let k = keys.take(i + 1);
        assert forall|j: int| 0 <= j < k.len() implies {
            &&& #[trigger] w.skip(n)[j].from == AddressPocket::Balance(k[j])
            &&& w.skip(n)[j].to == AddressPocket::MintBurn
            &&& w.skip(n)[j].value@ == bal(k[j])
            &&& w.skip(n)[j].valid
        } by {
            if j < i {
                assert(k[j] == keys.take(i)[j]);
                assert(w.skip(n)[j] == u.skip(n)[j]);
            }
        }
    }
}

/// `ts` holds the traces of `ob`, then the refund of `refund` to `sender`,
/// then the burning of the balance of each account of `keys`, `bal` giving
/// each balance; where nothing traces, `ts` is empty.
pub open spec fn finalize_traces(
    ob: MultiObservers,
    ts: Seq<InternalTransfer>,
    sender: AddressWithSpace,
    refund: nat,
    keys: Seq<AddressWithSpace>,
    bal: spec_fn(AddressWithSpace) -> nat,
) -> bool {
    match ob.tracer {
        Some(t) => {
            let n = t.traces().len() as int;
            &&& ts.len() == n + 1 + keys.len()
            &&& ts.take(n) == t.traces()
            &&& ts[n].from == AddressPocket::GasPayment
            &&& ts[n].to == AddressPocket::Balance(sender)
            &&& ts[n].value@ == refund
            &&& ts[n].valid
            &&& burn_traces(ts.skip(n + 1), keys, bal)
        },
        None => ts.len() == 0,
    }
}

proof fn lemma_finalize_traces(
    ob0: MultiObservers,
    ob1: MultiObservers,
    ob2: MultiObservers,
    sender: AddressWithSpace,
    refund: U256,
    keys: Seq<AddressWithSpace>,
    bal1: spec_fn(AddressWithSpace) -> nat,
    bal2: spec_fn(AddressWithSpace) -> nat,
)
    requires
        traced_one(ob0, ob1, InternalTransfer {
            from: AddressPocket::GasPayment,
            to: AddressPocket::Balance(sender),
            value: refund,
            valid: true,
        }),
        traced_after(ob1, ob2, keys, bal1),
        forall|c: AddressWithSpace| #[trigger] bal1(c) == bal2(c),
    ensures
        finalize_traces(ob0, spec_traces(ob2), sender, refund@, keys, bal2),
{
    if let Some(t) = ob0.tracer {
        let n = t.traces().len() as int;
        let u = ob1.tracer->0.traces();
        let w = ob2.tracer->0.traces();
        assert(u.take(n) =~= t.traces());
        assert(w.take(n) =~= u.take(n)) by {
            assert(w.take(n + 1) =~= u);
            assert(w.take(n) =~= w.take(n + 1).take(n));
        }
        assert(w[n] == u[n]) by {
            assert(w.take(n + 1) =~= u);
            assert(w.take(n + 1)[n] == w[n]);
        }
        assert(w.skip(n + 1) =~= w.skip(u.len() as int));
        let ts = w.skip(n + 1);
        assert forall|j: int| 0 <= j < keys.len() implies {
            &&& #[trigger] ts[j].from == AddressPocket::Balance(keys[j])
            &&& ts[j].to == AddressPocket::MintBurn
            &&& ts[j].value@ == bal2(keys[j])
            &&& ts[j].valid
        } by {
            assert(bal1(keys[j]) == bal2(keys[j]));
        }
    }
}

/// The gas charged, the fee and the refund of a transaction whose run left
/// `gas_left`: where more than a quarter of the gas limit is left, three
/// quarters of it are charged; otherwise the gas used is.
pub fn gas_settlement(tx: &SignedTransaction, gas_left: U256) -> (r: (U256, U256, U256))
    requires
        gas_left@ <= tx.gas@,
        3 * gas_left@ < u256_modulus(),
    ensures
        r.0@ == spec_gas_charged(tx.gas@, gas_left@),
        r.1@ == saturating(spec_gas_charged(tx.gas@, gas_left@) * tx.gas_price@),
        r.2@ == saturating(spec_gas_refunded(tx.gas@, gas_left@) * tx.gas_price@),
        4 * gas_left@ >= tx.gas@ ==> r.0@ == tx.gas@ - tx.gas@ / 4,
        4 * gas_left@ < tx.gas@ ==> r.0@ == tx.gas@ - gas_left@,
        r.1@ == saturating(r.0@ * tx.gas_price@),
        r.0@ <= tx.gas@,
        r.2@ == saturating(((tx.gas@ - r.0@) * tx.gas_price@) as nat),
{
    let gas_used = u256_sub(tx.gas, gas_left);
    // gas_left should be smaller than 1/4 of gas_limit, otherwise
    // 3/4 of gas_limit is charged.
    let charge_all = !u256_lt(u256_add(u256_add(gas_left, gas_left), gas_left), gas_used);
    if charge_all {
        let gas_refunded = u256_shr(tx.gas, 2);
        proof {
            vstd::arithmetic::power2::lemma2_to64();
        }
        let gas_charged = u256_sub(tx.gas, gas_refunded);
        (gas_charged, u256_saturating_mul(gas_charged, tx.gas_price), u256_saturating_mul(gas_refunded, tx.gas_price))
    } else {
        (gas_used, u256_saturating_mul(gas_used, tx.gas_price), u256_saturating_mul(gas_left, tx.gas_price))
    }
}

impl<S: StorageTrait> TXExecutor<S> {
    /// Basic constructor.
    pub fn new(state: State<S>, spec: Spec, env_number: u64) -> (r: Self)
        ensures
            r.state == state,
            r.spec == spec,
            r.env_number == env_number,
    {
        TXExecutor { state, spec, env_number, depth: 0, static_flag: false }
    }

    /// Removes the contracts in `suicides`, burning their balances.
    pub fn kill_process(
        &mut self,
        suicides: &AssocMap<AddressWithSpace, ()>,
        tracer: &mut MultiObservers,
    ) -> (r: DbResult<()>)
        requires
            old(self).state.wf(),
            suicides.wf(),
        ensures
            final(tracer).gas_man == old(tracer).gas_man,
            final(tracer).tracer is Some == old(tracer).tracer is Some,
            r is Ok ==> traced_after(
                *old(tracer),
                *final(tracer),
                suicides.key_seq(),
                |c: AddressWithSpace| balance_of(old(self).state.effective(c)),
            ),
            final(self).state.infallible() == old(self).state.infallible(),
            read_matches(r, first_balance_error(state_reads(&old(self).state), suicides.key_seq())),
            old(self).state.infallible() ==> r == first_balance_error(state_reads(&old(self).state), suicides.key_seq()),
            final(self).spec == old(self).spec,
            final(self).env_number == old(self).env_number,
            final(self).state.wf(),
            old(self).state.consistent() ==> final(self).state.consistent(),
            final(self).state.db_view() == old(self).state.db_view(),
            final(self).state.checkpoint_count() == old(self).state.checkpoint_count(),
            forall|i: int| #[trigger] final(self).state.snapshot(i) == old(self).state.snapshot(i),
            forall|i: int| #[trigger] final(self).state.snapshot_total_issued(i) == old(self).state.snapshot_total_issued(i),
            r matches Err(e) ==> e is Storage || exists|j: int| 0 <= j < suicides.len_spec()
                && #[trigger] spec_balance(old(self).state.effective(suicides.key_at(j))) == Err::<nat, DbError>(e),
            r is Ok ==> {
                &&& forall|c: AddressWithSpace| #[trigger] suicides.view().contains_key(c) ==> final(self).state.effective(c)
                    == Ok::<Option<OverlayView>, DbError>(Some(removed_view(c)))
                &&& forall|c: AddressWithSpace| !suicides.view().contains_key(c) ==> #[trigger] final(self).state.effective(c)
                    == old(self).state.effective(c)
                &&& final(self).state.total_issued() == saturating_sub(
                    old(self).state.total_issued(),
                    burnt_balances(&old(self).state, suicides.entry_seq()),
                )
            },
    {
        let ghost s0 = self.state;
        let ghost keys = suicides.entry_seq();
        let ghost t0 = *tracer;
        let ghost ks = suicides.key_seq();
        let ghost eff0 = state_reads(&s0);
        let ghost bal = |c: AddressWithSpace| balance_of(s0.effective(c));
        proof {
            if let Some(t) = t0.tracer {
                assert(t.traces().take(t.traces().len() as int) =~= t.traces());
            }
        }
        let mut i: usize = 0;
        let mut failed: Option<DbError> = None;
        while i < suicides.len() && failed.is_none()
            invariant
                0 <= i <= suicides.len_spec(),
                t0 == *old(tracer),
                bal == (|c: AddressWithSpace| balance_of(s0.effective(c))),
                tracer.gas_man == t0.gas_man,
                tracer.tracer is Some == t0.tracer is Some,
                ks == suicides.key_seq(),
                eff0 == state_reads(&s0),
                self.state.infallible() == s0.infallible(),
                failed is None ==> first_balance_error(eff0, ks.take(i as int)) == Ok::<(), DbError>(()),
                failed matches Some(e) ==> (s0.infallible() ==> !(e is Storage))
                    && (!(e is Storage) ==> first_balance_error(eff0, ks.take(i as int)) == Err::<(), DbError>(e)),
                failed is None ==> traced_after(t0, *tracer, ks.take(i as int), bal),
                suicides.wf(),
                keys == suicides.entry_seq(),
                self.spec == old(self).spec,
                self.env_number == old(self).env_number,
                self.state.wf(),
                s0 == old(self).state,
                s0.consistent() ==> self.state.consistent(),
                self.state.db_view() == s0.db_view(),
                self.state.checkpoint_count() == s0.checkpoint_count(),
                forall|k: int| #[trigger] self.state.snapshot(k) == s0.snapshot(k),
                forall|k: int| #[trigger] self.state.snapshot_total_issued(k) == s0.snapshot_total_issued(k),
                failed matches Some(e) ==> e is Storage || exists|j: int| 0 <= j < suicides.len_spec()
                    && #[trigger] spec_balance(s0.effective(suicides.key_at(j))) == Err::<nat, DbError>(e),
                failed is None ==> {
                    &&& forall|j: int| 0 <= j < i ==> #[trigger] self.state.effective(suicides.key_at(j))
                        == Ok::<Option<OverlayView>, DbError>(Some(removed_view(suicides.key_at(j))))
                    &&& forall|c: AddressWithSpace| (forall|j: int| 0 <= j < i ==> suicides.key_at(j) != c)
                        ==> #[trigger] self.state.effective(c) == s0.effective(c)
                    &&& self.state.total_issued() == saturating_sub(s0.total_issued(), burnt_balances(&s0, keys.take(i as int)))
                },
            decreases suicides.len_spec() - i,
        {
            let (contract_address, _) = suicides.entry_at(i);
            let c = *contract_address;
            assert(c == suicides.key_at(i as int));
            proof {
                assert forall|j: int| 0 <= j < i implies suicides.key_at(j) != c by {
                    assert(suicides.key_at(j) != suicides.key_at(i as int));
                }
            }
            proof {
                assert(ks.take(i + 1).drop_last() =~= ks.take(i as int));
                assert(ks.take(i + 1).last() == c);
                assert(self.state.effective(c) == s0.effective(c));
                assert(eff0(c) == s0.effective(c));
            }
            match self.state.balance(&c) {
                Err(e) => {
                    failed = Some(e);
                },
                Ok(contract_balance) => {
                    let ghost tr0 = *tracer;
                    tracer.trace_internal_transfer(AddressPocket::Balance(c), AddressPocket::MintBurn, contract_balance);
                    proof {
                        lemma_traced_after_push(t0, tr0, *tracer, ks, i as int, bal, contract_balance);
                    }
                    let ghost s1 = self.state;
                    let _ = self.state.remove_contract(&c);
                    self.state.subtract_total_issued(contract_balance);
                    proof {
                        assert(keys.take(i + 1).drop_last() =~= keys.take(i as int));
                        assert(keys.take(i + 1).last() == keys[i as int]);
                        assert(contract_balance@ == balance_of(s0.effective(c)));
                        assert forall|j: int| 0 <= j < i + 1 implies #[trigger] self.state.effective(suicides.key_at(j))
                            == Ok::<Option<OverlayView>, DbError>(Some(removed_view(suicides.key_at(j)))) by {
                            if j < i {
                                assert(suicides.key_at(j) != c);
                                assert(s1.effective(suicides.key_at(j)) == Ok::<Option<OverlayView>, DbError>(Some(removed_view(suicides.key_at(j)))));
                            }
                        }
                        assert forall|cc: AddressWithSpace| (forall|j: int| 0 <= j < i + 1 ==> suicides.key_at(j) != cc)
                            implies #[trigger] self.state.effective(cc) == s0.effective(cc) by {
                            assert(suicides.key_at(i as int) != cc);
                            assert(s1.effective(cc) == s0.effective(cc));
                        }
                    }
                },
            }
            i += 1;
        }
        if let Some(e) = failed {
            proof {
                if !(e is Storage) {
                    lemma_first_balance_error_prefix(eff0, ks, i as int);
                }
            }
            return Err(e);
        }
        proof {
            assert(keys.take(i as int) =~= keys);
            assert(ks.take(i as int) =~= ks);
            assert forall|c: AddressWithSpace| #[trigger] suicides.view().contains_key(c) implies self.state.effective(c)
                == Ok::<Option<OverlayView>, DbError>(Some(removed_view(c))) by {
                let j = suicides.index_of(c);
                suicides.lemma_index(j);
            }
            assert forall|c: AddressWithSpace| !suicides.view().contains_key(c) implies #[trigger] self.state.effective(c)
                == s0.effective(c) by {
                assert forall|j: int| 0 <= j < i implies suicides.key_at(j) != c by {
                    suicides.lemma_index(j);
                }
            }
        }
        Ok(())
    }

    /// Finalizes the transaction (does refunds and suicides).
    pub fn finalize(
        &mut self,
        tx: &SignedTransaction,
        suicides: &AssocMap<AddressWithSpace, ()>,
        contracts_created: Vec<AddressWithSpace>,
        collateral: &CollateralChanges,
        cleanup_mode: &mut CleanupMode,
        result: Result<FrameResult, VmError>,
        output: Vec<u8>,
        observer: &mut MultiObservers,
        estimated_gas_limit: Option<U256>,
    ) -> (r: DbResult<ExecutionOutcome>)
        requires
            old(self).state.wf(),
            suicides.wf(),
            collateral.wf(),
            old(cleanup_mode).wf(),
            spec_gas_left(result) <= tx.gas@,
            3 * spec_gas_left(result) < u256_modulus(),
            ({
                let refund = saturating(spec_gas_refunded(tx.gas@, spec_gas_left(result)) * tx.gas_price@);
                refund != 0 ==> (old(self).state.require_basic(tx.spec_sender(), old(self).spec.account_start_nonce@) matches Ok(v)
                    ==> v.balance + refund < u256_modulus())
            }),
        ensures
            final(self).spec == old(self).spec,
            final(self).state.wf(),
            final(cleanup_mode).wf(),
            old(self).state.consistent() ==> final(self).state.consistent(),
            final(self).state.db_view() == old(self).state.db_view(),
            final(self).state.checkpoint_count() == old(self).state.checkpoint_count(),
            forall|i: int| #[trigger] final(self).state.snapshot(i) == old(self).state.snapshot(i),
            forall|i: int| #[trigger] final(self).state.snapshot_total_issued(i) == old(self).state.snapshot_total_issued(i),
            ({
                let gas = tx.gas@;
                let gas_left = spec_gas_left(result);
                let price = tx.gas_price@;
                let refund = saturating(spec_gas_refunded(gas, gas_left) * price);
                let sender = tx.spec_sender();
                let bal = (|c: AddressWithSpace| balance_of(old(self).state.effective(c)) + if c == sender {
                    refund
                } else {
                    0
                });
                let charged = |e: Executed| e.gas_used@ == gas - gas_left
                    && e.gas_charged@ == spec_gas_charged(gas, gas_left)
                    && e.fee@ == saturating(spec_gas_charged(gas, gas_left) * price)
                    && e.output@ == output@ && e.estimated_gas_limit == estimated_gas_limit
                    && e.contracts_created@ == contracts_created@
                    && !e.gas_sponsor_paid && !e.storage_sponsor_paid
                    && e.estimated_storage_limit == if e.storage_collateralized@.len() > 0 {
                        e.storage_collateralized@[0].collaterals@
                    } else {
                        0
                    }
                    && finalize_traces(*old(observer), e.trace@, sender, refund, suicides.key_seq(), bal);
                &&& r matches Err(e) ==> e is Storage || old(self).state.effective(sender) == Err::<Option<OverlayView>, DbError>(e)
                    || result == Err::<FrameResult, VmError>(VmError::StateDbError(e))
                    || exists|j: int| 0 <= j < suicides.len_spec() && suicides.key_at(j) != sender
                        && #[trigger] spec_balance(old(self).state.effective(suicides.key_at(j))) == Err::<nat, DbError>(e)
                &&& r is Ok ==> match result {
                    Err(VmError::StateDbError(_)) => false,
                    Err(err) => r matches Ok(ExecutionOutcome::ExecutionErrorBumpNonce(ExecutionError::VmError(x), e))
                        && x == err && e.gas_used == tx.gas && e.gas_charged == tx.gas && e.fee@ == saturating(gas * price)
                        && e.contracts_created@.len() == 0
                        && e.storage_collateralized@.len() == 0 && e.storage_released@.len() == 0
                        && finalize_traces(*old(observer), e.trace@, sender, refund, suicides.key_seq(), bal),
                    Ok(f) => if f.apply_state {
                        r matches Ok(ExecutionOutcome::Finished(e)) && charged(e)
                            && reports_changes(*collateral, e.storage_collateralized@, e.storage_released@)
                    } else {
                        r matches Ok(ExecutionOutcome::ExecutionErrorBumpNonce(ExecutionError::VmError(VmError::Reverted), e))
                            && charged(e) && e.storage_collateralized@.len() == 0 && e.storage_released@.len() == 0
                    },
                }
                &&& r is Ok ==> final(cleanup_mode).touched() == old(cleanup_mode).touched_after(
                    sender,
                    old(self).state.effective(sender) matches Ok(Some(_)),
                )
                &&& read_matches(unit_of(r), finalize_error(&old(self).state, sender, suicides.key_seq(), result))
                &&& old(self).state.infallible() ==> unit_of(r) == finalize_error(
                    &old(self).state,
                    sender,
                    suicides.key_seq(),
                    result,
                )
                &&& r is Ok && !suicides.view().contains_key(sender) ==> final(self).state.effective(sender)
                    == if refund != 0 || (old(cleanup_mode).is_force_create() && old(self).state.effective(sender)
                    == Ok::<Option<OverlayView>, DbError>(None)) {
                    match old(self).state.require_basic(sender, old(self).spec.account_start_nonce@) {
                        Ok(v) => Ok::<Option<OverlayView>, DbError>(Some(OverlayView { balance: v.balance + refund, ..v })),
                        Err(e) => Err::<Option<OverlayView>, DbError>(e),
                    }
                } else {
                    old(self).state.effective(sender)
                }
                &&& r is Ok ==> {
                    &&& forall|c: AddressWithSpace| #[trigger] suicides.view().contains_key(c) ==> final(self).state.effective(c)
                        == Ok::<Option<OverlayView>, DbError>(Some(removed_view(c)))
                    &&& forall|c: AddressWithSpace| !suicides.view().contains_key(c) && c != sender
                        ==> #[trigger] final(self).state.effective(c) == old(self).state.effective(c)
                    &&& !suicides.view().contains_key(sender) ==> balance_of(final(self).state.effective(sender))
                        == balance_of(old(self).state.effective(sender)) + refund
                    &&& final(self).state.total_issued() == saturating_sub(
                        old(self).state.total_issued(),
                        burnt_balances(&old(self).state, suicides.entry_seq())
                            + if suicides.view().contains_key(sender) { refund } else { 0 },
                    )
                }
            }),
    {
        let ghost s0 = self.state;
        let gas_left = match &result {
            Ok(f) => f.gas_left,
            Err(_) => U256::zero(),
        };
        // gas_used is only used to estimate gas needed
        let gas_used = u256_sub(tx.gas, gas_left);
        let (gas_charged, fees_value, refund_value) = gas_settlement(tx, gas_left);
        let sender = tx.sender();
        let ghost ob0 = *observer;
        observer.trace_internal_transfer(AddressPocket::GasPayment, AddressPocket::Balance(sender), refund_value);
        let ghost ob1 = *observer;
        match self.state.add_balance(&sender, &refund_value, cleanup_mode, self.spec.account_start_nonce) {
            Ok(()) => {},
            Err(e) => {
                return Err(e);
            },
        }
        let ghost s1 = self.state;
        proof {
            let excl = reads_after_refund(&s0, sender);
            let eff1 = state_reads(&s1);
            assert(s0.effective(sender) is Ok);
            assert(s1.effective(sender) is Ok);
            let ks = suicides.key_seq();
            assert forall|j: int| 0 <= j < ks.len() implies #[trigger] unit_of(spec_balance(eff1(ks[j]))) == unit_of(
                spec_balance(excl(ks[j])),
            ) by {
                if ks[j] != sender {
                    assert(s1.effective(ks[j]) == s0.effective(ks[j]));
                }
            }
            lemma_first_balance_error_agree(eff1, excl, ks);
        }
        // perform suicides
        match self.kill_process(suicides, observer) {
            Ok(()) => {},
            Err(e) => {
                proof {
                    if !(e is Storage) {
                        let j = choose|j: int| 0 <= j < suicides.len_spec()
                            && #[trigger] spec_balance(s1.effective(suicides.key_at(j))) == Err::<nat, DbError>(e);
                        if suicides.key_at(j) == sender {
                            assert(s1.effective(sender) is Ok);
                        } else {
                            assert(s1.effective(suicides.key_at(j)) == s0.effective(suicides.key_at(j)));
                        }
                    }
                }
                return Err(e);
            },
        }
        proof {
            lemma_burnt_after_refund(&s0, &s1, suicides, sender, refund_value@);
            let bal1 = |c: AddressWithSpace| balance_of(s1.effective(c));
            let bal2 = |c: AddressWithSpace| balance_of(s0.effective(c)) + if c == sender {
                refund_value@
            } else {
                0
            };
            assert forall|c: AddressWithSpace| #[trigger] bal1(c) == bal2(c) by {
                if c != sender {
                    assert(s1.effective(c) == s0.effective(c));
                }
            }
            lemma_finalize_traces(ob0, ob1, *observer, sender, refund_value, suicides.key_seq(), bal1, bal2);
        }
        match result {
            Err(VmError::StateDbError(e)) => Err(e),
            Err(exception) => {
                let trace = observer.drain_traces();
                Ok(ExecutionOutcome::ExecutionErrorBumpNonce(
                    ExecutionError::VmError(exception),
                    Executed::execution_error_fully_charged(tx, trace),
                ))
            },
            Ok(r) => {
                let (storage_collateralized, storage_released) = if r.apply_state {
                    collateral.storage_changes()
                } else {
                    (Vec::new(), Vec::new())
                };
                let estimated_storage_limit = if storage_collateralized.len() > 0 {
                    collateral.get_collateral_change(&storage_collateralized[0].address).0
                } else {
                    0
                };
                let trace = observer.drain_traces();
                let executed = Executed {
                    gas_used,
                    gas_charged,
                    fee: fees_value,
                    output,
                    trace,
                    estimated_gas_limit,
                    contracts_created,
                    gas_sponsor_paid: false,
                    storage_sponsor_paid: false,
                    storage_collateralized,
                    storage_released,
                    estimated_storage_limit,
                };
                if r.apply_state {
                    Ok(ExecutionOutcome::Finished(executed))
                } else {
                    // Transaction reverted by vm instruction.
                    Ok(ExecutionOutcome::ExecutionErrorBumpNonce(ExecutionError::VmError(VmError::Reverted), executed))
                }
            },
        }
    }
}

} // verus!

verus! {

/// The balances burnt after a refund of `delta` to `a`: those before, plus
/// `delta` where `a` is among the accounts burnt.
proof fn lemma_burnt_after_refund<S: StorageTrait>(
    s0: &State<S>,
    s1: &State<S>,
    suicides: &AssocMap<AddressWithSpace, ()>,
    a: AddressWithSpace,
    delta: nat,
)
    requires
        suicides.wf(),
        forall|c: AddressWithSpace| c != a ==> #[trigger] s1.effective(c) == s0.effective(c),
        balance_of(s1.effective(a)) == balance_of(s0.effective(a)) + delta,
    ensures
        burnt_balances(s1, suicides.entry_seq()) == burnt_balances(s0, suicides.entry_seq()) + if suicides.view().contains_key(a) {
            delta
        } else {
            0
        },
{
    let keys = suicides.entry_seq();
    lemma_burnt_prefix(s0, s1, suicides, a, delta, keys.len() as int);
    assert(keys.take(keys.len() as int) =~= keys);
    if suicides.view().contains_key(a) {
        let j = suicides.index_of(a);
        suicides.lemma_index(j);
    } else {
        assert forall|j: int| 0 <= j < keys.len() implies keys[j].0 != a by {
            suicides.lemma_index(j);
        }
    }
}

proof fn lemma_burnt_prefix<S: StorageTrait>(
    s0: &State<S>,
    s1: &State<S>,
    suicides: &AssocMap<AddressWithSpace, ()>,
    a: AddressWithSpace,
    delta: nat,
    n: int,
)
    requires
        suicides.wf(),
        0 <= n <= suicides.len_spec(),
        forall|c: AddressWithSpace| c != a ==> #[trigger] s1.effective(c) == s0.effective(c),
        balance_of(s1.effective(a)) == balance_of(s0.effective(a)) + delta,
    ensures
        burnt_balances(s1, suicides.entry_seq().take(n)) == burnt_balances(s0, suicides.entry_seq().take(n)) + if exists|j: int|
            0 <= j < n && suicides.key_at(j) == a {
            delta
        } else {
            0
        },
    decreases n,
{
    let keys = suicides.entry_seq();
    if n > 0 {
        lemma_burnt_prefix(s0, s1, suicides, a, delta, n - 1);
        assert(keys.take(n).drop_last() =~= keys.take(n - 1));
        assert(keys.take(n).last() == keys[n - 1]);
        if suicides.key_at(n - 1) == a {
            assert forall|j: int| 0 <= j < n - 1 implies suicides.key_at(j) != a by {
                assert(suicides.key_at(j) != suicides.key_at(n - 1));
            }
        } else {
            if exists|j: int| 0 <= j < n && suicides.key_at(j) == a {
                let j = choose|j: int| 0 <= j < n && suicides.key_at(j) == a;
                assert(j < n - 1);
            }
        }
    } else {
        assert(keys.take(0) =~= Seq::<(AddressWithSpace, ())>::empty());
    }
}

} // verus!

verus! {

/// What to do next with a transaction whose checks have passed or failed.
pub enum TransactStep {
    /// The transaction is done without running the VM.
    Done(ExecutionOutcome),
    /// The VM is to run the top frame of the transaction.
    Execute {
        params: ActionParams,
        is_create: bool,
        /// The gas taken before the VM runs.
        base_gas_required: u64,
    },
}

/// What the sender pays up front for gas, as the settings charge it.
pub open spec fn spec_gas_cost(tx: &SignedTransaction, charge_gas: bool) -> nat {
    if charge_gas {
        tx.gas@ * tx.gas_price@
    } else {
        0
    }
}

pub open spec fn is_create(tx: &SignedTransaction) -> bool {
    tx.action is Create
}

/// The account of the sender after its nonce is bumped and `cost` is
/// taken from its balance.
pub open spec fn charged_sender(v: OverlayView, cost: nat) -> OverlayView {
    OverlayView { nonce: v.nonce + 1, balance: (v.balance - cost) as nat, ..v }
}

proof fn lemma_cost_bounds(value: nat, gas: nat, price: nat)
    requires
        value < u256_modulus(),
        gas < u256_modulus(),
        price < u256_modulus(),
    ensures
        gas * price < u256_modulus() * u256_modulus(),
        value + gas * price < u256_modulus() * u256_modulus(),
{
    let m = u256_modulus();
    assert(gas * price <= (m - 1) * (m - 1)) by (nonlinear_arith)
        requires
            gas <= m - 1,
            price <= m - 1,
    ;
    assert((m - 1) * (m - 1) + (m - 1) < m * m) by (nonlinear_arith)
        requires
            m > 1,
    ;
}

impl<S: StorageTrait> TXExecutor<S> {
    /// Checks a transaction against the state and takes what the sender
    /// pays up front: the nonce must match the sender's, and the sender
    /// must afford the value and the gas; a sender that cannot pays what it
    /// can of the gas. Gives the top frame for the VM where the transaction
    /// runs.
    pub fn transact_prepare(
        &mut self,
        tx: &SignedTransaction,
        check_settings: TransactCheckSettings,
        observer: &mut MultiObservers,
        cleanup_mode: &mut CleanupMode,
    ) -> (r: DbResult<TransactStep>)
        requires
            old(self).state.wf(),
            old(cleanup_mode).wf(),
            spec_nonce(old(self).state.effective(tx.spec_sender())) == Ok::<nat, DbError>(tx.nonce@) ==> {
                &&& spec_gas_required(is_create(tx), tx.data@, old(self).spec) <= u64::MAX
                &&& spec_gas_required(is_create(tx), tx.data@, old(self).spec) <= tx.gas@
                &&& tx.nonce@ + 1 < u256_modulus()
                &&& old(self).spec.account_start_nonce@ + 1 < u256_modulus()
            },
        ensures
            final(self).spec == old(self).spec,
            final(self).env_number == old(self).env_number,
            final(cleanup_mode).wf(),
            final(self).state.frame(&old(self).state, tx.spec_sender()),
            ({
                let s = tx.spec_sender();
                let st = &old(self).state;
                let ob = *old(observer);
                let eff = st.effective(s);
                let n = spec_nonce(eff)->Ok_0;
                let balance = balance_of(eff);
                let gas_cost = spec_gas_cost(tx, check_settings.charge_gas);
                let total = tx.value@ + gas_cost;
                let start = old(self).spec.account_start_nonce@;
                let base = spec_gas_required(is_create(tx), tx.data@, old(self).spec);
                let receiver = match tx.action {
                    Action::Call(a) => AddressWithSpace { address: a, space: s.space },
                    Action::Create => s,
                };
                let expected = match eff {
                    Err(e) => Err::<(), DbError>(e),
                    Ok(_) => if tx.nonce@ == n && balance >= total && tx.action is Call {
                        unit_of(spec_code(st.effective(receiver), st.db_view()))
                    } else {
                        Ok(())
                    },
                };
                &&& read_matches(unit_of(r), expected)
                &&& old(self).state.infallible() ==> unit_of(r) == expected
                &&& r matches Err(e) ==> e is Storage || eff == Err::<Option<OverlayView>, DbError>(e)
                    || (tx.action is Call && spec_code(st.effective(receiver), st.db_view()) == Err::<Option<Seq<u8>>, DbError>(e))
                &&& r is Ok ==> spec_nonce(eff) is Ok
                &&& r is Ok ==> final(cleanup_mode).touched() == if tx.nonce@ == n && (balance >= total
                    || (eff matches Ok(Some(_))) || !check_settings.real_execution) {
                    old(cleanup_mode).touched_after(s, true)
                } else {
                    old(cleanup_mode).touched()
                }
                &&& r is Ok && (tx.nonce@ != n || (balance < total && !(eff matches Ok(Some(_)))
                    && check_settings.real_execution)) ==> *final(observer) == ob
                &&& r is Ok && tx.nonce@ < n ==> final(self).state.unchanged(st)
                    && (r matches Ok(TransactStep::Done(ExecutionOutcome::NotExecutedDrop(TxDropError::OldNonce(expected, got))))
                    && expected@ == n && got == tx.nonce)
                &&& r is Ok && tx.nonce@ > n ==> final(self).state.unchanged(st)
                    && (r matches Ok(TransactStep::Done(ExecutionOutcome::NotExecutedToReconsiderPacking(ToRepackError::InvalidNonce { expected, got })))
                    && expected@ == n && got == tx.nonce)
                &&& r is Ok && tx.nonce@ == n && balance < total && !(eff matches Ok(Some(_))) && check_settings.real_execution
                    ==> final(self).state.unchanged(st)
                    && (r matches Ok(TransactStep::Done(ExecutionOutcome::NotExecutedToReconsiderPacking(ToRepackError::SenderDoesNotExist))))
                &&& r is Ok && tx.nonce@ == n && balance < total && ((eff matches Ok(Some(_))) || !check_settings.real_execution) ==> {
                    let actual = if gas_cost <= balance { gas_cost } else { balance };
                    &&& (r matches Ok(TransactStep::Done(ExecutionOutcome::ExecutionErrorBumpNonce(
                        ExecutionError::NotEnoughCash { required, got, actual_gas_cost, max_storage_limit_cost },
                        e,
                    ))) && required@ == total && got@ == balance && actual_gas_cost@ == actual
                        && max_storage_limit_cost@ == 0
                        && e.gas_used == tx.gas && e.fee@ == actual
                        && e.gas_charged@ == if tx.gas_price@ == 0 { 0 } else { actual / tx.gas_price@ }
                        && e.trace@ == traces_with(ob, InternalTransfer {
                            from: AddressPocket::Balance(s),
                            to: AddressPocket::GasPayment,
                            value: actual_gas_cost,
                            valid: true,
                        }))
                    &&& spec_traces(*final(observer)) == Seq::<InternalTransfer>::empty()
                    &&& final(observer).tracer is Some == ob.tracer is Some
                    &&& final(observer).gas_man == ob.gas_man
                    &&& (st.require_basic(s, start) matches Ok(v) && final(self).state.effective(s)
                        == Ok::<Option<OverlayView>, DbError>(Some(charged_sender(v, actual))))
                }
                &&& r is Ok && tx.nonce@ == n && balance >= total ==> {
                    &&& traced_amount(ob, *final(observer), AddressPocket::Balance(s), AddressPocket::GasPayment, gas_cost)
                    &&& (r matches Ok(TransactStep::Execute { params, is_create: c, base_gas_required })
                        && c == is_create(tx) && base_gas_required == base
                        && params.space == s.space && params.sender == s.address && params.original_sender == s.address
                        && params.gas@ == tx.gas@ - base && params.gas_price == tx.gas_price
                        && params.value == ActionValue::Transfer(tx.value)
                        && match tx.action {
                            Action::Create => params.address@ == spec_contract_address(
                                CreateContractAddress::FromSenderNonce, s, n, tx.data@)
                                && params.code_address == params.address && params.code_hash is None
                                && (params.code matches Some(c) && c@ == tx.data@) && params.data is None
                                && params.call_type == CallType::Nothing && params.create_type == CreateType::CREATE
                                && params.params_type == ParamsType::Embedded,
                            Action::Call(a) => params.address == a && params.code_address == a
                                && spec_code(final(self).state.effective(receiver), st.db_view()) == Ok::<Option<Seq<u8>>, DbError>(
                                    match params.code { Some(c) => Some(c@), None => None })
                                && spec_code_hash(final(self).state.effective(receiver)) == Ok::<Option<Seq<u8>>, DbError>(
                                    match params.code_hash { Some(h) => Some(h@), None => None })
                                && (params.data matches Some(d) && d@ == tx.data@)
                                && params.call_type == CallType::Call && params.create_type == CreateType::Nothing
                                && params.params_type == ParamsType::Separate,
                        })
                    &&& (st.require_basic(s, start) matches Ok(v) && final(self).state.effective(s)
                        == Ok::<Option<OverlayView>, DbError>(Some(charged_sender(v, gas_cost))))
                }
            }),
    {
        let ghost st = self.state;
        let sender = tx.sender();
        let nonce = match self.state.nonce(&sender) {
            Ok(n) => n,
            Err(e) => {
                return Err(e);
            },
        };
        // Validate transaction nonce
        if u256_lt(tx.nonce, nonce) {
            return Ok(TransactStep::Done(ExecutionOutcome::NotExecutedDrop(TxDropError::OldNonce(nonce, tx.nonce))));
        } else if u256_lt(nonce, tx.nonce) {
            return Ok(TransactStep::Done(ExecutionOutcome::NotExecutedToReconsiderPacking(
                ToRepackError::InvalidNonce { expected: nonce, got: tx.nonce },
            )));
        }
        let is_create = match tx.action {
            Action::Create => true,
            Action::Call(_) => false,
        };
        let base_gas_required = gas_required_for(is_create, tx.data.as_slice(), &self.spec);
        let balance = match self.state.balance(&sender) {
            Ok(b) => b,
            Err(e) => {
                return Err(e);
            },
        };
        proof {
            tx.value.lemma_bounds();
            tx.gas.lemma_bounds();
            tx.gas_price.lemma_bounds();
            lemma_cost_bounds(tx.value@, tx.gas@, tx.gas_price@);
        }
        let gas_cost = if check_settings.charge_gas {
            u256_full_mul(tx.gas, tx.gas_price)
        } else {
            U512::from_u256(U256::zero())
        };
        let sender_balance = U512::from_u256(balance);
        let total_cost = u512_add(U512::from_u256(tx.value), gas_cost);
        let start_nonce = self.spec.account_start_nonce;
        if u512_lt(sender_balance, total_cost) {
            // Sender is responsible for the insufficient balance.
            // Sub tx fee if not enough cash, and substitute all remaining
            // balance if balance is not enough to pay the tx fee
            proof {
                balance.lemma_bounds();
            }
            let actual_gas_cost: U256 = u512_try_into_u256(u512_min(gas_cost, sender_balance)).unwrap();
            // We don't want to bump nonce for non-existent account when we
            // can't charge gas fee. In this case, the sender account will
            // not be created if it does not exist.
            let exists = match self.state.account_exists(&sender) {
                Ok(x) => x,
                Err(e) => {
                    return Err(e);
                },
            };
            if !exists && check_settings.real_execution {
                return Ok(TransactStep::Done(ExecutionOutcome::NotExecutedToReconsiderPacking(
                    ToRepackError::SenderDoesNotExist,
                )));
            }
            match self.state.inc_nonce(&sender, &start_nonce) {
                Ok(()) => {},
                Err(e) => {
                    return Err(e);
                },
            }
            match self.state.sub_balance(&sender, &actual_gas_cost, cleanup_mode) {
                Ok(()) => {},
                Err(e) => {
                    return Err(e);
                },
            }
            observer.trace_internal_transfer(
                AddressPocket::Balance(sender),
                AddressPocket::GasPayment,
                actual_gas_cost,
            );
            let trace = observer.drain_traces();
            return Ok(TransactStep::Done(ExecutionOutcome::ExecutionErrorBumpNonce(
                ExecutionError::NotEnoughCash {
                    required: total_cost,
                    got: sender_balance,
                    actual_gas_cost,
                    max_storage_limit_cost: U256::zero(),
                },
                Executed::not_enough_balance_fee_charged(tx, &actual_gas_cost, trace),
            )));
        } else {
            // From now on sender balance >= total_cost, even if the sender
            // account does not exist (since she may be sponsored). Transaction
            // execution is guaranteed. Note that inc_nonce() will create a
            // new account if the account does not exist.
            match self.state.inc_nonce(&sender, &start_nonce) {
                Ok(()) => {},
                Err(e) => {
                    return Err(e);
                },
            }
        }
        // Subtract the transaction fee from sender or contract.
        proof {
            balance.lemma_bounds();
        }
        let gas_cost = u512_try_into_u256(gas_cost).unwrap();
        observer.trace_internal_transfer(AddressPocket::Balance(sender), AddressPocket::GasPayment, gas_cost);
        match self.state.sub_balance(&sender, &gas_cost, cleanup_mode) {
            Ok(()) => {},
            Err(e) => {
                return Err(e);
            },
        }
        let init_gas = u256_sub(tx.gas, U256::from_u64(base_gas_required));
        let params = match tx.action {
            Action::Create => {
                let (new_address, _code_hash) = contract_address(
                    CreateContractAddress::FromSenderNonce,
                    self.env_number,
                    &sender,
                    &nonce,
                    tx.data.as_slice(),
                );
                ActionParams {
                    space: sender.space,
                    code_address: new_address.address,
                    code_hash: None,
                    address: new_address.address,
                    sender: sender.address,
                    original_sender: sender.address,
                    gas: init_gas,
                    gas_price: tx.gas_price,
                    value: ActionValue::Transfer(tx.value),
                    code: Some(clone_bytes(&tx.data)),
                    data: None,
                    call_type: CallType::Nothing,
                    create_type: CreateType::CREATE,
                    params_type: ParamsType::Embedded,
                }
            },
            Action::Call(address) => {
                let address = address.with_space(sender.space);
                let code = match self.state.code(&address) {
                    Ok(c) => c,
                    Err(e) => {
                        return Err(e);
                    },
                };
                let code_hash = match self.state.code_hash(&address) {
                    Ok(h) => h,
                    Err(e) => {
                        return Err(e);
                    },
                };
                ActionParams {
                    space: sender.space,
                    code_address: address.address,
                    address: address.address,
                    sender: sender.address,
                    original_sender: sender.address,
                    gas: init_gas,
                    gas_price: tx.gas_price,
                    value: ActionValue::Transfer(tx.value),
                    code,
                    code_hash,
                    data: Some(clone_bytes(&tx.data)),
                    call_type: CallType::Call,
                    create_type: CreateType::Nothing,
                    params_type: ParamsType::Separate,
                }
            },
        };
        Ok(TransactStep::Execute { params, is_create, base_gas_required })
    }
}

fn clone_bytes(v: &Vec<u8>) -> (r: Vec<u8>)
    ensures
        r@ == v@,
{
    crate::assoc::bytes_clone(v.as_slice())
}

} // verus!

verus! {

/// The gas limit estimated after a run: seven sixths of the gas the run
/// required, plus the gas taken before the run.
pub open spec fn spec_estimated_gas_limit(gas_required: nat, base_gas_required: nat) -> nat {
    gas_required * 7 / 6 + base_gas_required
}

pub fn estimated_gas_limit(observer: &MultiObservers, base_gas_required: u64) -> (r: Option<U256>)
    requires
        observer.gas_man matches Some(g) ==> g.spec_gas_required() * 7 < u256_modulus()
            && spec_estimated_gas_limit(g.spec_gas_required(), base_gas_required as nat) < u256_modulus(),
    ensures
        match observer.gas_man {
            Some(g) => r matches Some(v) && v@ == spec_estimated_gas_limit(g.spec_gas_required(), base_gas_required as nat),
            None => r is None,
        },
{
    match &observer.gas_man {
        Some(g) => {
            let required = g.gas_required();
            let times7 = u256_mul(required, U256::from_u64(7));
            let sixth = u256_div(times7, U256::from_u64(6));
            Some(u256_add(sixth, U256::from_u64(base_gas_required)))
        },
        None => None,
    }
}

/// What an estimate made without a sender gives the sender it makes up: the
/// value plus a billion CFX, at most 2^128.
pub open spec fn virtual_sender_grant(value: nat) -> nat {
    let v = saturating(value + 1_000_000_000 * 1_000_000_000_000_000_000);
    let cap = limb_base() * limb_base();
    if v <= cap {
        v
    } else {
        cap
    }
}

/// The account of `sender` once an estimate prepared it: given `grant`,
/// the grant is added to its balance (a missing account is created as a
/// basic one with nonce `start`); given `nonce`, its nonce is set (a
/// missing account is created with that nonce).
pub open spec fn virtual_sender_account<S: StorageTrait>(
    st: &State<S>,
    sender: AddressWithSpace,
    start: nat,
    grant: Option<nat>,
    nonce: Option<nat>,
) -> DbResult<Option<OverlayView>> {
    let granted = match grant {
        None => st.effective(sender),
        Some(g) => match st.require_basic(sender, start) {
            Ok(v) => Ok(Some(OverlayView { balance: v.balance + g, ..v })),
            Err(e) => Err(e),
        },
    };
    match nonce {
        None => granted,
        Some(n) => match required_account(granted, st.db_view(), sender, false, Some(n)) {
            Ok(w) => Ok(Some(OverlayView { nonce: n, ..w })),
            Err(e) => Err(e),
        },
    }
}

/// What an estimate without a sender gives the sender it makes up, for a
/// transaction of `value`.
pub fn virtual_sender_grant_for(value: U256) -> (r: U256)
    ensures
        r@ == virtual_sender_grant(value@),
{
    let one_billion_cfx = u256_mul(U256::from_u64(1_000_000_000), U256::from_u64(ONE_CFX_IN_DRIP));
    let cap = U256([0, 0, 1, 0]);
    assert(cap@ == limb_base() * limb_base());
    u256_min(u256_saturating_add(value, one_billion_cfx), cap)
}

impl<S: StorageTrait> TXExecutor<S> {
    /// Prepares the state for a virtual execution of `tx` that estimates its
    /// cost: a transaction without a sender is given a made-up sender with
    /// enough balance, the nonce is set or taken from the state, and a
    /// checkpoint is made that `transact_virtual_finish` reverts. Returns
    /// the balance of the sender.
    pub fn transact_virtual_prepare(&mut self, tx: &mut SignedTransaction, request: EstimateRequest) -> (r: DbResult<U256>)
        requires
            old(self).state.wf(),
            !request.has_sender ==> old(self).state.checkpoint_count() == 0,
            !request.has_sender ==> old(self).state.total_issued() + virtual_sender_grant(old(tx).value@) < u256_modulus(),
            !request.has_sender ==> forall|a: AddressWithSpace| #[trigger] old(self).state.require_basic(a, old(self).spec.account_start_nonce@) matches Ok(v)
                ==> v.balance + virtual_sender_grant(old(tx).value@) < u256_modulus(),
        ensures
            old(self).state.infallible() ==> !(r matches Err(DbError::Storage(_))),
            final(self).spec == old(self).spec,
            final(self).state.wf(),
            old(self).state.consistent() ==> final(self).state.consistent(),
            final(self).state.db_view() == old(self).state.db_view(),
            final(tx).gas == old(tx).gas,
            final(tx).gas_price == old(tx).gas_price,
            final(tx).value == old(tx).value,
            final(tx).action == old(tx).action,
            final(tx).data@ == old(tx).data@,
            request.has_sender ==> final(tx).sender == old(tx).sender,
            request.has_nonce ==> final(tx).nonce == old(tx).nonce,
            r is Ok ==> {
                let n = old(self).state.checkpoint_count() as int;
                &&& final(self).state.checkpoint_count() == n + 1
                &&& final(self).state.snapshot_total_issued(n) == final(self).state.total_issued()
                &&& forall|i: int| 0 <= i < n ==> #[trigger] final(self).state.snapshot(i) == old(self).state.snapshot(i)
                &&& forall|i: int| 0 <= i < n ==> #[trigger] final(self).state.snapshot_total_issued(i)
                    == old(self).state.snapshot_total_issued(i)
                &&& read_matches(
                    Ok::<nat, DbError>(r->Ok_0@),
                    spec_balance(final(self).state.effective(final(tx).spec_sender())),
                )
                &&& !request.has_nonce ==> spec_nonce((final(self).state.snapshot(n))(final(tx).spec_sender()))
                    == Ok::<nat, DbError>(final(tx).nonce@)
                &&& request.has_nonce ==> spec_nonce(final(self).state.effective(final(tx).spec_sender()))
                    == Ok::<nat, DbError>(final(tx).nonce@)
                &&& forall|a: AddressWithSpace| #[trigger] final(self).state.effective(a)
                    == (final(self).state.snapshot(n))(a)
                &&& forall|a: AddressWithSpace| a != final(tx).spec_sender()
                    ==> #[trigger] final(self).state.effective(a) == old(self).state.effective(a)
                &&& final(self).state.effective(final(tx).spec_sender()) == virtual_sender_account(
                    &old(self).state,
                    final(tx).spec_sender(),
                    old(self).spec.account_start_nonce@,
                    if request.has_sender { None } else { Some(virtual_sender_grant(old(tx).value@)) },
                    if request.has_nonce { Some(old(tx).nonce@) } else { None },
                )
                &&& final(self).state.total_issued() == old(self).state.total_issued() + if request.has_sender {
                    0
                } else {
                    virtual_sender_grant(old(tx).value@)
                }
            },
            r is Err ==> final(self).state.checkpoint_count() == old(self).state.checkpoint_count(),
            read_matches(unit_of(r), unit_of(old(self).state.effective(final(tx).spec_sender()))),
    {
        let made_up = if request.has_sender {
            tx.sender
        } else {
            random_address()
        };
        proof {
            if !request.has_sender {
                assert(old(self).state.require_basic(
                    AddressWithSpace { address: made_up, space: Space::Ethereum },
                    old(self).spec.account_start_nonce@,
                ) matches Ok(v) ==> v.balance + virtual_sender_grant(old(tx).value@) < u256_modulus());
            }
        }
        self.transact_virtual_prepare_with(tx, request, made_up)
    }

    /// Prepares the state for a virtual execution of `tx` as
    /// `transact_virtual_prepare` does, with `made_up_sender` as the sender
    /// of a transaction that has none.
    pub fn transact_virtual_prepare_with(
        &mut self,
        tx: &mut SignedTransaction,
        request: EstimateRequest,
        made_up_sender: Address,
    ) -> (r: DbResult<U256>)
        requires
            old(self).state.wf(),
            !request.has_sender ==> old(self).state.checkpoint_count() == 0,
            !request.has_sender ==> old(self).state.total_issued() + virtual_sender_grant(old(tx).value@) < u256_modulus(),
            !request.has_sender ==> (old(self).state.require_basic(
                AddressWithSpace { address: made_up_sender, space: Space::Ethereum },
                old(self).spec.account_start_nonce@,
            ) matches Ok(v) ==> v.balance + virtual_sender_grant(old(tx).value@) < u256_modulus()),
        ensures
            old(self).state.infallible() ==> !(r matches Err(DbError::Storage(_))),
            final(self).spec == old(self).spec,
            final(self).state.wf(),
            old(self).state.consistent() ==> final(self).state.consistent(),
            final(self).state.db_view() == old(self).state.db_view(),
            final(tx).gas == old(tx).gas,
            final(tx).gas_price == old(tx).gas_price,
            final(tx).value == old(tx).value,
            final(tx).action == old(tx).action,
            final(tx).data@ == old(tx).data@,
            request.has_sender ==> final(tx).sender == old(tx).sender,
            !request.has_sender ==> final(tx).sender == made_up_sender,
            request.has_nonce ==> final(tx).nonce == old(tx).nonce,
            r is Ok ==> {
                let n = old(self).state.checkpoint_count() as int;
                &&& final(self).state.checkpoint_count() == n + 1
                &&& final(self).state.snapshot_total_issued(n) == final(self).state.total_issued()
                &&& forall|i: int| 0 <= i < n ==> #[trigger] final(self).state.snapshot(i) == old(self).state.snapshot(i)
                &&& forall|i: int| 0 <= i < n ==> #[trigger] final(self).state.snapshot_total_issued(i)
                    == old(self).state.snapshot_total_issued(i)
                &&& read_matches(
                    Ok::<nat, DbError>(r->Ok_0@),
                    spec_balance(final(self).state.effective(final(tx).spec_sender())),
                )
                &&& !request.has_nonce ==> spec_nonce((final(self).state.snapshot(n))(final(tx).spec_sender()))
                    == Ok::<nat, DbError>(final(tx).nonce@)
                &&& request.has_nonce ==> spec_nonce(final(self).state.effective(final(tx).spec_sender()))
                    == Ok::<nat, DbError>(final(tx).nonce@)
                &&& forall|a: AddressWithSpace| #[trigger] final(self).state.effective(a)
                    == (final(self).state.snapshot(n))(a)
                &&& forall|a: AddressWithSpace| a != final(tx).spec_sender()
                    ==> #[trigger] final(self).state.effective(a) == old(self).state.effective(a)
                &&& final(self).state.effective(final(tx).spec_sender()) == virtual_sender_account(
                    &old(self).state,
                    final(tx).spec_sender(),
                    old(self).spec.account_start_nonce@,
                    if request.has_sender { None } else { Some(virtual_sender_grant(old(tx).value@)) },
                    if request.has_nonce { Some(old(tx).nonce@) } else { None },
                )
                &&& final(self).state.total_issued() == old(self).state.total_issued() + if request.has_sender {
                    0
                } else {
                    virtual_sender_grant(old(tx).value@)
                }
            },
            r is Err ==> final(self).state.checkpoint_count() == old(self).state.checkpoint_count(),
            read_matches(unit_of(r), unit_of(old(self).state.effective(final(tx).spec_sender()))),
    {
        if !request.has_sender {
            let random_hex = made_up_sender;
            tx.sender = random_hex;
            // If the sender is not specified, give it enough balance: 1 billion
            // CFX.
            let balance_inc = virtual_sender_grant_for(tx.value);
            let mut mode = CleanupMode::NoEmpty;
            let sender = random_hex.with_space(tx.space());
            match self.state.add_balance(&sender, &balance_inc, &mut mode, self.spec.account_start_nonce) {
                Ok(()) => {},
                Err(e) => {
                    return Err(e);
                },
            }
            // Make sure statistics are also correct and will not violate any
            // underlying assumptions.
            self.state.add_total_issued(balance_inc);
        }
        if request.has_nonce {
            match self.state.set_nonce(&tx.sender(), &tx.nonce) {
                Ok(()) => {},
                Err(e) => {
                    return Err(e);
                },
            }
        } else {
            match self.state.nonce(&tx.sender()) {
                Ok(n) => {
                    tx.nonce = n;
                },
                Err(e) => {
                    return Err(e);
                },
            }
        }
        let balance = match self.state.balance(&tx.sender()) {
            Ok(b) => b,
            Err(e) => {
                return Err(e);
            },
        };
        self.state.checkpoint();
        Ok(balance)
    }

    /// Ends a virtual execution whose first pass gave `outcome`: where it
    /// finished, the state is reverted to the checkpoint of
    /// `transact_virtual_prepare` and the estimate is revised; any other
    /// outcome is returned as it is.
    pub fn transact_virtual_finish(
        &mut self,
        tx: &SignedTransaction,
        request: EstimateRequest,
        balance: U256,
        outcome: ExecutionOutcome,
    ) -> (r: ExecutionOutcome)
        requires
            old(self).state.wf(),
            outcome matches ExecutionOutcome::Finished(e) ==> (!request.has_gas_limit || request.spec_recheck_gas_fee()
                ==> e.estimated_gas_limit is Some) && (request.has_storage_limit ==> request.has_sender
                && balance@ < estimate_value_and_fee(tx, request, &e)),
        ensures
            final(self).spec == old(self).spec,
            final(self).state.wf(),
            old(self).state.consistent() ==> final(self).state.consistent(),
            final(self).state.db_view() == old(self).state.db_view(),
            match outcome {
                ExecutionOutcome::Finished(e) => revised_outcome(tx, request, balance, e, r)
                    && (old(self).state.checkpoint_count() > 0 ==> {
                    let n = old(self).state.checkpoint_count() - 1;
                    &&& final(self).state.checkpoint_count() == n
                    &&& final(self).state.total_issued() == old(self).state.snapshot_total_issued(n)
                    &&& old(self).state.consistent() ==> forall|b: AddressWithSpace| #[trigger] final(self).state.effective(b)
                        == (old(self).state.snapshot(n))(b)
                }),
                _ => r == outcome && final(self).state == old(self).state,
            },
    {
        match outcome {
            ExecutionOutcome::Finished(executed) => {
                self.state.revert_to_checkpoint();
                revise_estimate(tx, request, balance, executed)
            },
            res => res,
        }
    }
}

} // verus!

verus! {

/// A transaction's run leaves the checkpoints as they were before it, and
/// a run that failed in the VM leaves every account and the total of issued
/// tokens as they were too: `opened` is what `open_checkpoint` made of
/// `before`, `ran` the state once the frames ran (each frame closed the
/// checkpoint it opened), `settled` what `settle_checkpoint` made of `ran`
/// for `result`, a result that is no failure of the database, and
/// `finalized` what `finalize` made of `settled`.
pub proof fn lemma_transaction_checkpoints<S: StorageTrait>(
    before: &State<S>,
    opened: &State<S>,
    ran: &State<S>,
    settled: &State<S>,
    finalized: &State<S>,
    result: Result<FrameResult, VmError>,
)
    requires
        finalized.checkpoint_count() == settled.checkpoint_count(),
        forall|i: int| #[trigger] finalized.snapshot(i) == settled.snapshot(i),
        forall|i: int| #[trigger] finalized.snapshot_total_issued(i) == settled.snapshot_total_issued(i),
        !(result matches Err(VmError::StateDbError(_))),
        opened.checkpoint_count() == before.checkpoint_count() + 1,
        forall|b: AddressWithSpace| #[trigger] (opened.snapshot(before.checkpoint_count() as int))(b) == before.effective(b),
        opened.snapshot_total_issued(before.checkpoint_count() as int) == before.total_issued(),
        forall|i: int| 0 <= i < before.checkpoint_count() ==> #[trigger] opened.snapshot(i) == before.snapshot(i),
        forall|i: int| 0 <= i < before.checkpoint_count() ==> #[trigger] opened.snapshot_total_issued(i)
            == before.snapshot_total_issued(i),
        ran.checkpoint_count() == opened.checkpoint_count(),
        forall|i: int| 0 <= i < ran.checkpoint_count() ==> #[trigger] ran.snapshot(i) == opened.snapshot(i),
        forall|i: int| 0 <= i < ran.checkpoint_count() ==> #[trigger] ran.snapshot_total_issued(i)
            == opened.snapshot_total_issued(i),
        settled.checkpoint_count() == ran.checkpoint_count() - 1,
        forall|i: int| 0 <= i < settled.checkpoint_count() ==> #[trigger] settled.snapshot(i) == ran.snapshot(i),
        forall|i: int| 0 <= i < settled.checkpoint_count() ==> #[trigger] settled.snapshot_total_issued(i)
            == ran.snapshot_total_issued(i),
        result is Err ==> settled.total_issued() == ran.snapshot_total_issued(settled.checkpoint_count() as int)
            && forall|b: AddressWithSpace| #[trigger] settled.effective(b) == (ran.snapshot(settled.checkpoint_count() as int))(b),
    ensures
        settled.checkpoint_count() == before.checkpoint_count(),
        forall|i: int| 0 <= i < settled.checkpoint_count() ==> #[trigger] settled.snapshot(i) == before.snapshot(i),
        result is Err ==> settled.total_issued() == before.total_issued()
            && forall|b: AddressWithSpace| #[trigger] settled.effective(b) == before.effective(b),
        finalized.checkpoint_count() == before.checkpoint_count(),
        forall|i: int| 0 <= i < finalized.checkpoint_count() ==> #[trigger] finalized.snapshot(i) == before.snapshot(i),
        forall|i: int| 0 <= i < finalized.checkpoint_count() ==> #[trigger] finalized.snapshot_total_issued(i)
            == before.snapshot_total_issued(i),
{
    let n = before.checkpoint_count() as int;
    assert forall|i: int| 0 <= i < finalized.checkpoint_count() implies #[trigger] finalized.snapshot_total_issued(i)
        == before.snapshot_total_issued(i) by {
        assert(settled.snapshot_total_issued(i) == ran.snapshot_total_issued(i));
        assert(ran.snapshot_total_issued(i) == opened.snapshot_total_issued(i));
    }
    assert forall|i: int| 0 <= i < finalized.checkpoint_count() implies #[trigger] finalized.snapshot(i) == before.snapshot(i) by {
        assert(settled.snapshot(i) == ran.snapshot(i));
        assert(ran.snapshot(i) == opened.snapshot(i));
    }
    assert(ran.snapshot(n) == opened.snapshot(n));
    assert(ran.snapshot_total_issued(n) == opened.snapshot_total_issued(n));
    assert forall|i: int| 0 <= i < settled.checkpoint_count() implies #[trigger] settled.snapshot(i) == before.snapshot(i) by {
        assert(ran.snapshot(i) == opened.snapshot(i));
    }
    if result is Err {
        assert forall|b: AddressWithSpace| #[trigger] settled.effective(b) == before.effective(b) by {
            assert((opened.snapshot(n))(b) == before.effective(b));
        }
    }
}

/// An estimate leaves the state as its preparation made it, whatever the
/// transaction did: every account but the sender is as it was before the
/// estimate, the sender holds what the preparation gave it (the grant of a
/// made-up sender, or the nonce asked for), the total of issued tokens is
/// raised by the grant alone, and no checkpoint stays open. `prepared` is
/// what `transact_virtual_prepare` made of `before`, `ran` the state once
/// the transaction ran (it leaves the checkpoints as it found them), and
/// `finished` what `transact_virtual_finish` made of `ran` for a finished
/// run.
pub proof fn lemma_estimate_state<S: StorageTrait>(
    before: &State<S>,
    prepared: &State<S>,
    ran: &State<S>,
    finished: &State<S>,
    sender: AddressWithSpace,
    start: nat,
    grant: Option<nat>,
    nonce: Option<nat>,
)
    requires
        prepared.checkpoint_count() == before.checkpoint_count() + 1,
        prepared.snapshot_total_issued(before.checkpoint_count() as int) == prepared.total_issued(),
        forall|a: AddressWithSpace| #[trigger] prepared.effective(a) == (prepared.snapshot(before.checkpoint_count() as int))(a),
        forall|a: AddressWithSpace| a != sender ==> #[trigger] prepared.effective(a) == before.effective(a),
        prepared.effective(sender) == virtual_sender_account(before, sender, start, grant, nonce),
        prepared.total_issued() == before.total_issued() + match grant {
            Some(g) => g,
            None => 0,
        },
        ran.checkpoint_count() == prepared.checkpoint_count(),
        forall|i: int| 0 <= i < ran.checkpoint_count() ==> #[trigger] ran.snapshot(i) == prepared.snapshot(i),
        forall|i: int| 0 <= i < ran.checkpoint_count() ==> #[trigger] ran.snapshot_total_issued(i)
            == prepared.snapshot_total_issued(i),
        finished.checkpoint_count() == before.checkpoint_count(),
        finished.total_issued() == ran.snapshot_total_issued(before.checkpoint_count() as int),
        forall|b: AddressWithSpace| #[trigger] finished.effective(b) == (ran.snapshot(before.checkpoint_count() as int))(b),
    ensures
        finished.checkpoint_count() == before.checkpoint_count(),
        forall|a: AddressWithSpace| a != sender ==> #[trigger] finished.effective(a) == before.effective(a),
        finished.effective(sender) == virtual_sender_account(before, sender, start, grant, nonce),
        finished.total_issued() == before.total_issued() + match grant {
            Some(g) => g,
            None => 0,
        },
{
    let n = before.checkpoint_count() as int;
    assert(ran.snapshot(n) == prepared.snapshot(n));
    assert(ran.snapshot_total_issued(n) == prepared.snapshot_total_issued(n));
    assert forall|a: AddressWithSpace| a != sender implies #[trigger] finished.effective(a) == before.effective(a) by {
        assert(prepared.effective(a) == (prepared.snapshot(n))(a));
    }
    assert(prepared.effective(sender) == (prepared.snapshot(n))(sender));
}

impl<S: StorageTrait> TXExecutor<S> {
    /// Opens the checkpoint of a transaction run, which a failed run
    /// reverts.
    pub fn open_checkpoint(&mut self, observer: &mut MultiObservers)
        requires
            old(self).state.wf(),
        ensures
            final(self).state.total_issued() == old(self).state.total_issued(),
            final(self).state.snapshot_total_issued(old(self).state.checkpoint_count() as int) == old(self).state.total_issued(),
            forall|i: int| 0 <= i < old(self).state.checkpoint_count() ==> #[trigger] final(self).state.snapshot(i)
                == old(self).state.snapshot(i),
            forall|i: int| 0 <= i < old(self).state.checkpoint_count() ==> #[trigger] final(self).state.snapshot_total_issued(i)
                == old(self).state.snapshot_total_issued(i),
            final(self).spec == old(self).spec,
            final(self).state.wf(),
            old(self).state.consistent() ==> final(self).state.consistent(),
            final(self).state.db_view() == old(self).state.db_view(),
            final(self).state.checkpoint_count() == old(self).state.checkpoint_count() + 1,
            forall|b: AddressWithSpace| #[trigger] (final(self).state.snapshot(old(self).state.checkpoint_count() as int))(b)
                == old(self).state.effective(b),
            forall|b: AddressWithSpace| #[trigger] final(self).state.effective(b) == old(self).state.effective(b),
            checkpointed(*old(observer), *final(observer)),
    {
        self.state.checkpoint();
        observer.checkpoint();
    }

    /// Settles the checkpoint of a transaction run: a run that returned
    /// keeps its changes and gives its return data, a failure of the
    /// database leaves the state as it is, and any other failure reverts the
    /// changes of the run.
    pub fn settle_checkpoint(&mut self, result: &Result<FrameResult, VmError>, observer: &mut MultiObservers) -> (output: Vec<u8>)
        requires
            old(self).state.wf(),
        ensures
            !(result matches Err(VmError::StateDbError(_))) ==> final(self).state.checkpoint_count()
                == if old(self).state.checkpoint_count() > 0 { (old(self).state.checkpoint_count() - 1) as nat } else { 0 },
            forall|i: int| 0 <= i < final(self).state.checkpoint_count() ==> #[trigger] final(self).state.snapshot(i)
                == old(self).state.snapshot(i),
            forall|i: int| 0 <= i < final(self).state.checkpoint_count() ==> #[trigger] final(self).state.snapshot_total_issued(i)
                == old(self).state.snapshot_total_issued(i),
            final(self).spec == old(self).spec,
            final(self).state.wf(),
            old(self).state.consistent() ==> final(self).state.consistent(),
            final(self).state.db_view() == old(self).state.db_view(),
            match result {
                Ok(f) => output@ == f.return_data@ && discarded(*old(observer), *final(observer))
                    && final(self).state.total_issued() == old(self).state.total_issued()
                    && forall|b: AddressWithSpace| #[trigger] final(self).state.effective(b) == old(self).state.effective(b),
                Err(VmError::StateDbError(_)) => output@.len() == 0 && final(self).state == old(self).state
                    && *final(observer) == *old(observer),
                Err(_) => output@.len() == 0 && reverted(*old(observer), *final(observer))
                    && (old(self).state.checkpoint_count() > 0 ==> final(self).state.total_issued()
                    == old(self).state.snapshot_total_issued(old(self).state.checkpoint_count() - 1))
                    && (old(self).state.checkpoint_count() > 0 && old(self).state.consistent()
                    ==> forall|b: AddressWithSpace| #[trigger] final(self).state.effective(b)
                    == (old(self).state.snapshot(old(self).state.checkpoint_count() - 1))(b)),
            },
    {
        match result {
            Ok(res) => {
                observer.discard_checkpoint();
                self.state.discard_checkpoint();
                clone_bytes(&res.return_data)
            },
            Err(VmError::StateDbError(_)) => {
                // The whole epoch execution fails. No need to revert state.
                Vec::new()
            },
            Err(_) => {
                observer.revert_to_checkpoint();
                self.state.revert_to_checkpoint();
                Vec::new()
            },
        }
    }
}

} // verus!
