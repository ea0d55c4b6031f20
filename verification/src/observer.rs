//! Observers of transaction execution: the tracer of internal transfers and
//! the gas estimator.
use crate::codec::{
    decodes_to_tag, decodes_to_tag_address, rlp_encode_tag, rlp_encode_tag_address, rlp_val_at_address, rlp_val_at_u8,
    spec_rlp_val_at_address, spec_rlp_val_at_u8, RlpError,
};
use crate::types::{Address, AddressWithSpace, Space, U256};
use vstd::prelude::*;

verus! {

/// Where value moves from or to in an internal transfer.
#[derive(Debug, Clone, Copy, PartialEq, Eq)]
pub enum AddressPocket {
    Balance(AddressWithSpace),
    MintBurn,
    GasPayment,
}

/// The name of a space as traces show it.
pub open spec fn space_name(space: Space) -> Seq<char> {
    match space {
        Space::Ethereum => "evm"@,
    }
}

impl AddressPocket {
    pub fn inner_address(&self) -> (r: Option<&Address>)
        ensures
            match *self {
                AddressPocket::Balance(a) => r == Some(&a.address),
                _ => r is None,
            },
    {
        match self {
            AddressPocket::Balance(a) => Some(&a.address),
            AddressPocket::MintBurn | AddressPocket::GasPayment => None,
        }
    }

    pub fn inner_address_or_default(&self) -> (r: Address)
        ensures
            match *self {
                AddressPocket::Balance(a) => r == a.address,
                _ => forall|i: int| 0 <= i < 20 ==> r.0[i] == 0,
            },
    {
        match self.inner_address() {
            Some(a) => *a,
            None => Address::zero(),
        }
    }

    pub fn pocket(&self) -> (r: &'static str)
        ensures
            r@ == match *self {
                AddressPocket::Balance(_) => "balance"@,
                AddressPocket::MintBurn => "mint_or_burn"@,
                AddressPocket::GasPayment => "gas_payment"@,
            },
    {
        match self {
            AddressPocket::Balance(_) => "balance",
            AddressPocket::MintBurn => "mint_or_burn",
            AddressPocket::GasPayment => "gas_payment",
        }
    }

    pub fn space(&self) -> (r: &'static str)
        ensures
            r@ == match *self {
                AddressPocket::Balance(a) => space_name(a.space),
                _ => "none"@,
            },
    {
        match self {
            AddressPocket::Balance(a) => match a.space {
                Space::Ethereum => "evm",
            },
            AddressPocket::MintBurn | AddressPocket::GasPayment => "none",
        }
    }

    /// The number that tells the kinds of pocket apart in encodings.
    pub fn type_number(&self) -> (r: u8)
        ensures
            r == match *self {
                AddressPocket::MintBurn => 0u8,
                AddressPocket::GasPayment => 1u8,
                AddressPocket::Balance(_) => 2u8,
            },
    {
        match self {
            AddressPocket::MintBurn => 0,
            AddressPocket::GasPayment => 1,
            AddressPocket::Balance(a) => match a.space {
                Space::Ethereum => 2,
            },
        }
    }
}

/// The pocket that RLP bytes decode to.
pub open spec fn spec_decode_pocket(bytes: Seq<u8>) -> Result<AddressPocket, RlpError> {
    match spec_rlp_val_at_u8(bytes, 0) {
        Err(e) => Err(e),
        Ok(t) => if t == 0 {
            Ok(AddressPocket::MintBurn)
        } else if t == 1 {
            Ok(AddressPocket::GasPayment)
        } else if t == 2 {
            match spec_rlp_val_at_address(bytes, 1) {
                Ok(a) => Ok(AddressPocket::Balance(AddressWithSpace { address: Address(seq_to_address(a)), space: Space::Ethereum })),
                Err(e) => Err(e),
            }
        } else {
            Err(RlpError::Custom("Invalid internal transfer address."))
        },
    }
}

/// The 20 bytes of an address given as a sequence.
pub open spec fn seq_to_address(a: Seq<u8>) -> [u8; 20] {
    choose|b: [u8; 20]| b@ == a
}

impl AddressPocket {
    /// The RLP encoding: the type number, followed by the address where
    /// there is one.
    pub fn rlp_bytes(&self) -> (r: Vec<u8>)
        ensures
            match *self {
                AddressPocket::Balance(a) => decodes_to_tag_address(r@, 2, a.address@),
                AddressPocket::MintBurn => decodes_to_tag(r@, 0),
                AddressPocket::GasPayment => decodes_to_tag(r@, 1),
            },
    {
        let type_number = self.type_number();
        match self.inner_address() {
            Some(address) => rlp_encode_tag_address(type_number, *address),
            None => rlp_encode_tag(type_number),
        }
    }

    pub fn decode(bytes: &[u8]) -> (r: Result<AddressPocket, RlpError>)
        ensures
            r == spec_decode_pocket(bytes@),
    {
        let type_number = match rlp_val_at_u8(bytes, 0) {
            Ok(t) => t,
            Err(e) => {
                return Err(e);
            },
        };
        if type_number == 0 {
            Ok(AddressPocket::MintBurn)
        } else if type_number == 1 {
            Ok(AddressPocket::GasPayment)
        } else if type_number == 2 {
            match rlp_val_at_address(bytes, 1) {
                Ok(addr) => {
                    assert(addr.0 == seq_to_address(addr@)) by {
                        assert(addr.0@ == addr@);
                    }
                    Ok(AddressPocket::Balance(addr.with_evm_space()))
                },
                Err(e) => Err(e),
            }
        } else {
            Err(RlpError::Custom("Invalid internal transfer address."))
        }
    }
}

/// What a pocket's encoding decodes to is that pocket.
pub proof fn lemma_pocket_round_trip(p: AddressPocket, bytes: Seq<u8>)
    requires
        match p {
            AddressPocket::Balance(a) => decodes_to_tag_address(bytes, 2, a.address@),
            AddressPocket::MintBurn => decodes_to_tag(bytes, 0),
            AddressPocket::GasPayment => decodes_to_tag(bytes, 1),
        },
    ensures
        spec_decode_pocket(bytes) == Ok::<AddressPocket, RlpError>(p),
{
    if let AddressPocket::Balance(a) = p {
        let b = seq_to_address(a.address@);
        assert(a.address.0@ == a.address@);
        assert(b@ == a.address@);
        assert(b =~= a.address.0);
    }
}

/// This trait is used by executive to build traces.
pub trait StateTracer {
    /// Prepares internal transfer action
    fn trace_internal_transfer(&mut self, from: AddressPocket, to: AddressPocket, value: U256);

    /// Make a checkpoint for validity mark
    fn checkpoint(&mut self);

    /// Discard the top checkpoint for validity mark
    fn discard_checkpoint(&mut self);

    /// Mark the traces to the top checkpoint as "valid = false"
    fn revert_to_checkpoint(&mut self);
}

impl StateTracer for () {
    fn trace_internal_transfer(&mut self, from: AddressPocket, to: AddressPocket, value: U256) {
    }

    fn checkpoint(&mut self) {
    }

    fn discard_checkpoint(&mut self) {
    }

    fn revert_to_checkpoint(&mut self) {
    }
}

/// One traced internal transfer.
#[derive(Debug, Clone, Copy)]
pub struct InternalTransfer {
    pub from: AddressPocket,
    pub to: AddressPocket,
    pub value: U256,
    /// Cleared where the transfer was reverted.
    pub valid: bool,
}

/// Records the internal transfers of an execution.
pub struct ExecutiveTracer {
    traces: Vec<InternalTransfer>,
    /// The number of traces when each open checkpoint was made.
    checkpoints: Vec<usize>,
}

impl ExecutiveTracer {
    pub closed spec fn traces(&self) -> Seq<InternalTransfer> {
        self.traces@
    }

    pub closed spec fn open_checkpoints(&self) -> Seq<usize> {
        self.checkpoints@
    }

    pub fn new() -> (r: Self)
        ensures
            r.traces() == Seq::<InternalTransfer>::empty(),
            r.open_checkpoints() == Seq::<usize>::empty(),
    {
        ExecutiveTracer { traces: Vec::new(), checkpoints: Vec::new() }
    }

    /// Takes the recorded traces out.
    pub fn drain(&mut self) -> (r: Vec<InternalTransfer>)
        ensures
            r@ == old(self).traces(),
            final(self).traces() == Seq::<InternalTransfer>::empty(),
            final(self).open_checkpoints() == Seq::<usize>::empty(),
    {
        let mut traces: Vec<InternalTransfer> = Vec::new();
        std::mem::swap(&mut traces, &mut self.traces);
        self.checkpoints = Vec::new();
        traces
    }
}

/// A trace with its validity cleared.
pub open spec fn invalidated(t: InternalTransfer) -> InternalTransfer {
    InternalTransfer { valid: false, ..t }
}

/// The open checkpoints once the innermost is closed.
pub open spec fn pop_checkpoint(cps: Seq<usize>) -> Seq<usize> {
    if cps.len() == 0 {
        cps
    } else {
        cps.drop_last()
    }
}

/// The traces once those made since the innermost open checkpoint are
/// marked invalid.
pub open spec fn reverted_traces(traces: Seq<InternalTransfer>, cps: Seq<usize>) -> Seq<InternalTransfer> {
    if cps.len() == 0 {
        traces
    } else {
        Seq::new(traces.len(), |j: int| if j < cps.last() { traces[j] } else { invalidated(traces[j]) })
    }
}

impl StateTracer for ExecutiveTracer {
    fn trace_internal_transfer(&mut self, from: AddressPocket, to: AddressPocket, value: U256)
        ensures
            final(self).traces() == old(self).traces().push(
                InternalTransfer { from, to, value, valid: true },
            ),
            final(self).open_checkpoints() == old(self).open_checkpoints(),
    {
        self.traces.push(InternalTransfer { from, to, value, valid: true });
    }

    fn checkpoint(&mut self)
        ensures
            final(self).traces() == old(self).traces(),
            final(self).open_checkpoints() == old(self).open_checkpoints().push(
                old(self).traces().len() as usize,
            ),
    {
        let n = self.traces.len();
        self.checkpoints.push(n);
    }

    fn discard_checkpoint(&mut self)
        ensures
            final(self).traces() == old(self).traces(),
            final(self).open_checkpoints() == pop_checkpoint(old(self).open_checkpoints()),
            old(self).open_checkpoints().len() > 0 ==> final(self).open_checkpoints() == old(self).open_checkpoints().drop_last(),
            old(self).open_checkpoints().len() == 0 ==> final(self).open_checkpoints().len() == 0,
    {
        self.checkpoints.pop();
    }

    fn revert_to_checkpoint(&mut self)
        ensures
            final(self).traces() == reverted_traces(old(self).traces(), old(self).open_checkpoints()),
            final(self).open_checkpoints() == pop_checkpoint(old(self).open_checkpoints()),
            final(self).traces().len() == old(self).traces().len(),
            old(self).open_checkpoints().len() > 0 ==> final(self).open_checkpoints() == old(self).open_checkpoints().drop_last(),
            old(self).open_checkpoints().len() == 0 ==> final(self).open_checkpoints().len() == 0,
            old(self).open_checkpoints().len() == 0 ==> final(self).traces() == old(self).traces(),
            old(self).open_checkpoints().len() > 0 ==> forall|j: int| 0 <= j < old(self).traces().len() ==> {
                let t = #[trigger] final(self).traces()[j];
                let o = old(self).traces()[j];
                &&& t.from == o.from && t.to == o.to && t.value == o.value
                &&& t.valid == (o.valid && j < old(self).open_checkpoints().last())
            },
    {
        if let Some(start) = self.checkpoints.pop() {
            let n = self.traces.len();
            let mut i = start;
            while i < n
                invariant
                    start <= i,
                    self.checkpoints@ == old(self).checkpoints@.drop_last(),
                    self.traces@.len() == n,
                    n == old(self).traces@.len(),
                    forall|j: int| 0 <= j < n ==> #[trigger] self.traces@[j]
                        == if j < start || j >= i { old(self).traces@[j] } else { invalidated(old(self).traces@[j]) },
                decreases n - i,
            {
                let mut t = self.traces[i];
                t.valid = false;
                self.traces.set(i, t);
                i += 1;
            }
            assert(self.traces@ =~= reverted_traces(old(self).traces@, old(self).checkpoints@));
        }
    }
}

/// Reverting to a checkpoint marks invalid exactly the traces recorded
/// since that checkpoint and closes it: every trace recorded before it is
/// kept as it was, whatever checkpoints were open before it. `opened` is
/// what `checkpoint` made of `before`, `traced` is `opened` with traces
/// added, and `reverted` what `revert_to_checkpoint` made of `traced`.
pub proof fn lemma_revert_keeps_earlier_traces(
    before: ExecutiveTracer,
    opened: ExecutiveTracer,
    traced: ExecutiveTracer,
    reverted: ExecutiveTracer,
)
    requires
        before.traces().len() <= usize::MAX,
        opened.traces() == before.traces(),
        opened.open_checkpoints() == before.open_checkpoints().push(before.traces().len() as usize),
        traced.open_checkpoints() == opened.open_checkpoints(),
        opened.traces().len() <= traced.traces().len(),
        traced.traces().take(opened.traces().len() as int) == opened.traces(),
        reverted.traces() == reverted_traces(traced.traces(), traced.open_checkpoints()),
        reverted.open_checkpoints() == pop_checkpoint(traced.open_checkpoints()),
    ensures
        reverted.open_checkpoints() == before.open_checkpoints(),
        reverted.traces().len() == traced.traces().len(),
        forall|j: int| 0 <= j < before.traces().len() ==> #[trigger] reverted.traces()[j] == before.traces()[j],
        forall|j: int| before.traces().len() <= j < traced.traces().len() ==> {
            let t = #[trigger] reverted.traces()[j];
            &&& !t.valid
            &&& t.from == traced.traces()[j].from && t.to == traced.traces()[j].to && t.value == traced.traces()[j].value
        },
{
    let n = before.traces().len() as int;
    assert(traced.open_checkpoints().last() == n);
    assert(traced.open_checkpoints().drop_last() =~= before.open_checkpoints());
    assert forall|j: int| 0 <= j < n implies #[trigger] reverted.traces()[j] == before.traces()[j] by {
        assert(traced.traces().take(n)[j] == traced.traces()[j]);
    }
}

/// Keeps the gas that an execution is estimated to need.
pub struct GasMan {
    gas_required: U256,
}

impl GasMan {
    pub closed spec fn spec_gas_required(&self) -> nat {
        self.gas_required@
    }

    pub fn new() -> (r: Self)
        ensures
            r.spec_gas_required() == 0,
    {
        GasMan { gas_required: U256::zero() }
    }

    /// Records that the execution needs `gas`.
    pub fn record_gas_required(&mut self, gas: U256)
        ensures
            final(self).spec_gas_required() == gas@,
    {
        self.gas_required = gas;
    }

    pub fn gas_required(&self) -> (r: U256)
        ensures
            r@ == self.spec_gas_required(),
    {
        self.gas_required
    }
}

/// The observers of a VM execution.
pub enum VmObserve {
    TracerAndGasMan,
    Tracer,
    GasMan,
    Nothing,
}

/// The observers that watch an execution: a tracer of internal transfers,
/// and a record of the gas the execution needs.
pub struct MultiObservers {
    pub tracer: Option<ExecutiveTracer>,
    pub gas_man: Option<GasMan>,
}

/// The traces that the observers hold: none where nothing traces.
pub open spec fn spec_traces(o: MultiObservers) -> Seq<InternalTransfer> {
    match o.tracer {
        Some(t) => t.traces(),
        None => Seq::empty(),
    }
}

/// The traces that the observers hold once `t` is traced.
pub open spec fn traces_with(o: MultiObservers, t: InternalTransfer) -> Seq<InternalTransfer> {
    match o.tracer {
        Some(x) => x.traces().push(t),
        None => Seq::empty(),
    }
}

/// `new` is `old` with the transfer `t` traced, where anything traces.
pub open spec fn traced_one(old: MultiObservers, new: MultiObservers, t: InternalTransfer) -> bool {
    &&& new.gas_man == old.gas_man
    &&& match old.tracer {
        Some(x) => new.tracer matches Some(y) && y.traces() == x.traces().push(t)
            && y.open_checkpoints() == x.open_checkpoints(),
        None => new.tracer is None,
    }
}

/// `new` is `old` with a transfer of `amount` from `from` to `to` traced,
/// where anything traces.
pub open spec fn traced_amount(
    old: MultiObservers,
    new: MultiObservers,
    from: AddressPocket,
    to: AddressPocket,
    amount: nat,
) -> bool {
    exists|v: U256| v@ == amount && #[trigger] traced_one(old, new, InternalTransfer { from, to, value: v, valid: true })
}

/// `ts` traces, in order, the burning of the balance of each account of
/// `keys`, `balance` giving each balance.
pub open spec fn burn_traces(
    ts: Seq<InternalTransfer>,
    keys: Seq<AddressWithSpace>,
    balance: spec_fn(AddressWithSpace) -> nat,
) -> bool {
    &&& ts.len() == keys.len()
    &&& forall|j: int| 0 <= j < keys.len() ==> {
        &&& #[trigger] ts[j].from == AddressPocket::Balance(keys[j])
        &&& ts[j].to == AddressPocket::MintBurn
        &&& ts[j].value@ == balance(keys[j])
        &&& ts[j].valid
    }
}

/// `new` is `old` with the burning of the balances of `keys` traced after
/// what it held, where anything
/// traces.
pub open spec fn traced_after(
    old: MultiObservers,
    new: MultiObservers,
    keys: Seq<AddressWithSpace>,
    balance: spec_fn(AddressWithSpace) -> nat,
) -> bool {
    &&& new.gas_man == old.gas_man
    &&& match old.tracer {
        Some(t) => new.tracer matches Some(u) && u.open_checkpoints() == t.open_checkpoints()
            && u.traces().len() == t.traces().len() + keys.len()
            && u.traces().take(t.traces().len() as int) == t.traces()
            && burn_traces(u.traces().skip(t.traces().len() as int), keys, balance),
        None => new.tracer is None,
    }
}

impl MultiObservers {
    /// Which observers watch the VM.
    pub fn as_vm_observe(&self) -> (r: VmObserve)
        ensures
            r == match (self.tracer, self.gas_man) {
                (Some(_), Some(_)) => VmObserve::TracerAndGasMan,
                (Some(_), None) => VmObserve::Tracer,
                (None, Some(_)) => VmObserve::GasMan,
                (None, None) => VmObserve::Nothing,
            },
    {
        match (&self.tracer, &self.gas_man) {
            (Some(_), Some(_)) => VmObserve::TracerAndGasMan,
            (Some(_), None) => VmObserve::Tracer,
            (None, Some(_)) => VmObserve::GasMan,
            (None, None) => VmObserve::Nothing,
        }
    }

    pub fn with_tracing() -> (r: Self)
        ensures
            r.tracer matches Some(t) && t.traces().len() == 0 && t.open_checkpoints().len() == 0,
            r.gas_man is None,
    {
        MultiObservers { tracer: Some(ExecutiveTracer::new()), gas_man: None }
    }

    pub fn with_no_tracing() -> (r: Self)
        ensures
            r.tracer is None,
            r.gas_man is None,
    {
        MultiObservers { tracer: None, gas_man: None }
    }

    pub fn virtual_call() -> (r: Self)
        ensures
            r.tracer matches Some(t) && t.traces().len() == 0 && t.open_checkpoints().len() == 0,
            r.gas_man matches Some(g) && g.spec_gas_required() == 0,
    {
        MultiObservers { tracer: Some(ExecutiveTracer::new()), gas_man: Some(GasMan::new()) }
    }

    /// The traces recorded, or none where nothing traces.
    pub fn drain_traces(&mut self) -> (r: Vec<InternalTransfer>)
        ensures
            r@ == spec_traces(*old(self)),
            spec_traces(*final(self)) == Seq::<InternalTransfer>::empty(),
            final(self).tracer is Some == old(self).tracer is Some,
            final(self).gas_man == old(self).gas_man,
    {
        match &mut self.tracer {
            Some(t) => t.drain(),
            None => Vec::new(),
        }
    }
}

/// `new` is `old` with a checkpoint made, where anything traces.
pub open spec fn checkpointed(old: MultiObservers, new: MultiObservers) -> bool {
    &&& new.gas_man == old.gas_man
    &&& match old.tracer {
        Some(t) => new.tracer matches Some(u) && u.traces() == t.traces()
            && u.open_checkpoints() == t.open_checkpoints().push(t.traces().len() as usize),
        None => new.tracer is None,
    }
}

/// `new` is `old` with its innermost checkpoint discarded, where anything
/// traces.
pub open spec fn discarded(old: MultiObservers, new: MultiObservers) -> bool {
    &&& new.gas_man == old.gas_man
    &&& match old.tracer {
        Some(t) => new.tracer matches Some(u) && u.traces() == t.traces()
            && u.open_checkpoints() == pop_checkpoint(t.open_checkpoints()),
        None => new.tracer is None,
    }
}

/// `new` is `old` with the traces since its innermost checkpoint marked
/// invalid and that checkpoint closed, where anything traces.
pub open spec fn reverted(old: MultiObservers, new: MultiObservers) -> bool {
    &&& new.gas_man == old.gas_man
    &&& match old.tracer {
        Some(t) => new.tracer matches Some(u)
            && u.traces() == reverted_traces(t.traces(), t.open_checkpoints())
            && u.open_checkpoints() == pop_checkpoint(t.open_checkpoints()),
        None => new.tracer is None,
    }
}

impl StateTracer for MultiObservers {
    fn trace_internal_transfer(&mut self, from: AddressPocket, to: AddressPocket, value: U256)
        ensures
            traced_one(*old(self), *final(self), InternalTransfer { from, to, value, valid: true }),
    {
        if let Some(t) = &mut self.tracer {
            t.trace_internal_transfer(from, to, value);
        }
    }

    fn checkpoint(&mut self)
        ensures
            checkpointed(*old(self), *final(self)),
    {
        if let Some(t) = &mut self.tracer {
            t.checkpoint();
        }
    }

    fn discard_checkpoint(&mut self)
        ensures
            discarded(*old(self), *final(self)),
    {
        if let Some(t) = &mut self.tracer {
            t.discard_checkpoint();
        }
    }

    fn revert_to_checkpoint(&mut self)
        ensures
            reverted(*old(self), *final(self)),
    {
        if let Some(t) = &mut self.tracer {
            t.revert_to_checkpoint();
        }
    }
}

} // verus!
