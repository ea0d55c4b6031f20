//! Protocol parameters.
use crate::types::Address;
use vstd::prelude::*;

verus! {

pub const ONE_CFX_IN_DRIP: u64 = 1_000_000_000_000_000_000;

// The following parameter controls how many blocks are allowed to
// contain EVM Space transactions. Setting it to N means that one block
// must has a height of the multiple of N to contain EVM transactions.
pub const EVM_TRANSACTION_BLOCK_RATIO: u64 = 5;

// The following parameter controls the ratio of gas limit allowed for
// EVM space transactions. Setting it to N means that only 1/N of th
// block gas limit can be used for EVM transaction enabled blocks.
pub const EVM_TRANSACTION_GAS_RATIO: u64 = 2;

// The following parameter controls the ratio of gas can be passed to EVM
// space in the cross space call. Setting it to N means that only 1/N of gas
// left can be passed to the cross space call.
pub const CROSS_SPACE_GAS_RATIO: u64 = 10;

/// The address bytes 0x0888000000000000000000000000000000000000 + `last`.
pub open spec fn internal_contract_bytes(last: u8) -> Seq<u8> {
    seq![0x08u8, 0x88, 0, 0, 0, 0, 0, 0, 0, 0, 0, 0, 0, 0, 0, 0, 0, 0, 0, last]
}

fn internal_contract_address(last: u8) -> (r: Address)
    ensures
        r@ == internal_contract_bytes(last),
{
    let r = Address([0x08, 0x88, 0, 0, 0, 0, 0, 0, 0, 0, 0, 0, 0, 0, 0, 0, 0, 0, 0, last]);
    assert(r@ =~= internal_contract_bytes(last));
    r
}

/// The internal contract that keeps the total of issued tokens.
pub fn storage_interest_staking_contract_address() -> (r: Address)
    ensures
        r@ == internal_contract_bytes(2),
{
    internal_contract_address(2)
}

/// The address whose storage holds system values.
pub fn system_storage_address() -> (r: Address)
    ensures
        r@ == internal_contract_bytes(8),
{
    internal_contract_address(8)
}

} // verus!
