//! Consensus parameters and the heights at which upgrades activate.
use crate::parameters::EVM_TRANSACTION_GAS_RATIO;
use crate::types::U256;
use vstd::prelude::*;

verus! {

pub type BlockNumber = u64;

pub type BlockHeight = u64;

/// The parameters of the chain that execution depends on.
#[derive(Debug)]
pub struct CommonParams {
    /// Account start nonce.
    pub account_start_nonce: U256,
    /// Maximum size of extra data.
    pub maximum_extra_data_size: usize,
    /// Network id.
    pub network_id: u64,
    /// Minimum gas limit.
    pub min_gas_limit: U256,
    /// Gas limit bound divisor (how much gas limit can change per block)
    pub gas_limit_bound_divisor: U256,
    /// Number of first block where max code size limit is active.
    /// Maximum size of transaction's RLP payload.
    pub max_transaction_size: usize,
    /// The gas ratio of evm transactions for the block can pack the EVM
    /// transactions
    pub evm_transaction_gas_ratio: u64,
    /// Set the internal contracts to state at the genesis blocks, even if it
    /// is not activated.
    pub early_set_internal_contracts_states: bool,
    /// The upgrades activated at given block number.
    pub transition_numbers: TransitionsBlockNumber,
    /// The upgrades activated at given block height (a.k.a. epoch number).
    pub transition_heights: TransitionsEpochHeight,
}

/// The block numbers at which protocol changes take effect.
#[derive(Debug, Clone)]
pub struct TransitionsBlockNumber {
    /// CIP43: Introduce Finality via Voting Among Staked
    pub cip43a: BlockNumber,
    pub cip43b: BlockNumber,
    /// CIP62: Enable EC-related builtin contract
    pub cip62: BlockNumber,
    /// CIP64: Get current epoch number through internal contract
    pub cip64: BlockNumber,
    /// CIP71: Configurable anti-reentrancy
    pub cip71: BlockNumber,
    /// CIP78: Correct `is_sponsored` fields in receipt
    pub cip78a: BlockNumber,
    /// CIP78: Correct `is_sponsored` fields in receipt
    pub cip78b: BlockNumber,
    /// CIP90: Two Space for Transaction Execution
    pub cip90b: BlockNumber,
    /// CIP92: Enable Blake2F builtin function
    pub cip92: BlockNumber,
    /// CIP-94: On-chain Parameter DAO Vote
    pub cip94: BlockNumber,
    /// CIP-97: Remove Staking List
    pub cip97: BlockNumber,
    /// CIP-98: Fix BLOCKHASH in espace
    pub cip98: BlockNumber,
    /// CIP-105: PoS staking based minimal votes.
    pub cip105: BlockNumber,
    pub cip_sigma_fix: BlockNumber,
}

/// The epoch heights at which protocol changes take effect.
#[derive(Debug, Clone)]
pub struct TransitionsEpochHeight {
    /// The height to change block base reward.
    /// The block `custom` field of this height is required to be
    /// `tanzanite_transition_header_custom`.
    pub cip40: BlockHeight,
    /// CIP76: Remove VM-related constraints in syncing blocks
    pub cip76: BlockHeight,
    /// CIP86: Difficulty adjustment.
    pub cip86: BlockHeight,
    /// CIP90: Two Space for Transaction Execution
    pub cip90a: BlockHeight,
    /// CIP94 Hardfork enable heights.
    pub cip94: BlockHeight,
}

impl Default for TransitionsBlockNumber {
    fn default() -> (r: Self)
        ensures
            r.cip43a == 0 && r.cip43b == 0 && r.cip62 == 0 && r.cip64 == 0 && r.cip71 == 0,
            r.cip78a == 0 && r.cip78b == 0 && r.cip90b == 0 && r.cip92 == 0 && r.cip94 == 0,
            r.cip97 == 0 && r.cip98 == 0 && r.cip105 == 0 && r.cip_sigma_fix == 0,
    {
        TransitionsBlockNumber {
            cip43a: 0,
            cip43b: 0,
            cip62: 0,
            cip64: 0,
            cip71: 0,
            cip78a: 0,
            cip78b: 0,
            cip90b: 0,
            cip92: 0,
            cip94: 0,
            cip97: 0,
            cip98: 0,
            cip105: 0,
            cip_sigma_fix: 0,
        }
    }
}

impl Default for TransitionsEpochHeight {
    fn default() -> (r: Self)
        ensures
            r.cip40 == 0 && r.cip76 == 0 && r.cip86 == 0 && r.cip90a == 0 && r.cip94 == 0,
    {
        TransitionsEpochHeight { cip40: 0, cip76: 0, cip86: 0, cip90a: 0, cip94: 0 }
    }
}

impl Default for CommonParams {
    fn default() -> (r: Self)
        ensures
            r.account_start_nonce@ == 0,
            r.maximum_extra_data_size == 0x20,
            r.network_id == 1,
            r.min_gas_limit@ == 10_000_000,
            r.gas_limit_bound_divisor@ == 0x0400,
            r.max_transaction_size == 300 * 1024,
            r.evm_transaction_gas_ratio == EVM_TRANSACTION_GAS_RATIO,
            !r.early_set_internal_contracts_states,
            r.transition_numbers.cip43a == 0 && r.transition_numbers.cip_sigma_fix == 0,
            r.transition_heights.cip40 == 0 && r.transition_heights.cip94 == 0,
    {
        CommonParams {
            account_start_nonce: U256::zero(),
            maximum_extra_data_size: 0x20,
            network_id: 0x1,
            min_gas_limit: U256::from_u64(10_000_000),
            gas_limit_bound_divisor: U256::from_u64(0x0400),
            max_transaction_size: 300 * 1024,
            evm_transaction_gas_ratio: EVM_TRANSACTION_GAS_RATIO,
            early_set_internal_contracts_states: false,
            transition_numbers: TransitionsBlockNumber::default(),
            transition_heights: TransitionsEpochHeight::default(),
        }
    }
}

} // verus!
