use cfx_evm::assoc::AssocMap;
use cfx_evm::codec::keccak_empty;
use cfx_evm::spec::CommonParams;
use cfx_evm::types::{U256, U512};
use cfx_evm::uint::{u256_full_mul, u256_saturating_add, u256_saturating_mul, u256_saturating_sub, u256_shr};

#[test]
fn saturating_arithmetic() {
    assert_eq!(u256_saturating_add(U256::max_value(), U256::one()), U256::max_value());
    assert_eq!(u256_saturating_sub(U256::one(), U256::from_u64(2)), U256::zero());
    assert_eq!(u256_saturating_mul(U256::max_value(), U256::from_u64(2)), U256::max_value());
    assert_eq!(u256_saturating_mul(U256::from_u64(6), U256::from_u64(7)), U256::from_u64(42));
    assert_eq!(u256_shr(U256::from_u64(17), 2), U256::from_u64(4));
}

#[test]
fn full_mul_does_not_overflow() {
    let p = u256_full_mul(U256::max_value(), U256::from_u64(2));
    assert_eq!(p, U512([u64::MAX - 1, u64::MAX, u64::MAX, u64::MAX, 1, 0, 0, 0]));
}

#[test]
fn keccak_of_nothing() {
    assert_eq!(keccak_empty().0, keccak_hash::keccak([0u8; 0]).0);
}

#[test]
fn assoc_map_insert_get_remove() {
    let mut m: AssocMap<Vec<u8>, u32> = AssocMap::new();
    assert!(m.is_empty());
    assert_eq!(m.insert(vec![1], 10), None);
    assert_eq!(m.insert(vec![2], 20), None);
    assert_eq!(m.insert(vec![1], 11), Some(10));
    assert_eq!(m.len(), 2);
    assert_eq!(m.get(&vec![1]), Some(&11));
    assert_eq!(m.remove(&vec![1]), Some(11));
    assert_eq!(m.get(&vec![1]), None);
    assert!(m.contains_key(&vec![2]));
}

#[test]
fn assoc_map_merge_prefers_its_own_entries() {
    let mut a: AssocMap<Vec<u8>, u32> = AssocMap::new();
    a.insert(vec![1], 1);
    let mut b: AssocMap<Vec<u8>, u32> = AssocMap::new();
    b.insert(vec![1], 100);
    b.insert(vec![2], 200);
    a.merge_missing(b);
    assert_eq!(a.get(&vec![1]), Some(&1));
    assert_eq!(a.get(&vec![2]), Some(&200));
    assert_eq!(a.len(), 2);
}

#[test]
fn common_params_default() {
    let p = CommonParams::default();
    assert_eq!(p.account_start_nonce, U256::zero());
    assert_eq!(p.maximum_extra_data_size, 0x20);
    assert_eq!(p.network_id, 1);
    assert_eq!(p.min_gas_limit, U256::from_u64(10_000_000));
    assert_eq!(p.gas_limit_bound_divisor, U256::from_u64(0x400));
    assert_eq!(p.max_transaction_size, 300 * 1024);
    assert_eq!(p.evm_transaction_gas_ratio, 2);
    assert!(!p.early_set_internal_contracts_states);
    assert_eq!(p.transition_numbers.cip43a, 0);
    assert_eq!(p.transition_heights.cip94, 0);
}
