//! Arithmetic on 256- and 512-bit words, computed by `cfx_types`.
use crate::types::{u256_modulus, Address, U256, U512};
use cfx_types::address_util::AddressUtil;
use cfx_types::U256 as ExtU256;
use cfx_types::U512 as ExtU512;
use vstd::arithmetic::power2::pow2;
use vstd::prelude::*;

verus! {

/// `a + b` on `cfx_types::U256`, which panics on overflow; the sum is exact.
#[verifier::external_body]
pub fn u256_add(a: U256, b: U256) -> (r: U256)
    requires
        a@ + b@ < u256_modulus(),
    ensures
        r@ == a@ + b@,
{
    U256((ExtU256(a.0) + ExtU256(b.0)).0)
}

/// `a - b` on `cfx_types::U256`, which panics on underflow; the difference is exact.
#[verifier::external_body]
pub fn u256_sub(a: U256, b: U256) -> (r: U256)
    requires
        b@ <= a@,
    ensures
        r@ == a@ - b@,
{
    U256((ExtU256(a.0) - ExtU256(b.0)).0)
}

/// `a * b` on `cfx_types::U256`, which panics on overflow; the product is exact.
#[verifier::external_body]
pub fn u256_mul(a: U256, b: U256) -> (r: U256)
    requires
        a@ * b@ < u256_modulus(),
    ensures
        r@ == a@ * b@,
{
    U256((ExtU256(a.0) * ExtU256(b.0)).0)
}

/// `a / b` on `cfx_types::U256`, which panics on a zero divisor; the quotient rounds down.
#[verifier::external_body]
pub fn u256_div(a: U256, b: U256) -> (r: U256)
    requires
        b@ != 0,
    ensures
        r@ == a@ / b@,
{
    U256((ExtU256(a.0) / ExtU256(b.0)).0)
}

/// `U256::saturating_add`: the sum, or 2^256 - 1 where it overflows.
#[verifier::external_body]
pub fn u256_saturating_add(a: U256, b: U256) -> (r: U256)
    ensures
        r@ == if a@ + b@ < u256_modulus() { a@ + b@ } else { (u256_modulus() - 1) as nat },
{
    U256(ExtU256(a.0).saturating_add(ExtU256(b.0)).0)
}

/// `U256::saturating_sub`: the difference, or 0 where it underflows.
#[verifier::external_body]
pub fn u256_saturating_sub(a: U256, b: U256) -> (r: U256)
    ensures
        r@ == if b@ <= a@ { (a@ - b@) as nat } else { 0 },
{
    U256(ExtU256(a.0).saturating_sub(ExtU256(b.0)).0)
}

/// `U256::saturating_mul`: the product, or 2^256 - 1 where it overflows.
#[verifier::external_body]
pub fn u256_saturating_mul(a: U256, b: U256) -> (r: U256)
    ensures
        r@ == if a@ * b@ < u256_modulus() { a@ * b@ } else { (u256_modulus() - 1) as nat },
{
    U256(ExtU256(a.0).saturating_mul(ExtU256(b.0)).0)
}

/// `a >> shift` on `cfx_types::U256`: division by 2^shift, rounding down.
#[verifier::external_body]
pub fn u256_shr(a: U256, shift: usize) -> (r: U256)
    ensures
        r@ == a@ / pow2(shift as nat),
{
    U256((ExtU256(a.0) >> shift).0)
}

/// `U256::full_mul`: the exact 512-bit product.
#[verifier::external_body]
pub fn u256_full_mul(a: U256, b: U256) -> (r: U512)
    ensures
        r@ == a@ * b@,
{
    U512(ExtU256(a.0).full_mul(ExtU256(b.0)).0)
}

/// `<` on `cfx_types::U256`, which orders by numeric value.
#[verifier::external_body]
pub fn u256_lt(a: U256, b: U256) -> (r: bool)
    ensures
        r == (a@ < b@),
{
    ExtU256(a.0) < ExtU256(b.0)
}

/// `==` on `cfx_types::U256`, which compares numeric values.
#[verifier::external_body]
pub fn u256_eq(a: U256, b: U256) -> (r: bool)
    ensures
        r == (a@ == b@),
{
    ExtU256(a.0) == ExtU256(b.0)
}

/// `U256::is_zero`.
#[verifier::external_body]
pub fn u256_is_zero(a: U256) -> (r: bool)
    ensures
        r == (a@ == 0),
{
    ExtU256(a.0).is_zero()
}

/// `a + b` on `cfx_types::U512`, which panics on overflow; the sum is exact.
#[verifier::external_body]
pub fn u512_add(a: U512, b: U512) -> (r: U512)
    requires
        a@ + b@ < u256_modulus() * u256_modulus(),
    ensures
        r@ == a@ + b@,
{
    U512((ExtU512(a.0) + ExtU512(b.0)).0)
}

/// `<` on `cfx_types::U512`, which orders by numeric value.
#[verifier::external_body]
pub fn u512_lt(a: U512, b: U512) -> (r: bool)
    ensures
        r == (a@ < b@),
{
    ExtU512(a.0) < ExtU512(b.0)
}

/// `U256::try_from(U512)`: succeeds exactly when the value fits in 256 bits.
#[verifier::external_body]
pub fn u512_try_into_u256(a: U512) -> (r: Option<U256>)
    ensures
        r is Some <==> a@ < u256_modulus(),
        r matches Some(v) ==> v@ == a@,
{
    match <ExtU256 as core::convert::TryFrom<ExtU512>>::try_from(ExtU512(a.0)) {
        Ok(v) => Some(U256(v.0)),
        Err(_) => None,
    }
}

/// The type bits of an address are zero and the address is not all zeros.
pub open spec fn spec_is_builtin_address(a: Seq<u8>) -> bool {
    (a[0] & 0xf0u8) == 0u8 && exists|i: int| 0 <= i < 20 && a[i] != 0
}

/// `AddressUtil::is_builtin_address`: the high four bits of the first byte
/// are zero and the address is not the zero address.
#[verifier::external_body]
pub fn is_builtin_address(a: &Address) -> (r: bool)
    ensures
        r == spec_is_builtin_address(a@),
{
    cfx_types::Address::from(a.0).is_builtin_address()
}

/// `Address::random`: an address drawn at random; nothing is known of it.
#[verifier::external_body]
pub fn random_address() -> (r: Address) {
    Address(cfx_types::Address::random().0)
}

/// The smaller of two `U256` values.
pub fn u256_min(a: U256, b: U256) -> (r: U256)
    ensures
        r@ == if a@ <= b@ { a@ } else { b@ },
{
    if u256_lt(b, a) { b } else { a }
}

/// The larger of two `U256` values.
pub fn u256_max(a: U256, b: U256) -> (r: U256)
    ensures
        r@ == if a@ >= b@ { a@ } else { b@ },
{
    if u256_lt(a, b) { b } else { a }
}

/// The smaller of two `U512` values.
pub fn u512_min(a: U512, b: U512) -> (r: U512)
    ensures
        r@ == if a@ <= b@ { a@ } else { b@ },
{
    if u512_lt(b, a) { b } else { a }
}

} // verus!
