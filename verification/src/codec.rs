//! Hashing and RLP coding, computed by `keccak_hash` and `rlp`.
use crate::types::{Address, H256, U256};
use rlp::{DecoderError, Rlp, RlpStream};
use vstd::prelude::*;

verus! {

/// The Keccak-256 digest of a byte string.
pub uninterp spec fn spec_keccak(data: Seq<u8>) -> Seq<u8>;

/// `keccak_hash::keccak`: the Keccak-256 digest of `data`, a function of
/// `data` alone.
#[verifier::external_body]
pub fn keccak(data: &[u8]) -> (r: H256)
    ensures
        r@ == spec_keccak(data@),
{
    H256(keccak_hash::keccak(data).0)
}

/// The 32 bytes of `keccak_hash::KECCAK_EMPTY`.
pub open spec fn keccak_empty_bytes() -> Seq<u8> {
    seq![
        0xc5u8, 0xd2, 0x46, 0x01, 0x86, 0xf7, 0x23, 0x3c, 0x92, 0x7e, 0x7d, 0xb2, 0xdc, 0xc7, 0x03, 0xc0,
        0xe5, 0x00, 0xb6, 0x53, 0xca, 0x82, 0x27, 0x3b, 0x7b, 0xfa, 0xd8, 0x04, 0x5d, 0x85, 0xa4, 0x70,
    ]
}

/// `keccak_hash::KECCAK_EMPTY`, which the crate documents as the digest of
/// the empty byte string and writes out as a constant.
#[verifier::external_body]
pub fn keccak_empty() -> (r: H256)
    ensures
        r@ == keccak_empty_bytes(),
        r@ == spec_keccak(Seq::empty()),
{
    H256(keccak_hash::KECCAK_EMPTY.0)
}

/// The kinds of error that the RLP decoder reports.
#[derive(Clone, Copy, Debug, PartialEq, Eq)]
pub enum RlpError {
    RlpIsTooBig,
    RlpIsTooShort,
    RlpExpectedToBeList,
    RlpExpectedToBeData,
    RlpIncorrectListLen,
    RlpDataLenWithZeroPrefix,
    RlpListLenWithZeroPrefix,
    RlpInvalidIndirection,
    RlpInconsistentLengthAndData,
    RlpInvalidLength,
    Custom(&'static str),
}

#[verifier::external_type_specification]
#[verifier::external_body]
pub struct ExDecoderError(DecoderError);

/// Maps `rlp::DecoderError` to the variant of the same name.
#[verifier::external_body]
fn rlp_error(e: DecoderError) -> RlpError {
    match e {
        DecoderError::RlpIsTooBig => RlpError::RlpIsTooBig,
        DecoderError::RlpIsTooShort => RlpError::RlpIsTooShort,
        DecoderError::RlpExpectedToBeList => RlpError::RlpExpectedToBeList,
        DecoderError::RlpExpectedToBeData => RlpError::RlpExpectedToBeData,
        DecoderError::RlpIncorrectListLen => RlpError::RlpIncorrectListLen,
        DecoderError::RlpDataLenWithZeroPrefix => RlpError::RlpDataLenWithZeroPrefix,
        DecoderError::RlpListLenWithZeroPrefix => RlpError::RlpListLenWithZeroPrefix,
        DecoderError::RlpInvalidIndirection => RlpError::RlpInvalidIndirection,
        DecoderError::RlpInconsistentLengthAndData => RlpError::RlpInconsistentLengthAndData,
        DecoderError::RlpInvalidLength => RlpError::RlpInvalidLength,
        DecoderError::Custom(s) => RlpError::Custom(s),
    }
}

/// What `Rlp::item_count` gives for an RLP byte string.
pub uninterp spec fn spec_rlp_item_count(bytes: Seq<u8>) -> Result<usize, RlpError>;

/// `Rlp::new(bytes).item_count()`: the number of items of an RLP list.
#[verifier::external_body]
pub fn rlp_item_count(bytes: &[u8]) -> (r: Result<usize, RlpError>)
    ensures
        r == spec_rlp_item_count(bytes@),
{
    Rlp::new(bytes).item_count().map_err(rlp_error)
}

/// What `Rlp::val_at::<U256>` gives for an RLP byte string and an index.
pub uninterp spec fn spec_rlp_val_at_u256(bytes: Seq<u8>, index: usize) -> Result<nat, RlpError>;

/// `Rlp::new(bytes).val_at::<U256>(index)`: decodes item `index` of a list
/// as a 256-bit integer.
#[verifier::external_body]
pub fn rlp_val_at_u256(bytes: &[u8], index: usize) -> (r: Result<U256, RlpError>)
    ensures
        spec_rlp_val_at_u256(bytes@, index) == match r {
            Ok(v) => Ok(v@),
            Err(e) => Err::<nat, RlpError>(e),
        },
{
    match Rlp::new(bytes).val_at::<cfx_types::U256>(index) {
        Ok(v) => Ok(U256(v.0)),
        Err(e) => Err(rlp_error(e)),
    }
}

/// What `Rlp::val_at::<H256>` gives for an RLP byte string and an index.
pub uninterp spec fn spec_rlp_val_at_h256(bytes: Seq<u8>, index: usize) -> Result<Seq<u8>, RlpError>;

/// `Rlp::new(bytes).val_at::<H256>(index)`: decodes item `index` of a list
/// as a 32-byte hash.
#[verifier::external_body]
pub fn rlp_val_at_h256(bytes: &[u8], index: usize) -> (r: Result<H256, RlpError>)
    ensures
        spec_rlp_val_at_h256(bytes@, index) == match r {
            Ok(v) => Ok(v@),
            Err(e) => Err::<Seq<u8>, RlpError>(e),
        },
{
    match Rlp::new(bytes).val_at::<cfx_types::H256>(index) {
        Ok(v) => Ok(H256(v.0)),
        Err(e) => Err(rlp_error(e)),
    }
}

/// What `Rlp::val_at::<Vec<u8>>` gives for an RLP byte string and an index.
pub uninterp spec fn spec_rlp_val_at_bytes(bytes: Seq<u8>, index: usize) -> Result<Seq<u8>, RlpError>;

/// `Rlp::new(bytes).val_at::<Vec<u8>>(index)`: decodes item `index` of a
/// list as a byte string.
#[verifier::external_body]
pub fn rlp_val_at_bytes(bytes: &[u8], index: usize) -> (r: Result<Vec<u8>, RlpError>)
    ensures
        spec_rlp_val_at_bytes(bytes@, index) == match r {
            Ok(v) => Ok(v@),
            Err(e) => Err::<Seq<u8>, RlpError>(e),
        },
{
    Rlp::new(bytes).val_at::<Vec<u8>>(index).map_err(rlp_error)
}

/// What `rlp::decode::<U256>` gives for a byte string.
pub uninterp spec fn spec_rlp_decode_u256(bytes: Seq<u8>) -> Result<nat, RlpError>;

/// `rlp::decode::<U256>`: decodes a whole byte string as a 256-bit integer.
#[verifier::external_body]
pub fn rlp_decode_u256(bytes: &[u8]) -> (r: Result<U256, RlpError>)
    ensures
        spec_rlp_decode_u256(bytes@) == match r {
            Ok(v) => Ok(v@),
            Err(e) => Err::<nat, RlpError>(e),
        },
{
    match rlp::decode::<cfx_types::U256>(bytes) {
        Ok(v) => Ok(U256(v.0)),
        Err(e) => Err(rlp_error(e)),
    }
}

/// `bytes` decode as the 256-bit integer `v`.
pub open spec fn decodes_to_u256(bytes: Seq<u8>, v: nat) -> bool {
    spec_rlp_decode_u256(bytes) == Ok::<nat, RlpError>(v)
}

/// The RLP encoding of a 256-bit integer.
pub uninterp spec fn spec_rlp_encode_u256(v: nat) -> Seq<u8>;

/// `rlp::encode::<U256>`: the minimal big-endian bytes of `v` as an RLP
/// string, which `rlp::decode::<U256>` gives back as `v`.
#[verifier::external_body]
pub fn rlp_encode_u256(v: U256) -> (r: Vec<u8>)
    ensures
        r@ == spec_rlp_encode_u256(v@),
        decodes_to_u256(r@, v@),
{
    rlp::encode(&cfx_types::U256(v.0))
}

/// `bytes` read as a list of three items: a balance and a nonce as integers
/// and a code hash as a 32-byte string.
pub open spec fn decodes_to_account(bytes: Seq<u8>, balance: nat, nonce: nat, code_hash: Seq<u8>) -> bool {
    &&& spec_rlp_item_count(bytes) == Ok::<usize, RlpError>(3)
    &&& spec_rlp_val_at_u256(bytes, 0) == Ok::<nat, RlpError>(balance)
    &&& spec_rlp_val_at_u256(bytes, 1) == Ok::<nat, RlpError>(nonce)
    &&& spec_rlp_val_at_h256(bytes, 2) == Ok::<Seq<u8>, RlpError>(code_hash)
}

/// The RLP encoding of the list `[balance, nonce, code_hash]`.
pub uninterp spec fn spec_rlp_encode_account(balance: nat, nonce: nat, code_hash: Seq<u8>) -> Seq<u8>;

/// An `RlpStream` list of three items, a balance and a nonce as integers and
/// a code hash as a 32-byte string, streamed out; `Rlp` reads it back as a
/// list of three items holding those values.
#[verifier::external_body]
pub fn rlp_encode_account(balance: U256, nonce: U256, code_hash: H256) -> (r: Vec<u8>)
    ensures
        r@ == spec_rlp_encode_account(balance@, nonce@, code_hash@),
        decodes_to_account(r@, balance@, nonce@, code_hash@),
{
    let mut stream = RlpStream::new_list(3);
    stream.append(&cfx_types::U256(balance.0));
    stream.append(&cfx_types::U256(nonce.0));
    stream.append(&cfx_types::H256(code_hash.0));
    stream.out()
}

/// The RLP encoding of the list `[address, nonce]`.
pub uninterp spec fn spec_rlp_encode_address_nonce(address: Seq<u8>, nonce: nat) -> Seq<u8>;

/// An `RlpStream` list of two items, a 20-byte address and an integer, as raw bytes.
#[verifier::external_body]
pub fn rlp_encode_address_nonce(address: Address, nonce: U256) -> (r: Vec<u8>)
    ensures
        r@ == spec_rlp_encode_address_nonce(address@, nonce@),
{
    let mut stream = RlpStream::new_list(2);
    stream.append(&cfx_types::Address::from(address.0));
    stream.append(&cfx_types::U256(nonce.0));
    stream.as_raw().to_vec()
}

/// What `Rlp::val_at::<u8>` gives for an RLP byte string and an index.
pub uninterp spec fn spec_rlp_val_at_u8(bytes: Seq<u8>, index: usize) -> Result<u8, RlpError>;

/// `Rlp::new(bytes).val_at::<u8>(index)`: decodes item `index` of a list as
/// a byte-sized integer.
#[verifier::external_body]
pub fn rlp_val_at_u8(bytes: &[u8], index: usize) -> (r: Result<u8, RlpError>)
    ensures
        r == spec_rlp_val_at_u8(bytes@, index),
{
    Rlp::new(bytes).val_at::<u8>(index).map_err(rlp_error)
}

/// What `Rlp::val_at::<Address>` gives for an RLP byte string and an index.
pub uninterp spec fn spec_rlp_val_at_address(bytes: Seq<u8>, index: usize) -> Result<Seq<u8>, RlpError>;

/// `Rlp::new(bytes).val_at::<Address>(index)`: decodes item `index` of a
/// list as a 20-byte address.
#[verifier::external_body]
pub fn rlp_val_at_address(bytes: &[u8], index: usize) -> (r: Result<Address, RlpError>)
    ensures
        spec_rlp_val_at_address(bytes@, index) == match r {
            Ok(a) => Ok(a@),
            Err(e) => Err::<Seq<u8>, RlpError>(e),
        },
{
    match Rlp::new(bytes).val_at::<cfx_types::Address>(index) {
        Ok(a) => Ok(Address(a.0)),
        Err(e) => Err(rlp_error(e)),
    }
}

/// `bytes` read as a list whose first item is `type_number`.
pub open spec fn decodes_to_tag(bytes: Seq<u8>, type_number: u8) -> bool {
    spec_rlp_val_at_u8(bytes, 0) == Ok::<u8, RlpError>(type_number)
}

/// `bytes` read as a list of `type_number` and then `address`.
pub open spec fn decodes_to_tag_address(bytes: Seq<u8>, type_number: u8, address: Seq<u8>) -> bool {
    &&& spec_rlp_val_at_u8(bytes, 0) == Ok::<u8, RlpError>(type_number)
    &&& spec_rlp_val_at_address(bytes, 1) == Ok::<Seq<u8>, RlpError>(address)
}

/// The RLP encoding of the list `[type_number]`.
pub uninterp spec fn spec_rlp_encode_tag(type_number: u8) -> Seq<u8>;

/// An `RlpStream` list of one item, the type number, streamed out; `Rlp`
/// reads the item back.
#[verifier::external_body]
pub fn rlp_encode_tag(type_number: u8) -> (r: Vec<u8>)
    ensures
        r@ == spec_rlp_encode_tag(type_number),
        decodes_to_tag(r@, type_number),
{
    let mut s = RlpStream::new_list(1);
    s.append(&type_number);
    s.out()
}

/// The RLP encoding of the list `[type_number, address]`.
pub uninterp spec fn spec_rlp_encode_tag_address(type_number: u8, address: Seq<u8>) -> Seq<u8>;

/// An `RlpStream` list of two items, the type number and the address,
/// streamed out; `Rlp` reads the items back.
#[verifier::external_body]
pub fn rlp_encode_tag_address(type_number: u8, address: Address) -> (r: Vec<u8>)
    ensures
        r@ == spec_rlp_encode_tag_address(type_number, address@),
        decodes_to_tag_address(r@, type_number, address@),
{
    let mut s = RlpStream::new_list(2);
    s.append(&type_number);
    s.append(&cfx_types::Address::from(address.0));
    s.out()
}

/// What `rlp::encode` gives for a code record holding `code`.
pub uninterp spec fn spec_rlp_encode_code(code: Seq<u8>) -> Seq<u8>;

/// `bytes` read as a list whose first item is the byte string `code`.
pub open spec fn decodes_to_code(bytes: Seq<u8>, code: Seq<u8>) -> bool {
    spec_rlp_val_at_bytes(bytes, 0) == Ok::<Seq<u8>, RlpError>(code)
}

/// The bytes `rlp::encode` gives for a code record: the record opens a list
/// of two and appends the code, and the `append` of `encode` that wraps it
/// counts the list as finished, so the bytes are those of an `RlpStream`
/// list of one item, the code as a byte string, streamed out. `Rlp` reads
/// the code back as the first item.
#[verifier::external_body]
pub fn rlp_encode_code(code: &[u8]) -> (r: Vec<u8>)
    ensures
        r@ == spec_rlp_encode_code(code@),
        decodes_to_code(r@, code@),
{
    let mut stream = RlpStream::new_list(1);
    stream.append(&code.to_vec());
    stream.out()
}

} // verus!
