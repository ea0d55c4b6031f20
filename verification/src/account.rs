//! Accounts as they are stored, and the test for default values.
use crate::codec::{
    keccak_empty, keccak_empty_bytes, rlp_encode_account, rlp_item_count, rlp_val_at_h256,
    rlp_val_at_u256, spec_rlp_encode_account, spec_rlp_item_count, spec_rlp_val_at_h256,
    spec_rlp_val_at_u256, RlpError,
};
use crate::types::{Address, AddressWithSpace, Space, H256, U256};
use crate::uint::u256_is_zero;
use vstd::prelude::*;

verus! {

/// The address spaces an account can live in.
#[derive(Debug, PartialEq, Clone)]
pub enum AddressSpace {
    Builtin,
    User,
    Contract,
}

/// Why an account could not be built from its encoding.
#[derive(Debug, PartialEq, Clone)]
pub enum AccountError {
    ReservedAddressSpace(Address),
    AddressSpaceMismatch(Address, AddressSpace),
    InvalidRlp(RlpError),
}

/// A locked amount of stake and the block number until which it stays locked.
#[derive(Clone, Debug, PartialEq, Eq)]
pub struct VoteStakeInfo {
    /// This is the number of tokens should be locked before
    /// `unlock_block_number`.
    pub amount: U256,
    /// This is the timestamp when the vote right will be invalid, measured in
    /// the number of past blocks.
    pub unlock_block_number: u64,
}

/// The code of a contract and the owner who pays for its storage.
#[derive(Clone, Debug, PartialEq, Eq)]
pub struct CodeInfo {
    pub code: Vec<u8>,
}

impl CodeInfo {
    /// The length of the code in bytes.
    pub fn code_size(&self) -> (r: usize)
        ensures
            r == self.code@.len(),
    {
        self.code.len()
    }
}

/// An account as the state database stores it.
#[derive(Clone, Debug, PartialEq, Eq)]
pub struct Account {
    /// This field is not part of Account data, but kept for convenience. It
    /// should be rarely used except for debugging.
    pub address_local_info: AddressWithSpace,
    pub balance: U256,
    pub nonce: U256,
    pub code_hash: H256,
}

/// Defined for RLP serialization/deserialization.
pub struct BasicAccount {
    pub balance: U256,
    pub nonce: U256,
}

/// Defined for RLP serialization/deserialization.
pub struct ContractAccount {
    pub balance: U256,
    pub nonce: U256,
    pub code_hash: H256,
}

/// The fields of an account that an account of the EVM space has.
pub struct EthereumAccount {
    pub balance: U256,
    pub nonce: U256,
    pub code_hash: H256,
}

/// The fields of an account record `[balance, nonce, code_hash]` decoded
/// from its RLP bytes: a list of exactly three items, decoded item by item.
pub open spec fn spec_decode_account_fields(bytes: Seq<u8>) -> Result<(nat, nat, Seq<u8>), RlpError> {
    match spec_rlp_item_count(bytes) {
        Err(e) => Err(e),
        Ok(n) => if n != 3 {
            Err(RlpError::RlpIncorrectListLen)
        } else {
            match spec_rlp_val_at_u256(bytes, 0) {
                Err(e) => Err(e),
                Ok(balance) => match spec_rlp_val_at_u256(bytes, 1) {
                    Err(e) => Err(e),
                    Ok(nonce) => match spec_rlp_val_at_h256(bytes, 2) {
                        Err(e) => Err(e),
                        Ok(code_hash) => Ok((balance, nonce, code_hash)),
                    },
                },
            }
        },
    }
}

/// The RLP bytes of an account in the Ethereum space.
pub open spec fn spec_account_bytes(a: Account) -> Seq<u8> {
    spec_rlp_encode_account(a.balance@, a.nonce@, a.code_hash@)
}

impl Account {
    pub open spec fn spec_address(&self) -> AddressWithSpace {
        self.address_local_info
    }

    /// The address of the account, with its space.
    pub fn address(&self) -> (r: &AddressWithSpace)
        ensures
            *r == self.spec_address(),
    {
        &self.address_local_info
    }

    /// Moves the account to another address.
    pub fn set_address(&mut self, address: AddressWithSpace)
        ensures
            final(self).spec_address() == address,
            final(self).balance == old(self).balance,
            final(self).nonce == old(self).nonce,
            final(self).code_hash == old(self).code_hash,
    {
        self.address_local_info = address;
    }

    /// An account with nothing in it: no balance, nonce 0, no code.
    pub fn new_empty(address: &AddressWithSpace) -> (r: Account)
        ensures
            r.spec_address() == *address,
            r.balance@ == 0,
            r.nonce@ == 0,
            r.code_hash@ == keccak_empty_bytes(),
    {
        Self::new_empty_with_balance(address, &U256::zero(), &U256::zero())
    }

    /// An account with only the given balance and nonce.
    pub fn new_empty_with_balance(address: &AddressWithSpace, balance: &U256, nonce: &U256) -> (r: Account)
        ensures
            r.spec_address() == *address,
            r.balance == *balance,
            r.nonce == *nonce,
            r.code_hash@ == keccak_empty_bytes(),
    {
        Account {
            address_local_info: *address,
            balance: *balance,
            nonce: *nonce,
            code_hash: keccak_empty(),
        }
    }

    fn from_ethereum_account(address: Address, a: EthereumAccount) -> (r: Self)
        ensures
            r.spec_address() == address.with_evm_space_spec(),
            r.balance == a.balance,
            r.nonce == a.nonce,
            r.code_hash == a.code_hash,
    {
        let address = address.with_evm_space();
        Account {
            address_local_info: address,
            balance: a.balance,
            nonce: a.nonce,
            code_hash: a.code_hash,
        }
    }

    /// The fields of the account that the EVM space keeps.
    pub fn to_evm_account(&self) -> (r: EthereumAccount)
        ensures
            r.balance == self.balance,
            r.nonce == self.nonce,
            r.code_hash == self.code_hash,
    {
        EthereumAccount { balance: self.balance, nonce: self.nonce, code_hash: self.code_hash }
    }

    /// Decodes an account of the Ethereum space from its RLP record
    /// `[balance, nonce, code_hash]`.
    pub fn new_from_rlp(address: Address, rlp: &[u8]) -> (r: Result<Self, AccountError>)
        ensures
            match spec_decode_account_fields(rlp@) {
                Ok((balance, nonce, code_hash)) => r matches Ok(a) && a.spec_address()
                    == address.with_evm_space_spec() && a.balance@ == balance && a.nonce@ == nonce
                    && a.code_hash@ == code_hash,
                Err(e) => r == Err::<Account, AccountError>(AccountError::InvalidRlp(e)),
            },
    {
        let count = match rlp_item_count(rlp) {
            Ok(n) => n,
            Err(e) => {
                return Err(AccountError::InvalidRlp(e));
            },
        };
        if count != 3 {
            return Err(AccountError::InvalidRlp(RlpError::RlpIncorrectListLen));
        }
        let balance = match rlp_val_at_u256(rlp, 0) {
            Ok(v) => v,
            Err(e) => {
                return Err(AccountError::InvalidRlp(e));
            },
        };
        let nonce = match rlp_val_at_u256(rlp, 1) {
            Ok(v) => v,
            Err(e) => {
                return Err(AccountError::InvalidRlp(e));
            },
        };
        let code_hash = match rlp_val_at_h256(rlp, 2) {
            Ok(v) => v,
            Err(e) => {
                return Err(AccountError::InvalidRlp(e));
            },
        };
        Ok(Self::from_ethereum_account(address, EthereumAccount { balance, nonce, code_hash }))
    }

    /// The RLP record of this account, `[balance, nonce, code_hash]`.
    pub fn rlp_bytes(&self) -> (r: Vec<u8>)
        ensures
            r@ == spec_account_bytes(*self),
            spec_decode_account_fields(r@) == Ok::<(nat, nat, Seq<u8>), RlpError>((self.balance@, self.nonce@, self.code_hash@)),
    {
        let evm = self.to_evm_account();
        rlp_encode_account(evm.balance, evm.nonce, evm.code_hash)
    }
}

/// A value in the storage of a contract.
#[derive(Clone, Copy, Debug, PartialEq, Eq)]
pub struct StorageValue {
    pub value: U256,
}

/// This trait checks whether a variable equals to initialization value.
/// For a variable equals to the initialization value, the world-state should
/// treat is as None value.
pub trait IsDefault {
    spec fn spec_is_default(&self) -> bool;

    fn is_default(&self) -> (r: bool)
        ensures
            r == self.spec_is_default(),
    ;
}

impl IsDefault for Account {
    open spec fn spec_is_default(&self) -> bool {
        self.balance@ == 0 && self.nonce@ == 0 && self.code_hash@ == keccak_empty_bytes()
    }

    fn is_default(&self) -> (r: bool) {
        let empty = keccak_empty();
        u256_is_zero(self.balance) && u256_is_zero(self.nonce) && self.code_hash.same(&empty)
    }
}

impl IsDefault for CodeInfo {
    open spec fn spec_is_default(&self) -> bool {
        self.code@.len() == 0
    }

    fn is_default(&self) -> (r: bool) {
        self.code.len() == 0
    }
}

impl IsDefault for StorageValue {
    open spec fn spec_is_default(&self) -> bool {
        self.value@ == 0
    }

    fn is_default(&self) -> (r: bool) {
        u256_is_zero(self.value)
    }
}

impl IsDefault for U256 {
    open spec fn spec_is_default(&self) -> bool {
        self@ == 0
    }

    fn is_default(&self) -> (r: bool) {
        u256_is_zero(*self)
    }
}

impl IsDefault for bool {
    open spec fn spec_is_default(&self) -> bool {
        !*self
    }

    fn is_default(&self) -> (r: bool) {
        !*self
    }
}

} // verus!
