//! The state database: typed access to accounts, code and storage slots
//! over a storage backend.
use crate::account::{
    spec_account_bytes, spec_decode_account_fields, Account, AccountError, CodeInfo, IsDefault,
    StorageValue,
};
use crate::codec::{
    rlp_decode_u256, rlp_encode_code, rlp_encode_u256, rlp_val_at_bytes, spec_rlp_encode_code, spec_rlp_decode_u256, spec_rlp_encode_u256,
    spec_rlp_val_at_bytes, RlpError,
};
use crate::internal_common::ComputeEpochDebugRecord;
use crate::parameters::{internal_contract_bytes, storage_interest_staking_contract_address};
use crate::storage::{StorageError, StorageKeyWrapper, StorageTrait};
use crate::storage_key::{
    account_key_bytes, code_key_bytes, storage_key_bytes, StateKey,
};
use crate::types::{Address, AddressWithSpace, EpochId, Space, H256, U256};
use vstd::prelude::*;

verus! {

/// Errors of the state database.
#[derive(Debug, Clone, PartialEq)]
pub enum DbError {
    /// The storage backend failed.
    Storage(StorageError),
    /// A stored value is not valid RLP of its type.
    Decoder(RlpError),
    /// A stored account record is not valid.
    Account(AccountError),
    /// A value that must be in the database is missing.
    IncompleteDatabase(Address),
}

pub type DbResult<T> = Result<T, DbError>;

/// The bytes "total_issued_tokens".
pub open spec fn total_tokens_key() -> Seq<u8> {
    seq![
        0x74u8, 0x6f, 0x74, 0x61, 0x6c, 0x5f, 0x69, 0x73, 0x73, 0x75, 0x65, 0x64, 0x5f, 0x74, 0x6f,
        0x6b, 0x65, 0x6e, 0x73,
    ]
}

/// The storage key of the total of issued tokens: a slot of the staking
/// contract in the Ethereum space.
pub open spec fn total_tokens_key_bytes() -> Seq<u8> {
    internal_contract_bytes(2) + crate::storage_key::store_prefix() + total_tokens_key()
}

/// The bytes "total_issued_tokens".
pub fn total_tokens_key_vec() -> (r: Vec<u8>)
    ensures
        r@ == total_tokens_key(),
{
    let r: Vec<u8> = vec![
        0x74u8, 0x6f, 0x74, 0x61, 0x6c, 0x5f, 0x69, 0x73, 0x73, 0x75, 0x65, 0x64, 0x5f, 0x74, 0x6f,
        0x6b, 0x65, 0x6e, 0x73,
    ];
    assert(r@ =~= total_tokens_key());
    r
}

/// An account record as stored: balance, nonce and code hash.
pub type AccountFields = (nat, nat, Seq<u8>);

/// The account record stored for `a`, if any.
pub open spec fn spec_load_account(db: Map<Seq<u8>, Seq<u8>>, a: AddressWithSpace) -> DbResult<Option<AccountFields>> {
    if !db.contains_key(account_key_bytes(a)) {
        Ok(None)
    } else {
        match spec_decode_account_fields(db[account_key_bytes(a)]) {
            Ok(f) => Ok(Some(f)),
            Err(e) => Err(DbError::Account(AccountError::InvalidRlp(e))),
        }
    }
}

/// The value stored in slot `key` of `a`, if any.
pub open spec fn spec_load_storage(db: Map<Seq<u8>, Seq<u8>>, a: AddressWithSpace, key: Seq<u8>) -> DbResult<Option<nat>> {
    if !db.contains_key(storage_key_bytes(a, key)) {
        Ok(None)
    } else {
        match spec_rlp_decode_u256(db[storage_key_bytes(a, key)]) {
            Ok(v) => Ok(Some(v)),
            Err(e) => Err(DbError::Decoder(e)),
        }
    }
}

/// The code stored for `a`, if any.
pub open spec fn spec_load_code(db: Map<Seq<u8>, Seq<u8>>, a: AddressWithSpace) -> DbResult<Option<Seq<u8>>> {
    if !db.contains_key(code_key_bytes(a)) {
        Ok(None)
    } else {
        match spec_rlp_val_at_bytes(db[code_key_bytes(a)], 0) {
            Ok(v) => Ok(Some(v)),
            Err(e) => Err(DbError::Decoder(e)),
        }
    }
}

/// The total of issued tokens stored, zero where none is.
pub open spec fn spec_load_total_issued(db: Map<Seq<u8>, Seq<u8>>) -> DbResult<nat> {
    if !db.contains_key(total_tokens_key_bytes()) {
        Ok(0)
    } else {
        match spec_rlp_decode_u256(db[total_tokens_key_bytes()]) {
            Ok(v) => Ok(v),
            Err(e) => Err(DbError::Decoder(e)),
        }
    }
}

/// Writing a value: a default value is deleted, another one stored.
pub open spec fn spec_put(db: Map<Seq<u8>, Seq<u8>>, key: Seq<u8>, is_default: bool, bytes: Seq<u8>) -> Map<Seq<u8>, Seq<u8>> {
    if is_default {
        db.remove(key)
    } else {
        db.insert(key, bytes)
    }
}

/// The state database over a storage backend.
pub struct StateDb<S> {
    storage: StorageKeyWrapper<S>,
}

impl<S: StorageTrait> StateDb<S> {
    /// The contents of the storage backend.
    pub closed spec fn db_view(&self) -> Map<Seq<u8>, Seq<u8>> {
        self.storage.inner.storage_view()
    }

    /// Whether the storage backend never reports an error.
    pub closed spec fn infallible(&self) -> bool {
        self.storage.inner.infallible()
    }

    /// Opens a state database over `storage`.
    pub fn new(storage: S) -> (r: Self)
        ensures
            r.infallible() == storage.infallible(),
            r.db_view() == storage.storage_view(),
    {
        StateDb { storage: StorageKeyWrapper { inner: storage } }
    }

    /// The storage backend.
    pub fn storage(&self) -> (r: &S)
        ensures
            r.storage_view() == self.db_view(),
    {
        &self.storage.inner
    }

    /// The bytes stored under `key`, if any.
    pub fn get_raw(&self, key: StateKey) -> (r: DbResult<Option<Vec<u8>>>)
        ensures
            self.infallible() ==> !(r matches Err(DbError::Storage(_))),
            r matches Ok(v) ==> match v {
                Some(b) => self.db_view().contains_key(key.key_bytes()) && b@ == self.db_view()[key.key_bytes()],
                None => !self.db_view().contains_key(key.key_bytes()),
            },
            r matches Err(e) ==> e is Storage,
    {
        match self.storage.get(key.into_owned()) {
            Ok(v) => Ok(v),
            Err(e) => Err(DbError::Storage(e)),
        }
    }

    /// Stores `value` under `key`.
    pub fn set_raw(&mut self, key: StateKey, value: Vec<u8>, debug_record: Option<&mut ComputeEpochDebugRecord>) -> (r: DbResult<()>)
        ensures
            old(self).infallible() ==> r is Ok,
            final(self).infallible() == old(self).infallible(),
            r matches Err(e) ==> e is Storage,
            r is Ok ==> final(self).db_view() == old(self).db_view().insert(key.key_bytes(), value@),
            r is Err ==> final(self).db_view() == old(self).db_view(),
    {
        match self.storage.set(key.into_owned(), value) {
            Ok(()) => Ok(()),
            Err(e) => Err(DbError::Storage(e)),
        }
    }

    /// Deletes what is stored under `key`.
    pub fn delete(&mut self, key: StateKey, debug_record: Option<&mut ComputeEpochDebugRecord>) -> (r: DbResult<()>)
        ensures
            old(self).infallible() ==> r is Ok,
            final(self).infallible() == old(self).infallible(),
            r matches Err(e) ==> e is Storage,
            r is Ok ==> final(self).db_view() == old(self).db_view().remove(key.key_bytes()),
            r is Err ==> final(self).db_view() == old(self).db_view(),
    {
        match self.storage.delete(key.into_owned()) {
            Ok(()) => Ok(()),
            Err(e) => Err(DbError::Storage(e)),
        }
    }

    /// Commits the storage backend under `epoch_id`.
    pub fn commit(&mut self, epoch_id: EpochId, debug_record: Option<&mut ComputeEpochDebugRecord>) -> (r: DbResult<()>)
        ensures
            old(self).infallible() ==> r is Ok,
            final(self).infallible() == old(self).infallible(),
            r matches Err(e) ==> e is Storage,
            final(self).db_view() == old(self).db_view(),
    {
        match self.storage.commit(epoch_id) {
            Ok(()) => Ok(()),
            Err(e) => Err(DbError::Storage(e)),
        }
    }

    /// The account stored for `address`, if any.
    pub fn get_account(&self, address: &AddressWithSpace) -> (r: DbResult<Option<Account>>)
        ensures
            self.infallible() ==> !(r matches Err(DbError::Storage(_))),
            match r {
                Ok(None) => spec_load_account(self.db_view(), *address) == Ok::<Option<AccountFields>, DbError>(None),
                Ok(Some(acc)) => spec_load_account(self.db_view(), *address) == Ok::<Option<AccountFields>, DbError>(
                    Some((acc.balance@, acc.nonce@, acc.code_hash@)),
                ) && acc.spec_address() == address.address.with_evm_space_spec(),
                Err(DbError::Storage(_)) => true,
                Err(e) => spec_load_account(self.db_view(), *address) == Err::<Option<AccountFields>, DbError>(e),
            },
    {
        match self.get_raw(StateKey::new_account_key(address)) {
            Ok(None) => Ok(None),
            Ok(Some(raw)) => match Account::new_from_rlp(address.address, raw.as_slice()) {
                Ok(acc) => Ok(Some(acc)),
                Err(e) => Err(DbError::Account(e)),
            },
            Err(e) => Err(e),
        }
    }

    /// The code stored for `address`; code is stored under the address
    /// alone.
    pub fn get_code(&self, address: &AddressWithSpace, code_hash: &H256) -> (r: DbResult<Option<CodeInfo>>)
        ensures
            self.infallible() ==> !(r matches Err(DbError::Storage(_))),
            match r {
                Ok(None) => spec_load_code(self.db_view(), *address) == Ok::<Option<Seq<u8>>, DbError>(None),
                Ok(Some(c)) => spec_load_code(self.db_view(), *address) == Ok::<Option<Seq<u8>>, DbError>(Some(c.code@)),
                Err(DbError::Storage(_)) => true,
                Err(e) => spec_load_code(self.db_view(), *address) == Err::<Option<Seq<u8>>, DbError>(e),
            },
    {
        match self.get_raw(StateKey::new_code_key(address)) {
            Ok(None) => Ok(None),
            Ok(Some(raw)) => match rlp_val_at_bytes(raw.as_slice(), 0) {
                Ok(code) => Ok(Some(CodeInfo { code })),
                Err(e) => Err(DbError::Decoder(e)),
            },
            Err(e) => Err(e),
        }
    }

    /// The value stored in slot `key` of `address`, if any.
    pub fn get_storage_value(&self, address: &AddressWithSpace, key: &[u8]) -> (r: DbResult<Option<StorageValue>>)
        ensures
            self.infallible() ==> !(r matches Err(DbError::Storage(_))),
            match r {
                Ok(None) => spec_load_storage(self.db_view(), *address, key@) == Ok::<Option<nat>, DbError>(None),
                Ok(Some(v)) => spec_load_storage(self.db_view(), *address, key@) == Ok::<Option<nat>, DbError>(Some(v.value@)),
                Err(DbError::Storage(_)) => true,
                Err(e) => spec_load_storage(self.db_view(), *address, key@) == Err::<Option<nat>, DbError>(e),
            },
    {
        match self.get_raw(StateKey::new_storage_key(address, key)) {
            Ok(None) => Ok(None),
            Ok(Some(raw)) => match rlp_decode_u256(raw.as_slice()) {
                Ok(value) => Ok(Some(StorageValue { value })),
                Err(e) => Err(DbError::Decoder(e)),
            },
            Err(e) => Err(e),
        }
    }

    /// Stores an account record under `address`, or deletes it when the
    /// account is default.
    pub fn set_account(&mut self, address: &AddressWithSpace, value: &Account, debug_record: Option<&mut ComputeEpochDebugRecord>) -> (r: DbResult<()>)
        ensures
            old(self).infallible() ==> r is Ok,
            final(self).infallible() == old(self).infallible(),
            r matches Err(e) ==> e is Storage,
            r is Ok ==> final(self).db_view() == spec_put(old(self).db_view(), account_key_bytes(*address), value.spec_is_default(), spec_account_bytes(*value)),
            r is Err ==> final(self).db_view() == old(self).db_view(),
            r is Ok ==> spec_load_account(final(self).db_view(), *address) == Ok::<Option<AccountFields>, DbError>(
                if value.spec_is_default() { None } else { Some((value.balance@, value.nonce@, value.code_hash@)) },
            ),
    {
        if value.is_default() {
            self.delete(StateKey::new_account_key(address), debug_record)
        } else {
            self.set_raw(StateKey::new_account_key(address), value.rlp_bytes(), debug_record)
        }
    }

    /// Stores a storage value, or deletes it when it is zero.
    pub fn set_storage_value(&mut self, address: &AddressWithSpace, key: &[u8], value: &StorageValue, debug_record: Option<&mut ComputeEpochDebugRecord>) -> (r: DbResult<()>)
        ensures
            old(self).infallible() ==> r is Ok,
            final(self).infallible() == old(self).infallible(),
            r matches Err(e) ==> e is Storage,
            r is Ok ==> final(self).db_view() == spec_put(old(self).db_view(), storage_key_bytes(*address, key@), value.spec_is_default(), spec_rlp_encode_u256(value.value@)),
            r is Err ==> final(self).db_view() == old(self).db_view(),
            r is Ok ==> spec_load_storage(final(self).db_view(), *address, key@) == Ok::<Option<nat>, DbError>(
                if value.spec_is_default() { None } else { Some(value.value@) },
            ),
    {
        if value.is_default() {
            self.delete(StateKey::new_storage_key(address, key), debug_record)
        } else {
            self.set_raw(StateKey::new_storage_key(address, key), rlp_encode_u256(value.value), debug_record)
        }
    }

    /// Stores code under the address, or deletes it when it is empty.
    pub fn set_code(&mut self, address: &AddressWithSpace, code_hash: &H256, value: &CodeInfo, debug_record: Option<&mut ComputeEpochDebugRecord>) -> (r: DbResult<()>)
        ensures
            old(self).infallible() ==> r is Ok,
            final(self).infallible() == old(self).infallible(),
            r matches Err(e) ==> e is Storage,
            r is Ok ==> final(self).db_view() == spec_put(
                old(self).db_view(),
                code_key_bytes(*address),
                value.spec_is_default(),
                spec_rlp_encode_code(value.code@),
            ),
            r is Err ==> final(self).db_view() == old(self).db_view(),
            r is Ok ==> spec_load_code(final(self).db_view(), *address) == Ok::<Option<Seq<u8>>, DbError>(
                if value.spec_is_default() { None } else { Some(value.code@) },
            ),
    {
        if value.is_default() {
            self.delete(StateKey::new_code_key(address), debug_record)
        } else {
            self.set_raw(StateKey::new_code_key(address), rlp_encode_code(value.code.as_slice()), debug_record)
        }
    }

    /// The total of issued tokens stored, zero where none is.
    pub fn get_total_issued_tokens(&self) -> (r: DbResult<U256>)
        ensures
            self.infallible() ==> !(r matches Err(DbError::Storage(_))),
            match r {
                Ok(v) => spec_load_total_issued(self.db_view()) == Ok::<nat, DbError>(v@),
                Err(DbError::Storage(_)) => true,
                Err(e) => spec_load_total_issued(self.db_view()) == Err::<nat, DbError>(e),
            },
    {
        let address = storage_interest_staking_contract_address().with_evm_space();
        let key = total_tokens_key_vec();
        assert(storage_key_bytes(address, key@) =~= total_tokens_key_bytes());
        match self.get_raw(StateKey::new_storage_key(&address, key.as_slice())) {
            Ok(None) => Ok(U256::zero()),
            Ok(Some(raw)) => match rlp_decode_u256(raw.as_slice()) {
                Ok(value) => Ok(value),
                Err(e) => Err(DbError::Decoder(e)),
            },
            Err(e) => Err(e),
        }
    }

    /// Stores the total of issued tokens, deleting it where it is zero.
    pub fn set_total_issued_tokens(&mut self, total_issued_tokens: &U256, debug_record: Option<&mut ComputeEpochDebugRecord>) -> (r: DbResult<()>)
        ensures
            old(self).infallible() ==> r is Ok,
            final(self).infallible() == old(self).infallible(),
            r matches Err(e) ==> e is Storage,
            r is Ok ==> final(self).db_view() == spec_put(old(self).db_view(), total_tokens_key_bytes(), total_issued_tokens@ == 0, spec_rlp_encode_u256(total_issued_tokens@)),
            r is Err ==> final(self).db_view() == old(self).db_view(),
            r is Ok ==> spec_load_total_issued(final(self).db_view()) == Ok::<nat, DbError>(total_issued_tokens@),
    {
        let address = storage_interest_staking_contract_address().with_evm_space();
        let key = total_tokens_key_vec();
        assert(storage_key_bytes(address, key@) =~= total_tokens_key_bytes());
        self.set_storage_value(&address, key.as_slice(), &StorageValue { value: *total_issued_tokens }, debug_record)
    }
}

} // verus!
