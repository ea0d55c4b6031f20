//! Keys of the world state and their byte encoding in storage.
use crate::assoc::bytes_clone;
use crate::types::AddressWithSpace;
use vstd::prelude::*;

verus! {

/// The bytes "store".
pub open spec fn store_prefix() -> Seq<u8> {
    seq![0x73u8, 0x74, 0x6f, 0x72, 0x65]
}

/// The bytes "code".
pub open spec fn code_prefix() -> Seq<u8> {
    seq![0x63u8, 0x6f, 0x64, 0x65]
}

/// Storage key of an account record: the 20 address bytes.
pub open spec fn account_key_bytes(a: AddressWithSpace) -> Seq<u8> {
    a.address@
}

/// Storage key of a storage slot: address bytes, "store", slot key.
pub open spec fn storage_key_bytes(a: AddressWithSpace, key: Seq<u8>) -> Seq<u8> {
    a.address@ + store_prefix() + key
}

/// Storage key of a contract's code: address bytes, "code".
pub open spec fn code_key_bytes(a: AddressWithSpace) -> Seq<u8> {
    a.address@ + code_prefix()
}

/// A key of the world state, borrowing what it is made of.
#[derive(Debug, Clone, Copy, PartialEq, Eq, Hash)]
pub enum StateKey<'a> {
    AccountKey(&'a AddressWithSpace),
    StorageKey { address: &'a AddressWithSpace, storage_key: &'a [u8] },
    CodeKey(&'a AddressWithSpace),
}

/// A key of the world state that owns what it is made of.
#[derive(Debug, Clone, PartialEq, Eq, Hash)]
pub enum OwnedStateKey {
    AccountKey(AddressWithSpace),
    StorageKey { address: AddressWithSpace, storage_key: Vec<u8> },
    CodeKey(AddressWithSpace),
}

impl<'a> StateKey<'a> {
    /// The bytes under which this key is stored.
    pub open spec fn key_bytes(self) -> Seq<u8> {
        match self {
            StateKey::AccountKey(address) => account_key_bytes(*address),
            StateKey::StorageKey { address, storage_key } => storage_key_bytes(*address, storage_key@),
            StateKey::CodeKey(address) => code_key_bytes(*address),
        }
    }

    /// The key of an account.
    pub fn new_account_key(address: &'a AddressWithSpace) -> (r: Self)
        ensures
            r == StateKey::AccountKey(address),
            r.key_bytes() == account_key_bytes(*address),
    {
        StateKey::AccountKey(address)
    }

    /// The key of an entry of the storage of a contract.
    pub fn new_storage_key(address: &'a AddressWithSpace, storage_key: &'a [u8]) -> (r: Self)
        ensures
            r == (StateKey::StorageKey { address, storage_key }),
            r.key_bytes() == storage_key_bytes(*address, storage_key@),
    {
        StateKey::StorageKey { address, storage_key }
    }

    /// The key of the code of a contract.
    pub fn new_code_key(address: &'a AddressWithSpace) -> (r: Self)
        ensures
            r == StateKey::CodeKey(address),
            r.key_bytes() == code_key_bytes(*address),
    {
        StateKey::CodeKey(address)
    }

    /// The same key, holding its own copies.
    pub fn into_owned(self) -> (r: OwnedStateKey)
        ensures
            r.key_bytes() == self.key_bytes(),
            match self {
                StateKey::AccountKey(a) => r == OwnedStateKey::AccountKey(*a),
                StateKey::StorageKey { address, storage_key } => r matches OwnedStateKey::StorageKey {
                    address: a2,
                    storage_key: k2,
                } && a2 == *address && k2@ == storage_key@,
                StateKey::CodeKey(a) => r == OwnedStateKey::CodeKey(*a),
            },
    {
        match self {
            StateKey::AccountKey(address) => OwnedStateKey::AccountKey(*address),
            StateKey::StorageKey { address, storage_key } => OwnedStateKey::StorageKey {
                address: *address,
                storage_key: bytes_clone(storage_key),
            },
            StateKey::CodeKey(address) => OwnedStateKey::CodeKey(*address),
        }
    }
}

/// Appends the bytes of `s` to `v`.
pub fn append_bytes(v: &mut Vec<u8>, s: &[u8])
    ensures
        final(v)@ == old(v)@ + s@,
{
    let mut i: usize = 0;
    while i < s.len()
        invariant
            0 <= i <= s@.len(),
            v@ == old(v)@ + s@.subrange(0, i as int),
        decreases s@.len() - i,
    {
        v.push(s[i]);
        i += 1;
        assert(v@ =~= old(v)@ + s@.subrange(0, i as int));
    }
    assert(s@.subrange(0, s@.len() as int) =~= s@);
}

impl OwnedStateKey {
    /// The bytes under which this key is stored.
    pub open spec fn key_bytes(self) -> Seq<u8> {
        match self {
            OwnedStateKey::AccountKey(address) => account_key_bytes(address),
            OwnedStateKey::StorageKey { address, storage_key } => storage_key_bytes(address, storage_key@),
            OwnedStateKey::CodeKey(address) => code_key_bytes(address),
        }
    }

    /// The storage bytes of this key: the address, then "store" and the slot
    /// key for a storage slot, or "code" for code.
    pub fn into_bytes(self) -> (r: Vec<u8>)
        ensures
            r@ == self.key_bytes(),
    {
        let store: [u8; 5] = [0x73, 0x74, 0x6f, 0x72, 0x65];
        let code: [u8; 4] = [0x63, 0x6f, 0x64, 0x65];
        match self {
            OwnedStateKey::AccountKey(address) => {
                let mut v: Vec<u8> = Vec::new();
                append_bytes(&mut v, address.address.0.as_slice());
                assert(v@ =~= account_key_bytes(address));
                v
            },
            OwnedStateKey::StorageKey { address, storage_key } => {
                let mut v: Vec<u8> = Vec::new();
                append_bytes(&mut v, address.address.0.as_slice());
                append_bytes(&mut v, store.as_slice());
                append_bytes(&mut v, storage_key.as_slice());
                assert(store@ =~= store_prefix());
                assert(v@ =~= storage_key_bytes(address, storage_key@));
                v
            },
            OwnedStateKey::CodeKey(address) => {
                let mut v: Vec<u8> = Vec::new();
                append_bytes(&mut v, address.address.0.as_slice());
                append_bytes(&mut v, code.as_slice());
                assert(code@ =~= code_prefix());
                assert(v@ =~= code_key_bytes(address));
                v
            },
        }
    }
}

} // verus!
