//! Key-value storage backends.
use crate::assoc::{bytes_clone, AssocMap, MapKey};
use crate::storage_key::OwnedStateKey;
use crate::types::EpochId;
use vstd::prelude::*;

verus! {

/// An error reported by a storage backend.
#[derive(Debug, Clone, PartialEq, Eq)]
pub struct StorageError {
    pub message: String,
}

pub type MptKeyValue = (Vec<u8>, Vec<u8>);

/// A key-value store of byte strings.
pub trait StorageTrait {
    /// The contents of the store.
    spec fn storage_view(&self) -> Map<Seq<u8>, Seq<u8>>;

    /// Whether the store never reports an error.
    spec fn infallible(&self) -> bool;

    fn get(&self, key: Vec<u8>) -> (r: Result<Option<Vec<u8>>, StorageError>)
        ensures
            self.infallible() ==> r is Ok,
            r matches Ok(v) ==> match v {
                Some(b) => self.storage_view().contains_key(key@) && b@ == self.storage_view()[key@],
                None => !self.storage_view().contains_key(key@),
            },
    ;

    fn set(&mut self, access_key: Vec<u8>, value: Vec<u8>) -> (r: Result<(), StorageError>)
        ensures
            old(self).infallible() ==> r is Ok,
            final(self).infallible() == old(self).infallible(),
            r is Ok ==> final(self).storage_view() == old(self).storage_view().insert(
                access_key@,
                value@,
            ),
            r is Err ==> final(self).storage_view() == old(self).storage_view(),
    ;

    fn delete(&mut self, access_key: Vec<u8>) -> (r: Result<(), StorageError>)
        ensures
            old(self).infallible() ==> r is Ok,
            final(self).infallible() == old(self).infallible(),
            r is Ok ==> final(self).storage_view() == old(self).storage_view().remove(access_key@),
            r is Err ==> final(self).storage_view() == old(self).storage_view(),
    ;

    fn commit(&mut self, epoch: EpochId) -> (r: Result<(), StorageError>)
        ensures
            old(self).infallible() ==> r is Ok,
            final(self).infallible() == old(self).infallible(),
            final(self).storage_view() == old(self).storage_view(),
    ;
}

/// A storage backend held in memory.
pub struct InMemoryDb {
    inner: AssocMap<Vec<u8>, Vec<u8>>,
}

impl InMemoryDb {
    #[verifier::type_invariant]
    spec fn inv(self) -> bool {
        self.inner.wf()
    }

    /// An empty store.
    pub fn new() -> (r: Self)
        ensures
            r.storage_view() == Map::<Seq<u8>, Seq<u8>>::empty(),
    {
        let r = InMemoryDb { inner: AssocMap::new() };
        assert(r.storage_view() =~= Map::<Seq<u8>, Seq<u8>>::empty());
        r
    }
}

impl StorageTrait for InMemoryDb {
    closed spec fn storage_view(&self) -> Map<Seq<u8>, Seq<u8>> {
        self.inner.view().map_values(|v: Vec<u8>| v@)
    }

    /// Memory never fails.
    open spec fn infallible(&self) -> bool {
        true
    }

    fn get(&self, key: Vec<u8>) -> (r: Result<Option<Vec<u8>>, StorageError>)
        ensures
            r is Ok,
    {
        proof {
            use_type_invariant(self);
        }
        match self.inner.get(&key) {
            Some(v) => Ok(Some(bytes_clone(v.as_slice()))),
            None => Ok(None),
        }
    }

    fn set(&mut self, access_key: Vec<u8>, value: Vec<u8>) -> (r: Result<(), StorageError>)
        ensures
            r is Ok,
    {
        proof {
            use_type_invariant(&*self);
        }
        let mut inner = AssocMap::new();
        std::mem::swap(&mut inner, &mut self.inner);
        let ghost v = value@;
        let ghost k = access_key@;
        inner.insert(access_key, value);
        self.inner = inner;
        assert(self.storage_view() =~= old(self).storage_view().insert(k, v));
        Ok(())
    }

    fn delete(&mut self, access_key: Vec<u8>) -> (r: Result<(), StorageError>)
        ensures
            r is Ok,
    {
        proof {
            use_type_invariant(&*self);
        }
        let mut inner = AssocMap::new();
        std::mem::swap(&mut inner, &mut self.inner);
        inner.remove(&access_key);
        self.inner = inner;
        assert(self.storage_view() =~= old(self).storage_view().remove(access_key@));
        Ok(())
    }

    fn commit(&mut self, _epoch: EpochId) -> (r: Result<(), StorageError>)
        ensures
            r is Ok,
    {
        Ok(())
    }
}

/// A storage backend addressed by state keys, which it turns into bytes.
pub struct StorageKeyWrapper<T> {
    pub inner: T,
}

impl<T: StorageTrait> StorageKeyWrapper<T> {
    /// The bytes stored under `key`, if any.
    pub fn get(&self, key: OwnedStateKey) -> (r: Result<Option<Vec<u8>>, StorageError>)
        ensures
            self.inner.infallible() ==> r is Ok,
            r matches Ok(v) ==> match v {
                Some(b) => self.inner.storage_view().contains_key(key.key_bytes()) && b@
                    == self.inner.storage_view()[key.key_bytes()],
                None => !self.inner.storage_view().contains_key(key.key_bytes()),
            },
    {
        self.inner.get(key.into_bytes())
    }

    /// Stores `value` under `access_key`.
    pub fn set(&mut self, access_key: OwnedStateKey, value: Vec<u8>) -> (r: Result<(), StorageError>)
        ensures
            old(self).inner.infallible() ==> r is Ok,
            final(self).inner.infallible() == old(self).inner.infallible(),
            r is Ok ==> final(self).inner.storage_view() == old(self).inner.storage_view().insert(
                access_key.key_bytes(),
                value@,
            ),
            r is Err ==> final(self).inner.storage_view() == old(self).inner.storage_view(),
    {
        self.inner.set(access_key.into_bytes(), value)
    }

    /// Deletes what is stored under `access_key`.
    pub fn delete(&mut self, access_key: OwnedStateKey) -> (r: Result<(), StorageError>)
        ensures
            old(self).inner.infallible() ==> r is Ok,
            final(self).inner.infallible() == old(self).inner.infallible(),
            r is Ok ==> final(self).inner.storage_view() == old(self).inner.storage_view().remove(
                access_key.key_bytes(),
            ),
            r is Err ==> final(self).inner.storage_view() == old(self).inner.storage_view(),
    {
        self.inner.delete(access_key.into_bytes())
    }

    /// Commits the store under `epoch`.
    pub fn commit(&mut self, epoch: EpochId) -> (r: Result<(), StorageError>)
        ensures
            old(self).inner.infallible() ==> r is Ok,
            final(self).inner.infallible() == old(self).inner.infallible(),
            final(self).inner.storage_view() == old(self).inner.storage_view(),
    {
        self.inner.commit(epoch)
    }
}

/// Whether an access may write.
pub trait AccessMode {
    fn is_read_only() -> bool;
}

/// Read-only access.
pub struct Read {}

/// Read and write access.
pub struct Write {}

impl AccessMode for Read {
    fn is_read_only() -> (r: bool)
        ensures
            r,
    {
        return true;
    }
}

impl AccessMode for Write {
    fn is_read_only() -> (r: bool)
        ensures
            !r,
    {
        return false;
    }
}

} // verus!
