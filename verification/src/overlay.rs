//! Accounts in the state cache: the overlay of one account over the
//! database, and the cache entry that holds it.
use crate::account::{spec_decode_account_fields, Account, CodeInfo, IsDefault, StorageValue};
use crate::codec::RlpError;
use crate::assoc::{bytes_clone, AssocMap};
use crate::codec::{decodes_to_u256, keccak, keccak_empty, keccak_empty_bytes, spec_keccak, spec_rlp_encode_account, spec_rlp_encode_code, spec_rlp_encode_u256};
use crate::internal_common::ComputeEpochDebugRecord;
use crate::statedb::{spec_load_code, spec_load_storage, spec_put, AccountFields, DbError, DbResult, StateDb};
use crate::storage::StorageTrait;
use crate::storage_key::{account_key_bytes, code_key_bytes, storage_key_bytes, StateKey};
use crate::types::{u256_modulus, AddressWithSpace, Space, H256, U256};
use crate::uint::{is_builtin_address, spec_is_builtin_address, u256_add, u256_is_zero, u256_sub};
use vstd::prelude::*;

verus! {

/// How the storage of a contract is laid out.
#[derive(Clone, Copy, Debug, PartialEq, Eq, Structural)]
pub enum StorageLayout {
    Regular(u8),
}

/// The regular storage layout, version 0.
pub fn storage_layout_regular_v0() -> (r: StorageLayout)
    ensures
        r == StorageLayout::Regular(0),
{
    StorageLayout::Regular(0)
}

/// What an overlay account holds, as mathematical values.
pub struct OverlayView {
    pub address: AddressWithSpace,
    pub balance: nat,
    pub nonce: nat,
    /// Storage values written and not yet committed.
    pub storage: Map<Seq<u8>, nat>,
    pub layout: Option<StorageLayout>,
    pub code_hash: Seq<u8>,
    /// The code, where it has been loaded or initialized.
    pub code: Option<Seq<u8>>,
    pub newly_created: bool,
    pub invalidated: bool,
}

impl OverlayView {
    pub open spec fn is_null(self) -> bool {
        self.balance == 0 && self.nonce == 0 && self.code_hash == keccak_empty_bytes()
    }

    pub open spec fn is_basic(self) -> bool {
        self.code_hash == keccak_empty_bytes()
    }

    pub open spec fn is_contract(self) -> bool {
        self.code_hash != keccak_empty_bytes() || self.newly_created
    }

    pub open spec fn is_code_loaded(self) -> bool {
        self.code is Some || self.code_hash == keccak_empty_bytes()
    }

    /// Storage reads need not consult the database.
    pub open spec fn fresh_storage(self) -> bool {
        (self.newly_created && !spec_is_builtin_address(self.address.address@)) || self.invalidated
    }

    /// Removed in this state and not written since.
    pub open spec fn removed_without_update(self) -> bool {
        self.invalidated && self.is_null()
    }

    /// The value of storage slot `key` where the database holds `db`.
    pub open spec fn storage_at(self, db: Map<Seq<u8>, Seq<u8>>, key: Seq<u8>) -> DbResult<nat> {
        if self.storage.contains_key(key) {
            Ok(self.storage[key])
        } else if self.fresh_storage() {
            Ok(0)
        } else {
            match spec_load_storage(db, self.address, key) {
                Ok(None) => Ok(0),
                Ok(Some(v)) => Ok(v),
                Err(e) => Err(e),
            }
        }
    }

    /// The code of the account, loaded from `db` where it is not yet.
    pub open spec fn loaded_code(self, db: Map<Seq<u8>, Seq<u8>>) -> DbResult<Option<Seq<u8>>> {
        if self.code is Some {
            Ok(self.code)
        } else if self.code_hash == keccak_empty_bytes() {
            Ok(None)
        } else {
            match spec_load_code(db, self.address) {
                Ok(Some(c)) => Ok(Some(c)),
                Ok(None) => Err(DbError::IncompleteDatabase(self.address.address)),
                Err(e) => Err(e),
            }
        }
    }
}

/// A basic account that did not exist before.
pub open spec fn basic_view(address: AddressWithSpace, balance: nat, nonce: nat) -> OverlayView {
    OverlayView {
        address,
        balance,
        nonce,
        storage: Map::empty(),
        layout: None,
        code_hash: keccak_empty_bytes(),
        code: None,
        newly_created: false,
        invalidated: false,
    }
}

/// An account as loaded from its stored record.
pub open spec fn loaded_view(address: AddressWithSpace, f: AccountFields) -> OverlayView {
    OverlayView {
        address,
        balance: f.0,
        nonce: f.1,
        storage: Map::empty(),
        layout: None,
        code_hash: f.2,
        code: None,
        newly_created: false,
        invalidated: false,
    }
}

/// A removed account.
pub open spec fn removed_view(address: AddressWithSpace) -> OverlayView {
    OverlayView {
        address,
        balance: 0,
        nonce: 0,
        storage: Map::empty(),
        layout: None,
        code_hash: keccak_empty_bytes(),
        code: None,
        newly_created: false,
        invalidated: true,
    }
}

/// A newly created contract.
pub open spec fn contract_view(
    address: AddressWithSpace,
    balance: nat,
    nonce: nat,
    invalidated: bool,
    layout: Option<StorageLayout>,
) -> OverlayView {
    OverlayView {
        address,
        balance,
        nonce,
        storage: Map::empty(),
        layout,
        code_hash: keccak_empty_bytes(),
        code: None,
        newly_created: true,
        invalidated,
    }
}

/// Applies storage writes in order: a zero value is deleted, another one
/// stored.
pub open spec fn apply_storage_writes(
    db: Map<Seq<u8>, Seq<u8>>,
    a: AddressWithSpace,
    writes: Seq<(Seq<u8>, nat)>,
) -> Map<Seq<u8>, Seq<u8>>
    decreases writes.len(),
{
    if writes.len() == 0 {
        db
    } else {
        let last = writes.last();
        spec_put(
            apply_storage_writes(db, a, writes.drop_last()),
            storage_key_bytes(a, last.0),
            last.1 == 0,
            spec_rlp_encode_u256(last.1),
        )
    }
}

/// `writes` are the written slots of `v`, each once, with its value.
pub open spec fn writes_match(v: OverlayView, writes: Seq<(Seq<u8>, nat)>) -> bool {
    &&& forall|i: int, j: int| 0 <= i < j < writes.len() ==> #[trigger] writes[i].0 != #[trigger] writes[j].0
    &&& forall|k: Seq<u8>| #[trigger] v.storage.contains_key(k) ==> exists|j: int|
        0 <= j < writes.len() && #[trigger] writes[j].0 == k
    &&& forall|j: int| 0 <= j < writes.len() ==> v.storage.contains_key(#[trigger] writes[j].0)
        && v.storage[writes[j].0] == writes[j].1
}

/// Each non-zero value of `writes` reads back from its encoding.
pub open spec fn writes_encode(writes: Seq<(Seq<u8>, nat)>) -> bool {
    forall|j: int| 0 <= j < writes.len() && writes[j].1 != 0 ==> #[trigger] decodes_to_u256(
        spec_rlp_encode_u256(writes[j].1),
        writes[j].1,
    )
}

/// The database after an account is committed under `address`: its storage
/// is first recycled where it was invalidated, its storage writes and code
/// are written, then its record.
pub open spec fn spec_commit_account(
    db: Map<Seq<u8>, Seq<u8>>,
    v: OverlayView,
    writes: Seq<(Seq<u8>, nat)>,
    address: AddressWithSpace,
) -> Map<Seq<u8>, Seq<u8>> {
    let db1 = if v.invalidated { db.remove(account_key_bytes(v.address)) } else { db };
    let db2 = apply_storage_writes(db1, v.address, writes);
    let db3 = match v.code {
        Some(c) => spec_put(db2, code_key_bytes(v.address), c.len() == 0, spec_rlp_encode_code(c)),
        None => db2,
    };
    spec_put(db3, account_key_bytes(address), v.is_null(), spec_rlp_encode_account(v.balance, v.nonce, v.code_hash))
}

/// Single account in the system.
/// Keeps track of changes to the code and storage.
/// The changes are applied in `commit`.
pub struct OverlayAccount {
    address: AddressWithSpace,
    // Balance of the account.
    balance: U256,
    // Nonce of the account,
    nonce: U256,
    // This is a write cache for changing storage value in db. It will be
    // written to db when committing overlay account.
    storage_value_write_cache: AssocMap<Vec<u8>, U256>,
    // Storage layout change.
    storage_layout_change: Option<StorageLayout>,
    // Code hash of the account.
    code_hash: H256,
    // When code_hash isn't KECCAK_EMPTY, the code has been initialized for
    // the account. The code field can be None, which means that the code
    // has not been loaded from storage. When code_hash is KECCAK_EMPTY, this
    // field always None.
    code: Option<CodeInfo>,
    // This flag indicates whether it is a newly created contract. For such
    // account, we will skip looking data from the disk. This flag will stay
    // true until the contract being committed and cleared from the memory.
    is_newly_created_contract: bool,
    invalidated_storage: bool,
}

fn clone_code(code: &Option<CodeInfo>) -> (r: Option<CodeInfo>)
    ensures
        match (code, r) {
            (Some(a), Some(b)) => a.code@ == b.code@,
            (None, None) => true,
            _ => false,
        },
{
    match code {
        Some(c) => Some(CodeInfo { code: bytes_clone(c.code.as_slice()) }),
        None => None,
    }
}

impl OverlayAccount {
    #[verifier::type_invariant]
    spec fn inv(self) -> bool {
        self.storage_value_write_cache.wf()
    }

    pub closed spec fn view(&self) -> OverlayView {
        OverlayView {
            address: self.address,
            balance: self.balance@,
            nonce: self.nonce@,
            storage: self.storage_value_write_cache.view().map_values(|v: U256| v@),
            layout: self.storage_layout_change,
            code_hash: self.code_hash@,
            code: match self.code {
                Some(c) => Some(c.code@),
                None => None,
            },
            newly_created: self.is_newly_created_contract,
            invalidated: self.invalidated_storage,
        }
    }

    /// The storage writes in the order in which they are committed.
    pub closed spec fn storage_writes(&self) -> Seq<(Seq<u8>, nat)> {
        self.storage_value_write_cache.entry_seq().map_values(|e: (Vec<u8>, U256)| (e.0@, e.1@))
    }

    proof fn lemma_storage_writes(&self)
        requires
            self.storage_value_write_cache.wf(),
        ensures
            writes_match(self.view(), self.storage_writes()),
    {
        let c = self.storage_value_write_cache;
        let w = self.storage_writes();
        assert forall|i: int, j: int| 0 <= i < j < w.len() implies #[trigger] w[i].0 != #[trigger] w[j].0 by {
            assert(w[i].0 == c.key_at(i));
            assert(w[j].0 == c.key_at(j));
        }
        assert forall|k: Seq<u8>| #[trigger] self.view().storage.contains_key(k) implies exists|j: int|
            0 <= j < w.len() && #[trigger] w[j].0 == k by {
            assert(c.view().contains_key(k));
            let j = choose|j: int| 0 <= j < c.len_spec() && c.key_at(j) == k;
            assert(w[j].0 == c.key_at(j));
        }
        assert forall|j: int| 0 <= j < w.len() implies self.view().storage.contains_key(#[trigger] w[j].0)
            && self.view().storage[w[j].0] == w[j].1 by {
            c.lemma_index(j);
            assert(w[j].0 == c.key_at(j));
            assert(w[j].1 == c.value_at(j)@);
        }
    }

    /// Balance and nonce fit in 256 bits.
    pub proof fn lemma_bounded(&self)
        ensures
            self.view().balance < u256_modulus(),
            self.view().nonce < u256_modulus(),
    {
        self.balance.lemma_bounds();
        self.nonce.lemma_bounds();
    }

    /// Create an OverlayAccount from loaded account.
    pub fn from_loaded(address: &AddressWithSpace, account: Account) -> (r: Self)
        ensures
            r.view() == loaded_view(*address, (account.balance@, account.nonce@, account.code_hash@)),
    {
        let r = OverlayAccount {
            address: *address,
            balance: account.balance,
            nonce: account.nonce,
            storage_value_write_cache: AssocMap::new(),
            storage_layout_change: None,
            code_hash: account.code_hash,
            code: None,
            is_newly_created_contract: false,
            invalidated_storage: false,
        };
        assert(r.view().storage =~= Map::<Seq<u8>, nat>::empty());
        r
    }

    /// Create an OverlayAccount of basic account when the account doesn't exist
    /// before.
    pub fn new_basic(address: &AddressWithSpace, balance: U256, nonce: U256) -> (r: Self)
        ensures
            r.view() == basic_view(*address, balance@, nonce@),
    {
        let r = OverlayAccount {
            address: *address,
            balance,
            nonce,
            storage_value_write_cache: AssocMap::new(),
            storage_layout_change: None,
            code_hash: keccak_empty(),
            code: None,
            is_newly_created_contract: false,
            invalidated_storage: false,
        };
        assert(r.view().storage =~= Map::<Seq<u8>, nat>::empty());
        r
    }

    /// Create an OverlayAccount of an account removed in this state.
    pub fn new_removed(address: &AddressWithSpace) -> (r: Self)
        ensures
            r.view() == removed_view(*address),
    {
        let r = OverlayAccount {
            address: *address,
            balance: U256::zero(),
            nonce: U256::zero(),
            storage_value_write_cache: AssocMap::new(),
            storage_layout_change: None,
            code_hash: keccak_empty(),
            code: None,
            is_newly_created_contract: false,
            invalidated_storage: true,
        };
        assert(r.view().storage =~= Map::<Seq<u8>, nat>::empty());
        r
    }

    /// Create an OverlayAccount of contract account when the account doesn't
    /// exist before.
    pub fn new_contract(
        address: &AddressWithSpace,
        balance: U256,
        nonce: U256,
        invalidated_storage: bool,
        storage_layout: Option<StorageLayout>,
    ) -> (r: Self)
        ensures
            r.view() == contract_view(*address, balance@, nonce@, invalidated_storage, storage_layout),
    {
        let r = OverlayAccount {
            address: *address,
            balance,
            nonce,
            storage_value_write_cache: AssocMap::new(),
            storage_layout_change: storage_layout,
            code_hash: keccak_empty(),
            code: None,
            is_newly_created_contract: true,
            invalidated_storage,
        };
        assert(r.view().storage =~= Map::<Seq<u8>, nat>::empty());
        r
    }

    /// The account as the state database stores it.
    pub fn as_account(&self) -> (r: Account)
        ensures
            r.spec_address() == self.view().address,
            r.balance@ == self.view().balance,
            r.nonce@ == self.view().nonce,
            r.code_hash@ == self.view().code_hash,
            r.spec_is_default() == self.view().is_null(),
    {
        let mut account = Account::new_empty(self.address());
        account.balance = self.balance;
        account.nonce = self.nonce;
        account.code_hash = self.code_hash;
        account.set_address(self.address);
        account
    }

    pub fn is_contract(&self) -> (r: bool)
        ensures
            r == self.view().is_contract(),
    {
        !self.code_hash.same(&keccak_empty()) || self.is_newly_created_contract
    }

    fn fresh_storage(&self) -> (r: bool)
        ensures
            r == self.view().fresh_storage(),
    {
        let builtin_address = is_builtin_address(&self.address.address);
        (self.is_newly_created_contract && !builtin_address) || self.invalidated_storage
    }

    pub fn removed_without_update(&self) -> (r: bool)
        ensures
            r == self.view().removed_without_update(),
    {
        self.invalidated_storage && self.as_account().is_default()
    }

    pub fn invalidated_storage(&self) -> (r: bool)
        ensures
            r == self.view().invalidated,
    {
        self.invalidated_storage
    }

    pub fn address(&self) -> (r: &AddressWithSpace)
        ensures
            *r == self.view().address,
    {
        &self.address
    }

    pub fn balance(&self) -> (r: &U256)
        ensures
            r@ == self.view().balance,
    {
        &self.balance
    }

    pub fn is_newly_created_contract(&self) -> (r: bool)
        ensures
            r == self.view().newly_created,
    {
        self.is_newly_created_contract
    }

    pub fn nonce(&self) -> (r: &U256)
        ensures
            r@ == self.view().nonce,
    {
        &self.nonce
    }

    pub fn code_hash(&self) -> (r: H256)
        ensures
            r@ == self.view().code_hash,
    {
        self.code_hash
    }

    pub fn is_code_loaded(&self) -> (r: bool)
        ensures
            r == self.view().is_code_loaded(),
    {
        self.code.is_some() || self.code_hash.same(&keccak_empty())
    }

    pub fn is_null(&self) -> (r: bool)
        ensures
            r == self.view().is_null(),
    {
        u256_is_zero(self.balance) && u256_is_zero(self.nonce) && self.code_hash.same(&keccak_empty())
    }

    pub fn is_basic(&self) -> (r: bool)
        ensures
            r == self.view().is_basic(),
    {
        self.code_hash.same(&keccak_empty())
    }

    /// The size of the code, where it is loaded.
    pub fn code_size(&self) -> (r: Option<usize>)
        ensures
            match (r, self.view().code) {
                (Some(n), Some(c)) => n == c.len(),
                (None, None) => true,
                _ => false,
            },
    {
        match &self.code {
            Some(c) => Some(c.code_size()),
            None => None,
        }
    }

    /// The code, where it is loaded.
    pub fn code(&self) -> (r: Option<Vec<u8>>)
        ensures
            match (r, self.view().code) {
                (Some(a), Some(c)) => a@ == c,
                (None, None) => true,
                _ => false,
            },
    {
        match &self.code {
            Some(c) => Some(bytes_clone(c.code.as_slice())),
            None => None,
        }
    }

    pub fn set_nonce(&mut self, nonce: &U256)
        ensures
            final(self).view() == (OverlayView { nonce: nonce@, ..old(self).view() }),
    {
        proof {
            use_type_invariant(&*self);
        }
        self.nonce = *nonce;
    }

    pub fn inc_nonce(&mut self)
        requires
            old(self).view().nonce + 1 < u256_modulus(),
        ensures
            final(self).view() == (OverlayView { nonce: old(self).view().nonce + 1, ..old(self).view() }),
    {
        proof {
            use_type_invariant(&*self);
        }
        self.nonce = u256_add(self.nonce, U256::one());
    }

    pub fn add_balance(&mut self, by: &U256)
        requires
            old(self).view().balance + by@ < u256_modulus(),
        ensures
            final(self).view() == (OverlayView { balance: old(self).view().balance + by@, ..old(self).view() }),
    {
        proof {
            use_type_invariant(&*self);
        }
        self.balance = u256_add(self.balance, *by);
    }

    pub fn sub_balance(&mut self, by: &U256)
        requires
            old(self).view().balance >= by@,
        ensures
            final(self).view() == (OverlayView { balance: (old(self).view().balance - by@) as nat, ..old(self).view() }),
    {
        proof {
            use_type_invariant(&*self);
        }
        self.balance = u256_sub(self.balance, *by);
    }

    /// Loads the code from `db` where it is not loaded; tells whether the
    /// code is loaded afterwards.
    pub fn cache_code<S: StorageTrait>(&mut self, db: &StateDb<S>) -> (r: DbResult<bool>)
        ensures
            db.infallible() ==> !(r matches Err(DbError::Storage(_))),
            old(self).view().is_code_loaded() ==> r == Ok::<bool, DbError>(true) && final(self).view() == old(self).view(),
            match r {
                Ok(true) => final(self).view() == (OverlayView {
                    code: match old(self).view().loaded_code(db.db_view()) {
                        Ok(c) => c,
                        Err(_) => None,
                    },
                    ..old(self).view()
                }) && old(self).view().loaded_code(db.db_view()) is Ok,
                Ok(false) => final(self).view() == old(self).view()
                    && old(self).view().loaded_code(db.db_view()) == Err::<Option<Seq<u8>>, DbError>(
                    DbError::IncompleteDatabase(old(self).view().address.address),
                ),
                Err(DbError::Storage(_)) => final(self).view() == old(self).view(),
                Err(e) => final(self).view() == old(self).view()
                    && old(self).view().loaded_code(db.db_view()) == Err::<Option<Seq<u8>>, DbError>(e),
            },
    {
        proof {
            use_type_invariant(&*self);
        }
        if self.is_code_loaded() {
            return Ok(true);
        }
        let code = match db.get_code(&self.address, &self.code_hash) {
            Ok(c) => c,
            Err(e) => {
                return Err(e);
            },
        };
        self.code = code;
        match &self.code {
            Some(_) => Ok(true),
            None => Ok(false),
        }
    }

    /// A copy of the account without its storage changes.
    pub fn clone_basic(&self) -> (r: Self)
        ensures
            r.view() == (OverlayView { storage: Map::empty(), layout: None, ..self.view() }),
    {
        let r = OverlayAccount {
            address: self.address,
            balance: self.balance,
            nonce: self.nonce,
            storage_value_write_cache: AssocMap::new(),
            storage_layout_change: None,
            code_hash: self.code_hash,
            code: clone_code(&self.code),
            is_newly_created_contract: self.is_newly_created_contract,
            invalidated_storage: self.invalidated_storage,
        };
        assert(r.view().storage =~= Map::<Seq<u8>, nat>::empty());
        r
    }

    /// A copy of the account with its storage changes.
    pub fn clone_dirty(&self) -> (r: Self)
        ensures
            r.view() == self.view(),
    {
        proof {
            use_type_invariant(self);
        }
        let r = OverlayAccount {
            address: self.address,
            balance: self.balance,
            nonce: self.nonce,
            storage_value_write_cache: self.storage_value_write_cache.copy_map(),
            storage_layout_change: self.storage_layout_change,
            code_hash: self.code_hash,
            code: clone_code(&self.code),
            is_newly_created_contract: self.is_newly_created_contract,
            invalidated_storage: self.invalidated_storage,
        };
        assert(r.view().storage =~= self.view().storage);
        r
    }

    pub fn set_storage(&mut self, key: Vec<u8>, value: U256)
        ensures
            final(self).view() == (OverlayView {
                storage: old(self).view().storage.insert(key@, value@),
                ..old(self).view()
            }),
    {
        proof {
            use_type_invariant(&*self);
        }
        let ghost k = key@;
        let mut cache = AssocMap::new();
        std::mem::swap(&mut cache, &mut self.storage_value_write_cache);
        cache.insert(key, value);
        self.storage_value_write_cache = cache;
        assert(self.view().storage =~= old(self).view().storage.insert(k, value@));
    }

    /// The storage layout to write, where it was changed.
    pub fn storage_layout_change(&self) -> (r: Option<StorageLayout>)
        ensures
            r == self.view().layout,
    {
        self.storage_layout_change
    }

    /// Changes the storage layout of the account.
    pub fn set_storage_layout(&mut self, layout: StorageLayout)
        ensures
            final(self).view() == (OverlayView { layout: Some(layout), ..old(self).view() }),
    {
        proof {
            use_type_invariant(&*self);
        }
        self.storage_layout_change = Some(layout);
    }

    /// The value written to storage slot `key`, if any.
    pub fn cached_storage_at(&self, key: &[u8]) -> (r: Option<U256>)
        ensures
            match r {
                Some(v) => self.view().storage.contains_key(key@) && v@ == self.view().storage[key@],
                None => !self.view().storage.contains_key(key@),
            },
    {
        proof {
            use_type_invariant(self);
        }
        let k = bytes_clone(key);
        match self.storage_value_write_cache.get(&k) {
            Some(v) => Some(*v),
            None => None,
        }
    }

    /// The value of storage slot `key`: written, or else zero for fresh
    /// storage, or else what the database holds (zero where nothing).
    pub fn storage_at<S: StorageTrait>(&self, db: &StateDb<S>, key: &[u8]) -> (r: DbResult<U256>)
        ensures
            db.infallible() ==> !(r matches Err(DbError::Storage(_))),
            match r {
                Ok(v) => self.view().storage_at(db.db_view(), key@) == Ok::<nat, DbError>(v@),
                Err(DbError::Storage(_)) => true,
                Err(e) => self.view().storage_at(db.db_view(), key@) == Err::<nat, DbError>(e),
            },
    {
        if let Some(value) = self.cached_storage_at(key) {
            return Ok(value);
        }
        if self.fresh_storage() {
            Ok(U256::zero())
        } else {
            match db.get_storage_value(&self.address, key) {
                Ok(Some(value)) => Ok(value.value),
                Ok(None) => Ok(U256::zero()),
                Err(e) => Err(e),
            }
        }
    }

    /// Sets the code of a newly created contract, and its hash.
    pub fn init_code(&mut self, code: Vec<u8>)
        ensures
            final(self).view() == (OverlayView { code_hash: spec_keccak(code@), code: Some(code@), ..old(self).view() }),
    {
        proof {
            use_type_invariant(&*self);
        }
        self.code_hash = keccak(code.as_slice());
        self.code = Some(CodeInfo { code });
    }

    /// Writes the account to `db` under `address`: recycles the storage
    /// where it was invalidated, writes the storage changes and the code,
    /// then the account record. The storage changes are drained. An account
    /// that changes its storage layout cannot be committed: the state
    /// database has no store for layouts.
    pub fn commit<S: StorageTrait>(
        &mut self,
        db: &mut StateDb<S>,
        address: &AddressWithSpace,
        debug_record: Option<&mut ComputeEpochDebugRecord>,
    ) -> (r: DbResult<()>)
        requires
            old(self).view().layout is None,
        ensures
            old(db).infallible() ==> r is Ok,
            final(db).infallible() == old(db).infallible(),
            r is Ok ==> writes_encode(old(self).storage_writes()),
            writes_match(old(self).view(), old(self).storage_writes()),
            r is Ok ==> final(db).db_view() == spec_commit_account(
                old(db).db_view(),
                old(self).view(),
                old(self).storage_writes(),
                *address,
            ),
            final(self).view() == (OverlayView { storage: Map::empty(), ..old(self).view() }),
            r matches Err(e) ==> e is Storage,
            r is Ok && !old(self).view().is_null() ==> spec_decode_account_fields(
                spec_rlp_encode_account(old(self).view().balance, old(self).view().nonce, old(self).view().code_hash),
            ) == Ok::<(nat, nat, Seq<u8>), RlpError>((old(self).view().balance, old(self).view().nonce, old(self).view().code_hash)),
    {
        proof {
            use_type_invariant(&*self);
        }
        let ghost v0 = self.view();
        let ghost writes = self.storage_writes();
        proof {
            self.lemma_storage_writes();
        }
        let ghost db0 = db.db_view();
        let mut cache = AssocMap::new();
        std::mem::swap(&mut cache, &mut self.storage_value_write_cache);
        let entries = cache.take_all();
        assert(self.view().storage =~= Map::<Seq<u8>, nat>::empty());
        let ghost db1 = if v0.invalidated { db0.remove(account_key_bytes(v0.address)) } else { db0 };
        if self.invalidated_storage {
            let res = db.delete(StateKey::new_account_key(&self.address), None);
            if res.is_err() {
                return res;
            }
        }
        assert(db.db_view() == db1);
        let mut i: usize = 0;
        let mut failed: Option<DbError> = None;
        while i < entries.len() && failed.is_none()
            invariant
                0 <= i <= entries@.len(),
                entries@.map_values(|e: (Vec<u8>, U256)| (e.0@, e.1@)) == writes,
                self.view() == (OverlayView { storage: Map::empty(), ..v0 }),
                failed is None ==> db.db_view() == apply_storage_writes(db1, v0.address, writes.take(i as int)),
                failed matches Some(e) ==> e is Storage,
                db.infallible() == old(db).infallible(),
                old(db).infallible() ==> failed is None,
                failed is None ==> forall|j: int| 0 <= j < i && writes[j].1 != 0 ==> #[trigger] decodes_to_u256(
                    spec_rlp_encode_u256(writes[j].1),
                    writes[j].1,
                ),
            decreases entries@.len() - i,
        {
            let k = &entries[i].0;
            let v = entries[i].1;
            assert(writes.take(i + 1).drop_last() =~= writes.take(i as int));
            assert(writes.take(i + 1).last() == writes[i as int]);
            let res = if u256_is_zero(v) {
                db.delete(StateKey::new_storage_key(&self.address, k.as_slice()), None)
            } else {
                db.set_storage_value(&self.address, k.as_slice(), &StorageValue { value: v }, None)
            };
            match res {
                Ok(()) => {
                    assert(writes[i as int].1 == v@);
                    if !u256_is_zero(v) {
                        assert(db.db_view()[storage_key_bytes(self.address, k@)] == spec_rlp_encode_u256(v@));
                        assert(decodes_to_u256(spec_rlp_encode_u256(writes[i as int].1), writes[i as int].1));
                    }
                },
                Err(e) => {
                    failed = Some(e);
                },
            }
            i += 1;
        }
        if let Some(e) = failed {
            return Err(e);
        }
        assert(writes.take(entries@.len() as int) =~= writes);
        if let Some(code_info) = &self.code {
            let res = db.set_code(&self.address, &self.code_hash, code_info, None);
            if res.is_err() {
                return res;
            }
        }
        let account = self.as_account();
        db.set_account(address, &account, debug_record)
    }

    /// Takes every field of `other` but the address.
    pub fn overwrite_with(&mut self, other: OverlayAccount)
        ensures
            final(self).view() == (OverlayView { address: old(self).view().address, ..other.view() }),
    {
        proof {
            use_type_invariant(&other);
            use_type_invariant(&*self);
        }
        self.balance = other.balance;
        self.nonce = other.nonce;
        self.code_hash = other.code_hash;
        self.code = other.code;
        self.storage_value_write_cache = other.storage_value_write_cache;
        self.storage_layout_change = other.storage_layout_change;
        self.is_newly_created_contract = other.is_newly_created_contract;
        self.invalidated_storage = other.invalidated_storage;
    }
}

#[derive(Eq, PartialEq, Clone, Copy, Debug, Structural)]
/// Account modification state. Used to check if the account was
/// Modified in between commits and overall.
pub enum AccountState {
    /// Account was loaded from disk and never modified in this state object.
    CleanFresh,
    /// Account was loaded from the global cache and never modified.
    CleanCached,
    /// Account has been modified and is not committed to the trie yet.
    /// This is set if any of the account data is changed, including
    /// storage and code.
    Dirty,
    /// Account was modified and committed to the trie.
    Committed,
}

/// In-memory copy of the account data. Holds the optional account
/// and the modification status.
/// Account entry can contain existing (`Some`) or non-existing
/// account (`None`)
pub struct AccountEntry {
    /// Account proxy. `None` if account known to be non-existent.
    pub account: Option<OverlayAccount>,
    /// Unmodified account balance.
    pub old_balance: Option<U256>,
    /// Entry state.
    pub state: AccountState,
}

/// The view of an optional account.
pub open spec fn account_view(a: Option<OverlayAccount>) -> Option<OverlayView> {
    match a {
        Some(acc) => Some(acc.view()),
        None => None,
    }
}

impl AccountEntry {
    pub open spec fn account_view(&self) -> Option<OverlayView> {
        account_view(self.account)
    }

    /// Whether the entry holds changes to write back.
    pub fn is_dirty(&self) -> (r: bool)
        ensures
            r == (self.state == AccountState::Dirty),
    {
        self.state == AccountState::Dirty
    }

    /// Takes the account and the state of `other`.
    pub fn overwrite_with(&mut self, other: AccountEntry)
        requires
            match (old(self).account, other.account) {
                (Some(a), Some(b)) => a.view().address == b.view().address,
                _ => true,
            },
        ensures
            final(self).account_view() == other.account_view(),
            final(self).state == other.state,
            final(self).old_balance == old(self).old_balance,
    {
        self.state = other.state;
        match other.account {
            Some(acc) => {
                if self.account.is_some() {
                    let mut ours = self.account.take().unwrap();
                    ours.overwrite_with(acc);
                    self.account = Some(ours);
                } else {
                    self.account = Some(acc);
                }
            },
            None => self.account = None,
        }
    }

    /// Clone dirty data into new `AccountEntry`. This includes
    /// basic account data and modified storage keys.
    pub fn clone_dirty(&self) -> (r: AccountEntry)
        ensures
            r.account_view() == self.account_view(),
            r.old_balance == self.old_balance,
            r.state == self.state,
    {
        AccountEntry {
            old_balance: self.old_balance,
            account: match &self.account {
                Some(acc) => Some(acc.clone_dirty()),
                None => None,
            },
            state: self.state,
        }
    }

    /// An entry whose account was changed.
    pub fn new_dirty(account: Option<OverlayAccount>) -> (r: AccountEntry)
        ensures
            r.account_view() == account_view(account),
            r.state == AccountState::Dirty,
            match (r.old_balance, account) {
                (Some(b), Some(acc)) => b@ == acc.view().balance,
                (None, None) => true,
                _ => false,
            },
    {
        AccountEntry {
            old_balance: match &account {
                Some(acc) => Some(*acc.balance()),
                None => None,
            },
            account,
            state: AccountState::Dirty,
        }
    }

    /// An entry whose account is as the database holds it.
    pub fn new_clean(account: Option<OverlayAccount>) -> (r: AccountEntry)
        ensures
            r.account_view() == account_view(account),
            r.state == AccountState::CleanFresh,
    {
        AccountEntry {
            old_balance: match &account {
                Some(acc) => Some(*acc.balance()),
                None => None,
            },
            account,
            state: AccountState::CleanFresh,
        }
    }
}

} // verus!
