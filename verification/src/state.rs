//! The world state: a cache of accounts over the state database, with
//! nested checkpoints that can be discarded or reverted.
use crate::account::{Account, IsDefault};
use crate::assoc::AssocMap;
use crate::codec::keccak_empty;
use crate::internal_common::ComputeEpochDebugRecord;
use crate::overlay::{
    spec_commit_account, writes_encode, writes_match,
    account_view, basic_view, loaded_view, AccountEntry, AccountState, OverlayAccount, OverlayView,
    StorageLayout,
};
use crate::statedb::{AccountFields, spec_load_account, spec_load_total_issued, spec_put, total_tokens_key_bytes, DbError, DbResult, StateDb};
use crate::codec::{decodes_to_u256, spec_rlp_encode_account, spec_rlp_encode_u256};
use crate::account::spec_decode_account_fields;
use crate::storage_key::{account_key_bytes, storage_key_bytes, StateKey};
use crate::types::{Address, EpochId, Space};
use crate::parameters::{internal_contract_bytes, system_storage_address};
use crate::storage::StorageTrait;
use crate::types::{u256_modulus, AddressWithSpace, H256, U256};
use vstd::prelude::*;

verus! {

/// What of an account must be loaded before it is used.
#[derive(Copy, Clone)]
pub enum RequireCache {
    Nothing,
    Code,
}

#[derive(Copy, Clone, Debug)]
struct WorldStatistics {
    // This is the total number of tokens issued.
    total_issued_tokens: U256,
}

/// What the database holds for an account, as an overlay account.
pub open spec fn loaded_account(db: Map<Seq<u8>, Seq<u8>>, a: AddressWithSpace) -> DbResult<Option<OverlayView>> {
    match spec_load_account(db, a) {
        Ok(None) => Ok(None),
        Ok(Some(f)) => Ok(Some(loaded_view(a, f))),
        Err(e) => Err(e),
    }
}

/// A clean entry holds what the database holds.
pub open spec fn entry_consistent(e: AccountEntry, db: Map<Seq<u8>, Seq<u8>>, a: AddressWithSpace) -> bool {
    e.state != AccountState::Dirty ==> Ok::<Option<OverlayView>, DbError>(e.account_view()) == loaded_account(db, a)
}

/// The account of an entry belongs to the entry's address.
pub open spec fn entry_addressed(e: AccountEntry, a: AddressWithSpace) -> bool {
    e.account matches Some(acc) ==> acc.view().address == a
}

/// What a checkpoint record stands for: the entry it saved, or, where none
/// was cached, what the database holds.
pub open spec fn record_effective(rec: Option<AccountEntry>, db: Map<Seq<u8>, Seq<u8>>, a: AddressWithSpace) -> DbResult<Option<OverlayView>> {
    match rec {
        Some(e) => Ok(e.account_view()),
        None => loaded_account(db, a),
    }
}

/// An account as seen after loading what `require` asks for.
pub open spec fn with_required(
    acc: DbResult<Option<OverlayView>>,
    db: Map<Seq<u8>, Seq<u8>>,
    require: RequireCache,
) -> DbResult<Option<OverlayView>> {
    match acc {
        Err(e) => Err(e),
        Ok(None) => Ok(None),
        Ok(Some(v)) => match require {
            RequireCache::Nothing => Ok(Some(v)),
            RequireCache::Code => match v.loaded_code(db) {
                Ok(c) => Ok(Some(OverlayView { code: c, ..v })),
                Err(e) => Err(e),
            },
        },
    }
}

/// The outcome of a database read: equal to `expected`, except that the
/// storage backend may fail.
pub open spec fn read_matches<T>(r: DbResult<T>, expected: DbResult<T>) -> bool {
    match r {
        Ok(v) => expected == Ok::<T, DbError>(v),
        Err(DbError::Storage(_)) => true,
        Err(e) => expected == Err::<T, DbError>(e),
    }
}

pub type Snapshot = spec_fn(AddressWithSpace) -> DbResult<Option<OverlayView>>;

/// The world state: the accounts changed since the last commit, kept above
/// the state database, with checkpoints to revert to.
pub struct State<S> {
    db: StateDb<S>,
    // Each element is an Ok(Account) for updated account, or
    // Err(AddressWithSpace) for deleted account.
    accounts_to_notify: Vec<Result<Account, AddressWithSpace>>,
    // Contains the changes to the states and some unchanged state entries.
    cache: AssocMap<AddressWithSpace, AccountEntry>,
    world_statistics: WorldStatistics,
    // Checkpoint to the changes.
    world_statistics_checkpoints: Vec<WorldStatistics>,
    checkpoints: Vec<AssocMap<AddressWithSpace, Option<AccountEntry>>>,
    // What every account was when each checkpoint was made.
    snapshots: Ghost<Seq<Snapshot>>,
}

impl<S: StorageTrait> State<S> {
    /// The contents of the storage backend.
    pub closed spec fn db_view(&self) -> Map<Seq<u8>, Seq<u8>> {
        self.db.db_view()
    }

    /// The account at `a` as this state sees it: the cached entry where
    /// there is one, else what the database holds.
    pub closed spec fn effective(&self, a: AddressWithSpace) -> DbResult<Option<OverlayView>> {
        if self.cache.view().contains_key(a) {
            Ok(self.cache.view()[a].account_view())
        } else {
            loaded_account(self.db.db_view(), a)
        }
    }

    pub closed spec fn total_issued(&self) -> nat {
        self.world_statistics.total_issued_tokens@
    }

    /// Whether the storage backend under the state never reports an error.
    pub closed spec fn infallible(&self) -> bool {
        self.db.infallible()
    }

    pub closed spec fn checkpoint_count(&self) -> nat {
        self.checkpoints@.len()
    }

    /// The accounts as they were when checkpoint `i` was made.
    pub closed spec fn snapshot(&self, i: int) -> Snapshot {
        self.snapshots@[i]
    }

    /// The total of issued tokens when checkpoint `i` was made.
    pub closed spec fn snapshot_total_issued(&self, i: int) -> nat {
        self.world_statistics_checkpoints@[i].total_issued_tokens@
    }

    /// The cache entry at `a`, as a view.
    pub closed spec fn cached(&self, a: AddressWithSpace) -> Option<Option<OverlayView>> {
        if self.cache.view().contains_key(a) {
            Some(self.cache.view()[a].account_view())
        } else {
            None
        }
    }

    pub closed spec fn wf(&self) -> bool {
        &&& self.cache.wf()
        &&& forall|a: AddressWithSpace| #[trigger] self.cache.view().contains_key(a) ==> entry_addressed(self.cache.view()[a], a)
        &&& self.checkpoints@.len() == self.world_statistics_checkpoints@.len()
        &&& self.checkpoints@.len() == self.snapshots@.len()
        &&& forall|i: int| 0 <= i < self.checkpoints@.len() ==> #[trigger] self.cp_wf(i)
    }

    closed spec fn cp_wf(&self, i: int) -> bool {
        let cp = self.checkpoints@[i];
        &&& cp.wf()
        &&& forall|a: AddressWithSpace| #[trigger] cp.view().contains_key(a) ==> (cp.view()[a] matches Some(e) ==> entry_addressed(e, a))
    }

    /// What checkpoint `i` is compared with: the next snapshot, or for the
    /// last checkpoint the current accounts.
    closed spec fn next_snapshot(&self, i: int, a: AddressWithSpace) -> DbResult<Option<OverlayView>> {
        if i + 1 < self.checkpoints@.len() {
            (self.snapshots@[i + 1])(a)
        } else {
            self.effective(a)
        }
    }

    closed spec fn cp_ok(&self, i: int) -> bool {
        let cp = self.checkpoints@[i].view();
        let db = self.db.db_view();
        &&& forall|a: AddressWithSpace| #[trigger] cp.contains_key(a) ==> (cp[a] matches Some(e) ==> entry_consistent(e, db, a))
        &&& forall|a: AddressWithSpace| #[trigger] cp.contains_key(a) ==> record_effective(cp[a], db, a) == (self.snapshots@[i])(a)
        &&& forall|a: AddressWithSpace| !cp.contains_key(a) ==> #[trigger] self.next_snapshot(i, a) == (self.snapshots@[i])(a)
    }

    /// The cache agrees with the database where it is clean, and each
    /// checkpoint records what was there when it was made for every
    /// account changed since.
    pub closed spec fn consistent(&self) -> bool {
        &&& forall|a: AddressWithSpace| #[trigger] self.cache.view().contains_key(a) ==> entry_consistent(self.cache.view()[a], self.db.db_view(), a)
        &&& forall|i: int| 0 <= i < self.checkpoints@.len() ==> #[trigger] self.cp_ok(i)
    }

    /// Everything but the cache is as in `other`.
    closed spec fn same_but_cache(&self, other: &Self) -> bool {
        &&& self.db.db_view() == other.db.db_view()
        &&& self.db.infallible() == other.db.infallible()
        &&& self.world_statistics == other.world_statistics
        &&& self.world_statistics_checkpoints@ == other.world_statistics_checkpoints@
        &&& self.snapshots@ == other.snapshots@
    }

    /// The state in which `a` can be changed: it is cached, and recorded in
    /// the last checkpoint if there is one.
    closed spec fn ready(&self, a: AddressWithSpace) -> bool {
        &&& self.cache.view().contains_key(a)
        &&& self.checkpoints@.len() > 0 ==> self.checkpoints@.last().view().contains_key(a)
    }

    proof fn lemma_effective_unchanged(old: &Self, new: &Self)
        requires
            old.wf(),
            old.consistent(),
            new.wf(),
            new.same_but_cache(old),
            new.checkpoints@ == old.checkpoints@,
            forall|a: AddressWithSpace| #[trigger] new.effective(a) == old.effective(a),
            forall|a: AddressWithSpace| #[trigger] new.cache.view().contains_key(a) ==> entry_consistent(new.cache.view()[a], new.db.db_view(), a),
        ensures
            new.consistent(),
    {
        assert forall|i: int| 0 <= i < new.checkpoints@.len() implies #[trigger] new.cp_ok(i) by {
            assert(old.cp_ok(i));
            let cp = new.checkpoints@[i].view();
            assert forall|a: AddressWithSpace| !cp.contains_key(a) implies #[trigger] new.next_snapshot(i, a) == (new.snapshots@[i])(a) by {
                assert(old.next_snapshot(i, a) == (old.snapshots@[i])(a));
            }
        }
    }

    /// Opens a state over `db`, reading the total of issued tokens.
    pub fn new(db: StateDb<S>) -> (r: DbResult<Self>)
        ensures
            read_matches(
                match r {
                    Ok(s) => Ok::<nat, DbError>(s.total_issued()),
                    Err(e) => Err::<nat, DbError>(e),
                },
                spec_load_total_issued(db.db_view()),
            ),
            r matches Ok(s) ==> {
                &&& s.wf()
                &&& s.consistent()
                &&& s.db_view() == db.db_view()
                &&& s.infallible() == db.infallible()
                &&& s.checkpoint_count() == 0
                &&& forall|a: AddressWithSpace| #[trigger] s.effective(a) == loaded_account(db.db_view(), a)
            },
    {
        let total_issued_tokens = match db.get_total_issued_tokens() {
            Ok(v) => v,
            Err(e) => {
                return Err(e);
            },
        };
        let world_statistics = WorldStatistics { total_issued_tokens };
        let s = State {
            db,
            cache: AssocMap::new(),
            world_statistics_checkpoints: Vec::new(),
            checkpoints: Vec::new(),
            world_statistics,
            accounts_to_notify: Vec::new(),
            snapshots: Ghost(Seq::empty()),
        };
        Ok(s)
    }
}

} // verus!

verus! {

impl<S: StorageTrait> State<S> {
    /// Loads the account at `a` into the cache, as a clean entry, where it
    /// is not cached yet.
    fn ensure_cached(&mut self, a: &AddressWithSpace) -> (r: DbResult<()>)
        requires
            old(self).wf(),
        ensures
            old(self).infallible() ==> !(r matches Err(DbError::Storage(_))),
            final(self).wf(),
            final(self).same_but_cache(old(self)),
            final(self).checkpoints@ == old(self).checkpoints@,
            forall|b: AddressWithSpace| #[trigger] final(self).effective(b) == old(self).effective(b),
            old(self).consistent() ==> final(self).consistent(),
            final(self).cache.view().remove(*a) == old(self).cache.view().remove(*a),
            old(self).cache.view().contains_key(*a) ==> final(self).cache.view() == old(self).cache.view(),
            r is Ok ==> final(self).cache.view().contains_key(*a),
            r is Err ==> final(self).cache.view() == old(self).cache.view(),
            read_matches(
                match r {
                    Ok(()) => Ok::<Option<OverlayView>, DbError>(final(self).cache.view()[*a].account_view()),
                    Err(e) => Err::<Option<OverlayView>, DbError>(e),
                },
                old(self).effective(*a),
            ),
    {
        if self.cache.contains_key(a) {
            return Ok(());
        }
        let loaded = match self.db.get_account(a) {
            Ok(x) => x,
            Err(e) => {
                return Err(e);
            },
        };
        let acc = match loaded {
            Some(acc) => Some(OverlayAccount::from_loaded(a, acc)),
            None => None,
        };
        let ghost pre = *self;
        self.cache.insert(*a, AccountEntry::new_clean(acc));
        assert(self.cache.view().remove(*a) =~= pre.cache.view().remove(*a));
        assert forall|b: AddressWithSpace| #[trigger] self.effective(b) == pre.effective(b) by {
            if b != *a {
                assert(self.cache.view().contains_key(b) == pre.cache.view().contains_key(b));
            }
        }
        proof {
            assert forall|i: int| 0 <= i < self.checkpoints@.len() implies #[trigger] self.cp_wf(i) by {
                assert(pre.cp_wf(i));
            }
            if pre.consistent() {
                Self::lemma_effective_unchanged(&pre, self);
            }
        }
        Ok(())
    }

    /// Records in the last checkpoint, if there is one, the cached entry at
    /// `a` where `a` is not recorded there yet.
    fn record(&mut self, a: &AddressWithSpace)
        requires
            old(self).wf(),
            old(self).cache.view().contains_key(*a),
        ensures
            final(self).wf(),
            final(self).same_but_cache(old(self)),
            final(self).cache.view() == old(self).cache.view(),
            final(self).checkpoints@.len() == old(self).checkpoints@.len(),
            forall|i: int| 0 <= i < old(self).checkpoints@.len() - 1 ==> final(self).checkpoints@[i] == old(self).checkpoints@[i],
            forall|b: AddressWithSpace| #[trigger] final(self).effective(b) == old(self).effective(b),
            old(self).consistent() ==> final(self).consistent(),
            final(self).ready(*a),
    {
        if self.checkpoints.len() == 0 {
            return;
        }
        let ghost pre = *self;
        let ghost n = self.checkpoints@.len();
        let mut cp = self.checkpoints.pop().unwrap();
        proof {
            assert(pre.cp_wf(n - 1));
        }
        if !cp.contains_key(a) {
            let e = self.cache.get(a).unwrap().clone_dirty();
            cp.insert(*a, Some(e));
        }
        self.checkpoints.push(cp);
        assert(self.checkpoints@.len() == n);
        assert forall|i: int| 0 <= i < n - 1 implies self.checkpoints@[i] == pre.checkpoints@[i] by {}
        assert forall|b: AddressWithSpace| #[trigger] self.effective(b) == pre.effective(b) by {}
        proof {
            assert forall|i: int| 0 <= i < n implies #[trigger] self.cp_wf(i) by {
                assert(pre.cp_wf(i));
            }
            if pre.consistent() {
                assert forall|i: int| 0 <= i < n implies #[trigger] self.cp_ok(i) by {
                    assert(pre.cp_ok(i));
                    if i < n - 1 {
                        assert(self.checkpoints@[i] == pre.checkpoints@[i]);
                        let cp0 = self.checkpoints@[i].view();
                        assert forall|b: AddressWithSpace| !cp0.contains_key(b) implies #[trigger] self.next_snapshot(i, b) == (self.snapshots@[i])(b) by {
                            assert(pre.next_snapshot(i, b) == (pre.snapshots@[i])(b));
                        }
                    } else {
                        let cpn = self.checkpoints@[i].view();
                        let cpo = pre.checkpoints@[i].view();
                        if !cpo.contains_key(*a) {
                            assert(pre.next_snapshot(i, *a) == (pre.snapshots@[i])(*a));
                        }
                        assert forall|b: AddressWithSpace| #[trigger] cpn.contains_key(b) implies (cpn[b] matches Some(e) ==> entry_consistent(e, self.db.db_view(), b)) && record_effective(cpn[b], self.db.db_view(), b) == (self.snapshots@[i])(b) by {
                            if b != *a || cpo.contains_key(*a) {
                                assert(cpo.contains_key(b));
                            }
                        }
                        assert forall|b: AddressWithSpace| !cpn.contains_key(b) implies #[trigger] self.next_snapshot(i, b) == (self.snapshots@[i])(b) by {
                            assert(!cpo.contains_key(b));
                            assert(pre.next_snapshot(i, b) == (pre.snapshots@[i])(b));
                        }
                    }
                }
            }
        }
    }

    /// Replaces the account in the cached entry at `a` and marks it dirty.
    fn update_entry_account(&mut self, a: &AddressWithSpace, acc: Option<OverlayAccount>)
        requires
            old(self).wf(),
            old(self).ready(*a),
            acc matches Some(x) ==> x.view().address == *a,
        ensures
            final(self).wf(),
            final(self).same_but_cache(old(self)),
            final(self).checkpoints@ == old(self).checkpoints@,
            final(self).ready(*a),
            final(self).cache.view().remove(*a) == old(self).cache.view().remove(*a),
            final(self).cache.view()[*a].account_view() == account_view(acc),
            final(self).cache.view()[*a].state == AccountState::Dirty,
            final(self).cache.view()[*a].old_balance == old(self).cache.view()[*a].old_balance,
            final(self).effective(*a) == Ok::<Option<OverlayView>, DbError>(account_view(acc)),
            forall|b: AddressWithSpace| b != *a ==> #[trigger] final(self).effective(b) == old(self).effective(b),
            old(self).consistent() ==> final(self).consistent(),
    {
        let ghost pre = *self;
        let mut e = self.cache.remove(a).unwrap();
        e.account = acc;
        e.state = AccountState::Dirty;
        self.cache.insert(*a, e);
        assert(self.cache.view().remove(*a) =~= pre.cache.view().remove(*a));
        assert forall|b: AddressWithSpace| b != *a implies #[trigger] self.effective(b) == pre.effective(b) by {
            assert(self.cache.view().contains_key(b) == pre.cache.view().contains_key(b));
        }
        proof {
            assert forall|i: int| 0 <= i < self.checkpoints@.len() implies #[trigger] self.cp_wf(i) by {
                assert(pre.cp_wf(i));
            }
            if pre.consistent() {
                let n = self.checkpoints@.len();
                assert forall|i: int| 0 <= i < n implies #[trigger] self.cp_ok(i) by {
                    assert(pre.cp_ok(i));
                    let cp0 = self.checkpoints@[i].view();
                    assert forall|b: AddressWithSpace| !cp0.contains_key(b) implies #[trigger] self.next_snapshot(i, b) == (self.snapshots@[i])(b) by {
                        assert(pre.next_snapshot(i, b) == (pre.snapshots@[i])(b));
                    }
                }
            }
        }
    }

    /// Puts `entry` into the cache at `a`, recording in the last checkpoint
    /// what was cached before where `a` is not recorded there yet.
    fn update_cache(&mut self, a: &AddressWithSpace, entry: AccountEntry)
        requires
            old(self).wf(),
            entry.state == AccountState::Dirty,
            entry_addressed(entry, *a),
        ensures
            final(self).wf(),
            final(self).same_but_cache(old(self)),
            final(self).checkpoints@.len() == old(self).checkpoints@.len(),
            final(self).ready(*a),
            final(self).cache.view() == old(self).cache.view().insert(*a, entry),
            final(self).effective(*a) == Ok::<Option<OverlayView>, DbError>(entry.account_view()),
            forall|b: AddressWithSpace| b != *a ==> #[trigger] final(self).effective(b) == old(self).effective(b),
            old(self).consistent() ==> final(self).consistent(),
    {
        let ghost pre = *self;
        let is_dirty = entry.is_dirty();
        let old_value = self.cache.insert(*a, entry);
        let ghost mid = *self;
        assert forall|b: AddressWithSpace| b != *a implies #[trigger] self.effective(b) == pre.effective(b) by {
            assert(self.cache.view().contains_key(b) == pre.cache.view().contains_key(b));
        }
        let ghost n = self.checkpoints@.len();
        if is_dirty && self.checkpoints.len() > 0 {
            let mut cp = self.checkpoints.pop().unwrap();
            proof {
                assert(pre.cp_wf(n - 1));
            }
            if !cp.contains_key(a) {
                cp.insert(*a, old_value);
            }
            self.checkpoints.push(cp);
        }
        assert(self.checkpoints@.len() == n);
        proof {
            assert forall|i: int| 0 <= i < n implies #[trigger] self.cp_wf(i) by {
                assert(pre.cp_wf(i));
                if i < n - 1 {
                    assert(self.checkpoints@[i] == pre.checkpoints@[i]);
                }
            }
            if pre.consistent() {
                assert forall|i: int| 0 <= i < n implies #[trigger] self.cp_ok(i) by {
                    assert(pre.cp_ok(i));
                    if i < n - 1 {
                        assert(self.checkpoints@[i] == pre.checkpoints@[i]);
                        let cp0 = self.checkpoints@[i].view();
                        assert forall|b: AddressWithSpace| !cp0.contains_key(b) implies #[trigger] self.next_snapshot(i, b) == (self.snapshots@[i])(b) by {
                            assert(pre.next_snapshot(i, b) == (pre.snapshots@[i])(b));
                        }
                    } else {
                        let cpn = self.checkpoints@[i].view();
                        let cpo = pre.checkpoints@[i].view();
                        if !cpo.contains_key(*a) {
                            assert(pre.next_snapshot(i, *a) == (pre.snapshots@[i])(*a));
                        }
                        assert forall|b: AddressWithSpace| #[trigger] cpn.contains_key(b) implies (cpn[b] matches Some(e) ==> entry_consistent(e, self.db.db_view(), b)) && record_effective(cpn[b], self.db.db_view(), b) == (self.snapshots@[i])(b) by {
                            if b != *a || cpo.contains_key(*a) {
                                assert(cpo.contains_key(b));
                            }
                        }
                        assert forall|b: AddressWithSpace| !cpn.contains_key(b) implies #[trigger] self.next_snapshot(i, b) == (self.snapshots@[i])(b) by {
                            assert(!cpo.contains_key(b));
                            assert(pre.next_snapshot(i, b) == (pre.snapshots@[i])(b));
                        }
                    }
                }
            }
        }
    }
}

} // verus!

verus! {

/// The account that a change at `a` works on: the present account (with its
/// code loaded where asked), or a new basic account where there is none and
/// `start_nonce` is given.
pub open spec fn required_account(
    eff: DbResult<Option<OverlayView>>,
    db: Map<Seq<u8>, Seq<u8>>,
    a: AddressWithSpace,
    require_code: bool,
    start_nonce: Option<nat>,
) -> DbResult<OverlayView> {
    let base = match eff {
        Err(e) => Err(e),
        Ok(Some(v)) => Ok(v),
        Ok(None) => match start_nonce {
            None => Err(DbError::IncompleteDatabase(a.address)),
            Some(n) => Ok(basic_view(a, 0, n)),
        },
    };
    match base {
        Err(e) => Err(e),
        Ok(v) => if require_code {
            match v.loaded_code(db) {
                Ok(c) => Ok(OverlayView { code: c, ..v }),
                Err(e) => Err(e),
            }
        } else {
            Ok(v)
        },
    }
}

impl<S: StorageTrait> State<S> {
    fn needs_update(require: RequireCache, account: &OverlayAccount) -> (r: bool)
        ensures
            r == (require is Code && !account.view().is_code_loaded()),
    {
        match require {
            RequireCache::Nothing => false,
            RequireCache::Code => !account.is_code_loaded(),
        }
    }

    /// Load required account data from the databases. Returns whether the
    /// cache succeeds.
    fn update_account_cache(require: RequireCache, account: &mut OverlayAccount, db: &StateDb<S>) -> (r: DbResult<bool>)
        ensures
            db.infallible() ==> !(r matches Err(DbError::Storage(_))),
            require is Nothing ==> r == Ok::<bool, DbError>(true) && final(account).view() == old(account).view(),
            old(account).view().is_code_loaded() ==> r == Ok::<bool, DbError>(true) && final(account).view() == old(account).view(),
            require is Code ==> match r {
                Ok(true) => final(account).view() == (OverlayView {
                    code: match old(account).view().loaded_code(db.db_view()) {
                        Ok(c) => c,
                        Err(_) => None,
                    },
                    ..old(account).view()
                }) && old(account).view().loaded_code(db.db_view()) is Ok,
                Ok(false) => final(account).view() == old(account).view()
                    && old(account).view().loaded_code(db.db_view()) == Err::<Option<Seq<u8>>, DbError>(
                    DbError::IncompleteDatabase(old(account).view().address.address),
                ),
                Err(DbError::Storage(_)) => final(account).view() == old(account).view(),
                Err(e) => final(account).view() == old(account).view()
                    && old(account).view().loaded_code(db.db_view()) == Err::<Option<Seq<u8>>, DbError>(e),
            },
    {
        match require {
            RequireCache::Nothing => Ok(true),
            RequireCache::Code => account.cache_code(db),
        }
    }

    /// A copy of the account at `a`, with what `require` asks for loaded.
    pub fn ensure_account_loaded(&self, address: &AddressWithSpace, require: RequireCache) -> (r: DbResult<Option<OverlayAccount>>)
        requires
            self.wf(),
        ensures
            self.infallible() ==> !(r matches Err(DbError::Storage(_))),
            read_matches(
                match r {
                    Ok(acc) => Ok::<Option<OverlayView>, DbError>(account_view(acc)),
                    Err(e) => Err::<Option<OverlayView>, DbError>(e),
                },
                with_required(self.effective(*address), self.db_view(), require),
            ),
            self.is_cached(*address) && require is Nothing ==> r is Ok,
    {
        let acc: Option<OverlayAccount> = match self.cache.get(address) {
            Some(entry) => match &entry.account {
                Some(acc) => {
                    if !Self::needs_update(require, acc) {
                        return Ok(Some(acc.clone_dirty()));
                    }
                    Some(acc.clone_dirty())
                },
                None => {
                    return Ok(None);
                },
            },
            None => match self.db.get_account(address) {
                Ok(Some(x)) => Some(OverlayAccount::from_loaded(address, x)),
                Ok(None) => None,
                Err(e) => {
                    return Err(e);
                },
            },
        };
        match acc {
            None => Ok(None),
            Some(acc) => {
                let mut acc = acc;
                match Self::update_account_cache(require, &mut acc, &self.db) {
                    Ok(true) => Ok(Some(acc)),
                    Ok(false) => Err(DbError::IncompleteDatabase(address.address)),
                    Err(e) => Err(e),
                }
            },
        }
    }

    /// Prepares the account at `a` for a change: caches it, records it in
    /// the last checkpoint and marks it dirty; a missing account is created
    /// as a basic account with `start_nonce` where that is given, and is an
    /// error otherwise. Returns a copy of the account.
    fn require_or_set(&mut self, address: &AddressWithSpace, require_code: bool, start_nonce: Option<U256>) -> (r: DbResult<OverlayAccount>)
        requires
            old(self).wf(),
        ensures
            old(self).infallible() ==> !(r matches Err(DbError::Storage(_))),
            final(self).wf(),
            final(self).same_but_cache(old(self)),
            final(self).checkpoints@.len() == old(self).checkpoints@.len(),
            old(self).consistent() ==> final(self).consistent(),
            read_matches(
                match r {
                    Ok(acc) => Ok::<OverlayView, DbError>(acc.view()),
                    Err(e) => Err::<OverlayView, DbError>(e),
                },
                required_account(
                    old(self).effective(*address),
                    old(self).db_view(),
                    *address,
                    require_code,
                    match start_nonce {
                        Some(n) => Some(n@),
                        None => None::<nat>,
                    },
                ),
            ),
            r matches Ok(acc) ==> {
                &&& final(self).ready(*address)
                &&& acc.view().address == *address
                &&& acc.view().balance < u256_modulus()
                &&& acc.view().nonce < u256_modulus()
                &&& final(self).effective(*address) == Ok::<Option<OverlayView>, DbError>(Some(acc.view()))
                &&& forall|b: AddressWithSpace| b != *address ==> #[trigger] final(self).effective(b) == old(self).effective(b)
            },
            r is Err ==> forall|b: AddressWithSpace| #[trigger] final(self).effective(b) == old(self).effective(b),
    {
        let ghost s0 = *self;
        match self.ensure_cached(address) {
            Ok(()) => {},
            Err(e) => {
                return Err(e);
            },
        }
        self.record(address);
        let current = match &self.cache.get(address).unwrap().account {
            Some(acc) => Some(acc.clone_dirty()),
            None => None,
        };
        self.update_entry_account(address, current);
        let ghost s1 = *self;
        assert forall|b: AddressWithSpace| #[trigger] s1.effective(b) == s0.effective(b) by {}
        let mut acc = match self.cache.get(address).unwrap().account {
            Some(ref acc) => acc.clone_dirty(),
            None => match start_nonce {
                None => {
                    return Err(DbError::IncompleteDatabase(address.address));
                },
                Some(n) => {
                    let acc = OverlayAccount::new_basic(address, U256::zero(), n);
                    self.update_entry_account(address, Some(acc.clone_dirty()));
                    acc
                },
            },
        };
        if require_code {
            match Self::update_account_cache(RequireCache::Code, &mut acc, &self.db) {
                Ok(true) => {},
                Ok(false) => {
                    return Err(DbError::IncompleteDatabase(address.address));
                },
                Err(e) => {
                    return Err(e);
                },
            }
            self.update_entry_account(address, Some(acc.clone_dirty()));
        }
        proof {
            acc.lemma_bounded();
        }
        Ok(acc)
    }
}

} // verus!

verus! {

/// The balance of an account as read: zero where there is none.
pub open spec fn spec_balance(eff: DbResult<Option<OverlayView>>) -> DbResult<nat> {
    match eff {
        Ok(None) => Ok(0),
        Ok(Some(v)) => Ok(v.balance),
        Err(e) => Err(e),
    }
}

/// The nonce of an account as read: zero where there is none.
pub open spec fn spec_nonce(eff: DbResult<Option<OverlayView>>) -> DbResult<nat> {
    match eff {
        Ok(None) => Ok(0),
        Ok(Some(v)) => Ok(v.nonce),
        Err(e) => Err(e),
    }
}

/// Whether an account is there.
pub open spec fn spec_exists(eff: DbResult<Option<OverlayView>>) -> DbResult<bool> {
    match eff {
        Ok(x) => Ok(x is Some),
        Err(e) => Err(e),
    }
}

/// Whether an account is there and not null.
pub open spec fn spec_exists_and_not_null(eff: DbResult<Option<OverlayView>>) -> DbResult<bool> {
    match eff {
        Ok(None) => Ok(false),
        Ok(Some(v)) => Ok(!v.is_null()),
        Err(e) => Err(e),
    }
}

/// Whether an account is there with a code hash other than that of empty
/// code.
pub open spec fn spec_is_contract_with_code(eff: DbResult<Option<OverlayView>>) -> DbResult<bool> {
    match eff {
        Ok(None) => Ok(false),
        Ok(Some(v)) => Ok(v.code_hash != crate::codec::keccak_empty_bytes()),
        Err(e) => Err(e),
    }
}

/// The code hash of an account, if there is one.
pub open spec fn spec_code_hash(eff: DbResult<Option<OverlayView>>) -> DbResult<Option<Seq<u8>>> {
    match eff {
        Ok(None) => Ok(None),
        Ok(Some(v)) => Ok(Some(v.code_hash)),
        Err(e) => Err(e),
    }
}

/// The code of an account, loaded from the database where needed.
pub open spec fn spec_code(eff: DbResult<Option<OverlayView>>, db: Map<Seq<u8>, Seq<u8>>) -> DbResult<Option<Seq<u8>>> {
    match with_required(eff, db, RequireCache::Code) {
        Ok(None) => Ok(None),
        Ok(Some(v)) => Ok(v.code),
        Err(e) => Err(e),
    }
}

/// The value of storage slot `key` of an account: zero where there is none.
pub open spec fn spec_storage_at(eff: DbResult<Option<OverlayView>>, db: Map<Seq<u8>, Seq<u8>>, key: Seq<u8>) -> DbResult<nat> {
    match eff {
        Ok(None) => Ok(0),
        Ok(Some(v)) => v.storage_at(db, key),
        Err(e) => Err(e),
    }
}

impl<S: StorageTrait> State<S> {
    /// Whether `a` has an entry in the cache; reads of such an account do
    /// not reach the database.
    pub closed spec fn is_cached(&self, a: AddressWithSpace) -> bool {
        self.cache.view().contains_key(a)
    }

    /// The database, the totals and the checkpoints are as in `old`, and the
    /// state stays well formed and consistent.
    pub open spec fn frame_all(&self, old: &Self) -> bool {
        &&& self.wf()
        &&& old.consistent() ==> self.consistent()
        &&& self.db_view() == old.db_view()
        &&& self.infallible() == old.infallible()
        &&& self.total_issued() == old.total_issued()
        &&& self.checkpoint_count() == old.checkpoint_count()
        &&& forall|i: int| #[trigger] self.snapshot(i) == old.snapshot(i)
        &&& forall|i: int| #[trigger] self.snapshot_total_issued(i) == old.snapshot_total_issued(i)
    }

    /// Everything but the account at `a` is as in `old`.
    pub open spec fn frame(&self, old: &Self, a: AddressWithSpace) -> bool {
        &&& self.frame_all(old)
        &&& forall|b: AddressWithSpace| b != a ==> #[trigger] self.effective(b) == old.effective(b)
    }

    /// Nothing is changed.
    pub open spec fn unchanged(&self, old: &Self) -> bool {
        &&& self.frame_all(old)
        &&& forall|b: AddressWithSpace| #[trigger] self.effective(b) == old.effective(b)
    }

    /// The balance of the account at `address`: zero where there is none.
    pub fn balance(&self, address: &AddressWithSpace) -> (r: DbResult<U256>)
        requires
            self.wf(),
        ensures
            self.infallible() ==> !(r matches Err(DbError::Storage(_))),
            read_matches(
                match r {
                    Ok(v) => Ok::<nat, DbError>(v@),
                    Err(e) => Err::<nat, DbError>(e),
                },
                spec_balance(self.effective(*address)),
            ),
            self.is_cached(*address) ==> r is Ok,
    {
        match self.ensure_account_loaded(address, RequireCache::Nothing) {
            Ok(Some(acc)) => Ok(*acc.balance()),
            Ok(None) => Ok(U256::zero()),
            Err(e) => Err(e),
        }
    }

    /// Whether the account at `address` has code.
    pub fn is_contract_with_code(&self, address: &AddressWithSpace) -> (r: DbResult<bool>)
        requires
            self.wf(),
        ensures
            self.infallible() ==> !(r matches Err(DbError::Storage(_))),
            read_matches(r, spec_is_contract_with_code(self.effective(*address))),
    {
        match self.ensure_account_loaded(address, RequireCache::Nothing) {
            Ok(Some(acc)) => Ok(!acc.code_hash().same(&keccak_empty())),
            Ok(None) => Ok(false),
            Err(e) => Err(e),
        }
    }

    /// The nonce of the account at `address`: zero where there is none.
    pub fn nonce(&self, address: &AddressWithSpace) -> (r: DbResult<U256>)
        requires
            self.wf(),
        ensures
            self.infallible() ==> !(r matches Err(DbError::Storage(_))),
            read_matches(
                match r {
                    Ok(v) => Ok::<nat, DbError>(v@),
                    Err(e) => Err::<nat, DbError>(e),
                },
                spec_nonce(self.effective(*address)),
            ),
            self.is_cached(*address) ==> r is Ok,
    {
        match self.ensure_account_loaded(address, RequireCache::Nothing) {
            Ok(Some(acc)) => Ok(*acc.nonce()),
            Ok(None) => Ok(U256::zero()),
            Err(e) => Err(e),
        }
    }

    /// The code hash of the account at `address`, where there is one.
    pub fn code_hash(&self, address: &AddressWithSpace) -> (r: DbResult<Option<H256>>)
        requires
            self.wf(),
        ensures
            self.infallible() ==> !(r matches Err(DbError::Storage(_))),
            read_matches(
                match r {
                    Ok(Some(h)) => Ok::<Option<Seq<u8>>, DbError>(Some(h@)),
                    Ok(None) => Ok::<Option<Seq<u8>>, DbError>(None),
                    Err(e) => Err::<Option<Seq<u8>>, DbError>(e),
                },
                spec_code_hash(self.effective(*address)),
            ),
    {
        match self.ensure_account_loaded(address, RequireCache::Nothing) {
            Ok(Some(acc)) => Ok(Some(acc.code_hash())),
            Ok(None) => Ok(None),
            Err(e) => Err(e),
        }
    }

    /// The size of the code of the account at `address`, loading it where needed.
    pub fn code_size(&self, address: &AddressWithSpace) -> (r: DbResult<Option<usize>>)
        requires
            self.wf(),
        ensures
            self.infallible() ==> !(r matches Err(DbError::Storage(_))),
            read_matches(
                match r {
                    Ok(Some(n)) => Ok::<Option<nat>, DbError>(Some(n as nat)),
                    Ok(None) => Ok::<Option<nat>, DbError>(None),
                    Err(e) => Err::<Option<nat>, DbError>(e),
                },
                match spec_code(self.effective(*address), self.db_view()) {
                    Ok(Some(c)) => Ok::<Option<nat>, DbError>(Some(c.len())),
                    Ok(None) => Ok::<Option<nat>, DbError>(None),
                    Err(e) => Err::<Option<nat>, DbError>(e),
                },
            ),
    {
        match self.ensure_account_loaded(address, RequireCache::Code) {
            Ok(Some(acc)) => Ok(acc.code_size()),
            Ok(None) => Ok(None),
            Err(e) => Err(e),
        }
    }

    /// The code of the account at `address`, loading it where needed.
    pub fn code(&self, address: &AddressWithSpace) -> (r: DbResult<Option<Vec<u8>>>)
        requires
            self.wf(),
        ensures
            self.infallible() ==> !(r matches Err(DbError::Storage(_))),
            read_matches(
                match r {
                    Ok(Some(c)) => Ok::<Option<Seq<u8>>, DbError>(Some(c@)),
                    Ok(None) => Ok::<Option<Seq<u8>>, DbError>(None),
                    Err(e) => Err::<Option<Seq<u8>>, DbError>(e),
                },
                spec_code(self.effective(*address), self.db_view()),
            ),
    {
        match self.ensure_account_loaded(address, RequireCache::Code) {
            Ok(Some(acc)) => Ok(acc.code()),
            Ok(None) => Ok(None),
            Err(e) => Err(e),
        }
    }

    /// Whether there is an account at `address`.
    pub fn account_exists(&self, address: &AddressWithSpace) -> (r: DbResult<bool>)
        requires
            self.wf(),
        ensures
            self.infallible() ==> !(r matches Err(DbError::Storage(_))),
            read_matches(r, spec_exists(self.effective(*address))),
            self.is_cached(*address) ==> r is Ok,
    {
        match self.ensure_account_loaded(address, RequireCache::Nothing) {
            Ok(acc) => Ok(acc.is_some()),
            Err(e) => Err(e),
        }
    }

    /// Whether there is an account at `address` and it is not null.
    pub fn exists_and_not_null(&self, address: &AddressWithSpace) -> (r: DbResult<bool>)
        requires
            self.wf(),
        ensures
            self.infallible() ==> !(r matches Err(DbError::Storage(_))),
            read_matches(r, spec_exists_and_not_null(self.effective(*address))),
    {
        match self.ensure_account_loaded(address, RequireCache::Nothing) {
            Ok(Some(acc)) => Ok(!acc.is_null()),
            Ok(None) => Ok(false),
            Err(e) => Err(e),
        }
    }

    /// The value of storage slot `key` of the account at `address`.
    pub fn storage_at(&self, address: &AddressWithSpace, key: &[u8]) -> (r: DbResult<U256>)
        requires
            self.wf(),
        ensures
            self.infallible() ==> !(r matches Err(DbError::Storage(_))),
            read_matches(
                match r {
                    Ok(v) => Ok::<nat, DbError>(v@),
                    Err(e) => Err::<nat, DbError>(e),
                },
                spec_storage_at(self.effective(*address), self.db_view(), key@),
            ),
    {
        match self.ensure_account_loaded(address, RequireCache::Nothing) {
            Ok(Some(acc)) => acc.storage_at(&self.db, key),
            Ok(None) => Ok(U256::zero()),
            Err(e) => Err(e),
        }
    }

    /// The number of open checkpoints.
    pub fn open_checkpoints(&self) -> (r: usize)
        requires
            self.wf(),
        ensures
            r == self.checkpoint_count(),
    {
        self.checkpoints.len()
    }

    /// Whether a checkpoint is open.
    pub fn has_checkpoints(&self) -> (r: bool)
        requires
            self.wf(),
        ensures
            r == (self.checkpoint_count() > 0),
    {
        self.checkpoints.len() > 0
    }

    /// The total of issued tokens.
    pub fn total_issued_tokens(&self) -> (r: U256)
        ensures
            r@ == self.total_issued(),
    {
        self.world_statistics.total_issued_tokens
    }
}

} // verus!

verus! {

/// The outcome of a computation, with its value dropped.
pub open spec fn unit_of<T>(r: DbResult<T>) -> DbResult<()> {
    match r {
        Ok(_) => Ok(()),
        Err(e) => Err(e),
    }
}

/// Whether a slot of an account is tracked as touched.
pub enum CleanupMode {
    /// Create an account even when nothing is added to it.
    ForceCreate,
    /// Create no account where nothing is added.
    NoEmpty,
    /// Track the accounts that are touched.
    TrackTouched(AssocMap<AddressWithSpace, ()>),
}

impl CleanupMode {
    pub open spec fn wf(&self) -> bool {
        match self {
            CleanupMode::TrackTouched(set) => set.wf(),
            _ => true,
        }
    }

    /// The touched accounts, where they are tracked.
    pub open spec fn touched(&self) -> Option<Set<AddressWithSpace>> {
        match self {
            CleanupMode::TrackTouched(set) => Some(set.view().dom()),
            _ => None,
        }
    }

    pub open spec fn is_force_create(&self) -> bool {
        self is ForceCreate
    }

    /// `touched` with `a` added where `add` holds and accounts are tracked.
    pub open spec fn touched_after(&self, a: AddressWithSpace, add: bool) -> Option<Set<AddressWithSpace>> {
        match self.touched() {
            Some(t) => Some(if add { t.insert(a) } else { t }),
            None => None,
        }
    }

    /// Adds `a` to the touched accounts, where they are tracked.
    fn touch(&mut self, a: &AddressWithSpace)
        requires
            old(self).wf(),
        ensures
            final(self).wf(),
            final(self).touched() == old(self).touched_after(*a, true),
            final(self).is_force_create() == old(self).is_force_create(),
    {
        let mut mode = CleanupMode::NoEmpty;
        std::mem::swap(&mut mode, self);
        match mode {
            CleanupMode::TrackTouched(set) => {
                let mut set = set;
                set.insert(*a, ());
                assert(set.view().dom() =~= old(self).touched().unwrap().insert(*a));
                *self = CleanupMode::TrackTouched(set);
            },
            other => {
                *self = other;
            },
        }
    }

    fn tracks(&self) -> (r: bool)
        ensures
            r == (self.touched() is Some),
    {
        match self {
            CleanupMode::TrackTouched(_) => true,
            _ => false,
        }
    }

    fn forces(&self) -> (r: bool)
        ensures
            r == self.is_force_create(),
    {
        match self {
            CleanupMode::ForceCreate => true,
            _ => false,
        }
    }
}

impl<S: StorageTrait> State<S> {
    /// The account a change at `a` works on, created as a basic account
    /// with nonce `start` where there is none.
    pub open spec fn require_basic(&self, a: AddressWithSpace, start: nat) -> DbResult<OverlayView> {
        required_account(self.effective(a), self.db_view(), a, false, Some(start))
    }

    /// The account a change at `a` works on, which must be there.
    pub open spec fn require_present(&self, a: AddressWithSpace) -> DbResult<OverlayView> {
        required_account(self.effective(a), self.db_view(), a, false, None)
    }

    fn require_exists(&mut self, address: &AddressWithSpace, require_code: bool) -> (r: DbResult<OverlayAccount>)
        requires
            old(self).wf(),
        ensures
            old(self).infallible() ==> !(r matches Err(DbError::Storage(_))),
            final(self).wf(),
            final(self).same_but_cache(old(self)),
            final(self).checkpoints@.len() == old(self).checkpoints@.len(),
            old(self).consistent() ==> final(self).consistent(),
            read_matches(
                match r {
                    Ok(acc) => Ok::<OverlayView, DbError>(acc.view()),
                    Err(e) => Err::<OverlayView, DbError>(e),
                },
                required_account(old(self).effective(*address), old(self).db_view(), *address, require_code, None),
            ),
            r matches Ok(acc) ==> {
                &&& final(self).ready(*address)
                &&& acc.view().address == *address
                &&& acc.view().balance < u256_modulus()
                &&& acc.view().nonce < u256_modulus()
                &&& final(self).effective(*address) == Ok::<Option<OverlayView>, DbError>(Some(acc.view()))
                &&& forall|b: AddressWithSpace| b != *address ==> #[trigger] final(self).effective(b) == old(self).effective(b)
            },
            r is Err ==> forall|b: AddressWithSpace| #[trigger] final(self).effective(b) == old(self).effective(b),
    {
        self.require_or_set(address, require_code, None)
    }

    fn require_or_new_basic_account(&mut self, address: &AddressWithSpace, account_start_nonce: &U256) -> (r: DbResult<OverlayAccount>)
        requires
            old(self).wf(),
        ensures
            old(self).infallible() ==> !(r matches Err(DbError::Storage(_))),
            final(self).wf(),
            final(self).same_but_cache(old(self)),
            final(self).checkpoints@.len() == old(self).checkpoints@.len(),
            old(self).consistent() ==> final(self).consistent(),
            read_matches(
                match r {
                    Ok(acc) => Ok::<OverlayView, DbError>(acc.view()),
                    Err(e) => Err::<OverlayView, DbError>(e),
                },
                old(self).require_basic(*address, account_start_nonce@),
            ),
            r matches Ok(acc) ==> {
                &&& final(self).ready(*address)
                &&& acc.view().address == *address
                &&& acc.view().balance < u256_modulus()
                &&& acc.view().nonce < u256_modulus()
                &&& final(self).effective(*address) == Ok::<Option<OverlayView>, DbError>(Some(acc.view()))
                &&& forall|b: AddressWithSpace| b != *address ==> #[trigger] final(self).effective(b) == old(self).effective(b)
            },
            r is Err ==> forall|b: AddressWithSpace| #[trigger] final(self).effective(b) == old(self).effective(b),
    {
        self.require_or_set(address, false, Some(*account_start_nonce))
    }

    /// Sets the nonce of the account at `address`, creating a basic account where there is
    /// none.
    pub fn set_nonce(&mut self, address: &AddressWithSpace, nonce: &U256) -> (r: DbResult<()>)
        requires
            old(self).wf(),
        ensures
            old(self).infallible() ==> !(r matches Err(DbError::Storage(_))),
            final(self).frame(old(self), *address),
            read_matches(r, unit_of(old(self).require_basic(*address, nonce@))),
            match (r, old(self).require_basic(*address, nonce@)) {
                (Ok(()), Ok(v)) => final(self).effective(*address) == Ok::<Option<OverlayView>, DbError>(
                    Some(OverlayView { nonce: nonce@, ..v }),
                ),
                _ => final(self).effective(*address) == old(self).effective(*address),
            },
    {
        let mut acc = match self.require_or_new_basic_account(address, nonce) {
            Ok(acc) => acc,
            Err(e) => {
                return Err(e);
            },
        };
        acc.set_nonce(nonce);
        self.update_entry_account(address, Some(acc));
        Ok(())
    }

    /// Increments the nonce of the account at `address`, creating a basic account with
    /// `account_start_nonce` where there is none.
    pub fn inc_nonce(&mut self, address: &AddressWithSpace, account_start_nonce: &U256) -> (r: DbResult<()>)
        requires
            old(self).wf(),
            old(self).require_basic(*address, account_start_nonce@) matches Ok(v) ==> v.nonce + 1 < u256_modulus(),
        ensures
            old(self).infallible() ==> !(r matches Err(DbError::Storage(_))),
            final(self).frame(old(self), *address),
            read_matches(r, unit_of(old(self).require_basic(*address, account_start_nonce@))),
            match (r, old(self).require_basic(*address, account_start_nonce@)) {
                (Ok(()), Ok(v)) => final(self).effective(*address) == Ok::<Option<OverlayView>, DbError>(
                    Some(OverlayView { nonce: v.nonce + 1, ..v }),
                ),
                _ => final(self).effective(*address) == old(self).effective(*address),
            },
    {
        let mut acc = match self.require_or_new_basic_account(address, account_start_nonce) {
            Ok(acc) => acc,
            Err(e) => {
                return Err(e);
            },
        };
        acc.inc_nonce();
        self.update_entry_account(address, Some(acc));
        Ok(())
    }

    /// Replaces the account at `a` by an empty one.
    pub fn clean_account(&mut self, address: &AddressWithSpace) -> (r: DbResult<()>)
        requires
            old(self).wf(),
        ensures
            old(self).infallible() ==> !(r matches Err(DbError::Storage(_))),
            final(self).frame(old(self), *address),
            read_matches(r, unit_of(old(self).require_basic(*address, 0))),
            r is Ok ==> final(self).effective(*address) == Ok::<Option<OverlayView>, DbError>(
                Some(loaded_view(*address, (0, 0, crate::codec::keccak_empty_bytes()))),
            ),
            r is Err ==> final(self).effective(*address) == old(self).effective(*address),
    {
        match self.require_or_new_basic_account(address, &U256::zero()) {
            Ok(_) => {},
            Err(e) => {
                return Err(e);
            },
        }
        let acc = OverlayAccount::from_loaded(address, Account::new_empty(address));
        self.update_entry_account(address, Some(acc));
        Ok(())
    }

    /// Sets the code of the existing account at `address`.
    pub fn init_code(&mut self, address: &AddressWithSpace, code: Vec<u8>) -> (r: DbResult<()>)
        requires
            old(self).wf(),
        ensures
            old(self).infallible() ==> !(r matches Err(DbError::Storage(_))),
            final(self).frame(old(self), *address),
            read_matches(r, unit_of(old(self).require_present(*address))),
            match (r, old(self).require_present(*address)) {
                (Ok(()), Ok(v)) => final(self).effective(*address) == Ok::<Option<OverlayView>, DbError>(
                    Some(OverlayView {
                        code_hash: crate::codec::spec_keccak(code@),
                        code: Some(code@),
                        ..v
                    }),
                ),
                _ => final(self).effective(*address) == old(self).effective(*address),
            },
    {
        let mut acc = match self.require_exists(address, false) {
            Ok(acc) => acc,
            Err(e) => {
                return Err(e);
            },
        };
        acc.init_code(code);
        self.update_entry_account(address, Some(acc));
        Ok(())
    }

    /// Replaces the account at `address` by a removed account.
    pub fn remove_contract(&mut self, address: &AddressWithSpace) -> (r: DbResult<()>)
        requires
            old(self).wf(),
        ensures
            r is Ok,
            final(self).frame(old(self), *address),
            final(self).effective(*address) == Ok::<Option<OverlayView>, DbError>(
                Some(crate::overlay::removed_view(*address)),
            ),
    {
        let acc = OverlayAccount::new_removed(address);
        self.update_cache(address, AccountEntry::new_dirty(Some(acc)));
        Ok(())
    }

    /// Creates a contract at `contract`; its storage is invalidated where the account there was
    /// removed in this state.
    pub fn new_contract(
        &mut self,
        contract: &AddressWithSpace,
        balance: U256,
        nonce: U256,
        storage_layout: Option<StorageLayout>,
    ) -> (r: DbResult<()>)
        requires
            old(self).wf(),
        ensures
            old(self).infallible() ==> !(r matches Err(DbError::Storage(_))),
            final(self).frame(old(self), *contract),
            read_matches(r, unit_of(old(self).effective(*contract))),
            match (r, old(self).effective(*contract)) {
                (Ok(()), Ok(prev)) => final(self).effective(*contract) == Ok::<Option<OverlayView>, DbError>(
                    Some(crate::overlay::contract_view(
                        *contract,
                        balance@,
                        nonce@,
                        prev matches Some(p) && p.invalidated,
                        storage_layout,
                    )),
                ),
                _ => final(self).effective(*contract) == old(self).effective(*contract),
            },
    {
        // Check if the new contract is deployed on a killed contract in the
        // same block.
        let invalidated_storage = match self.ensure_account_loaded(contract, RequireCache::Nothing) {
            Ok(Some(acc)) => acc.invalidated_storage(),
            Ok(None) => false,
            Err(e) => {
                return Err(e);
            },
        };
        let acc = OverlayAccount::new_contract(contract, balance, nonce, invalidated_storage, storage_layout);
        self.update_cache(contract, AccountEntry::new_dirty(Some(acc)));
        Ok(())
    }

    /// Maintain `total_issued_tokens`.
    pub fn add_total_issued(&mut self, v: U256)
        requires
            old(self).wf(),
            old(self).checkpoint_count() == 0,
            old(self).total_issued() + v@ < u256_modulus(),
        ensures
            final(self).infallible() == old(self).infallible(),
            final(self).total_issued() == old(self).total_issued() + v@,
            final(self).wf(),
            old(self).consistent() ==> final(self).consistent(),
            final(self).db_view() == old(self).db_view(),
            final(self).checkpoint_count() == 0,
            forall|b: AddressWithSpace| #[trigger] final(self).effective(b) == old(self).effective(b),
    {
        self.world_statistics.total_issued_tokens = crate::uint::u256_add(self.world_statistics.total_issued_tokens, v);
        proof {
            assert forall|i: int| 0 <= i < self.checkpoints@.len() implies #[trigger] self.cp_wf(i) by {}
        }
    }

    /// Maintain `total_issued_tokens`. This is only used in the extremely
    /// unlikely case that there are a lot of partial invalid blocks.
    pub fn subtract_total_issued(&mut self, v: U256)
        requires
            old(self).wf(),
        ensures
            final(self).infallible() == old(self).infallible(),
            final(self).total_issued() == if v@ <= old(self).total_issued() { (old(self).total_issued() - v@) as nat } else { 0 },
            final(self).wf(),
            old(self).consistent() ==> final(self).consistent(),
            final(self).db_view() == old(self).db_view(),
            final(self).checkpoint_count() == old(self).checkpoint_count(),
            forall|i: int| #[trigger] final(self).snapshot(i) == old(self).snapshot(i),
            forall|i: int| #[trigger] final(self).snapshot_total_issued(i) == old(self).snapshot_total_issued(i),
            forall|b: AddressWithSpace| #[trigger] final(self).effective(b) == old(self).effective(b),
    {
        let ghost pre = *self;
        self.world_statistics.total_issued_tokens = crate::uint::u256_saturating_sub(self.world_statistics.total_issued_tokens, v);
        proof {
            assert forall|i: int| 0 <= i < self.checkpoints@.len() implies #[trigger] self.cp_wf(i) by {
                assert(pre.cp_wf(i));
            }
            if pre.consistent() {
                assert forall|i: int| 0 <= i < self.checkpoints@.len() implies #[trigger] self.cp_ok(i) by {
                    assert(pre.cp_ok(i));
                    let cp0 = self.checkpoints@[i].view();
                    assert forall|b: AddressWithSpace| !cp0.contains_key(b) implies #[trigger] self.next_snapshot(i, b) == (self.snapshots@[i])(b) by {
                        assert(pre.next_snapshot(i, b) == (pre.snapshots@[i])(b));
                    }
                }
            }
        }
    }
}

} // verus!

verus! {

/// The balance read from an account, zero where it is missing or unreadable.
pub open spec fn balance_of(eff: DbResult<Option<OverlayView>>) -> nat {
    match spec_balance(eff) {
        Ok(b) => b,
        Err(_) => 0,
    }
}

impl<S: StorageTrait> State<S> {
    /// Takes `by` from the balance of the existing account at `address`, recording it as
    /// touched where it exists.
    pub fn sub_balance(&mut self, address: &AddressWithSpace, by: &U256, cleanup_mode: &mut CleanupMode) -> (r: DbResult<()>)
        requires
            old(self).wf(),
            old(cleanup_mode).wf(),
            by@ != 0 ==> (old(self).require_present(*address) matches Ok(v) ==> v.balance >= by@),
        ensures
            old(self).infallible() ==> !(r matches Err(DbError::Storage(_))),
            final(self).frame(old(self), *address),
            final(cleanup_mode).wf(),
            final(cleanup_mode).is_force_create() == old(cleanup_mode).is_force_create(),
            read_matches(
                r,
                if by@ != 0 {
                    unit_of(old(self).require_present(*address))
                } else if old(cleanup_mode).touched() is Some {
                    unit_of(old(self).effective(*address))
                } else {
                    Ok(())
                },
            ),
            match (r, old(self).require_present(*address)) {
                (Ok(()), Ok(v)) if by@ != 0 => final(self).effective(*address) == Ok::<Option<OverlayView>, DbError>(
                    Some(OverlayView { balance: (v.balance - by@) as nat, ..v }),
                ) && v.balance < u256_modulus(),
                _ => final(self).effective(*address) == old(self).effective(*address),
            },
            r is Ok ==> final(cleanup_mode).touched() == old(cleanup_mode).touched_after(
                *address,
                by@ != 0 || old(self).effective(*address) matches Ok(Some(_)),
            ),
            r is Err ==> final(cleanup_mode).touched() == old(cleanup_mode).touched(),
    {
        if !crate::uint::u256_is_zero(*by) {
            let mut acc = match self.require_exists(address, false) {
                Ok(acc) => acc,
                Err(e) => {
                    return Err(e);
                },
            };
            acc.sub_balance(by);
            self.update_entry_account(address, Some(acc));
        }
        if cleanup_mode.tracks() {
            let exists = match self.account_exists(address) {
                Ok(x) => x,
                Err(e) => {
                    return Err(e);
                },
            };
            if exists {
                cleanup_mode.touch(address);
            }
        }
        Ok(())
    }

    /// Adds `by` to the balance of the account at `address`, creating a basic account where
    /// something is added or the cleanup mode forces it.
    pub fn add_balance(
        &mut self,
        address: &AddressWithSpace,
        by: &U256,
        cleanup_mode: &mut CleanupMode,
        account_start_nonce: U256,
    ) -> (r: DbResult<()>)
        requires
            old(self).wf(),
            old(cleanup_mode).wf(),
            by@ != 0 ==> (old(self).require_basic(*address, account_start_nonce@) matches Ok(v) ==> v.balance + by@ < u256_modulus()),
        ensures
            old(self).infallible() ==> !(r matches Err(DbError::Storage(_))),
            final(self).frame(old(self), *address),
            final(cleanup_mode).wf(),
            final(cleanup_mode).is_force_create() == old(cleanup_mode).is_force_create(),
            ({
                let changes = by@ != 0 || (old(cleanup_mode).is_force_create() && old(self).effective(*address) == Ok::<Option<OverlayView>, DbError>(None));
                &&& read_matches(
                    r,
                    match old(self).effective(*address) {
                        Err(e) => Err(e),
                        Ok(_) => if changes {
                            unit_of(old(self).require_basic(*address, account_start_nonce@))
                        } else {
                            Ok(())
                        },
                    },
                )
                &&& match (r, old(self).require_basic(*address, account_start_nonce@)) {
                    (Ok(()), Ok(v)) if changes => final(self).effective(*address) == Ok::<Option<OverlayView>, DbError>(
                        Some(OverlayView { balance: v.balance + by@, ..v }),
                    ),
                    _ => final(self).effective(*address) == old(self).effective(*address),
                }
            }),
            r is Ok ==> final(cleanup_mode).touched() == old(cleanup_mode).touched_after(
                *address,
                old(self).effective(*address) matches Ok(Some(_)),
            ),
            r is Err ==> final(cleanup_mode).touched() == old(cleanup_mode).touched(),
    {
        let exists = match self.account_exists(address) {
            Ok(x) => x,
            Err(e) => {
                return Err(e);
            },
        };
        // The caller should guarantee the validity of address.
        if !crate::uint::u256_is_zero(*by) || (cleanup_mode.forces() && !exists) {
            let mut acc = match self.require_or_new_basic_account(address, &account_start_nonce) {
                Ok(acc) => acc,
                Err(e) => {
                    return Err(e);
                },
            };
            proof {
                acc.lemma_bounded();
            }
            acc.add_balance(by);
            self.update_entry_account(address, Some(acc));
        }
        if cleanup_mode.tracks() && exists {
            cleanup_mode.touch(address);
        }
        Ok(())
    }

    /// What a transfer of `by` from `from` to `to` returns, but for failures
    /// of the storage backend: an error where the sender must be read and
    /// cannot, or the receiver cannot be read.
    pub open spec fn transfer_outcome(&self, from: AddressWithSpace, to: AddressWithSpace, by: nat, tracks: bool) -> DbResult<()> {
        let debit = if by != 0 {
            unit_of(self.require_present(from))
        } else if tracks {
            unit_of(self.effective(from))
        } else {
            Ok(())
        };
        match debit {
            Err(e) => Err(e),
            Ok(()) => if from == to && by != 0 {
                Ok(())
            } else {
                unit_of(self.effective(to))
            },
        }
    }

    /// The touched accounts after a transfer of `by` from `from` to `to`,
    /// where they are tracked: the sender where it is charged or exists, and
    /// the receiver where it exists after the charge.
    pub open spec fn touched_by_transfer(
        &self,
        touched: Option<Set<AddressWithSpace>>,
        from: AddressWithSpace,
        to: AddressWithSpace,
        by: nat,
    ) -> Option<Set<AddressWithSpace>> {
        match touched {
            Some(t) => Some(t.union(if by != 0 || self.effective(from) matches Ok(Some(_)) {
                set![from]
            } else {
                Set::empty()
            }).union(if self.effective(to) matches Ok(Some(_)) || (from == to && by != 0) {
                set![to]
            } else {
                Set::empty()
            })),
            None => None,
        }
    }

    /// Moves `by` from the balance of `from` to that of `to`.
    pub fn transfer_balance(
        &mut self,
        from: &AddressWithSpace,
        to: &AddressWithSpace,
        by: &U256,
        cleanup_mode: &mut CleanupMode,
        account_start_nonce: U256,
    ) -> (r: DbResult<()>)
        requires
            old(self).wf(),
            old(cleanup_mode).wf(),
            by@ != 0 ==> (old(self).require_present(*from) matches Ok(v) ==> v.balance >= by@),
            *from != *to && by@ != 0 ==> (old(self).require_basic(*to, account_start_nonce@) matches Ok(v) ==> v.balance + by@ < u256_modulus()),
        ensures
            old(self).infallible() ==> !(r matches Err(DbError::Storage(_))),
            final(self).wf(),
            old(self).consistent() ==> final(self).consistent(),
            final(self).db_view() == old(self).db_view(),
            final(self).infallible() == old(self).infallible(),
            final(self).total_issued() == old(self).total_issued(),
            final(self).checkpoint_count() == old(self).checkpoint_count(),
            forall|i: int| #[trigger] final(self).snapshot(i) == old(self).snapshot(i),
            forall|i: int| #[trigger] final(self).snapshot_total_issued(i) == old(self).snapshot_total_issued(i),
            forall|b: AddressWithSpace| b != *from && b != *to ==> #[trigger] final(self).effective(b) == old(self).effective(b),
            final(cleanup_mode).wf(),
            final(cleanup_mode).is_force_create() == old(cleanup_mode).is_force_create(),
            r is Ok && *from != *to ==> balance_of(final(self).effective(*from)) + balance_of(final(self).effective(*to))
                == balance_of(old(self).effective(*from)) + balance_of(old(self).effective(*to)),
            r is Ok && *from != *to ==> balance_of(final(self).effective(*from)) == balance_of(old(self).effective(*from)) - by@
                && balance_of(final(self).effective(*to)) == balance_of(old(self).effective(*to)) + by@,
            r is Ok && *from == *to ==> balance_of(final(self).effective(*from)) == balance_of(old(self).effective(*from)),
            read_matches(r, old(self).transfer_outcome(*from, *to, by@, old(cleanup_mode).touched() is Some)),
            r is Ok && *from != *to ==> final(self).effective(*to) == if by@ != 0 || (old(cleanup_mode).is_force_create()
                && old(self).effective(*to) == Ok::<Option<OverlayView>, DbError>(None)) {
                match old(self).require_basic(*to, account_start_nonce@) {
                    Ok(v) => Ok::<Option<OverlayView>, DbError>(Some(OverlayView { balance: v.balance + by@, ..v })),
                    Err(e) => Err::<Option<OverlayView>, DbError>(e),
                }
            } else {
                old(self).effective(*to)
            },
            r is Ok && *from != *to && by@ != 0 ==> final(self).effective(*from) == match old(self).require_present(*from) {
                Ok(v) => Ok::<Option<OverlayView>, DbError>(Some(OverlayView { balance: (v.balance - by@) as nat, ..v })),
                Err(e) => Err::<Option<OverlayView>, DbError>(e),
            },
            r is Ok ==> final(cleanup_mode).touched() == old(self).touched_by_transfer(old(cleanup_mode).touched(), *from, *to, by@),
    {
        let ghost s0 = *self;
        let ghost t0 = cleanup_mode.touched();
        match self.sub_balance(from, by, cleanup_mode) {
            Ok(()) => {},
            Err(e) => {
                return Err(e);
            },
        }
        let ghost t1 = cleanup_mode.touched();
        let ghost s1 = *self;
        let res = self.add_balance(to, by, cleanup_mode, account_start_nonce);
        proof {
            if res is Ok && t0 is Some {
                let a = if by@ != 0 || s0.effective(*from) matches Ok(Some(_)) { set![*from] } else { Set::<AddressWithSpace>::empty() };
                let b = if s0.effective(*to) matches Ok(Some(_)) || (*from == *to && by@ != 0) { set![*to] } else { Set::<AddressWithSpace>::empty() };
                assert(t1 == Some(t0.unwrap().union(a))) by {
                    if by@ != 0 || s0.effective(*from) matches Ok(Some(_)) {
                        assert(t0.unwrap().insert(*from) =~= t0.unwrap().union(a));
                    } else {
                        assert(t0.unwrap() =~= t0.unwrap().union(a));
                    }
                }
                assert((s1.effective(*to) matches Ok(Some(_))) == (s0.effective(*to) matches Ok(Some(_)) || (*from == *to && by@ != 0)));
                if s1.effective(*to) matches Ok(Some(_)) {
                    assert(t0.unwrap().union(a).insert(*to) =~= t0.unwrap().union(a).union(b));
                } else {
                    assert(t0.unwrap().union(a) =~= t0.unwrap().union(a).union(b));
                }
            }
        }
        res
    }

    /// Writes slot `key` of the existing account at `address`, where its value changes.
    pub fn set_storage(&mut self, address: &AddressWithSpace, key: Vec<u8>, value: U256) -> (r: DbResult<()>)
        requires
            old(self).wf(),
        ensures
            old(self).infallible() ==> !(r matches Err(DbError::Storage(_))),
            final(self).frame(old(self), *address),
            ({
                let cur = spec_storage_at(old(self).effective(*address), old(self).db_view(), key@);
                &&& read_matches(
                    r,
                    match cur {
                        Err(e) => Err(e),
                        Ok(c) => if c == value@ { Ok(()) } else { unit_of(old(self).require_present(*address)) },
                    },
                )
                &&& match (r, cur, old(self).require_present(*address)) {
                    (Ok(()), Ok(c), Ok(v)) if c != value@ => final(self).effective(*address) == Ok::<Option<OverlayView>, DbError>(
                        Some(OverlayView { storage: v.storage.insert(key@, value@), ..v }),
                    ),
                    _ => final(self).effective(*address) == old(self).effective(*address),
                }
            }),
    {
        let current = match self.storage_at(address, key.as_slice()) {
            Ok(v) => v,
            Err(e) => {
                return Err(e);
            },
        };
        if !crate::uint::u256_eq(current, value) {
            let mut acc = match self.require_exists(address, false) {
                Ok(acc) => acc,
                Err(e) => {
                    return Err(e);
                },
            };
            acc.set_storage(key, value);
            self.update_entry_account(address, Some(acc));
        }
        Ok(())
    }

    /// Writes slot `key` of the system storage account.
    pub fn set_system_storage(&mut self, key: Vec<u8>, value: U256) -> (r: DbResult<()>)
        requires
            old(self).wf(),
        ensures
            old(self).infallible() ==> !(r matches Err(DbError::Storage(_))),
            ({
                let address = AddressWithSpace { address: Address(system_storage_bytes()), space: Space::Ethereum };
                let cur = spec_storage_at(old(self).effective(address), old(self).db_view(), key@);
                &&& final(self).frame(old(self), address)
                &&& read_matches(
                    r,
                    match cur {
                        Err(e) => Err(e),
                        Ok(c) => if c == value@ { Ok(()) } else { unit_of(old(self).require_present(address)) },
                    },
                )
                &&& match (r, cur, old(self).require_present(address)) {
                    (Ok(()), Ok(c), Ok(v)) if c != value@ => final(self).effective(address) == Ok::<Option<OverlayView>, DbError>(
                        Some(OverlayView { storage: v.storage.insert(key@, value@), ..v }),
                    ),
                    _ => final(self).effective(address) == old(self).effective(address),
                }
            }),
    {
        let address = system_storage_address().with_evm_space();
        proof {
            lemma_system_storage_address(address);
        }
        self.set_storage(&address, key, value)
    }

    /// Reads slot `key` of the system storage account.
    pub fn get_system_storage(&self, key: &[u8]) -> (r: DbResult<U256>)
        requires
            self.wf(),
        ensures
            self.infallible() ==> !(r matches Err(DbError::Storage(_))),
            read_matches(
                match r {
                    Ok(v) => Ok::<nat, DbError>(v@),
                    Err(e) => Err::<nat, DbError>(e),
                },
                spec_storage_at(
                    self.effective(AddressWithSpace { address: Address(system_storage_bytes()), space: Space::Ethereum }),
                    self.db_view(),
                    key@,
                ),
            ),
    {
        let address = system_storage_address().with_evm_space();
        proof {
            lemma_system_storage_address(address);
        }
        self.storage_at(&address, key)
    }
}

} // verus!

verus! {

impl<S: StorageTrait> State<S> {
    /// Create a recoverable checkpoint of this state. Return the checkpoint
    /// index. The checkpoint records any old value which is alive at the
    /// creation time of the checkpoint and updated after that and before
    /// the creation of the next checkpoint.
    pub fn checkpoint(&mut self) -> (r: usize)
        requires
            old(self).wf(),
        ensures
            final(self).infallible() == old(self).infallible(),
            r == old(self).checkpoint_count(),
            final(self).wf(),
            old(self).consistent() ==> final(self).consistent(),
            final(self).checkpoint_count() == old(self).checkpoint_count() + 1,
            final(self).db_view() == old(self).db_view(),
            final(self).total_issued() == old(self).total_issued(),
            forall|b: AddressWithSpace| #[trigger] final(self).effective(b) == old(self).effective(b),
            forall|b: AddressWithSpace| #[trigger] (final(self).snapshot(r as int))(b) == old(self).effective(b),
            final(self).snapshot_total_issued(r as int) == old(self).total_issued(),
            forall|i: int| 0 <= i < r ==> #[trigger] final(self).snapshot(i) == old(self).snapshot(i),
            forall|i: int| 0 <= i < r ==> #[trigger] final(self).snapshot_total_issued(i) == old(self).snapshot_total_issued(i),
    {
        let ghost pre = *self;
        let ghost snap: Snapshot = |a: AddressWithSpace| pre.effective(a);
        self.world_statistics_checkpoints.push(self.world_statistics);
        let index = self.checkpoints.len();
        self.checkpoints.push(AssocMap::new());
        self.snapshots = Ghost(self.snapshots@.push(snap));
        assert forall|b: AddressWithSpace| #[trigger] self.effective(b) == pre.effective(b) by {}
        proof {
            let n = index as int;
            assert forall|i: int| 0 <= i < n + 1 implies #[trigger] self.cp_wf(i) by {
                if i < n {
                    assert(pre.cp_wf(i));
                    assert(self.checkpoints@[i] == pre.checkpoints@[i]);
                }
            }
            if pre.consistent() {
                assert forall|i: int| 0 <= i < n + 1 implies #[trigger] self.cp_ok(i) by {
                    if i < n {
                        assert(pre.cp_ok(i));
                        assert(self.checkpoints@[i] == pre.checkpoints@[i]);
                        let cp0 = self.checkpoints@[i].view();
                        assert forall|b: AddressWithSpace| !cp0.contains_key(b) implies #[trigger] self.next_snapshot(i, b) == (self.snapshots@[i])(b) by {
                            assert(pre.next_snapshot(i, b) == (pre.snapshots@[i])(b));
                        }
                    } else {
                        let cpn = self.checkpoints@[i].view();
                        assert forall|b: AddressWithSpace| !cpn.contains_key(b) implies #[trigger] self.next_snapshot(i, b) == (self.snapshots@[i])(b) by {}
                    }
                }
            }
        }
        index
    }

    /// Merge last checkpoint with previous.
    pub fn discard_checkpoint(&mut self)
        requires
            old(self).wf(),
        ensures
            final(self).wf(),
            old(self).consistent() ==> final(self).consistent(),
            final(self).checkpoint_count() == if old(self).checkpoint_count() > 0 {
                (old(self).checkpoint_count() - 1) as nat
            } else {
                0
            },
            final(self).db_view() == old(self).db_view(),
            final(self).total_issued() == old(self).total_issued(),
            forall|b: AddressWithSpace| #[trigger] final(self).effective(b) == old(self).effective(b),
            forall|i: int| 0 <= i < final(self).checkpoint_count() ==> #[trigger] final(self).snapshot(i) == old(self).snapshot(i),
            forall|i: int| 0 <= i < final(self).checkpoint_count() ==> #[trigger] final(self).snapshot_total_issued(i) == old(self).snapshot_total_issued(i),
    {
        if self.checkpoints.len() == 0 {
            return;
        }
        let ghost pre = *self;
        let ghost n = pre.checkpoints@.len() as int;
        let checkpoint = self.checkpoints.pop().unwrap();
        self.world_statistics_checkpoints.pop();
        self.snapshots = Ghost(self.snapshots@.drop_last());
        proof {
            assert(pre.cp_wf(n - 1));
        }
        if self.checkpoints.len() > 0 {
            let mut prev = self.checkpoints.pop().unwrap();
            proof {
                assert(pre.cp_wf(n - 2));
            }
            let ghost p0 = prev.view();
            if prev.is_empty() {
                prev = checkpoint;
                assert(prev.view() =~= checkpoint.view().union_prefer_right(p0));
            } else {
                prev.merge_missing(checkpoint);
            }
            self.checkpoints.push(prev);
        }
        assert forall|b: AddressWithSpace| #[trigger] self.effective(b) == pre.effective(b) by {}
        proof {
            let m = n - 1;
            assert(self.checkpoints@.len() == m);
            assert forall|i: int| 0 <= i < m implies #[trigger] self.cp_wf(i) by {
                assert(pre.cp_wf(i));
                if i < m - 1 {
                    assert(self.checkpoints@[i] == pre.checkpoints@[i]);
                } else {
                    let cpn = self.checkpoints@[i].view();
                    assert forall|a: AddressWithSpace| #[trigger] cpn.contains_key(a) implies (cpn[a] matches Some(e) ==> entry_addressed(e, a)) by {
                        if !pre.checkpoints@[i].view().contains_key(a) {
                            assert(pre.checkpoints@[n - 1].view().contains_key(a));
                        }
                    }
                }
            }
            if pre.consistent() {
                assert forall|i: int| 0 <= i < m implies #[trigger] self.cp_ok(i) by {
                    assert(pre.cp_ok(i));
                    let db = self.db.db_view();
                    if i < m - 1 {
                        assert(self.checkpoints@[i] == pre.checkpoints@[i]);
                        let cp0 = self.checkpoints@[i].view();
                        assert forall|b: AddressWithSpace| !cp0.contains_key(b) implies #[trigger] self.next_snapshot(i, b) == (self.snapshots@[i])(b) by {
                            assert(pre.next_snapshot(i, b) == (pre.snapshots@[i])(b));
                        }
                    } else {
                        assert(pre.cp_ok(n - 1));
                        let cpn = self.checkpoints@[i].view();
                        let cpp = pre.checkpoints@[i].view();
                        let cpl = pre.checkpoints@[n - 1].view();
                        assert forall|a: AddressWithSpace| #[trigger] cpn.contains_key(a) implies (cpn[a] matches Some(e) ==> entry_consistent(e, db, a)) && record_effective(cpn[a], db, a) == (self.snapshots@[i])(a) by {
                            if !cpp.contains_key(a) {
                                assert(cpl.contains_key(a));
                                assert(pre.next_snapshot(i, a) == (pre.snapshots@[i])(a));
                            }
                        }
                        assert forall|a: AddressWithSpace| !cpn.contains_key(a) implies #[trigger] self.next_snapshot(i, a) == (self.snapshots@[i])(a) by {
                            assert(!cpp.contains_key(a) && !cpl.contains_key(a));
                            assert(pre.next_snapshot(i, a) == (pre.snapshots@[i])(a));
                            assert(pre.next_snapshot(n - 1, a) == (pre.snapshots@[n - 1])(a));
                        }
                    }
                }
            }
        }
    }
    /// Puts back into the cache what the records of a checkpoint hold: a
    /// saved entry is restored, and where none was saved a dirty entry is
    /// dropped.
    fn restore_records(&mut self, records: AssocMap<AddressWithSpace, Option<AccountEntry>>)
        requires
            old(self).wf(),
            records.wf(),
            forall|a: AddressWithSpace| #[trigger] records.view().contains_key(a) ==> (records.view()[a] matches Some(e) ==> entry_addressed(e, a)),
        ensures
            final(self).wf(),
            final(self).same_but_cache(old(self)),
            final(self).checkpoints@ == old(self).checkpoints@,
            forall|a: AddressWithSpace| !records.view().contains_key(a) ==> #[trigger] final(self).cached(a) == old(self).cached(a),
            forall|a: AddressWithSpace| !records.view().contains_key(a) ==> (#[trigger] final(self).cache.view().contains_key(a) ==> final(self).cache.view()[a] == old(self).cache.view()[a]),
            ({
                let db = old(self).db.db_view();
                (forall|a: AddressWithSpace| #[trigger] old(self).cache.view().contains_key(a) ==> entry_consistent(old(self).cache.view()[a], db, a))
                    && (forall|a: AddressWithSpace| #[trigger] records.view().contains_key(a) ==> (records.view()[a] matches Some(e) ==> entry_consistent(e, db, a)))
                ==> {
                    &&& forall|a: AddressWithSpace| #[trigger] final(self).cache.view().contains_key(a) ==> entry_consistent(final(self).cache.view()[a], db, a)
                    &&& forall|a: AddressWithSpace| #[trigger] records.view().contains_key(a) ==> final(self).effective(a) == record_effective(records.view()[a], db, a)
                }
            }),
    {
        let ghost pre = *self;
        let ghost c = records;
        let ghost n0 = c.len_spec();
        let ghost db = pre.db.db_view();
        let ghost cons = (forall|a: AddressWithSpace| #[trigger] pre.cache.view().contains_key(a) ==> entry_consistent(pre.cache.view()[a], db, a))
            && (forall|a: AddressWithSpace| #[trigger] c.view().contains_key(a) ==> (c.view()[a] matches Some(e) ==> entry_consistent(e, db, a)));
        let mut records = records;
        let mut entries = records.take_all();
        while entries.len() > 0
            invariant
                self.wf(),
                self.same_but_cache(&pre),
                self.checkpoints@ == pre.checkpoints@,
                db == pre.db.db_view(),
                c.wf(),
                n0 == c.len_spec(),
                entries@.len() <= n0,
                forall|j: int| 0 <= j < entries@.len() ==> #[trigger] entries@[j] == c.entry_seq()[j],
                forall|a: AddressWithSpace| #[trigger] c.view().contains_key(a) ==> (c.view()[a] matches Some(e) ==> entry_addressed(e, a)),
                cons == ((forall|a: AddressWithSpace| #[trigger] pre.cache.view().contains_key(a) ==> entry_consistent(pre.cache.view()[a], db, a))
                    && (forall|a: AddressWithSpace| #[trigger] c.view().contains_key(a) ==> (c.view()[a] matches Some(e) ==> entry_consistent(e, db, a)))),
                forall|a: AddressWithSpace| !(exists|j: int| entries@.len() <= j < n0 && c.key_at(j) == a) ==> (#[trigger] self.cache.view().contains_key(a) == pre.cache.view().contains_key(a)
                    && (self.cache.view().contains_key(a) ==> self.cache.view()[a] == pre.cache.view()[a])),
                cons ==> forall|a: AddressWithSpace| #[trigger] self.cache.view().contains_key(a) ==> entry_consistent(self.cache.view()[a], db, a),
                cons ==> forall|j: int| entries@.len() <= j < n0 ==> #[trigger] self.effective(c.key_at(j)) == record_effective(c.value_at(j), db, c.key_at(j)),
            decreases entries@.len(),
        {
            let ghost len = entries@.len() as int;
            let ghost s1 = *self;
            let (k, v) = entries.pop().unwrap();
            assert(c.key_at(len - 1) == k && c.value_at(len - 1) == v) by {
                assert(c.entry_seq()[len - 1] == (k, v));
            }
            proof {
                c.lemma_index(len - 1);
            }
            match v {
                Some(e) => {
                    if self.cache.contains_key(&k) {
                        let mut ce = self.cache.remove(&k).unwrap();
                        ce.overwrite_with(e);
                        self.cache.insert(k, ce);
                    } else {
                        self.cache.insert(k, e);
                    }
                },
                None => {
                    let dirty = match self.cache.get(&k) {
                        Some(ce) => ce.is_dirty(),
                        None => false,
                    };
                    if dirty {
                        self.cache.remove(&k);
                    }
                },
            }
            assert(self.cache.view().remove(k) =~= s1.cache.view().remove(k));
            proof {
                assert forall|a: AddressWithSpace| #[trigger] self.cache.view().contains_key(a) implies entry_addressed(self.cache.view()[a], a) by {
                    if a != k {
                        assert(s1.cache.view().contains_key(a));
                    }
                }
                assert forall|i: int| 0 <= i < self.checkpoints@.len() implies #[trigger] self.cp_wf(i) by {
                    assert(s1.cp_wf(i));
                }
                assert forall|a: AddressWithSpace| !(exists|j: int| len - 1 <= j < n0 && c.key_at(j) == a) implies (#[trigger] self.cache.view().contains_key(a) == pre.cache.view().contains_key(a)
                    && (self.cache.view().contains_key(a) ==> self.cache.view()[a] == pre.cache.view()[a])) by {
                    assert(a != c.key_at(len - 1));
                    if exists|j: int| len <= j < n0 && c.key_at(j) == a {
                        let j = choose|j: int| len <= j < n0 && c.key_at(j) == a;
                        assert(len - 1 <= j < n0 && c.key_at(j) == a);
                    }
                    assert(self.cache.view().contains_key(a) == s1.cache.view().contains_key(a));
                }
                if cons {
                    assert(!(exists|j: int| len <= j < n0 && c.key_at(j) == k)) by {
                        if exists|j: int| len <= j < n0 && c.key_at(j) == k {
                            let j = choose|j: int| len <= j < n0 && c.key_at(j) == k;
                            assert(c.key_at(j) == c.key_at(len - 1));
                        }
                    }
                    assert(s1.cache.view().contains_key(k) == pre.cache.view().contains_key(k));
                    assert forall|a: AddressWithSpace| #[trigger] self.cache.view().contains_key(a) implies entry_consistent(self.cache.view()[a], db, a) by {
                        if a != k {
                            assert(s1.cache.view().contains_key(a));
                        } else if s1.cache.view().contains_key(k) {
                            assert(pre.cache.view().contains_key(k));
                        }
                    }
                    assert forall|j: int| len - 1 <= j < n0 implies #[trigger] self.effective(c.key_at(j)) == record_effective(c.value_at(j), db, c.key_at(j)) by {
                        if j != len - 1 {
                            assert(c.key_at(j) != k);
                            assert(s1.effective(c.key_at(j)) == record_effective(c.value_at(j), db, c.key_at(j)));
                            assert(self.cache.view().contains_key(c.key_at(j)) == s1.cache.view().contains_key(c.key_at(j)));
                        } else if s1.cache.view().contains_key(k) {
                            assert(pre.cache.view().contains_key(k));
                        }
                    }
                }
            }
        }
        proof {
            assert forall|a: AddressWithSpace| !c.view().contains_key(a) implies !(exists|j: int| 0 <= j < n0 && c.key_at(j) == a) by {
                if exists|j: int| 0 <= j < n0 && c.key_at(j) == a {
                    let j = choose|j: int| 0 <= j < n0 && c.key_at(j) == a;
                    c.lemma_index(j);
                }
            }
            if cons {
                assert forall|a: AddressWithSpace| #[trigger] c.view().contains_key(a) implies self.effective(a) == record_effective(c.view()[a], db, a) by {
                    let j = c.index_of(a);
                    c.lemma_index(j);
                    assert(self.effective(c.key_at(j)) == record_effective(c.value_at(j), db, c.key_at(j)));
                }
            }
        }
    }

    /// Revert to the last checkpoint and discard it.
    pub fn revert_to_checkpoint(&mut self)
        requires
            old(self).wf(),
        ensures
            final(self).wf(),
            old(self).consistent() ==> final(self).consistent(),
            final(self).db_view() == old(self).db_view(),
            old(self).checkpoint_count() == 0 ==> final(self).unchanged(old(self)),
            old(self).checkpoint_count() > 0 ==> {
                let n = old(self).checkpoint_count() - 1;
                &&& final(self).checkpoint_count() == n
                &&& final(self).total_issued() == old(self).snapshot_total_issued(n)
                &&& forall|i: int| 0 <= i < n ==> #[trigger] final(self).snapshot(i) == old(self).snapshot(i)
                &&& forall|i: int| 0 <= i < n ==> #[trigger] final(self).snapshot_total_issued(i) == old(self).snapshot_total_issued(i)
                &&& old(self).consistent() ==> forall|b: AddressWithSpace| #[trigger] final(self).effective(b) == (old(self).snapshot(n))(b)
            },
    {
        if self.checkpoints.len() == 0 {
            assert forall|i: int| #[trigger] self.snapshot(i) == self.snapshot(i) by {}
            return;
        }
        let ghost pre = *self;
        let ghost n = pre.checkpoints@.len() as int;
        let checkpoint = self.checkpoints.pop().unwrap();
        self.world_statistics = self.world_statistics_checkpoints.pop().unwrap();
        self.snapshots = Ghost(self.snapshots@.drop_last());
        proof {
            assert(pre.cp_wf(n - 1));
            assert forall|i: int| 0 <= i < n - 1 implies #[trigger] self.cp_wf(i) by {
                assert(pre.cp_wf(i));
                assert(self.checkpoints@[i] == pre.checkpoints@[i]);
            }
        }
        let ghost mid = *self;
        let ghost cpv = checkpoint.view();
        self.restore_records(checkpoint);
        proof {
            let db = self.db.db_view();
            if pre.consistent() {
                assert(pre.cp_ok(n - 1));
                assert forall|b: AddressWithSpace| #[trigger] self.effective(b) == (pre.snapshots@[n - 1])(b) by {
                    if !cpv.contains_key(b) {
                        assert(self.cached(b) == mid.cached(b));
                        assert(pre.next_snapshot(n - 1, b) == (pre.snapshots@[n - 1])(b));
                    }
                }
                assert forall|i: int| 0 <= i < n - 1 implies #[trigger] self.cp_ok(i) by {
                    assert(pre.cp_ok(i));
                    assert(self.checkpoints@[i] == pre.checkpoints@[i]);
                    let cp0 = self.checkpoints@[i].view();
                    assert forall|b: AddressWithSpace| !cp0.contains_key(b) implies #[trigger] self.next_snapshot(i, b) == (self.snapshots@[i])(b) by {
                        assert(pre.next_snapshot(i, b) == (pre.snapshots@[i])(b));
                    }
                }
            }
        }
    }
}

} // verus!

verus! {

/// What committing the cache entry of `a` writes to `db`.
pub open spec fn spec_commit_entry(db: Map<Seq<u8>, Seq<u8>>, a: AddressWithSpace, e: AccountEntry) -> Map<Seq<u8>, Seq<u8>> {
    match e.account {
        Some(acc) => if acc.view().removed_without_update() {
            db
        } else {
            spec_commit_account(db, acc.view(), acc.storage_writes(), a)
        },
        None => db,
    }
}

/// Committing entries in order.
pub open spec fn spec_commit_entries(db: Map<Seq<u8>, Seq<u8>>, s: Seq<(AddressWithSpace, AccountEntry)>) -> Map<Seq<u8>, Seq<u8>>
    decreases s.len(),
{
    if s.len() == 0 {
        db
    } else {
        spec_commit_entry(spec_commit_entries(db, s.drop_last()), s.last().0, s.last().1)
    }
}

/// The account record that committing the entry writes decodes to the
/// account's balance, nonce and code hash.
pub open spec fn entry_encodes(e: AccountEntry) -> bool {
    match e.account {
        Some(acc) => !acc.view().removed_without_update() && !acc.view().is_null() ==> spec_decode_account_fields(
            spec_rlp_encode_account(acc.view().balance, acc.view().nonce, acc.view().code_hash),
        ) == Ok::<(nat, nat, Seq<u8>), crate::codec::RlpError>((acc.view().balance, acc.view().nonce, acc.view().code_hash)),
        None => true,
    }
}

/// Whether the storage of an account with cache entry `entry` reads the
/// same once the cache is committed: an account that is not cached, or one
/// cached with storage that reads through to the database (not fresh) and
/// that is not null.
pub open spec fn storage_reads_kept(entry: Option<AccountEntry>) -> bool {
    match entry {
        None => true,
        Some(e) => match e.account {
            Some(acc) => !acc.view().fresh_storage() && !acc.view().is_null(),
            None => false,
        },
    }
}

/// The storage writes that committing the entry makes are its written
/// slots, each once, and each non-zero value reads back from its encoding.
pub open spec fn entry_storage_encodes(e: AccountEntry) -> bool {
    match e.account {
        Some(acc) => !acc.view().removed_without_update() ==> writes_encode(acc.storage_writes()) && writes_match(
            acc.view(),
            acc.storage_writes(),
        ),
        None => true,
    }
}

/// Whether a cache entry holds an account removed in this state and not
/// written since.
pub open spec fn entry_killed(e: AccountEntry) -> bool {
    match e.account {
        Some(acc) => acc.view().removed_without_update(),
        None => false,
    }
}

/// The addresses of the removed accounts among `s`, in order.
pub open spec fn spec_killed(s: Seq<(AddressWithSpace, AccountEntry)>) -> Seq<AddressWithSpace>
    decreases s.len(),
{
    if s.len() == 0 {
        Seq::empty()
    } else if entry_killed(s.last().1) {
        spec_killed(s.drop_last()).push(s.last().0)
    } else {
        spec_killed(s.drop_last())
    }
}

/// Deleting the account records of `killed`, in order.
pub open spec fn spec_recycle(db: Map<Seq<u8>, Seq<u8>>, killed: Seq<AddressWithSpace>) -> Map<Seq<u8>, Seq<u8>>
    decreases killed.len(),
{
    if killed.len() == 0 {
        db
    } else {
        spec_recycle(db, killed.drop_last()).remove(account_key_bytes(killed.last()))
    }
}

/// A cache entry whose commit is defined: the account to be written
/// changes no storage layout, which the state database cannot store.
pub open spec fn entry_committable(e: AccountEntry) -> bool {
    match e.account {
        Some(acc) => !acc.view().removed_without_update() ==> acc.view().layout is None,
        None => true,
    }
}

/// The total of issued tokens written to `db`.
pub open spec fn spec_put_total_issued(db: Map<Seq<u8>, Seq<u8>>, total: nat) -> Map<Seq<u8>, Seq<u8>> {
    spec_put(db, total_tokens_key_bytes(), total == 0, spec_rlp_encode_u256(total))
}

impl<S: StorageTrait> State<S> {
    /// The cache entries in their stored order.
    pub closed spec fn cache_entries(&self) -> Seq<(AddressWithSpace, AccountEntry)> {
        self.cache.entry_seq()
    }

    /// Commits `entries` in order, adding the removed accounts to `killed`.
    fn commit_entries(
        &mut self,
        entries: Vec<(AddressWithSpace, AccountEntry)>,
        killed: &mut Vec<AddressWithSpace>,
    ) -> (r: DbResult<()>)
        requires
            forall|j: int| 0 <= j < entries@.len() ==> #[trigger] entry_committable(entries@[j].1),
        ensures
            final(self).cache == old(self).cache,
            final(self).world_statistics == old(self).world_statistics,
            final(self).checkpoints@ == old(self).checkpoints@,
            final(self).world_statistics_checkpoints@ == old(self).world_statistics_checkpoints@,
            final(self).snapshots@ == old(self).snapshots@,
            r is Ok ==> final(self).db.db_view() == spec_commit_entries(old(self).db.db_view(), entries@),
            r is Ok ==> final(killed)@ == old(killed)@ + spec_killed(entries@),
            r is Ok ==> forall|j: int| 0 <= j < entries@.len() ==> #[trigger] entry_encodes(entries@[j].1),
            r is Ok ==> forall|j: int| 0 <= j < entries@.len() ==> #[trigger] entry_storage_encodes(entries@[j].1),
            r matches Err(e) ==> e is Storage,
            old(self).db.infallible() ==> r is Ok,
            final(self).db.infallible() == old(self).db.infallible(),
    {
        let ghost s = entries@;
        let ghost db0 = self.db.db_view();
        let ghost k0 = killed@;
        let ghost pre = *self;
        let mut rest = entries;
        let ghost mut i: int = 0;
        let mut failed: Option<DbError> = None;
        while rest.len() > 0 && failed.is_none()
            invariant
                0 <= i <= s.len(),
                rest@ == s.skip(i),
                forall|j: int| 0 <= j < s.len() ==> #[trigger] entry_committable(s[j].1),
                self.cache == pre.cache,
                self.world_statistics == pre.world_statistics,
                self.checkpoints@ == pre.checkpoints@,
                self.world_statistics_checkpoints@ == pre.world_statistics_checkpoints@,
                self.snapshots@ == pre.snapshots@,
                failed is None ==> self.db.db_view() == spec_commit_entries(db0, s.take(i)),
                failed is None ==> killed@ == k0 + spec_killed(s.take(i)),
                failed is None ==> forall|j: int| 0 <= j < i ==> #[trigger] entry_encodes(s[j].1),
                failed is None ==> forall|j: int| 0 <= j < i ==> #[trigger] entry_storage_encodes(s[j].1),
                failed matches Some(e) ==> e is Storage,
                self.db.infallible() == pre.db.infallible(),
                pre.db.infallible() ==> failed is None,
            decreases rest@.len(),
        {
            let (address, entry) = rest.remove(0);
            assert((address, entry) == s[i]);
            assert(s.take(i + 1).drop_last() =~= s.take(i));
            assert(s.take(i + 1).last() == s[i]);
            assert(entry_committable(s[i].1));
            match entry.account {
                None => {},
                Some(mut account) => {
                    if account.removed_without_update() {
                        killed.push(address);
                        self.accounts_to_notify.push(Err(address));
                    } else {
                        match account.commit(&mut self.db, &address, None) {
                            Ok(()) => {
                                self.accounts_to_notify.push(Ok(account.as_account()));
                            },
                            Err(e) => {
                                failed = Some(e);
                            },
                        }
                    }
                },
            }
            proof {
                i = i + 1;
            }
            assert(rest@ =~= s.skip(i));
            assert(failed is None ==> killed@ =~= k0 + spec_killed(s.take(i)));
        }
        if let Some(e) = failed {
            return Err(e);
        }
        assert(s.take(i) =~= s);
        Ok(())
    }

    /// Assume that only contract with zero `collateral_for_storage` will be
    /// killed.
    pub fn recycle_storage(
        &mut self,
        killed_addresses: Vec<AddressWithSpace>,
        debug_record: Option<&mut ComputeEpochDebugRecord>,
    ) -> (r: DbResult<()>)
        requires
            old(self).wf(),
        ensures
            final(self).wf(),
            final(self).checkpoint_count() == old(self).checkpoint_count(),
            final(self).total_issued() == old(self).total_issued(),
            forall|a: AddressWithSpace| #[trigger] final(self).cached(a) == old(self).cached(a),
            r is Ok ==> final(self).db_view() == spec_recycle(old(self).db_view(), killed_addresses@),
            r matches Err(e) ==> e is Storage,
            r is Err ==> exists|i: int| 0 <= i < killed_addresses@.len()
                && final(self).db_view() == #[trigger] spec_recycle(old(self).db_view(), killed_addresses@.take(i)),
            old(self).infallible() ==> r is Ok,
            final(self).infallible() == old(self).infallible(),
    {
        let ghost pre = *self;
        let ghost ks = killed_addresses@;
        let mut i: usize = 0;
        let mut failed: Option<DbError> = None;
        while i < killed_addresses.len() && failed.is_none()
            invariant
                0 <= i <= ks.len(),
                ks == killed_addresses@,
                self.cache == pre.cache,
                self.world_statistics == pre.world_statistics,
                self.checkpoints@ == pre.checkpoints@,
                self.world_statistics_checkpoints@ == pre.world_statistics_checkpoints@,
                self.snapshots@ == pre.snapshots@,
                failed is None ==> self.db.db_view() == spec_recycle(pre.db.db_view(), ks.take(i as int)),
                failed is Some ==> 0 < i && self.db.db_view() == spec_recycle(pre.db.db_view(), ks.take(i - 1)),
                failed matches Some(e) ==> e is Storage,
                self.db.infallible() == pre.db.infallible(),
                pre.db.infallible() ==> failed is None,
            decreases ks.len() - i,
        {
            let address = killed_addresses[i];
            assert(ks.take(i + 1).drop_last() =~= ks.take(i as int));
            match self.db.delete(StateKey::new_account_key(&address), None) {
                Ok(()) => {},
                Err(e) => {
                    failed = Some(e);
                },
            }
            i += 1;
        }
        proof {
            assert forall|j: int| 0 <= j < self.checkpoints@.len() implies #[trigger] self.cp_wf(j) by {
                assert(pre.cp_wf(j));
            }
        }
        if let Some(e) = failed {
            assert(0 <= i - 1 < killed_addresses@.len()
                && self.db_view() == spec_recycle(pre.db_view(), killed_addresses@.take(i - 1)));
            return Err(e);
        }
        assert(ks.take(ks.len() as int) =~= ks);
        Ok(())
    }

    fn commit_world_statistics(&mut self, debug_record: Option<&mut ComputeEpochDebugRecord>) -> (r: DbResult<()>)
        ensures
            final(self).cache == old(self).cache,
            final(self).world_statistics == old(self).world_statistics,
            final(self).checkpoints@ == old(self).checkpoints@,
            final(self).world_statistics_checkpoints@ == old(self).world_statistics_checkpoints@,
            final(self).snapshots@ == old(self).snapshots@,
            r is Ok ==> final(self).db.db_view() == spec_put_total_issued(old(self).db.db_view(), old(self).world_statistics.total_issued_tokens@),
            r is Ok ==> spec_load_total_issued(final(self).db.db_view()) == Ok::<nat, DbError>(old(self).world_statistics.total_issued_tokens@),
            r matches Err(e) ==> e is Storage,
            old(self).db.infallible() ==> r is Ok,
            final(self).db.infallible() == old(self).db.infallible(),
    {
        let total = self.world_statistics.total_issued_tokens;
        self.db.set_total_issued_tokens(&total, debug_record)
    }

    /// Writes every cached account and the total of issued tokens to the
    /// database and commits it under `epoch_id`; the cache is emptied.
    /// Accounts are written in the order of the cache; accounts at distinct
    /// addresses are stored under disjoint keys, so any order writes the same.
    pub fn commit(&mut self, epoch_id: EpochId, debug_record: Option<&mut ComputeEpochDebugRecord>) -> (r: DbResult<()>)
        requires
            old(self).wf(),
            old(self).checkpoint_count() == 0,
            forall|j: int| 0 <= j < old(self).cache_entries().len() ==> #[trigger] entry_committable(old(self).cache_entries()[j].1),
        ensures
            final(self).wf(),
            final(self).consistent(),
            final(self).checkpoint_count() == 0,
            final(self).total_issued() == old(self).total_issued(),
            forall|a: AddressWithSpace| !(#[trigger] final(self).is_cached(a)),
            r is Ok ==> final(self).db_view() == spec_put_total_issued(
                spec_recycle(
                    spec_commit_entries(old(self).db_view(), old(self).cache_entries()),
                    spec_killed(old(self).cache_entries()),
                ),
                old(self).total_issued(),
            ),
            forall|a: AddressWithSpace| #[trigger] final(self).effective(a) == loaded_account(final(self).db_view(), a),
            r matches Err(e) ==> e is Storage,
            old(self).infallible() ==> r is Ok,
            final(self).infallible() == old(self).infallible(),
            r is Ok ==> forall|a: AddressWithSpace| #[trigger] spec_load_account(final(self).db_view(), a)
                == committed_record(old(self).db_view(), a, old(self).cache_entry(a)),
            r is Ok ==> spec_load_total_issued(final(self).db_view()) == Ok::<nat, DbError>(old(self).total_issued()),
            r is Ok ==> forall|a: AddressWithSpace| old(self).effective(a) matches Ok(Some(_)) || !old(self).is_cached(a)
                ==> #[trigger] account_reads(loaded_account(final(self).db_view(), a)) == account_reads(old(self).effective(a)),
            r is Ok ==> forall|a: AddressWithSpace, k: Seq<u8>| storage_reads_kept(old(self).cache_entry(a))
                && storage_key_bytes(a, k) != total_tokens_key_bytes()
                ==> #[trigger] spec_storage_at(final(self).effective(a), final(self).db_view(), k)
                == spec_storage_at(old(self).effective(a), old(self).db_view(), k),
    {
        let ghost pre = *self;
        let entries = self.cache.take_all();
        assert(entries@ == pre.cache_entries());
        let mut killed: Vec<AddressWithSpace> = Vec::new();
        let res = self.commit_entries(entries, &mut killed);
        if res.is_err() {
            return res;
        }
        assert(killed@ =~= spec_killed(entries@));
        let res = self.recycle_storage(killed, None);
        proof {
            assert forall|a: AddressWithSpace| !self.cache.view().contains_key(a) by {
                assert(self.cached(a) is None);
            }
        }
        if res.is_err() {
            return res;
        }
        let res = self.commit_world_statistics(None);
        if res.is_err() {
            return res;
        }
        let res = self.db.commit(epoch_id, debug_record);
        proof {
            assert forall|a: AddressWithSpace| #[trigger] spec_load_account(self.db_view(), a)
                == committed_record(pre.db_view(), a, pre.cache_entry(a)) by {
                pre.lemma_committed_record(self.db_view(), a);
            }
            assert forall|a: AddressWithSpace| pre.effective(a) matches Ok(Some(_)) || !pre.is_cached(a)
                implies #[trigger] account_reads(loaded_account(self.db_view(), a)) == account_reads(pre.effective(a)) by {
                pre.lemma_committed_record(self.db_view(), a);
            }
            assert forall|a: AddressWithSpace, k: Seq<u8>| storage_reads_kept(pre.cache_entry(a))
                && storage_key_bytes(a, k) != total_tokens_key_bytes()
                implies #[trigger] spec_storage_at(self.effective(a), self.db_view(), k)
                == spec_storage_at(pre.effective(a), pre.db_view(), k) by {
                pre.lemma_committed_storage(self.db_view(), a, k);
            }
        }
        res
    }
}

} // verus!

verus! {

/// The bytes of the system storage address.
pub open spec fn system_storage_bytes() -> [u8; 20] {
    [0x08u8, 0x88, 0, 0, 0, 0, 0, 0, 0, 0, 0, 0, 0, 0, 0, 0, 0, 0, 0, 8]
}

proof fn lemma_system_storage_address(a: AddressWithSpace)
    requires
        a.address@ == internal_contract_bytes(8),
        a.space == Space::Ethereum,
    ensures
        a == (AddressWithSpace { address: Address(system_storage_bytes()), space: Space::Ethereum }),
{
    assert(a.address.0@ =~= system_storage_bytes()@);
    assert(a.address.0 == system_storage_bytes());
}

} // verus!

verus! {

/// A state whose changes can be marked and undone.
pub trait CheckpointTrait {
    /// The state is well formed.
    spec fn checkpoint_inv(&self) -> bool;

    /// Create a recoverable checkpoint of this state. Return the checkpoint
    /// index.
    fn checkpoint(&mut self) -> (r: usize)
        requires
            old(self).checkpoint_inv(),
        ensures
            final(self).checkpoint_inv(),
    ;

    /// Merge last checkpoint with previous.
    fn discard_checkpoint(&mut self)
        requires
            old(self).checkpoint_inv(),
        ensures
            final(self).checkpoint_inv(),
    ;

    /// Revert to the last checkpoint and discard it.
    fn revert_to_checkpoint(&mut self)
        requires
            old(self).checkpoint_inv(),
        ensures
            final(self).checkpoint_inv(),
    ;
}

impl<S: StorageTrait> CheckpointTrait for State<S> {
    open spec fn checkpoint_inv(&self) -> bool {
        self.wf()
    }

    fn checkpoint(&mut self) -> (r: usize)
        ensures
            r == old(self).checkpoint_count(),
            final(self).checkpoint_count() == old(self).checkpoint_count() + 1,
            forall|b: AddressWithSpace| #[trigger] (final(self).snapshot(r as int))(b) == old(self).effective(b),
            forall|b: AddressWithSpace| #[trigger] final(self).effective(b) == old(self).effective(b),
    {
        State::checkpoint(self)
    }

    fn discard_checkpoint(&mut self)
        ensures
            forall|b: AddressWithSpace| #[trigger] final(self).effective(b) == old(self).effective(b),
            old(self).consistent() ==> final(self).consistent(),
            final(self).checkpoint_count() == if old(self).checkpoint_count() > 0 {
                (old(self).checkpoint_count() - 1) as nat
            } else {
                0
            },
            final(self).db_view() == old(self).db_view(),
            final(self).total_issued() == old(self).total_issued(),
            forall|i: int| 0 <= i < final(self).checkpoint_count() ==> #[trigger] final(self).snapshot(i) == old(self).snapshot(i),
            forall|i: int| 0 <= i < final(self).checkpoint_count() ==> #[trigger] final(self).snapshot_total_issued(i)
                == old(self).snapshot_total_issued(i),
    {
        State::discard_checkpoint(self)
    }

    fn revert_to_checkpoint(&mut self)
        ensures
            old(self).checkpoint_count() > 0 && old(self).consistent() ==> forall|b: AddressWithSpace| #[trigger] final(self).effective(b)
                == (old(self).snapshot(old(self).checkpoint_count() - 1))(b),
    {
        State::revert_to_checkpoint(self)
    }
}

} // verus!

verus! {

impl<S: StorageTrait> State<S> {
    /// Reverting to a checkpoint undoes everything done since it was made:
    /// a state `made` by `checkpoint` from `before`, changed into `changed`
    /// by operations that keep the checkpoints, and reverted into `reverted`
    /// holds the accounts and the total of issued tokens of `before`.
    pub proof fn lemma_revert_restores_checkpoint(before: &Self, made: &Self, changed: &Self, reverted: &Self)
        requires
            made.checkpoint_count() == before.checkpoint_count() + 1,
            forall|b: AddressWithSpace| #[trigger] (made.snapshot(before.checkpoint_count() as int))(b) == before.effective(b),
            made.snapshot_total_issued(before.checkpoint_count() as int) == before.total_issued(),
            changed.checkpoint_count() == made.checkpoint_count(),
            forall|i: int| #[trigger] changed.snapshot(i) == made.snapshot(i),
            forall|i: int| #[trigger] changed.snapshot_total_issued(i) == made.snapshot_total_issued(i),
            forall|b: AddressWithSpace| #[trigger] reverted.effective(b) == (changed.snapshot(changed.checkpoint_count() - 1))(b),
            reverted.total_issued() == changed.snapshot_total_issued(changed.checkpoint_count() - 1),
            reverted.checkpoint_count() == changed.checkpoint_count() - 1,
        ensures
            forall|b: AddressWithSpace| #[trigger] reverted.effective(b) == before.effective(b),
            reverted.total_issued() == before.total_issued(),
            reverted.checkpoint_count() == before.checkpoint_count(),
    {
        let n = before.checkpoint_count() as int;
        assert(changed.snapshot(n) == made.snapshot(n));
        assert forall|b: AddressWithSpace| #[trigger] reverted.effective(b) == before.effective(b) by {
            assert((made.snapshot(n))(b) == before.effective(b));
        }
        assert(changed.snapshot_total_issued(n) == made.snapshot_total_issued(n));
    }

    /// Discarding an inner checkpoint folds it into the outer one: a state
    /// `made` by `checkpoint` from `before`, changed into `changed` by
    /// operations that keep the checkpoints, given a second checkpoint in
    /// `inner`, changed again into `changed2`, then `discarded` by
    /// `discard_checkpoint`, keeps the changes of both rounds and one
    /// checkpoint less; a revert of it into `reverted` holds the accounts and
    /// the total of issued tokens of `before`, undoing both rounds.
    pub proof fn lemma_discard_then_revert(
        before: &Self,
        made: &Self,
        changed: &Self,
        inner: &Self,
        changed2: &Self,
        discarded: &Self,
        reverted: &Self,
    )
        requires
            made.checkpoint_count() == before.checkpoint_count() + 1,
            forall|b: AddressWithSpace| #[trigger] (made.snapshot(before.checkpoint_count() as int))(b) == before.effective(b),
            made.snapshot_total_issued(before.checkpoint_count() as int) == before.total_issued(),
            changed.checkpoint_count() == made.checkpoint_count(),
            forall|i: int| #[trigger] changed.snapshot(i) == made.snapshot(i),
            forall|i: int| #[trigger] changed.snapshot_total_issued(i) == made.snapshot_total_issued(i),
            inner.checkpoint_count() == changed.checkpoint_count() + 1,
            forall|b: AddressWithSpace| #[trigger] inner.effective(b) == changed.effective(b),
            forall|i: int| 0 <= i < changed.checkpoint_count() ==> #[trigger] inner.snapshot(i) == changed.snapshot(i),
            forall|i: int| 0 <= i < changed.checkpoint_count() ==> #[trigger] inner.snapshot_total_issued(i)
                == changed.snapshot_total_issued(i),
            changed2.checkpoint_count() == inner.checkpoint_count(),
            forall|i: int| #[trigger] changed2.snapshot(i) == inner.snapshot(i),
            forall|i: int| #[trigger] changed2.snapshot_total_issued(i) == inner.snapshot_total_issued(i),
            discarded.checkpoint_count() == changed2.checkpoint_count() - 1,
            discarded.total_issued() == changed2.total_issued(),
            forall|b: AddressWithSpace| #[trigger] discarded.effective(b) == changed2.effective(b),
            forall|i: int| 0 <= i < discarded.checkpoint_count() ==> #[trigger] discarded.snapshot(i) == changed2.snapshot(i),
            forall|i: int| 0 <= i < discarded.checkpoint_count() ==> #[trigger] discarded.snapshot_total_issued(i)
                == changed2.snapshot_total_issued(i),
            forall|b: AddressWithSpace| #[trigger] reverted.effective(b) == (discarded.snapshot(discarded.checkpoint_count() - 1))(b),
            reverted.total_issued() == discarded.snapshot_total_issued(discarded.checkpoint_count() - 1),
            reverted.checkpoint_count() == discarded.checkpoint_count() - 1,
        ensures
            discarded.checkpoint_count() == made.checkpoint_count(),
            forall|b: AddressWithSpace| #[trigger] discarded.effective(b) == changed2.effective(b),
            forall|b: AddressWithSpace| #[trigger] reverted.effective(b) == before.effective(b),
            reverted.total_issued() == before.total_issued(),
            reverted.checkpoint_count() == before.checkpoint_count(),
    {
        let n = before.checkpoint_count() as int;
        assert(discarded.snapshot(n) == changed2.snapshot(n));
        assert(changed2.snapshot(n) == inner.snapshot(n));
        assert(inner.snapshot(n) == changed.snapshot(n));
        assert(changed.snapshot(n) == made.snapshot(n));
        assert(discarded.snapshot_total_issued(n) == changed2.snapshot_total_issued(n));
        assert(changed2.snapshot_total_issued(n) == inner.snapshot_total_issued(n));
        assert(inner.snapshot_total_issued(n) == changed.snapshot_total_issued(n));
        assert(changed.snapshot_total_issued(n) == made.snapshot_total_issued(n));
        assert forall|b: AddressWithSpace| #[trigger] reverted.effective(b) == before.effective(b) by {
            assert((made.snapshot(n))(b) == before.effective(b));
        }
    }
}

/// A storage slot written is read back: after `set_storage` writes `value`
/// at `key`, `storage_at` gives `value`.
pub proof fn lemma_storage_read_after_write(v: OverlayView, db: Map<Seq<u8>, Seq<u8>>, key: Seq<u8>, value: nat)
    ensures
        spec_storage_at(
            Ok::<Option<OverlayView>, DbError>(Some(OverlayView { storage: v.storage.insert(key, value), ..v })),
            db,
            key,
        ) == Ok::<nat, DbError>(value),
{
}

/// A storage value that is default is not stored: it reads as absent, and
/// an account sees it as zero.
pub proof fn lemma_default_storage_is_absent(db: Map<Seq<u8>, Seq<u8>>, a: AddressWithSpace, key: Seq<u8>, bytes: Seq<u8>)
    ensures
        crate::statedb::spec_load_storage(spec_put(db, crate::storage_key::storage_key_bytes(a, key), true, bytes), a, key)
            == Ok::<Option<nat>, DbError>(None),
{
}

} // verus!

verus! {

/// `d1` and `d2` agree at key `k`.
pub open spec fn same_at(d1: Map<Seq<u8>, Seq<u8>>, d2: Map<Seq<u8>, Seq<u8>>, k: Seq<u8>) -> bool {
    &&& d1.contains_key(k) == d2.contains_key(k)
    &&& d1.contains_key(k) ==> d1[k] == d2[k]
}

/// What reads of an account report: its balance, its nonce and its code
/// hash, with zeros and the empty hash for a missing account.
pub open spec fn account_reads(eff: DbResult<Option<OverlayView>>) -> DbResult<(nat, nat, Seq<u8>)> {
    match eff {
        Ok(None) => Ok((0, 0, crate::codec::keccak_empty_bytes())),
        Ok(Some(v)) => Ok((v.balance, v.nonce, v.code_hash)),
        Err(e) => Err(e),
    }
}

/// The account record stored for `a` once the cache entry `entry` of `a`,
/// if any, is committed over `db`.
pub open spec fn committed_record(
    db: Map<Seq<u8>, Seq<u8>>,
    a: AddressWithSpace,
    entry: Option<AccountEntry>,
) -> DbResult<Option<AccountFields>> {
    match entry {
        Some(e) => match e.account {
            Some(acc) => if acc.view().removed_without_update() || acc.view().is_null() {
                Ok(None)
            } else {
                Ok(Some((acc.view().balance, acc.view().nonce, acc.view().code_hash)))
            },
            None => spec_load_account(db, a),
        },
        None => spec_load_account(db, a),
    }
}

proof fn lemma_key_lengths(a: AddressWithSpace, b: AddressWithSpace, key: Seq<u8>)
    ensures
        account_key_bytes(a).len() == 20,
        storage_key_bytes(b, key).len() >= 25,
        crate::storage_key::code_key_bytes(b).len() == 24,
        total_tokens_key_bytes().len() != 20,
        account_key_bytes(a) == account_key_bytes(b) ==> a == b,
{
    if account_key_bytes(a) == account_key_bytes(b) {
        assert(a.address.0@ == b.address.0@);
        assert(a.address.0 =~= b.address.0);
    }
}

/// Storage writes leave every account record as it is.
proof fn lemma_storage_writes_keep_records(db: Map<Seq<u8>, Seq<u8>>, b: AddressWithSpace, writes: Seq<(Seq<u8>, nat)>, a: AddressWithSpace)
    ensures
        same_at(crate::overlay::apply_storage_writes(db, b, writes), db, account_key_bytes(a)),
    decreases writes.len(),
{
    if writes.len() > 0 {
        lemma_storage_writes_keep_records(db, b, writes.drop_last(), a);
        lemma_key_lengths(a, b, writes.last().0);
    }
}

/// Committing the entry of `b` leaves the record of any other address as
/// it is, and what it leaves at the record of `b` depends on nothing else
/// in the database.
proof fn lemma_commit_entry_at(d1: Map<Seq<u8>, Seq<u8>>, d2: Map<Seq<u8>, Seq<u8>>, b: AddressWithSpace, e: AccountEntry, a: AddressWithSpace)
    requires
        entry_addressed(e, b),
        same_at(d1, d2, account_key_bytes(a)),
    ensures
        a != b ==> same_at(spec_commit_entry(d1, b, e), d1, account_key_bytes(a)),
        same_at(spec_commit_entry(d1, b, e), spec_commit_entry(d2, b, e), account_key_bytes(a)),
        a == b ==> match e.account {
            Some(acc) => if acc.view().removed_without_update() {
                same_at(spec_commit_entry(d1, b, e), d1, account_key_bytes(a))
            } else if acc.view().is_null() {
                !spec_commit_entry(d1, b, e).contains_key(account_key_bytes(a))
            } else {
                spec_commit_entry(d1, b, e).contains_key(account_key_bytes(a))
                    && spec_commit_entry(d1, b, e)[account_key_bytes(a)] == spec_rlp_encode_account(
                    acc.view().balance,
                    acc.view().nonce,
                    acc.view().code_hash,
                )
            },
            None => same_at(spec_commit_entry(d1, b, e), d1, account_key_bytes(a)),
        },
{
    let k = account_key_bytes(a);
    lemma_key_lengths(a, b, Seq::empty());
    if let Some(acc) = e.account {
        let v = acc.view();
        if !v.removed_without_update() {
            let w = acc.storage_writes();
            let x1 = if v.invalidated { d1.remove(account_key_bytes(v.address)) } else { d1 };
            let y1 = if v.invalidated { d2.remove(account_key_bytes(v.address)) } else { d2 };
            lemma_storage_writes_keep_records(x1, v.address, w, a);
            lemma_storage_writes_keep_records(y1, v.address, w, a);
            lemma_storage_writes_keep_records(d1, v.address, w, a);
        }
    }
}

/// Committing entries at distinct addresses leaves at the record of `a`
/// what committing the entry of `a` alone leaves, or the record as it was
/// where `a` has no entry.
proof fn lemma_commit_entries_at(db: Map<Seq<u8>, Seq<u8>>, s: Seq<(AddressWithSpace, AccountEntry)>, a: AddressWithSpace)
    requires
        forall|i: int, j: int| 0 <= i < s.len() && 0 <= j < s.len() && i != j ==> s[i].0 != s[j].0,
        forall|j: int| 0 <= j < s.len() ==> entry_addressed(#[trigger] s[j].1, s[j].0),
    ensures
        (forall|j: int| 0 <= j < s.len() ==> s[j].0 != a) ==> same_at(spec_commit_entries(db, s), db, account_key_bytes(a)),
        forall|j: int| 0 <= j < s.len() && s[j].0 == a ==> same_at(
            spec_commit_entries(db, s),
            spec_commit_entry(db, a, #[trigger] s[j].1),
            account_key_bytes(a),
        ),
    decreases s.len(),
{
    if s.len() > 0 {
        let p = s.drop_last();
        let last = s.last();
        lemma_commit_entries_at(db, p, a);
        let prev = spec_commit_entries(db, p);
        assert(entry_addressed(s[s.len() - 1].1, s[s.len() - 1].0));
        if last.0 == a {
            assert forall|j: int| 0 <= j < p.len() implies p[j].0 != a by {
                assert(s[j].0 != s[s.len() - 1].0);
            }
            lemma_commit_entry_at(prev, db, last.0, last.1, a);
            assert forall|j: int| 0 <= j < s.len() && s[j].0 == a implies same_at(
                spec_commit_entries(db, s),
                spec_commit_entry(db, a, #[trigger] s[j].1),
                account_key_bytes(a),
            ) by {
                if j < s.len() - 1 {
                    assert(s[j].0 != s[s.len() - 1].0);
                }
            }
        } else {
            lemma_commit_entry_at(prev, prev, last.0, last.1, a);
            if exists|j: int| 0 <= j < s.len() && s[j].0 == a {
                assert forall|j: int| 0 <= j < s.len() && s[j].0 == a implies same_at(
                    spec_commit_entries(db, s),
                    spec_commit_entry(db, a, #[trigger] s[j].1),
                    account_key_bytes(a),
                ) by {
                    assert(j < s.len() - 1);
                    assert(p[j] == s[j]);
                }
            }
            if forall|j: int| 0 <= j < s.len() ==> s[j].0 != a {
                assert forall|j: int| 0 <= j < p.len() implies p[j].0 != a by {
                    assert(p[j] == s[j]);
                }
            }
        }
    }
}

/// Storage keys of distinct slots are distinct, and no storage key is the
/// key of an account record or of code.
proof fn lemma_storage_key(a: AddressWithSpace, k: Seq<u8>, b: AddressWithSpace, k2: Seq<u8>)
    ensures
        storage_key_bytes(a, k) == storage_key_bytes(b, k2) ==> a == b && k == k2,
        storage_key_bytes(a, k) != account_key_bytes(b),
        storage_key_bytes(a, k) != crate::storage_key::code_key_bytes(b),
{
    lemma_key_lengths(b, a, k);
    lemma_key_lengths(b, b, k);
    if storage_key_bytes(a, k) == storage_key_bytes(b, k2) {
        let x = storage_key_bytes(a, k);
        assert(a.address@ =~= x.take(20));
        assert(b.address@ =~= x.take(20));
        assert(a.address.0 =~= b.address.0);
        assert(a.space == b.space) by {
            match a.space {
                Space::Ethereum => match b.space {
                    Space::Ethereum => {},
                },
            }
        }
        assert(k =~= x.skip(25));
        assert(k2 =~= x.skip(25));
    }
}

/// Storage writes of `b` leave the slot `k` of `a` as it is unless they
/// write it; where they write it, it holds the written value (none for
/// zero); and what they leave there depends on nothing else.
proof fn lemma_storage_writes_at(
    db: Map<Seq<u8>, Seq<u8>>,
    d2: Map<Seq<u8>, Seq<u8>>,
    b: AddressWithSpace,
    writes: Seq<(Seq<u8>, nat)>,
    a: AddressWithSpace,
    k: Seq<u8>,
)
    requires
        forall|i: int, j: int| 0 <= i < j < writes.len() ==> #[trigger] writes[i].0 != #[trigger] writes[j].0,
    ensures
        (a != b || forall|j: int| 0 <= j < writes.len() ==> #[trigger] writes[j].0 != k) ==> same_at(
            crate::overlay::apply_storage_writes(db, b, writes),
            db,
            storage_key_bytes(a, k),
        ),
        forall|j: int| 0 <= j < writes.len() && a == b && #[trigger] writes[j].0 == k ==> {
            let w = crate::overlay::apply_storage_writes(db, b, writes);
            &&& writes[j].1 == 0 ==> !w.contains_key(storage_key_bytes(a, k))
            &&& writes[j].1 != 0 ==> w.contains_key(storage_key_bytes(a, k)) && w[storage_key_bytes(a, k)]
                == spec_rlp_encode_u256(writes[j].1)
        },
        same_at(db, d2, storage_key_bytes(a, k)) ==> same_at(
            crate::overlay::apply_storage_writes(db, b, writes),
            crate::overlay::apply_storage_writes(d2, b, writes),
            storage_key_bytes(a, k),
        ),
    decreases writes.len(),
{
    if writes.len() > 0 {
        let p = writes.drop_last();
        let last = writes.last();
        assert forall|i: int, j: int| 0 <= i < j < p.len() implies #[trigger] p[i].0 != #[trigger] p[j].0 by {
            assert(p[i] == writes[i] && p[j] == writes[j]);
        }
        lemma_storage_writes_at(db, d2, b, p, a, k);
        lemma_storage_key(a, k, b, last.0);
        if a != b || forall|j: int| 0 <= j < writes.len() ==> #[trigger] writes[j].0 != k {
            if a == b {
                assert(writes[writes.len() - 1].0 != k);
                assert forall|j: int| 0 <= j < p.len() implies #[trigger] p[j].0 != k by {
                    assert(p[j] == writes[j]);
                }
            }
        }
        assert forall|j: int| 0 <= j < writes.len() && a == b && #[trigger] writes[j].0 == k implies {
            let w = crate::overlay::apply_storage_writes(db, b, writes);
            &&& writes[j].1 == 0 ==> !w.contains_key(storage_key_bytes(a, k))
            &&& writes[j].1 != 0 ==> w.contains_key(storage_key_bytes(a, k)) && w[storage_key_bytes(a, k)]
                == spec_rlp_encode_u256(writes[j].1)
        } by {
            if j < writes.len() - 1 {
                assert(p[j] == writes[j]);
                assert(writes[j].0 != writes[writes.len() - 1].0);
            }
        }
    }
}

/// Committing the entry of `b` leaves the slot `k` of any other address as
/// it is; for an account that is written, the slot holds what its storage
/// writes leave there; and what it leaves there depends on nothing else.
proof fn lemma_commit_entry_storage_at(
    d1: Map<Seq<u8>, Seq<u8>>,
    d2: Map<Seq<u8>, Seq<u8>>,
    b: AddressWithSpace,
    e: AccountEntry,
    a: AddressWithSpace,
    k: Seq<u8>,
)
    requires
        entry_addressed(e, b),
        entry_storage_encodes(e),
    ensures
        same_at(d1, d2, storage_key_bytes(a, k)) ==> same_at(
            spec_commit_entry(d1, b, e),
            spec_commit_entry(d2, b, e),
            storage_key_bytes(a, k),
        ),
        a != b ==> same_at(spec_commit_entry(d1, b, e), d1, storage_key_bytes(a, k)),
        e.account matches Some(acc) ==> (!acc.view().removed_without_update() ==> same_at(
            spec_commit_entry(d1, b, e),
            crate::overlay::apply_storage_writes(d1, b, acc.storage_writes()),
            storage_key_bytes(a, k),
        )),
{
    let key = storage_key_bytes(a, k);
    lemma_storage_key(a, k, b, Seq::empty());
    if let Some(acc) = e.account {
        let v = acc.view();
        if !v.removed_without_update() {
            let w = acc.storage_writes();
            let x1 = if v.invalidated { d1.remove(account_key_bytes(v.address)) } else { d1 };
            let y1 = if v.invalidated { d2.remove(account_key_bytes(v.address)) } else { d2 };
            assert(same_at(x1, d1, key));
            assert(same_at(y1, d2, key));
            lemma_storage_writes_at(x1, d1, b, w, a, k);
            lemma_storage_writes_at(x1, y1, b, w, a, k);
            lemma_storage_writes_at(d1, y1, b, w, a, k);
        }
    }
}

/// Committing entries at distinct addresses leaves at slot `k` of `a` what
/// committing the entry of `a` alone leaves, or the slot as it was where
/// `a` has no entry.
proof fn lemma_commit_entries_storage_at(
    db: Map<Seq<u8>, Seq<u8>>,
    s: Seq<(AddressWithSpace, AccountEntry)>,
    a: AddressWithSpace,
    k: Seq<u8>,
)
    requires
        forall|i: int, j: int| 0 <= i < s.len() && 0 <= j < s.len() && i != j ==> s[i].0 != s[j].0,
        forall|j: int| 0 <= j < s.len() ==> entry_addressed(#[trigger] s[j].1, s[j].0),
        forall|j: int| 0 <= j < s.len() ==> #[trigger] entry_storage_encodes(s[j].1),
    ensures
        (forall|j: int| 0 <= j < s.len() ==> s[j].0 != a) ==> same_at(spec_commit_entries(db, s), db, storage_key_bytes(a, k)),
        forall|j: int| 0 <= j < s.len() && s[j].0 == a ==> same_at(
            spec_commit_entries(db, s),
            spec_commit_entry(db, a, #[trigger] s[j].1),
            storage_key_bytes(a, k),
        ),
    decreases s.len(),
{
    if s.len() > 0 {
        let p = s.drop_last();
        let last = s.last();
        assert forall|j: int| 0 <= j < p.len() implies #[trigger] entry_storage_encodes(p[j].1) by {
            assert(p[j] == s[j]);
            assert(entry_storage_encodes(s[j].1));
        }
        assert forall|j: int| 0 <= j < p.len() implies entry_addressed(#[trigger] p[j].1, p[j].0) by {
            assert(p[j] == s[j]);
            assert(entry_addressed(s[j].1, s[j].0));
        }
        lemma_commit_entries_storage_at(db, p, a, k);
        let prev = spec_commit_entries(db, p);
        assert(entry_addressed(s[s.len() - 1].1, s[s.len() - 1].0));
        assert(entry_storage_encodes(s[s.len() - 1].1));
        if last.0 == a {
            assert forall|j: int| 0 <= j < p.len() implies p[j].0 != a by {
                assert(s[j].0 != s[s.len() - 1].0);
            }
            lemma_commit_entry_storage_at(prev, db, last.0, last.1, a, k);
            assert forall|j: int| 0 <= j < s.len() && s[j].0 == a implies same_at(
                spec_commit_entries(db, s),
                spec_commit_entry(db, a, #[trigger] s[j].1),
                storage_key_bytes(a, k),
            ) by {
                if j < s.len() - 1 {
                    assert(s[j].0 != s[s.len() - 1].0);
                }
            }
        } else {
            lemma_commit_entry_storage_at(prev, prev, last.0, last.1, a, k);
            if exists|j: int| 0 <= j < s.len() && s[j].0 == a {
                assert forall|j: int| 0 <= j < s.len() && s[j].0 == a implies same_at(
                    spec_commit_entries(db, s),
                    spec_commit_entry(db, a, #[trigger] s[j].1),
                    storage_key_bytes(a, k),
                ) by {
                    assert(j < s.len() - 1);
                    assert(p[j] == s[j]);
                }
            }
            if forall|j: int| 0 <= j < s.len() ==> s[j].0 != a {
                assert forall|j: int| 0 <= j < p.len() implies p[j].0 != a by {
                    assert(p[j] == s[j]);
                }
            }
        }
    }
}

/// Deleting account records leaves every storage slot as it is.
proof fn lemma_recycle_keeps_storage(db: Map<Seq<u8>, Seq<u8>>, killed: Seq<AddressWithSpace>, a: AddressWithSpace, k: Seq<u8>)
    ensures
        same_at(spec_recycle(db, killed), db, storage_key_bytes(a, k)),
    decreases killed.len(),
{
    if killed.len() > 0 {
        lemma_recycle_keeps_storage(db, killed.drop_last(), a, k);
        lemma_storage_key(a, k, killed.last(), Seq::empty());
    }
}

/// Deleting the records of `killed` removes that of `a` where `a` is among
/// them and leaves it as it is otherwise.
proof fn lemma_recycle_at(db: Map<Seq<u8>, Seq<u8>>, killed: Seq<AddressWithSpace>, a: AddressWithSpace)
    ensures
        killed.contains(a) ==> !spec_recycle(db, killed).contains_key(account_key_bytes(a)),
        !killed.contains(a) ==> same_at(spec_recycle(db, killed), db, account_key_bytes(a)),
    decreases killed.len(),
{
    if killed.len() > 0 {
        lemma_recycle_at(db, killed.drop_last(), a);
        lemma_key_lengths(a, killed.last(), Seq::empty());
        if killed.contains(a) && killed.last() != a {
            let i = choose|i: int| 0 <= i < killed.len() && killed[i] == a;
            assert(killed.drop_last()[i] == a);
        }
        if !killed.contains(a) {
            assert forall|i: int| 0 <= i < killed.drop_last().len() implies killed.drop_last()[i] != a by {
                assert(killed.drop_last()[i] == killed[i]);
            }
        }
    }
}

/// `a` is among the removed accounts of `s` exactly where an entry of `a`
/// holds a removed account.
proof fn lemma_killed_contains(s: Seq<(AddressWithSpace, AccountEntry)>, a: AddressWithSpace)
    ensures
        spec_killed(s).contains(a) <==> exists|j: int| 0 <= j < s.len() && s[j].0 == a && entry_killed(#[trigger] s[j].1),
    decreases s.len(),
{
    if s.len() > 0 {
        let p = s.drop_last();
        lemma_killed_contains(p, a);
        if spec_killed(s).contains(a) {
            if entry_killed(s.last().1) && s.last().0 == a {
                assert(s[s.len() - 1].0 == a && entry_killed(s[s.len() - 1].1));
            } else {
                if entry_killed(s.last().1) {
                    let i = choose|i: int| 0 <= i < spec_killed(s).len() && spec_killed(s)[i] == a;
                    assert(i < spec_killed(p).len());
                    assert(spec_killed(p)[i] == a);
                }
                assert(spec_killed(p).contains(a));
                let j = choose|j: int| 0 <= j < p.len() && p[j].0 == a && entry_killed(#[trigger] p[j].1);
                assert(s[j] == p[j]);
            }
        }
        if exists|j: int| 0 <= j < s.len() && s[j].0 == a && entry_killed(#[trigger] s[j].1) {
            let j = choose|j: int| 0 <= j < s.len() && s[j].0 == a && entry_killed(#[trigger] s[j].1);
            if j < s.len() - 1 {
                assert(p[j] == s[j]);
                assert(spec_killed(p).contains(a));
                let i = choose|i: int| 0 <= i < spec_killed(p).len() && spec_killed(p)[i] == a;
                if entry_killed(s.last().1) {
                    assert(spec_killed(s)[i] == a);
                }
            } else {
                assert(spec_killed(s)[spec_killed(s).len() - 1] == a);
            }
        }
    }
}

impl<S: StorageTrait> State<S> {
    /// The cache entry of `a`, where there is one.
    pub closed spec fn cache_entry(&self, a: AddressWithSpace) -> Option<AccountEntry> {
        if self.cache.view().contains_key(a) {
            Some(self.cache.view()[a])
        } else {
            None
        }
    }

    /// What committing the cache of `self` over its database leaves in the
    /// storage of `a`, read through the record of `a`, is what the storage
    /// of `a` read before, where `a` is not cached or is cached with storage
    /// that reads through to the database and is not null, for any slot but
    /// that of the total of issued tokens.
    proof fn lemma_committed_storage(&self, db: Map<Seq<u8>, Seq<u8>>, a: AddressWithSpace, k: Seq<u8>)
        requires
            self.wf(),
            forall|j: int| 0 <= j < self.cache.entry_seq().len() ==> #[trigger] entry_encodes(self.cache.entry_seq()[j].1),
            forall|j: int| 0 <= j < self.cache.entry_seq().len() ==> #[trigger] entry_storage_encodes(self.cache.entry_seq()[j].1),
            db == spec_put_total_issued(
                spec_recycle(
                    spec_commit_entries(self.db.db_view(), self.cache.entry_seq()),
                    spec_killed(self.cache.entry_seq()),
                ),
                self.total_issued(),
            ),
            storage_reads_kept(self.cache_entry(a)),
            storage_key_bytes(a, k) != total_tokens_key_bytes(),
        ensures
            spec_storage_at(loaded_account(db, a), db, k) == spec_storage_at(self.effective(a), self.db.db_view(), k),
    {
        let s = self.cache.entry_seq();
        let db0 = self.db.db_view();
        let key = storage_key_bytes(a, k);
        let c = spec_commit_entries(db0, s);
        let rc = spec_recycle(c, spec_killed(s));
        assert(same_at(db, rc, key));
        lemma_recycle_keeps_storage(c, spec_killed(s), a, k);
        assert forall|i: int, j: int| 0 <= i < s.len() && 0 <= j < s.len() && i != j implies s[i].0 != s[j].0 by {
            assert(self.cache.key_at(i) != self.cache.key_at(j));
        }
        assert forall|j: int| 0 <= j < s.len() implies entry_addressed(#[trigger] s[j].1, s[j].0) by {
            self.cache.lemma_index(j);
        }
        lemma_commit_entries_storage_at(db0, s, a, k);
        self.lemma_committed_record(db, a);
        if self.cache.view().contains_key(a) {
            let j = self.cache.index_of(a);
            self.cache.lemma_index(j);
            assert(s[j].0 == a);
            let e = s[j].1;
            assert(self.cache_entry(a) == Some(e));
            assert(entry_storage_encodes(s[j].1));
            let acc = e.account.unwrap();
            let v = acc.view();
            let w = acc.storage_writes();
            assert(!v.removed_without_update());
            lemma_commit_entry_storage_at(db0, db0, a, e, a, k);
            assert(same_at(db, crate::overlay::apply_storage_writes(db0, a, w), key));
            lemma_storage_writes_at(db0, db0, a, w, a, k);
            assert(self.effective(a) == Ok::<Option<OverlayView>, DbError>(Some(v)));
            assert(loaded_account(db, a) == Ok::<Option<OverlayView>, DbError>(
                Some(loaded_view(a, (v.balance, v.nonce, v.code_hash))),
            ));
            if exists|j2: int| 0 <= j2 < w.len() && #[trigger] w[j2].0 == k {
                let j2 = choose|j2: int| 0 <= j2 < w.len() && #[trigger] w[j2].0 == k;
                assert(v.storage.contains_key(w[j2].0) && v.storage[w[j2].0] == w[j2].1);
                if w[j2].1 != 0 {
                    assert(decodes_to_u256(spec_rlp_encode_u256(w[j2].1), w[j2].1));
                }
            } else {
                assert(!v.storage.contains_key(k));
            }
        } else {
            assert forall|j: int| 0 <= j < s.len() implies s[j].0 != a by {
                self.cache.lemma_index(j);
            }
        }
    }

    /// What committing the cache of `self` over its database leaves at the
    /// record of `a`: the record that the cache entry of `a` writes, or the
    /// one stored before where it writes none.
    proof fn lemma_committed_record(&self, db: Map<Seq<u8>, Seq<u8>>, a: AddressWithSpace)
        requires
            self.wf(),
            forall|j: int| 0 <= j < self.cache.entry_seq().len() ==> #[trigger] entry_encodes(self.cache.entry_seq()[j].1),
            db == spec_put_total_issued(
                spec_recycle(
                    spec_commit_entries(self.db.db_view(), self.cache.entry_seq()),
                    spec_killed(self.cache.entry_seq()),
                ),
                self.total_issued(),
            ),
        ensures
            spec_load_account(db, a) == committed_record(self.db.db_view(), a, self.cache_entry(a)),
    {
        let s = self.cache.entry_seq();
        let db0 = self.db.db_view();
        let k = account_key_bytes(a);
        let c = spec_commit_entries(db0, s);
        let rc = spec_recycle(c, spec_killed(s));
        lemma_key_lengths(a, a, Seq::empty());
        assert(same_at(db, rc, k));
        assert forall|i: int, j: int| 0 <= i < s.len() && 0 <= j < s.len() && i != j implies s[i].0 != s[j].0 by {
            assert(self.cache.key_at(i) != self.cache.key_at(j));
        }
        assert forall|j: int| 0 <= j < s.len() implies entry_addressed(#[trigger] s[j].1, s[j].0) by {
            self.cache.lemma_index(j);
        }
        lemma_commit_entries_at(db0, s, a);
        lemma_recycle_at(c, spec_killed(s), a);
        lemma_killed_contains(s, a);
        if self.cache.view().contains_key(a) {
            let j = self.cache.index_of(a);
            self.cache.lemma_index(j);
            assert(s[j].0 == a);
            let e = s[j].1;
            assert(self.cache_entry(a) == Some(e));
            lemma_commit_entry_at(db0, db0, a, e, a);
            if entry_killed(e) {
                assert(spec_killed(s).contains(a));
            } else {
                if spec_killed(s).contains(a) {
                    let i = choose|i: int| 0 <= i < s.len() && s[i].0 == a && entry_killed(#[trigger] s[i].1);
                    assert(i == j);
                }
                assert(entry_encodes(s[j].1));
            }
        } else {
            assert forall|j: int| 0 <= j < s.len() implies s[j].0 != a by {
                self.cache.lemma_index(j);
            }
            assert(!spec_killed(s).contains(a));
        }
    }
}

} // verus!
