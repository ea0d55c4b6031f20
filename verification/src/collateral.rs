//! The storage collateral that the frames of a transaction occupy and
//! release, per address, and the changes a finished transaction reports.
use crate::assoc::{AssocMap, MapKey};
use crate::types::{Address, U256};
use vstd::prelude::*;

verus! {

broadcast use vstd::array::group_array_axioms;

/// The byte-wise (lexicographic) order of byte strings.
pub open spec fn bytes_lt(a: Seq<u8>, b: Seq<u8>) -> bool
    decreases a.len(),
{
    if a.len() == 0 || b.len() == 0 {
        false
    } else if a[0] != b[0] {
        a[0] < b[0]
    } else {
        bytes_lt(a.drop_first(), b.drop_first())
    }
}

/// Addresses are ordered by their bytes.
pub open spec fn address_lt(a: Address, b: Address) -> bool {
    bytes_lt(a@, b@)
}

pub proof fn lemma_bytes_lt_irreflexive(a: Seq<u8>)
    ensures
        !bytes_lt(a, a),
    decreases a.len(),
{
    if a.len() > 0 {
        lemma_bytes_lt_irreflexive(a.drop_first());
    }
}

pub proof fn lemma_bytes_lt_transitive(a: Seq<u8>, b: Seq<u8>, c: Seq<u8>)
    requires
        bytes_lt(a, b),
        bytes_lt(b, c),
    ensures
        bytes_lt(a, c),
    decreases a.len(),
{
    if a[0] == b[0] && b[0] == c[0] {
        lemma_bytes_lt_transitive(a.drop_first(), b.drop_first(), c.drop_first());
    }
}

pub proof fn lemma_bytes_lt_total(a: Seq<u8>, b: Seq<u8>)
    requires
        a.len() == b.len(),
        a != b,
    ensures
        bytes_lt(a, b) || bytes_lt(b, a),
    decreases a.len(),
{
    if a.len() == 0 {
        assert(a =~= b);
    } else if a[0] == b[0] {
        if a.drop_first() == b.drop_first() {
            assert(a =~= b) by {
                assert forall|i: int| 0 <= i < a.len() implies a[i] == b[i] by {
                    if i > 0 {
                        assert(a[i] == a.drop_first()[i - 1]);
                        assert(b[i] == b.drop_first()[i - 1]);
                    }
                }
            }
        }
        lemma_bytes_lt_total(a.drop_first(), b.drop_first());
    }
}

/// Whether `a` comes before `b` in the byte order of addresses.
pub fn address_lt_exec(a: &Address, b: &Address) -> (r: bool)
    ensures
        r == address_lt(*a, *b),
{
    let mut i: usize = 0;
    assert(a@.skip(0) =~= a@ && b@.skip(0) =~= b@);
    while i < 20
        invariant
            0 <= i <= 20,
            a@.len() == 20,
            b@.len() == 20,
            bytes_lt(a@, b@) == bytes_lt(a@.skip(i as int), b@.skip(i as int)),
        decreases 20 - i,
    {
        assert(a@.skip(i as int)[0] == a.0[i as int]);
        assert(b@.skip(i as int)[0] == b.0[i as int]);
        if a.0[i] != b.0[i] {
            return a.0[i] < b.0[i];
        }
        assert(a@.skip(i as int).drop_first() =~= a@.skip(i + 1));
        assert(b@.skip(i as int).drop_first() =~= b@.skip(i + 1));
        i += 1;
    }
    assert(a@.skip(20).len() == 0);
    false
}

/// Whether the addresses of `s` come in strictly ascending order.
pub open spec fn strictly_ascending(s: Seq<Address>) -> bool {
    forall|i: int, j: int| 0 <= i < j < s.len() ==> address_lt(#[trigger] s[i], #[trigger] s[j])
}

/// Sorts distinct addresses into ascending order.
pub fn sort_addresses(v: Vec<Address>) -> (r: Vec<Address>)
    requires
        forall|i: int, j: int| 0 <= i < j < v@.len() ==> v@[i] != v@[j],
    ensures
        strictly_ascending(r@),
        forall|y: Address| r@.contains(y) <==> v@.contains(y),
        r@.len() == v@.len(),
{
    let mut r: Vec<Address> = Vec::new();
    let mut i: usize = 0;
    while i < v.len()
        invariant
            0 <= i <= v@.len(),
            forall|x: int, y: int| 0 <= x < y < v@.len() ==> v@[x] != v@[y],
            strictly_ascending(r@),
            forall|y: Address| r@.contains(y) <==> v@.take(i as int).contains(y),
            r@.len() == i,
        decreases v@.len() - i,
    {
        let x = v[i];
        assert(!r@.contains(x)) by {
            if r@.contains(x) {
                assert(v@.take(i as int).contains(x));
                let k = choose|k: int| 0 <= k < i && v@.take(i as int)[k] == x;
                assert(v@[k] == v@[i as int]);
            }
        }
        let mut p: usize = 0;
        while p < r.len() && !address_lt_exec(&x, &r[p])
            invariant
                0 <= p <= r@.len(),
                forall|k: int| 0 <= k < p ==> !address_lt(x, #[trigger] r@[k]),
            decreases r@.len() - p,
        {
            p += 1;
        }
        let ghost before = r@;
        r.insert(p, x);
        proof {
            assert forall|a: int, b: int| 0 <= a < b < r@.len() implies address_lt(#[trigger] r@[a], #[trigger] r@[b]) by {
                if a < p && b < p {
                    assert(r@[a] == before[a] && r@[b] == before[b]);
                } else if a < p && b == p {
                    assert(r@[a] == before[a]);
                    assert(before.contains(before[a]));
                    assert(x@ != before[a]@) by {
                        if x@ == before[a]@ {
                            assert(x.0 =~= before[a].0);
                        }
                    }
                    lemma_bytes_lt_total(x@, before[a]@);
                } else if a < p {
                    assert(r@[a] == before[a] && r@[b] == before[b - 1]);
                } else if a == p {
                    assert(r@[b] == before[b - 1]);
                    assert(address_lt(x, before[p as int]));
                    if b - 1 > p {
                        lemma_bytes_lt_transitive(x@, before[p as int]@, before[b - 1]@);
                    }
                } else {
                    assert(r@[a] == before[a - 1] && r@[b] == before[b - 1]);
                }
            }
            assert(v@.take(i + 1) =~= v@.take(i as int).push(x));
            assert forall|y: Address| r@.contains(y) <==> v@.take(i + 1).contains(y) by {
                if r@.contains(y) {
                    let k = choose|k: int| 0 <= k < r@.len() && r@[k] == y;
                    if k < p {
                        assert(before[k] == y);
                        assert(before.contains(y));
                    } else if k > p {
                        assert(before[k - 1] == y);
                        assert(before.contains(y));
                    }
                    if y != x {
                        assert(before.contains(y));
                        assert(v@.take(i as int).contains(y));
                        let m = choose|m: int| 0 <= m < i && v@.take(i as int)[m] == y;
                        assert(v@.take(i + 1)[m] == y);
                    } else {
                        assert(v@.take(i + 1)[i as int] == y);
                    }
                }
                if v@.take(i + 1).contains(y) {
                    if y == x {
                        assert(r@[p as int] == x);
                    } else {
                        let vt = v@.take(i + 1);
                        let k = choose|k: int| 0 <= k < vt.len() && #[trigger] vt[k] == y;
                        assert(k < i);
                        assert(v@.take(i as int)[k] == y);
                        assert(v@.take(i as int).contains(y));
                        assert(before.contains(y));
                        let m = choose|m: int| 0 <= m < before.len() && before[m] == y;
                        if m < p {
                            assert(r@[m] == y);
                        } else {
                            assert(r@[m + 1] == y);
                        }
                    }
                }
            }
        }
        i += 1;
    }
    assert(v@.take(v@.len() as int) =~= v@);
    r
}

impl MapKey for Address {
    type KeyView = Address;

    open spec fn key_view(&self) -> Address {
        *self
    }

    fn key_eq(&self, other: &Self) -> (r: bool) {
        self.same(other)
    }

    fn key_clone(&self) -> (r: Self) {
        *self
    }
}

/// The net change of collateral of an address that occupied `occupied`
/// and released `released`: what it gained, and what it lost.
pub open spec fn net_change(occupied: nat, released: nat) -> (nat, nat) {
    if occupied > released {
        ((occupied - released) as nat, 0)
    } else {
        (0, (released - occupied) as nat)
    }
}

/// `a + b`, or the largest `u64` where the sum exceeds it.
pub open spec fn sat_add(a: nat, b: nat) -> nat {
    if a + b <= u64::MAX {
        a + b
    } else {
        u64::MAX as nat
    }
}

/// `new` holds what `a` and `b` hold together, amounts added up (saturating
/// at the largest `u64`).
pub open spec fn accrued(new: CollateralChanges, a: CollateralChanges, b: CollateralChanges) -> bool {
    &&& new.wf()
    &&& new.changed() == a.changed().union(b.changed())
    &&& forall|x: Address| #[trigger] new.occupied(x) == sat_add(a.occupied(x), b.occupied(x))
        && new.released(x) == sat_add(a.released(x), b.released(x))
}

/// A change of the storage collateral of an address.
#[derive(Clone, Copy, Debug, PartialEq, Eq)]
pub struct StorageChange {
    pub address: Address,
    pub collaterals: U256,
}

/// The addresses of `s`, in order.
pub open spec fn change_addresses(s: Seq<StorageChange>) -> Seq<Address> {
    s.map_values(|c: StorageChange| c.address)
}

/// `grown` lists, in ascending order of address, each address of `c` whose
/// collateral grew, with what it gained; `shrunk` lists likewise each
/// address whose collateral shrank, with what it lost.
pub open spec fn reports_changes(c: CollateralChanges, grown: Seq<StorageChange>, shrunk: Seq<StorageChange>) -> bool {
    &&& strictly_ascending(change_addresses(grown))
    &&& strictly_ascending(change_addresses(shrunk))
    &&& forall|i: int| 0 <= i < grown.len() ==> c.changed().contains(#[trigger] grown[i].address)
        && c.change_of(grown[i].address).0 > 0 && grown[i].collaterals@ == c.change_of(grown[i].address).0
    &&& forall|i: int| 0 <= i < shrunk.len() ==> c.changed().contains(#[trigger] shrunk[i].address)
        && c.change_of(shrunk[i].address).0 == 0 && c.change_of(shrunk[i].address).1 > 0
        && shrunk[i].collaterals@ == c.change_of(shrunk[i].address).1
    &&& forall|a: Address| c.changed().contains(a) && #[trigger] c.change_of(a).0 > 0 ==> change_addresses(grown).contains(a)
    &&& forall|a: Address| c.changed().contains(a) && #[trigger] c.change_of(a).0 == 0 && c.change_of(a).1 > 0
        ==> change_addresses(shrunk).contains(a)
}

/// The storage collateral occupied and released per address.
pub struct CollateralChanges {
    amounts: AssocMap<Address, (u64, u64)>,
}

impl CollateralChanges {
    pub closed spec fn wf(&self) -> bool {
        self.amounts.wf()
    }

    /// The addresses whose collateral was occupied or released.
    pub closed spec fn changed(&self) -> Set<Address> {
        self.amounts.view().dom()
    }

    /// The collateral occupied by `a`.
    pub closed spec fn occupied(&self, a: Address) -> nat {
        if self.amounts.view().contains_key(a) {
            self.amounts.view()[a].0 as nat
        } else {
            0
        }
    }

    /// The collateral released by `a`.
    pub closed spec fn released(&self, a: Address) -> nat {
        if self.amounts.view().contains_key(a) {
            self.amounts.view()[a].1 as nat
        } else {
            0
        }
    }

    /// The net change of collateral of `a`.
    pub open spec fn change_of(&self, a: Address) -> (nat, nat) {
        net_change(self.occupied(a), self.released(a))
    }

    /// No collateral changed.
    pub fn new() -> (r: Self)
        ensures
            r.wf(),
            r.changed() == Set::<Address>::empty(),
            forall|a: Address| r.occupied(a) == 0 && r.released(a) == 0,
    {
        CollateralChanges { amounts: AssocMap::new() }
    }

    fn amounts_at(&self, address: &Address) -> (r: (u64, u64))
        requires
            self.wf(),
        ensures
            r.0 == self.occupied(*address),
            r.1 == self.released(*address),
    {
        match self.amounts.get(address) {
            Some(v) => *v,
            None => (0, 0),
        }
    }

    /// Records that `address` occupies `collaterals` more (saturating at the
    /// largest `u64`).
    pub fn record_storage_occupy(&mut self, address: Address, collaterals: u64)
        requires
            old(self).wf(),
        ensures
            final(self).wf(),
            final(self).changed() == old(self).changed().insert(address),
            final(self).occupied(address) == sat_add(old(self).occupied(address), collaterals as nat),
            final(self).released(address) == old(self).released(address),
            forall|a: Address| a != address ==> #[trigger] final(self).occupied(a) == old(self).occupied(a)
                && final(self).released(a) == old(self).released(a),
    {
        let (occupied, released) = self.amounts_at(&address);
        self.amounts.insert(address, (occupied.saturating_add(collaterals), released));
    }

    /// Records that `address` releases `collaterals` more (saturating at the
    /// largest `u64`).
    pub fn record_storage_release(&mut self, address: Address, collaterals: u64)
        requires
            old(self).wf(),
        ensures
            final(self).wf(),
            final(self).changed() == old(self).changed().insert(address),
            final(self).occupied(address) == old(self).occupied(address),
            final(self).released(address) == sat_add(old(self).released(address), collaterals as nat),
            forall|a: Address| a != address ==> #[trigger] final(self).occupied(a) == old(self).occupied(a)
                && final(self).released(a) == old(self).released(a),
    {
        let (occupied, released) = self.amounts_at(&address);
        self.amounts.insert(address, (occupied, released.saturating_add(collaterals)));
    }

    /// The net change of collateral of `address`: what it gained, and
    /// what it lost.
    pub fn get_collateral_change(&self, address: &Address) -> (r: (u64, u64))
        requires
            self.wf(),
        ensures
            (r.0 as nat, r.1 as nat) == self.change_of(*address),
    {
        let (occupied, released) = self.amounts_at(address);
        if occupied > released {
            (occupied - released, 0)
        } else {
            (0, released - occupied)
        }
    }

    /// The addresses whose collateral changed, each once.
    pub fn keys_for_collateral_changed(&self) -> (r: Vec<Address>)
        requires
            self.wf(),
        ensures
            forall|i: int, j: int| 0 <= i < j < r@.len() ==> r@[i] != r@[j],
            forall|a: Address| r@.contains(a) <==> self.changed().contains(a),
    {
        let mut r: Vec<Address> = Vec::new();
        let mut i: usize = 0;
        while i < self.amounts.len()
            invariant
                0 <= i <= self.amounts.len_spec(),
                self.wf(),
                r@ == self.amounts.key_seq().take(i as int),
            decreases self.amounts.len_spec() - i,
        {
            let (k, _) = self.amounts.entry_at(i);
            r.push(*k);
            assert(r@ =~= self.amounts.key_seq().take(i + 1));
            i += 1;
        }
        assert(r@ =~= self.amounts.key_seq());
        proof {
            assert forall|a: Address| r@.contains(a) <==> self.changed().contains(a) by {
                if r@.contains(a) {
                    let k = choose|k: int| 0 <= k < r@.len() && r@[k] == a;
                    self.amounts.lemma_index(k);
                }
                if self.changed().contains(a) {
                    let k = self.amounts.index_of(a);
                    assert(self.amounts.has_key(a));
                    assert(r@[k] == a);
                }
            }
        }
        r
    }

    /// Takes in the collateral changes of `other`; amounts add up,
    /// saturating at the largest `u64`.
    pub fn accrue(&mut self, other: CollateralChanges)
        requires
            old(self).wf(),
            other.wf(),
        ensures
            accrued(*final(self), *old(self), other),
    {
        let keys = other.keys_for_collateral_changed();
        let ghost s0 = *self;
        let mut i: usize = 0;
        while i < keys.len()
            invariant
                0 <= i <= keys@.len(),
                self.wf(),
                other.wf(),
                forall|x: int, y: int| 0 <= x < y < keys@.len() ==> keys@[x] != keys@[y],
                forall|a: Address| keys@.contains(a) <==> other.changed().contains(a),
                forall|a: Address| #[trigger] self.changed().contains(a) <==> s0.changed().contains(a) || keys@.take(i as int).contains(a),
                forall|a: Address| #[trigger] keys@.take(i as int).contains(a) ==> self.occupied(a) == sat_add(s0.occupied(a),
                    other.occupied(a)) && self.released(a) == sat_add(s0.released(a), other.released(a)),
                forall|a: Address| !keys@.take(i as int).contains(a) ==> #[trigger] self.occupied(a) == s0.occupied(a)
                    && self.released(a) == s0.released(a),
            decreases keys@.len() - i,
        {
            let k = keys[i];
            let (occupied, released) = other.amounts_at(&k);
            let (mine_occupied, mine_released) = self.amounts_at(&k);
            assert(!keys@.take(i as int).contains(k)) by {
                if keys@.take(i as int).contains(k) {
                    let m = choose|m: int| 0 <= m < i && keys@.take(i as int)[m] == k;
                    assert(keys@[m] == keys@[i as int]);
                }
            }
            let ghost pre = *self;
            self.amounts.insert(k, (mine_occupied.saturating_add(occupied), mine_released.saturating_add(released)));
            proof {
                assert(keys@.take(i + 1) =~= keys@.take(i as int).push(k));
                assert forall|a: Address| #[trigger] self.changed().contains(a) <==> s0.changed().contains(a)
                    || keys@.take(i + 1).contains(a) by {
                    assert(self.amounts.view().contains_key(a) <==> pre.amounts.view().contains_key(a) || a == k);
                    assert(pre.changed().contains(a) <==> s0.changed().contains(a) || keys@.take(i as int).contains(a));
                    if keys@.take(i + 1).contains(a) && a != k {
                        let m = choose|m: int| 0 <= m < i + 1 && #[trigger] keys@.take(i + 1)[m] == a;
                        assert(keys@.take(i as int)[m] == a);
                    }
                    if keys@.take(i as int).contains(a) {
                        let m = choose|m: int| 0 <= m < i && #[trigger] keys@.take(i as int)[m] == a;
                        assert(keys@.take(i + 1)[m] == a);
                    }
                    if a == k {
                        assert(keys@.take(i + 1)[i as int] == k);
                    }
                }
                assert forall|a: Address| #[trigger] keys@.take(i + 1).contains(a) implies self.occupied(a) == sat_add(
                    s0.occupied(a), other.occupied(a)) && self.released(a) == sat_add(s0.released(a), other.released(a)) by {
                    if a != k {
                        assert(keys@.take(i as int).push(k).contains(a));
                        let m = choose|m: int| 0 <= m < i + 1 && #[trigger] keys@.take(i as int).push(k)[m] == a;
                        assert(keys@.take(i as int)[m] == a);
                        assert(keys@.take(i as int).contains(a));
                        assert(pre.occupied(a) == self.occupied(a));
                    }
                }
                assert forall|a: Address| !keys@.take(i + 1).contains(a) implies #[trigger] self.occupied(a) == s0.occupied(a)
                    && self.released(a) == s0.released(a) by {
                    assert(a != k) by {
                        assert(keys@.take(i + 1)[i as int] == k);
                    }
                    if keys@.take(i as int).contains(a) {
                        let m = choose|m: int| 0 <= m < i && keys@.take(i as int)[m] == a;
                        assert(keys@.take(i + 1)[m] == a);
                    }
                    assert(self.amounts.view().contains_key(a) == pre.amounts.view().contains_key(a));
                    assert(self.amounts.view().contains_key(a) ==> self.amounts.view()[a] == pre.amounts.view()[a]);
                    assert(pre.occupied(a) == s0.occupied(a));
                }
            }
            i += 1;
        }
        proof {
            assert(keys@.take(keys@.len() as int) =~= keys@);
            assert forall|a: Address| #[trigger] self.occupied(a) == sat_add(s0.occupied(a), other.occupied(a))
                && self.released(a) == sat_add(s0.released(a), other.released(a)) by {
                if !keys@.contains(a) {
                    assert(!other.changed().contains(a));
                }
            }
            assert(self.changed() =~= s0.changed().union(other.changed()));
        }
    }

    /// The addresses whose collateral grew and those whose collateral
    /// shrank, each with its net change, in ascending order of address.
    pub fn storage_changes(&self) -> (r: (Vec<StorageChange>, Vec<StorageChange>))
        requires
            self.wf(),
        ensures
            reports_changes(*self, r.0@, r.1@),
    {
        let keys = self.keys_for_collateral_changed();
        let sorted = sort_addresses(keys);
        let mut up: Vec<StorageChange> = Vec::new();
        let mut down: Vec<StorageChange> = Vec::new();
        let mut i: usize = 0;
        while i < sorted.len()
            invariant
                0 <= i <= sorted@.len(),
                self.wf(),
                strictly_ascending(sorted@),
                forall|a: Address| sorted@.contains(a) <==> self.changed().contains(a),
                strictly_ascending(change_addresses(up@)),
                strictly_ascending(change_addresses(down@)),
                forall|m: int, j: int| 0 <= m < up@.len() && i <= j < sorted@.len() ==> address_lt(
                    #[trigger] up@[m].address, #[trigger] sorted@[j]),
                forall|m: int, j: int| 0 <= m < down@.len() && i <= j < sorted@.len() ==> address_lt(
                    #[trigger] down@[m].address, #[trigger] sorted@[j]),
                forall|m: int| 0 <= m < up@.len() ==> self.changed().contains(#[trigger] up@[m].address)
                    && self.change_of(up@[m].address).0 > 0 && up@[m].collaterals@ == self.change_of(up@[m].address).0,
                forall|m: int| 0 <= m < down@.len() ==> self.changed().contains(#[trigger] down@[m].address)
                    && self.change_of(down@[m].address).0 == 0 && self.change_of(down@[m].address).1 > 0
                    && down@[m].collaterals@ == self.change_of(down@[m].address).1,
                forall|k: int| 0 <= k < i && #[trigger] self.change_of(sorted@[k]).0 > 0 ==> change_addresses(up@).contains(sorted@[k]),
                forall|k: int| 0 <= k < i && self.change_of(sorted@[k]).0 == 0 && #[trigger] self.change_of(sorted@[k]).1 > 0
                    ==> change_addresses(down@).contains(sorted@[k]),
            decreases sorted@.len() - i,
        {
            let a = sorted[i];
            let (inc, sub) = self.get_collateral_change(&a);
            assert(sorted@.contains(a));
            let ghost up0 = up@;
            let ghost down0 = down@;
            if inc > 0 {
                up.push(StorageChange { address: a, collaterals: U256::from_u64(inc) });
                proof {
                    assert(change_addresses(up@) =~= change_addresses(up0).push(a));
                    assert forall|x: int, y: int| 0 <= x < y < change_addresses(up@).len() implies address_lt(
                        #[trigger] change_addresses(up@)[x], #[trigger] change_addresses(up@)[y]) by {
                        if y == up0.len() {
                            assert(up@[x] == up0[x]);
                        } else {
                            assert(change_addresses(up0)[x] == change_addresses(up@)[x]);
                            assert(change_addresses(up0)[y] == change_addresses(up@)[y]);
                        }
                    }
                    assert(change_addresses(up@)[up0.len() as int] == a);
                }
            } else if sub > 0 {
                down.push(StorageChange { address: a, collaterals: U256::from_u64(sub) });
                proof {
                    assert(change_addresses(down@) =~= change_addresses(down0).push(a));
                    assert forall|x: int, y: int| 0 <= x < y < change_addresses(down@).len() implies address_lt(
                        #[trigger] change_addresses(down@)[x], #[trigger] change_addresses(down@)[y]) by {
                        if y == down0.len() {
                            assert(down@[x] == down0[x]);
                        } else {
                            assert(change_addresses(down0)[x] == change_addresses(down@)[x]);
                            assert(change_addresses(down0)[y] == change_addresses(down@)[y]);
                        }
                    }
                    assert(change_addresses(down@)[down0.len() as int] == a);
                }
            }
            proof {
                assert forall|m: int, j: int| 0 <= m < up@.len() && i + 1 <= j < sorted@.len() implies address_lt(
                    #[trigger] up@[m].address, #[trigger] sorted@[j]) by {
                    if m == up0.len() {
                        assert(address_lt(sorted@[i as int], sorted@[j]));
                    } else {
                        assert(up@[m] == up0[m]);
                    }
                }
                assert forall|m: int, j: int| 0 <= m < down@.len() && i + 1 <= j < sorted@.len() implies address_lt(
                    #[trigger] down@[m].address, #[trigger] sorted@[j]) by {
                    if m == down0.len() {
                        assert(address_lt(sorted@[i as int], sorted@[j]));
                    } else {
                        assert(down@[m] == down0[m]);
                    }
                }
                assert forall|k: int| 0 <= k < i + 1 && #[trigger] self.change_of(sorted@[k]).0 > 0 implies change_addresses(
                    up@).contains(sorted@[k]) by {
                    if k < i {
                        let w = choose|w: int| 0 <= w < change_addresses(up0).len() && change_addresses(up0)[w] == sorted@[k];
                        assert(change_addresses(up@)[w] == sorted@[k]);
                    } else {
                        assert(change_addresses(up@)[up0.len() as int] == a);
                    }
                }
                assert forall|k: int| 0 <= k < i + 1 && self.change_of(sorted@[k]).0 == 0 && #[trigger] self.change_of(
                    sorted@[k]).1 > 0 implies change_addresses(down@).contains(sorted@[k]) by {
                    if k < i {
                        let w = choose|w: int| 0 <= w < change_addresses(down0).len() && change_addresses(down0)[w] == sorted@[k];
                        assert(change_addresses(down@)[w] == sorted@[k]);
                    } else {
                        assert(change_addresses(down@)[down0.len() as int] == a);
                    }
                }
            }
            i += 1;
        }
        proof {
            assert forall|a: Address| self.changed().contains(a) && #[trigger] self.change_of(a).0 > 0 implies change_addresses(
                up@).contains(a) by {
                let k = choose|k: int| 0 <= k < sorted@.len() && sorted@[k] == a;
                assert(self.change_of(sorted@[k]).0 > 0);
            }
            assert forall|a: Address| self.changed().contains(a) && self.change_of(a).0 == 0 && #[trigger] self.change_of(a).1 > 0
                implies change_addresses(down@).contains(a) by {
                let k = choose|k: int| 0 <= k < sorted@.len() && sorted@[k] == a;
                assert(self.change_of(sorted@[k]).1 > 0);
            }
        }
        (up, down)
    }
}

} // verus!
