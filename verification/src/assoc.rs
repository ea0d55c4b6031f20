//! A finite map stored as a vector of distinct keys and their values.
use crate::types::AddressWithSpace;
use vstd::prelude::*;

verus! {

/// Keys that can be compared for equality of their views and cloned.
pub trait MapKey: Sized {
    type KeyView;

    spec fn key_view(&self) -> Self::KeyView;

    fn key_eq(&self, other: &Self) -> (r: bool)
        ensures
            r == (self.key_view() == other.key_view()),
    ;

    fn key_clone(&self) -> (r: Self)
        ensures
            r.key_view() == self.key_view(),
    ;
}

pub fn bytes_eq(a: &[u8], b: &[u8]) -> (r: bool)
    ensures
        r == (a@ == b@),
{
    if a.len() != b.len() {
        return false;
    }
    let mut i: usize = 0;
    while i < a.len()
        invariant
            a@.len() == b@.len(),
            0 <= i <= a@.len(),
            forall|j: int| 0 <= j < i ==> a@[j] == b@[j],
        decreases a@.len() - i,
    {
        if a[i] != b[i] {
            return false;
        }
        i += 1;
    }
    assert(a@ =~= b@);
    true
}

pub fn bytes_clone(a: &[u8]) -> (r: Vec<u8>)
    ensures
        r@ == a@,
{
    let mut r: Vec<u8> = Vec::new();
    let mut i: usize = 0;
    while i < a.len()
        invariant
            0 <= i <= a@.len(),
            r@ == a@.subrange(0, i as int),
        decreases a@.len() - i,
    {
        r.push(a[i]);
        i += 1;
        assert(r@ =~= a@.subrange(0, i as int));
    }
    assert(r@ =~= a@);
    r
}

impl MapKey for Vec<u8> {
    type KeyView = Seq<u8>;

    open spec fn key_view(&self) -> Seq<u8> {
        self@
    }

    fn key_eq(&self, other: &Self) -> (r: bool) {
        bytes_eq(self.as_slice(), other.as_slice())
    }

    fn key_clone(&self) -> (r: Self) {
        bytes_clone(self.as_slice())
    }
}

impl MapKey for AddressWithSpace {
    type KeyView = AddressWithSpace;

    open spec fn key_view(&self) -> AddressWithSpace {
        *self
    }

    fn key_eq(&self, other: &Self) -> (r: bool) {
        self.same(other)
    }

    fn key_clone(&self) -> (r: Self) {
        *self
    }
}

/// A finite map whose entries are kept in a vector; no key occurs twice.
#[verifier::reject_recursive_types(K)]
#[verifier::reject_recursive_types(V)]
pub struct AssocMap<K, V> {
    entries: Vec<(K, V)>,
}

impl<K: MapKey, V> AssocMap<K, V> {
    /// The entries in their stored order.
    pub closed spec fn entry_seq(&self) -> Seq<(K, V)> {
        self.entries@
    }

    pub open spec fn len_spec(&self) -> nat {
        self.entry_seq().len()
    }

    pub open spec fn key_at(&self, i: int) -> K::KeyView {
        self.entry_seq()[i].0.key_view()
    }

    pub open spec fn value_at(&self, i: int) -> V {
        self.entry_seq()[i].1
    }

    /// The keys in their stored order.
    pub open spec fn key_seq(&self) -> Seq<K::KeyView> {
        Seq::new(self.len_spec(), |i: int| self.key_at(i))
    }

    pub open spec fn has_key(&self, k: K::KeyView) -> bool {
        exists|i: int| 0 <= i < self.len_spec() && self.key_at(i) == k
    }

    /// No key occurs twice.
    pub open spec fn wf(&self) -> bool {
        forall|i: int, j: int|
            0 <= i < self.len_spec() && 0 <= j < self.len_spec() && i != j ==> self.key_at(i)
                != self.key_at(j)
    }

    pub open spec fn index_of(&self, k: K::KeyView) -> int {
        choose|i: int| 0 <= i < self.len_spec() && self.key_at(i) == k
    }

    /// The map the entries stand for.
    pub open spec fn view(&self) -> Map<K::KeyView, V> {
        Map::new(|k: K::KeyView| self.has_key(k), |k: K::KeyView| self.value_at(self.index_of(k)))
    }

    pub proof fn lemma_index(&self, i: int)
        requires
            self.wf(),
            0 <= i < self.len_spec(),
        ensures
            self.view().contains_key(self.key_at(i)),
            self.view()[self.key_at(i)] == self.value_at(i),
            self.index_of(self.key_at(i)) == i,
    {
        assert(self.has_key(self.key_at(i)));
    }

    pub fn new() -> (r: Self)
        ensures
            r.wf(),
            r.view() == Map::<K::KeyView, V>::empty(),
            r.len_spec() == 0,
    {
        let r = AssocMap { entries: Vec::new() };
        assert(r.view() =~= Map::<K::KeyView, V>::empty());
        r
    }

    pub fn len(&self) -> (r: usize)
        ensures
            r == self.len_spec(),
    {
        self.entries.len()
    }

    pub fn is_empty(&self) -> (r: bool)
        requires
            self.wf(),
        ensures
            r == (self.view() == Map::<K::KeyView, V>::empty()),
            r == (self.len_spec() == 0),
    {
        if self.entries.len() == 0 {
            assert(self.view() =~= Map::<K::KeyView, V>::empty());
            true
        } else {
            proof {
                self.lemma_index(0);
            }
            assert(self.view().contains_key(self.key_at(0)));
            false
        }
    }

    /// The position of `k`, if it has one.
    pub fn find(&self, k: &K) -> (r: Option<usize>)
        requires
            self.wf(),
        ensures
            r matches Some(i) ==> i < self.len_spec() && self.key_at(i as int) == k.key_view(),
            r is None ==> !self.view().contains_key(k.key_view()),
            r is Some <==> self.view().contains_key(k.key_view()),
    {
        let mut i: usize = 0;
        while i < self.entries.len()
            invariant
                0 <= i <= self.len_spec(),
                self.wf(),
                self.entries@ == self.entry_seq(),
                forall|j: int| 0 <= j < i ==> self.key_at(j) != k.key_view(),
            decreases self.len_spec() - i,
        {
            if self.entries[i].0.key_eq(k) {
                proof {
                    self.lemma_index(i as int);
                }
                return Some(i);
            }
            i += 1;
        }
        None
    }

    pub fn contains_key(&self, k: &K) -> (r: bool)
        requires
            self.wf(),
        ensures
            r == self.view().contains_key(k.key_view()),
    {
        self.find(k).is_some()
    }

    pub fn get(&self, k: &K) -> (r: Option<&V>)
        requires
            self.wf(),
        ensures
            r matches Some(v) ==> self.view().contains_key(k.key_view()) && *v
                == self.view()[k.key_view()],
            r is None ==> !self.view().contains_key(k.key_view()),
    {
        match self.find(k) {
            Some(i) => {
                proof {
                    self.lemma_index(i as int);
                }
                Some(&self.entries[i].1)
            },
            None => None,
        }
    }

    /// The key and the value stored at position `i`.
    pub fn entry_at(&self, i: usize) -> (r: (&K, &V))
        requires
            i < self.len_spec(),
        ensures
            *r.0 == self.entry_seq()[i as int].0,
            *r.1 == self.entry_seq()[i as int].1,
    {
        let e = &self.entries[i];
        (&e.0, &e.1)
    }

    /// Removes `k`, returning its value.
    pub fn remove(&mut self, k: &K) -> (r: Option<V>)
        requires
            old(self).wf(),
        ensures
            final(self).wf(),
            final(self).view() == old(self).view().remove(k.key_view()),
            r matches Some(v) ==> old(self).view().contains_key(k.key_view()) && v
                == old(self).view()[k.key_view()],
            r is None ==> !old(self).view().contains_key(k.key_view()),
    {
        match self.find(k) {
            None => {
                assert(self.view() =~= old(self).view().remove(k.key_view()));
                None
            },
            Some(i) => {
                proof {
                    self.lemma_index(i as int);
                }
                let ghost pre = *self;
                let e = self.entries.remove(i);
                assert(self.entry_seq() == pre.entry_seq().remove(i as int));
                assert forall|a: int, b: int|
                    0 <= a < self.len_spec() && 0 <= b < self.len_spec() && a != b implies self.key_at(
                    a,
                ) != self.key_at(b) by {
                    let a2 = if a < i { a } else { a + 1 };
                    let b2 = if b < i { b } else { b + 1 };
                    assert(self.key_at(a) == pre.key_at(a2));
                    assert(self.key_at(b) == pre.key_at(b2));
                }
                assert forall|kk: K::KeyView| #[trigger]
                    self.view().contains_key(kk) == pre.view().remove(k.key_view()).contains_key(
                        kk,
                    ) by {
                    if self.has_key(kk) {
                        let a = choose|a: int| 0 <= a < self.len_spec() && self.key_at(a) == kk;
                        let a2 = if a < i { a } else { a + 1 };
                        assert(pre.key_at(a2) == kk);
                        assert(kk != k.key_view());
                    }
                    if pre.has_key(kk) && kk != k.key_view() {
                        let a = choose|a: int| 0 <= a < pre.len_spec() && pre.key_at(a) == kk;
                        assert(a != i);
                        let a1 = if a < i { a } else { a - 1 };
                        assert(self.key_at(a1) == kk);
                    }
                }
                assert forall|kk: K::KeyView| #[trigger]
                    self.view().contains_key(kk) implies self.view()[kk] == pre.view()[kk] by {
                    let a = self.index_of(kk);
                    let a2 = if a < i { a } else { a + 1 };
                    assert(pre.key_at(a2) == kk);
                    pre.lemma_index(a2);
                }
                assert(self.view() =~= pre.view().remove(k.key_view()));
                Some(e.1)
            },
        }
    }

    /// Inserts `k` with value `v`, returning the value it replaces.
    pub fn insert(&mut self, k: K, v: V) -> (r: Option<V>)
        requires
            old(self).wf(),
        ensures
            final(self).wf(),
            final(self).view() == old(self).view().insert(k.key_view(), v),
            r matches Some(x) ==> old(self).view().contains_key(k.key_view()) && x
                == old(self).view()[k.key_view()],
            r is None ==> !old(self).view().contains_key(k.key_view()),
    {
        let ghost kv = k.key_view();
        let old_value = self.remove(&k);
        let ghost pre = *self;
        self.entries.push((k, v));
        let ghost n = pre.len_spec();
        assert(self.entry_seq() == pre.entry_seq().push((k, v)));
        assert(self.key_at(n as int) == kv);
        assert forall|a: int, b: int|
            0 <= a < self.len_spec() && 0 <= b < self.len_spec() && a != b implies self.key_at(a)
            != self.key_at(b) by {
            if a < n && b < n {
                assert(self.key_at(a) == pre.key_at(a));
                assert(self.key_at(b) == pre.key_at(b));
            } else if a < n {
                assert(self.key_at(a) == pre.key_at(a));
                pre.lemma_index(a);
            } else if b < n {
                assert(self.key_at(b) == pre.key_at(b));
                pre.lemma_index(b);
            }
        }
        assert forall|kk: K::KeyView| #[trigger]
            self.view().contains_key(kk) == pre.view().insert(kv, v).contains_key(kk) by {
            if self.has_key(kk) && kk != kv {
                let a = choose|a: int| 0 <= a < self.len_spec() && self.key_at(a) == kk;
                assert(a < n);
                assert(pre.key_at(a) == kk);
            }
            if pre.has_key(kk) {
                let a = choose|a: int| 0 <= a < pre.len_spec() && pre.key_at(a) == kk;
                assert(self.key_at(a) == kk);
            }
            if kk == kv {
                assert(self.key_at(n as int) == kk);
            }
        }
        proof {
            self.lemma_index(n as int);
        }
        assert forall|kk: K::KeyView| #[trigger]
            self.view().contains_key(kk) && kk != kv implies self.view()[kk] == pre.view()[kk] by {
            let a = self.index_of(kk);
            assert(a < n);
            assert(pre.key_at(a) == kk);
            pre.lemma_index(a);
        }
        assert(self.view() =~= pre.view().insert(kv, v));
        old_value
    }

    /// Takes all entries out, in their stored order, leaving the map empty.
    pub fn take_all(&mut self) -> (r: Vec<(K, V)>)
        requires
            old(self).wf(),
        ensures
            r@ == old(self).entry_seq(),
            final(self).wf(),
            final(self).view() == Map::<K::KeyView, V>::empty(),
            final(self).len_spec() == 0,
    {
        let mut empty: Vec<(K, V)> = Vec::new();
        std::mem::swap(&mut empty, &mut self.entries);
        assert(self.view() =~= Map::<K::KeyView, V>::empty());
        empty
    }
}

} // verus!

verus! {

impl<K: MapKey, V: Copy> AssocMap<K, V> {
    /// A copy of the map.
    pub fn copy_map(&self) -> (r: Self)
        requires
            self.wf(),
        ensures
            r.wf(),
            r.view() == self.view(),
    {
        let mut entries: Vec<(K, V)> = Vec::new();
        let mut i: usize = 0;
        while i < self.entries.len()
            invariant
                0 <= i <= self.len_spec(),
                self.wf(),
                self.entries@ == self.entry_seq(),
                entries@.len() == i,
                forall|j: int| 0 <= j < i ==> #[trigger] entries@[j].0.key_view() == self.key_at(j) && entries@[j].1 == self.value_at(j),
            decreases self.len_spec() - i,
        {
            let k = self.entries[i].0.key_clone();
            let v = self.entries[i].1;
            entries.push((k, v));
            i += 1;
        }
        let ghost es = entries@;
        let r = AssocMap { entries };
        assert(r.entry_seq() == es);
        assert forall|j: int| 0 <= j < r.len_spec() implies r.key_at(j) == self.key_at(j) && r.value_at(j) == self.value_at(j) by {
            assert(es[j].0.key_view() == self.key_at(j));
        }
        assert forall|k: K::KeyView| #[trigger] r.view().contains_key(k) == self.view().contains_key(k) by {
            if r.has_key(k) {
                let j = choose|j: int| 0 <= j < r.len_spec() && r.key_at(j) == k;
                assert(self.key_at(j) == k);
            }
            if self.has_key(k) {
                let j = choose|j: int| 0 <= j < self.len_spec() && self.key_at(j) == k;
                assert(r.key_at(j) == k);
            }
        }
        assert forall|k: K::KeyView| #[trigger] r.view().contains_key(k) implies r.view()[k] == self.view()[k] by {
            let j = r.index_of(k);
            r.lemma_index(j);
            self.lemma_index(j);
        }
        assert(r.view() =~= self.view());
        r
    }
}

} // verus!

verus! {

impl<K: MapKey, V> AssocMap<K, V> {
    /// Adds the entries of `other` whose keys are not in this map.
    pub fn merge_missing(&mut self, other: AssocMap<K, V>)
        requires
            old(self).wf(),
            other.wf(),
        ensures
            final(self).wf(),
            final(self).view() == other.view().union_prefer_right(old(self).view()),
    {
        let ghost m0 = self.view();
        let ghost o = other;
        let ghost n0 = o.len_spec();
        let mut other = other;
        let mut entries = other.take_all();
        while entries.len() > 0
            invariant
                self.wf(),
                o.wf(),
                n0 == o.len_spec(),
                entries@.len() <= n0,
                forall|j: int| 0 <= j < entries@.len() ==> #[trigger] entries@[j] == o.entry_seq()[j],
                forall|k: K::KeyView| #[trigger] self.view().contains_key(k) <==> (m0.contains_key(k)
                    || exists|j: int| entries@.len() <= j < n0 && o.key_at(j) == k),
                forall|k: K::KeyView| #[trigger] m0.contains_key(k) ==> self.view()[k] == m0[k],
                forall|j: int| entries@.len() <= j < n0 && !m0.contains_key(#[trigger] o.key_at(j))
                    ==> self.view()[o.key_at(j)] == o.value_at(j),
            decreases entries@.len(),
        {
            let ghost len = entries@.len() as int;
            let ghost pre = *self;
            let (k, v) = entries.pop().unwrap();
            assert(o.key_at(len - 1) == k.key_view() && o.value_at(len - 1) == v) by {
                assert(o.entry_seq()[len - 1] == (k, v));
            }
            let ghost kv = k.key_view();
            if !self.contains_key(&k) {
                self.insert(k, v);
            }
            assert forall|kk: K::KeyView| #[trigger] self.view().contains_key(kk) <==> (
            m0.contains_key(kk) || exists|j: int| len - 1 <= j < n0 && o.key_at(j) == kk) by {
                if exists|j: int| len - 1 <= j < n0 && o.key_at(j) == kk {
                    let j = choose|j: int| len - 1 <= j < n0 && o.key_at(j) == kk;
                    if j != len - 1 {
                        assert(pre.view().contains_key(kk));
                    }
                }
                if pre.view().contains_key(kk) && !m0.contains_key(kk) {
                    let j = choose|j: int| len <= j < n0 && o.key_at(j) == kk;
                    assert(len - 1 <= j < n0 && o.key_at(j) == kk);
                }
            }
            assert forall|j: int| len - 1 <= j < n0 && !m0.contains_key(#[trigger] o.key_at(j))
                implies self.view()[o.key_at(j)] == o.value_at(j) by {
                if j != len - 1 {
                    assert(o.key_at(j) != kv);
                    assert(pre.view().contains_key(o.key_at(j)));
                } else {
                    if pre.view().contains_key(kv) {
                        let i = choose|i: int| len <= i < n0 && o.key_at(i) == kv;
                        assert(o.key_at(i) == o.key_at(len - 1));
                    }
                }
            }
        }
        proof {
            let r = o.view().union_prefer_right(m0);
            assert forall|k: K::KeyView| #[trigger] self.view().contains_key(k) == r.contains_key(k) by {
                if o.view().contains_key(k) {
                    let j = o.index_of(k);
                    assert(0 <= j < n0 && o.key_at(j) == k);
                }
                if exists|j: int| 0 <= j < n0 && o.key_at(j) == k {
                    let j = choose|j: int| 0 <= j < n0 && o.key_at(j) == k;
                    o.lemma_index(j);
                }
            }
            assert forall|k: K::KeyView| #[trigger] self.view().contains_key(k) implies self.view()[k] == r[k] by {
                if !m0.contains_key(k) {
                    let j = choose|j: int| 0 <= j < n0 && o.key_at(j) == k;
                    o.lemma_index(j);
                }
            }
            assert(self.view() =~= r);
        }
    }
}

} // verus!
