//! A small map that remembers its entries in the order in which their keys first came.

use crate::address::Address;
use vstd::prelude::*;

verus! {

/// What a table can be keyed by.
pub trait TableKey: Sized {
    /// What makes two keys the same key.
    type Id;

    /// The identity of this key.
    spec fn id(&self) -> Self::Id;

    /// Whether both are the same key.
    fn same_key(&self, other: &Self) -> (res: bool)
        ensures
            res == (self.id() == other.id()),
    ;
}

impl TableKey for Address {
    type Id = Address;

    open spec fn id(&self) -> Address {
        *self
    }

    fn same_key(&self, other: &Self) -> (res: bool) {
        self.same(other)
    }
}

impl TableKey for String {
    type Id = Seq<char>;

    open spec fn id(&self) -> Seq<char> {
        self@
    }

    fn same_key(&self, other: &Self) -> (res: bool) {
        *self == *other
    }
}

/// A map from keys to values.
#[verifier::reject_recursive_types(K)]
#[verifier::reject_recursive_types(V)]
pub struct Table<K: TableKey, V> {
    entries: Vec<(K, V)>,
}

/// Whether an entry of `entries` has the key `id`.
pub open spec fn has_key<K: TableKey, V>(entries: Seq<(K, V)>, id: K::Id) -> bool {
    exists|i: int| 0 <= i < entries.len() && (#[trigger] entries[i]).0.id() == id
}

/// The position of the entry with the key `id`.
pub open spec fn key_position<K: TableKey, V>(entries: Seq<(K, V)>, id: K::Id) -> int {
    choose|i: int| 0 <= i < entries.len() && (#[trigger] entries[i]).0.id() == id
}

impl<K: TableKey, V> View for Table<K, V> {
    type V = Map<K::Id, V>;

    closed spec fn view(&self) -> Map<K::Id, V> {
        Map::new(
            |id: K::Id| has_key(self.entries@, id),
            |id: K::Id| self.entries@[key_position(self.entries@, id)].1,
        )
    }
}

impl<K: TableKey, V> Table<K, V> {
    /// No key has two entries.
    pub closed spec fn wf(&self) -> bool {
        forall|i: int, j: int|
            0 <= i < j < self.entries@.len() ==> (#[trigger] self.entries@[i]).0.id() != (
            #[trigger] self.entries@[j]).0.id()
    }

    proof fn lemma_entry(&self, i: int)
        requires
            self.wf(),
            0 <= i < self.entries@.len(),
        ensures
            self@.dom().contains(self.entries@[i].0.id()),
            self@[self.entries@[i].0.id()] == self.entries@[i].1,
            key_position(self.entries@, self.entries@[i].0.id()) == i,
    {
        let id = self.entries@[i].0.id();
        let k = key_position(self.entries@, id);
        assert(0 <= k < self.entries@.len() && self.entries@[k].0.id() == id);
        assert(k == i);
    }

    /// The keys, in the order in which they first came.
    pub closed spec fn keys(&self) -> Seq<K::Id> {
        self.entries@.map_values(|e: (K, V)| e.0.id())
    }

    /// Each key of the map stands once among `keys`.
    pub proof fn lemma_keys(&self)
        requires
            self.wf(),
        ensures
            self.keys().no_duplicates(),
            self.keys().to_set() == self@.dom(),
    {
        assert forall|id: K::Id| self.keys().to_set().contains(id) == #[trigger]
            self@.dom().contains(id) by {
            if has_key(self.entries@, id) {
                let i = key_position(self.entries@, id);
                assert(self.keys()[i] == id);
            }
            if self.keys().contains(id) {
                let i = self.keys().index_of(id);
                assert(self.entries@[i].0.id() == id);
            }
        }
        assert(self.keys().to_set() =~= self@.dom());
    }

    /// The number of keys.
    pub fn len(&self) -> (res: usize)
        ensures
            res == self.keys().len(),
    {
        self.entries.len()
    }

    /// The value under the key that came `i`-th.
    pub fn value_at(&self, i: usize) -> (res: &V)
        requires
            self.wf(),
            i < self.keys().len(),
        ensures
            *res == self@[self.keys()[i as int]],
    {
        proof {
            self.lemma_entry(i as int);
        }
        &self.entries[i].1
    }

    /// A table with no entry.
    pub fn new() -> (res: Self)
        ensures
            res.wf(),
            res@ == Map::<K::Id, V>::empty(),
    {
        let res = Table { entries: Vec::new() };
        assert(res@ =~= Map::<K::Id, V>::empty());
        res
    }

    fn position(&self, key: &K) -> (res: Option<usize>)
        ensures
            match res {
                Some(i) => i < self.entries@.len() && self.entries@[i as int].0.id() == key.id(),
                None => !has_key(self.entries@, key.id()),
            },
    {
        let mut i: usize = 0;
        while i < self.entries.len()
            invariant
                i <= self.entries@.len(),
                forall|j: int| 0 <= j < i ==> (#[trigger] self.entries@[j]).0.id() != key.id(),
            decreases self.entries@.len() - i,
        {
            if self.entries[i].0.same_key(key) {
                return Some(i);
            }
            i = i + 1;
        }
        None
    }

    /// The value under `key`.
    pub fn get(&self, key: &K) -> (res: Option<&V>)
        requires
            self.wf(),
        ensures
            match res {
                Some(v) => self@.dom().contains(key.id()) && *v == self@[key.id()],
                None => !self@.dom().contains(key.id()),
            },
    {
        match self.position(key) {
            Some(i) => {
                proof {
                    self.lemma_entry(i as int);
                }
                Some(&self.entries[i].1)
            },
            None => None,
        }
    }

    /// Puts `value` under `key`, in place of what was there.
    pub fn insert(&mut self, key: K, value: V)
        requires
            old(self).wf(),
        ensures
            final(self).wf(),
            final(self)@ == old(self)@.insert(key.id(), value),
    {
        let ghost before = *self;
        let ghost id = key.id();
        match self.position(&key) {
            Some(i) => {
                self.entries.set(i, (key, value));
                assert(self.wf());
                proof {
                    assert forall|k: K::Id| #[trigger]
                        self@.dom().contains(k) == before@.insert(id, value).dom().contains(k) by {
                        if has_key(before.entries@, k) {
                            let j = key_position(before.entries@, k);
                            assert(self.entries@[j].0.id() == k);
                        }
                        if has_key(self.entries@, k) {
                            let j = key_position(self.entries@, k);
                            assert(before.entries@[j].0.id() == k);
                        }
                        assert(self.entries@[i as int].0.id() == id);
                    }
                    assert forall|k: K::Id| #[trigger] self@.dom().contains(k) implies self@[k]
                        == before@.insert(id, value)[k] by {
                        let j = key_position(self.entries@, k);
                        self.lemma_entry(j);
                        before.lemma_entry(j);
                    }
                    assert(self@ =~= before@.insert(id, value));
                }
            },
            None => {
                self.entries.push((key, value));
                let ghost last = before.entries@.len() as int;
                assert(self.wf());
                proof {
                    assert(self.entries@[last].0.id() == id);
                    assert forall|k: K::Id| #[trigger]
                        self@.dom().contains(k) == before@.insert(id, value).dom().contains(k) by {
                        if has_key(before.entries@, k) {
                            let j = key_position(before.entries@, k);
                            assert(self.entries@[j].0.id() == k);
                        }
                        if has_key(self.entries@, k) {
                            let j = key_position(self.entries@, k);
                            if j < last {
                                assert(before.entries@[j].0.id() == k);
                            }
                        }
                    }
                    assert forall|k: K::Id| #[trigger] self@.dom().contains(k) implies self@[k]
                        == before@.insert(id, value)[k] by {
                        let j = key_position(self.entries@, k);
                        self.lemma_entry(j);
                        if j < last {
                            before.lemma_entry(j);
                        }
                    }
                    assert(self@ =~= before@.insert(id, value));
                }
            },
        }
    }
}

} // verus!
