//! Association lists with a mathematical map as their meaning.
//!
//! A [`Table`] keeps its entries in the order in which their keys came in and
//! holds no key twice. Keys are compared by what they identify: texts by their
//! characters, keys and addresses by their bytes.
use vstd::prelude::*;

verus! {

/// A type whose values can be keys of a [`Table`].
pub trait MapKey: Sized {
    type Id;

    /// What the key identifies.
    spec fn id(&self) -> Self::Id;

    /// Whether two keys identify the same thing.
    fn same_key(&self, other: &Self) -> (r: bool)
        ensures
            r == (self.id() == other.id()),
    ;
}

/// A raw 32-byte key: public, private or derived.
pub type RawKey = [u8; 32];

impl MapKey for String {
    type Id = Seq<char>;

    open spec fn id(&self) -> Seq<char> {
        self@
    }

    fn same_key(&self, other: &Self) -> (r: bool) {
        *self == *other
    }
}

impl MapKey for [u8; 32] {
    type Id = [u8; 32];

    open spec fn id(&self) -> [u8; 32] {
        *self
    }

    fn same_key(&self, other: &Self) -> (r: bool) {
        same_raw_key(self, other)
    }
}

impl MapKey for u64 {
    type Id = u64;

    open spec fn id(&self) -> u64 {
        *self
    }

    fn same_key(&self, other: &Self) -> (r: bool) {
        *self == *other
    }
}

/// Whether two raw keys are equal.
pub fn same_raw_key(a: &[u8; 32], b: &[u8; 32]) -> (r: bool)
    ensures
        r == (*a == *b),
{
    let r = crate::bytes::same_bytes(a.as_slice(), b.as_slice());
    assert(r ==> *a =~= *b);
    r
}

pub struct Table<K: MapKey, V> {
    entries: Vec<(K, V)>,
}

/// A sequence without the first occurrence of an element.
pub open spec fn without<T>(s: Seq<T>, x: T) -> Seq<T> {
    if s.contains(x) {
        s.remove(s.index_of(x))
    } else {
        s
    }
}

pub open spec fn entry_ids<K: MapKey, V>(s: Seq<(K, V)>) -> Seq<K::Id> {
    s.map_values(|e: (K, V)| e.0.id())
}

impl<K: MapKey, V> Table<K, V> {
    /// The identities of the keys, oldest first.
    pub closed spec fn ids(&self) -> Seq<K::Id> {
        entry_ids(self.entries@)
    }

    /// The values, in the order of their keys.
    pub closed spec fn values(&self) -> Seq<V> {
        self.entries@.map_values(|e: (K, V)| e.1)
    }

    /// The keys themselves, oldest first.
    pub closed spec fn keys(&self) -> Seq<K> {
        self.entries@.map_values(|e: (K, V)| e.0)
    }

    /// No key occurs twice.
    pub open spec fn wf(&self) -> bool {
        &&& self.ids().no_duplicates()
        &&& self.ids().len() == self.values().len()
        &&& self.ids().len() == self.keys().len()
        &&& forall|i: int| 0 <= i < self.keys().len() ==> #[trigger] self.keys()[i].id() == self.ids()[i]
    }

    /// The meaning of the table.
    pub open spec fn view(&self) -> Map<K::Id, V> {
        Map::new(
            |id: K::Id| self.ids().contains(id),
            |id: K::Id| self.values()[self.ids().index_of(id)],
        )
    }

    /// Where a key stands, for the key at position `i`.
    proof fn lemma_index(&self, i: int)
        requires
            self.wf(),
            0 <= i < self.ids().len(),
        ensures
            self.ids().contains(self.ids()[i]),
            self.ids().index_of(self.ids()[i]) == i,
    {
        let id = self.ids()[i];
        assert(self.ids().contains(id));
        let j = self.ids().index_of(id);
        assert(0 <= j < self.ids().len() && self.ids()[j] == id);
    }

    /// The domain of the table's meaning has one element for each entry.
    pub proof fn lemma_dom(&self)
        requires
            self.wf(),
        ensures
            self@.dom() == self.ids().to_set(),
            self@.dom().finite(),
            self@.dom().len() == self.ids().len(),
    {
        self.ids().unique_seq_to_set();
        vstd::seq_lib::seq_to_set_is_finite(self.ids());
        assert(self@.dom() =~= self.ids().to_set());
    }

    /// The entry at a position is the table's entry for its key.
    pub proof fn lemma_at(&self, i: int)
        requires
            self.wf(),
            0 <= i < self.ids().len(),
        ensures
            self@.dom().contains(self.ids()[i]),
            self@[self.ids()[i]] == self.values()[i],
    {
        self.lemma_index(i);
    }

    pub fn new() -> (r: Self)
        ensures
            r.wf(),
            r@ == Map::<K::Id, V>::empty(),
            r.ids() == Seq::<K::Id>::empty(),
    {
        let r = Table { entries: Vec::new() };
        assert(r.ids() =~= Seq::<K::Id>::empty());
        assert(r@ =~= Map::<K::Id, V>::empty());
        r
    }

    /// The number of entries.
    pub fn len(&self) -> (r: usize)
        requires
            self.wf(),
        ensures
            r == self@.dom().len(),
            r == self.ids().len(),
    {
        proof {
            self.lemma_dom();
        }
        self.entries.len()
    }

    /// The key at position `i`.
    pub fn key_at(&self, i: usize) -> (r: &K)
        requires
            self.wf(),
            i < self.ids().len(),
        ensures
            *r == self.keys()[i as int],
            r.id() == self.ids()[i as int],
    {
        &self.entries[i].0
    }

    /// The value at position `i`.
    pub fn value_at(&self, i: usize) -> (r: &V)
        requires
            self.wf(),
            i < self.ids().len(),
        ensures
            *r == self.values()[i as int],
            *r == self@[self.ids()[i as int]],
            self@.dom().contains(self.ids()[i as int]),
    {
        proof {
            self.lemma_at(i as int);
        }
        &self.entries[i].1
    }

    /// The position of a key.
    pub fn position(&self, k: &K) -> (r: Option<usize>)
        requires
            self.wf(),
        ensures
            match r {
                Some(i) => i < self.ids().len() && self.ids()[i as int] == k.id()
                    && self@.dom().contains(k.id()) && self@[k.id()] == self.values()[i as int],
                None => !self@.dom().contains(k.id()),
            },
    {
        let mut i: usize = 0;
        while i < self.entries.len()
            invariant
                self.wf(),
                i <= self.entries@.len(),
                forall|j: int| 0 <= j < i ==> #[trigger] self.ids()[j] != k.id(),
            decreases self.entries@.len() - i,
        {
            if self.entries[i].0.same_key(k) {
                proof {
                    self.lemma_at(i as int);
                }
                return Some(i);
            }
            i = i + 1;
        }
        None
    }

    pub fn contains(&self, k: &K) -> (r: bool)
        requires
            self.wf(),
        ensures
            r == self@.dom().contains(k.id()),
    {
        self.position(k).is_some()
    }

    pub fn get(&self, k: &K) -> (r: Option<&V>)
        requires
            self.wf(),
        ensures
            match r {
                Some(v) => self@.dom().contains(k.id()) && *v == self@[k.id()],
                None => !self@.dom().contains(k.id()),
            },
    {
        match self.position(k) {
            Some(i) => Some(self.value_at(i)),
            None => None,
        }
    }

    /// Replaces the value at position `i`.
    pub fn set_at(&mut self, i: usize, v: V)
        requires
            old(self).wf(),
            i < old(self).ids().len(),
        ensures
            final(self).wf(),
            final(self).ids() == old(self).ids(),
            final(self).values() == old(self).values().update(i as int, v),
            final(self)@ == old(self)@.insert(old(self).ids()[i as int], v),
    {
        let ghost before = *self;
        self.entries[i].1 = v;
        proof {
            assert(self.ids() =~= before.ids());
            assert(self.keys() =~= before.keys());
            assert(self.values() =~= before.values().update(i as int, v));
            before.lemma_index(i as int);
            assert forall|id: K::Id| before.ids().contains(id) && id != before.ids()[i as int] implies before.ids().index_of(id) != i by {
                let j = before.ids().index_of(id);
                assert(before.ids()[j] == id);
            }
            assert(self@ =~= before@.insert(before.ids()[i as int], v));
        }
    }

    /// Binds a key to a value. A new key goes to the end; an old one keeps its
    /// place.
    pub fn insert(&mut self, k: K, v: V)
        requires
            old(self).wf(),
        ensures
            final(self).wf(),
            final(self)@ == old(self)@.insert(k.id(), v),
            final(self).ids() == (if old(self)@.dom().contains(k.id()) {
                old(self).ids()
            } else {
                old(self).ids().push(k.id())
            }),
    {
        match self.position(&k) {
            Some(i) => {
                self.set_at(i, v);
            },
            None => {
                let ghost before = *self;
                self.entries.push((k, v));
                proof {
                    assert(self.ids() =~= before.ids().push(k.id()));
                    assert(self.keys() =~= before.keys().push(k));
                    assert(self.values() =~= before.values().push(v));
                    assert forall|a: int, b: int|
                        0 <= a < self.ids().len() && 0 <= b < self.ids().len() && a
                            != b implies self.ids()[a] != self.ids()[b] by {
                        if a == before.ids().len() {
                            assert(before.ids().contains(self.ids()[b]));
                        } else if b == before.ids().len() {
                            assert(before.ids().contains(self.ids()[a]));
                        }
                    }
                    self.lemma_index(before.ids().len() as int);
                    assert forall|id: K::Id| self.ids().contains(id) implies id == k.id()
                        || before.ids().contains(id) by {
                        let j = self.ids().index_of(id);
                        assert(self.ids()[j] == id);
                        if j < before.ids().len() {
                            assert(before.ids()[j] == id);
                        }
                    }
                    assert forall|id: K::Id| before.ids().contains(id) implies self.ids().contains(
                        id,
                    ) && self.ids().index_of(id) == before.ids().index_of(id) by {
                        let j = before.ids().index_of(id);
                        assert(before.ids()[j] == id);
                        assert(self.ids()[j] == id);
                        self.lemma_index(j);
                    }
                    assert(self@ =~= before@.insert(k.id(), v));
                }
            },
        }
    }

    /// Takes out the entry at position `i`.
    pub fn remove_at(&mut self, i: usize) -> (r: (K, V))
        requires
            old(self).wf(),
            i < old(self).ids().len(),
        ensures
            final(self).wf(),
            r.0.id() == old(self).ids()[i as int],
            r.1 == old(self)@[r.0.id()],
            final(self)@ == old(self)@.remove(r.0.id()),
            final(self).ids() == old(self).ids().remove(i as int),
            final(self).values() == old(self).values().remove(i as int),
    {
        let ghost before = *self;
        let r = self.entries.remove(i);
        proof {
            assert(self.ids() =~= before.ids().remove(i as int));
            assert(self.keys() =~= before.keys().remove(i as int));
            assert(self.values() =~= before.values().remove(i as int));
            before.lemma_at(i as int);
            let gone = before.ids()[i as int];
            assert forall|id: K::Id| self.ids().contains(id) implies id != gone
                && before.ids().contains(id) && self.values()[self.ids().index_of(id)]
                == before.values()[before.ids().index_of(id)] by {
                let j = self.ids().index_of(id);
                assert(self.ids()[j] == id);
                let m = if j < i { j } else { j + 1 };
                assert(before.ids()[m] == id);
                before.lemma_index(m);
                assert(before.values()[m] == self.values()[j]);
            }
            assert forall|id: K::Id| before.ids().contains(id) && id != gone implies self.ids().contains(id) by {
                let j = before.ids().index_of(id);
                assert(before.ids()[j] == id);
                let m = if j < i { j } else { j - 1 };
                assert(self.ids()[m] == id);
            }
            assert(self@ =~= before@.remove(gone));
        }
        r
    }

    /// Takes out the entry of a key.
    pub fn remove(&mut self, k: &K) -> (r: Option<V>)
        requires
            old(self).wf(),
        ensures
            final(self).wf(),
            final(self)@ == old(self)@.remove(k.id()),
            match r {
                Some(v) => old(self)@.dom().contains(k.id()) && v == old(self)@[k.id()],
                None => !old(self)@.dom().contains(k.id()) && *final(self) == *old(self),
            },
            final(self).ids() == without(old(self).ids(), k.id()),
    {
        match self.position(k) {
            Some(i) => {
                proof {
                    self.lemma_index(i as int);
                }
                Some(self.remove_at(i).1)
            },
            None => {
                assert(self@.remove(k.id()) =~= self@);
                None
            },
        }
    }
}

} // verus!
