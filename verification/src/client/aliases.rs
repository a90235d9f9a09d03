//! The client's own names for virtual addresses, in alphabetical order.
use vstd::prelude::*;
use vstd::string::*;
use vstd::utf8::*;
use crate::text::same;

verus! {

/// Whether one byte string comes before another: at the first place where they
/// differ it has the smaller byte, or it is the beginning of the other.
pub open spec fn before(a: Seq<u8>, b: Seq<u8>) -> bool {
    exists|i: int|
        {
            &&& 0 <= i < b.len()
            &&& i <= a.len()
            &&& forall|j: int| 0 <= j < i ==> a[j] == b[j]
            &&& #[trigger] differs_at(a, b, i)
        }
}

/// The first byte string ends at `i`, or has the smaller byte there.
pub open spec fn differs_at(a: Seq<u8>, b: Seq<u8>, i: int) -> bool {
    i == a.len() || a[i] < b[i]
}

/// Whether one text comes before another in the order of their UTF-8 bytes.
pub open spec fn text_before(a: Seq<char>, b: Seq<char>) -> bool {
    before(encode_utf8(a), encode_utf8(b))
}

fn bytes_before(a: &[u8], b: &[u8]) -> (r: bool)
    ensures
        r == before(a@, b@),
{
    let mut i: usize = 0;
    while i < a.len() && i < b.len()
        invariant
            i <= a@.len(),
            i <= b@.len(),
            forall|j: int| 0 <= j < i ==> a@[j] == b@[j],
        decreases a@.len() - i,
    {
        if a[i] != b[i] {
            let r = a[i] < b[i];
            proof {
                if r {
                    assert(differs_at(a@, b@, i as int));
                } else if before(a@, b@) {
                    let k = choose|k: int|
                        {
                            &&& 0 <= k < b@.len()
                            &&& k <= a@.len()
                            &&& forall|j: int| 0 <= j < k ==> a@[j] == b@[j]
                            &&& #[trigger] differs_at(a@, b@, k)
                        };
                    if k > i {
                        assert(a@[i as int] == b@[i as int]);
                    }
                    assert(false);
                }
            }
            return r;
        }
        i = i + 1;
    }
    let r = i < b.len();
    proof {
        if r {
            assert(differs_at(a@, b@, i as int));
        } else if before(a@, b@) {
            let k = choose|k: int|
                {
                    &&& 0 <= k < b@.len()
                    &&& k <= a@.len()
                    &&& forall|j: int| 0 <= j < k ==> a@[j] == b@[j]
                    &&& #[trigger] differs_at(a@, b@, k)
                };
            assert(a@[k] == b@[k]);
        }
    }
    r
}

proof fn lemma_before_transitive(a: Seq<u8>, b: Seq<u8>, c: Seq<u8>)
    requires
        before(a, b),
        before(b, c),
    ensures
        before(a, c),
{
    let i = choose|i: int|
        {
            &&& 0 <= i < b.len()
            &&& i <= a.len()
            &&& forall|j: int| 0 <= j < i ==> a[j] == b[j]
            &&& #[trigger] differs_at(a, b, i)
        };
    let k = choose|k: int|
        {
            &&& 0 <= k < c.len()
            &&& k <= b.len()
            &&& forall|j: int| 0 <= j < k ==> b[j] == c[j]
            &&& #[trigger] differs_at(b, c, k)
        };
    let m = if i <= k { i } else { k };
    assert forall|j: int| 0 <= j < m implies a[j] == c[j] by {
        assert(a[j] == b[j] && b[j] == c[j]);
    }
    assert(differs_at(a, c, m)) by {
        if i < k {
            assert(b[i] == c[i]);
        } else if k < i {
            assert(a[k] == b[k]);
        }
    }
}

proof fn lemma_before_irreflexive(a: Seq<u8>)
    ensures
        !before(a, a),
{
}

/// A list of names and their addresses, ordered by name.
#[derive(Debug, Clone)]
pub struct Aliases {
    entries: Vec<(String, String)>,
}

impl Aliases {
    /// The names, in order.
    pub closed spec fn names(&self) -> Seq<Seq<char>> {
        self.entries@.map_values(|e: (String, String)| e.0@)
    }

    /// The addresses, in the order of their names.
    pub closed spec fn ips(&self) -> Seq<Seq<char>> {
        self.entries@.map_values(|e: (String, String)| e.1@)
    }

    /// The names are in order, and none occurs twice.
    pub open spec fn wf(&self) -> bool {
        &&& self.names().len() == self.ips().len()
        &&& forall|i: int, j: int|
            0 <= i < j < self.names().len() ==> text_before(
                #[trigger] self.names()[i],
                #[trigger] self.names()[j],
            )
    }

    /// The addresses by name.
    pub open spec fn view(&self) -> Map<Seq<char>, Seq<char>> {
        Map::new(
            |n: Seq<char>| self.names().contains(n),
            |n: Seq<char>| self.ips()[self.names().index_of(n)],
        )
    }

    proof fn lemma_index(&self, i: int)
        requires
            self.wf(),
            0 <= i < self.names().len(),
        ensures
            self.names().contains(self.names()[i]),
            self.names().index_of(self.names()[i]) == i,
    {
        let n = self.names()[i];
        assert(self.names().contains(n));
        let j = self.names().index_of(n);
        assert(self.names()[j] == n);
        lemma_before_irreflexive(encode_utf8(n));
        if i < j {
            assert(text_before(self.names()[i], self.names()[j]));
        }
        if j < i {
            assert(text_before(self.names()[j], self.names()[i]));
        }
    }

    pub fn new() -> (r: Self)
        ensures
            r.wf(),
            r@ == Map::<Seq<char>, Seq<char>>::empty(),
            r.names() == Seq::<Seq<char>>::empty(),
    {
        let r = Aliases { entries: Vec::new() };
        assert(r.names() =~= Seq::<Seq<char>>::empty());
        assert(r@ =~= Map::<Seq<char>, Seq<char>>::empty());
        r
    }

    pub fn copy(&self) -> (r: Self)
        ensures
            r.names() == self.names(),
            r.ips() == self.ips(),
            r@ == self@,
    {
        let mut entries: Vec<(String, String)> = Vec::new();
        let mut i: usize = 0;
        while i < self.entries.len()
            invariant
                i <= self.entries@.len(),
                entries@ == self.entries@.take(i as int),
            decreases self.entries@.len() - i,
        {
            entries.push((self.entries[i].0.clone(), self.entries[i].1.clone()));
            assert(entries@ =~= self.entries@.take(i + 1));
            i = i + 1;
        }
        assert(entries@ =~= self.entries@);
        let r = Aliases { entries };
        assert(r@ =~= self@);
        r
    }

    /// Whether two lists bind the same names to the same addresses.
    pub fn same_as(&self, other: &Aliases) -> (r: bool)
        ensures
            r == (self.names() == other.names() && self.ips() == other.ips()),
    {
        if self.entries.len() != other.entries.len() {
            return false;
        }
        let mut i: usize = 0;
        while i < self.entries.len()
            invariant
                i <= self.entries@.len(),
                self.entries@.len() == other.entries@.len(),
                forall|j: int|
                    0 <= j < i ==> #[trigger] self.names()[j] == other.names()[j],
                forall|j: int| 0 <= j < i ==> #[trigger] self.ips()[j] == other.ips()[j],
            decreases self.entries@.len() - i,
        {
            if !same(self.entries[i].0.as_str(), other.entries[i].0.as_str()) {
                assert(self.names()[i as int] != other.names()[i as int]);
                return false;
            }
            if !same(self.entries[i].1.as_str(), other.entries[i].1.as_str()) {
                assert(self.ips()[i as int] != other.ips()[i as int]);
                return false;
            }
            i = i + 1;
        }
        assert(self.names() =~= other.names());
        assert(self.ips() =~= other.ips());
        true
    }

    pub fn len(&self) -> (r: usize)
        ensures
            r == self.names().len(),
    {
        self.entries.len()
    }

    pub fn is_empty(&self) -> (r: bool)
        ensures
            r == (self.names().len() == 0),
    {
        self.entries.len() == 0
    }

    pub fn name_at(&self, i: usize) -> (r: &String)
        requires
            i < self.names().len(),
        ensures
            r@ == self.names()[i as int],
    {
        &self.entries[i].0
    }

    pub fn ip_at(&self, i: usize) -> (r: &String)
        requires
            i < self.names().len(),
        ensures
            r@ == self.ips()[i as int],
    {
        &self.entries[i].1
    }

    fn position(&self, name: &str) -> (r: Option<usize>)
        requires
            self.wf(),
        ensures
            match r {
                Some(i) => i < self.names().len() && self.names()[i as int] == name@
                    && self@.dom().contains(name@) && self@[name@] == self.ips()[i as int],
                None => !self@.dom().contains(name@),
            },
    {
        let mut i: usize = 0;
        while i < self.entries.len()
            invariant
                self.wf(),
                i <= self.entries@.len(),
                forall|j: int| 0 <= j < i ==> #[trigger] self.names()[j] != name@,
            decreases self.entries@.len() - i,
        {
            if same(self.entries[i].0.as_str(), name) {
                proof {
                    self.lemma_index(i as int);
                }
                return Some(i);
            }
            i = i + 1;
        }
        None
    }

    /// The address of a name.
    pub fn get(&self, name: &str) -> (r: Option<&String>)
        requires
            self.wf(),
        ensures
            match r {
                Some(ip) => self@.dom().contains(name@) && ip@ == self@[name@],
                None => !self@.dom().contains(name@),
            },
    {
        match self.position(name) {
            Some(i) => Some(&self.entries[i].1),
            None => None,
        }
    }

    /// Binds a name to an address.
    pub fn insert(&mut self, name: String, ip: String)
        requires
            old(self).wf(),
        ensures
            final(self).wf(),
            final(self)@ == old(self)@.insert(name@, ip@),
    {
        let ghost m0 = *self;
        match self.position(name.as_str()) {
            Some(i) => {
                self.entries[i].1 = ip;
                proof {
                    assert(self.names() =~= m0.names());
                    assert(self.ips() =~= m0.ips().update(i as int, ip@));
                    m0.lemma_index(i as int);
                    assert forall|n: Seq<char>| m0.names().contains(n) && n != name@ implies
                        m0.names().index_of(n) != i by {
                        let j = m0.names().index_of(n);
                        assert(m0.names()[j] == n);
                    }
                    assert(self@ =~= m0@.insert(name@, ip@));
                }
            },
            None => {
                let mut pos: usize = 0;
                while pos < self.entries.len() && bytes_before(
                    self.entries[pos].0.as_str().as_bytes(),
                    name.as_str().as_bytes(),
                )
                    invariant
                        *self == m0,
                        m0.wf(),
                        pos <= self.entries@.len(),
                        forall|j: int|
                            0 <= j < pos ==> text_before(#[trigger] m0.names()[j], name@),
                    ensures
                        *self == m0,
                        pos <= self.entries@.len(),
                        forall|j: int|
                            0 <= j < pos ==> text_before(#[trigger] m0.names()[j], name@),
                        pos < self.entries@.len() ==> !text_before(
                            m0.names()[pos as int],
                            name@,
                        ),
                    decreases self.entries@.len() - pos,
                {
                    pos = pos + 1;
                }
                self.entries.insert(pos, (name, ip));
                proof {
                    assert(self.names() =~= m0.names().insert(pos as int, name@));
                    assert(self.ips() =~= m0.ips().insert(pos as int, ip@));
                    if pos < m0.names().len() {
                        let q = m0.names()[pos as int];
                        assert(m0.names().contains(q));
                        lemma_before_total(q, name@);
                    }
                    assert forall|i: int, j: int| 0 <= i < j < self.names().len() implies text_before(
                        #[trigger] self.names()[i],
                        #[trigger] self.names()[j],
                    ) by {
                        let oi = if i < pos { i } else { i - 1 };
                        let oj = if j < pos { j } else { j - 1 };
                        if i == pos {
                            assert(self.names()[j] == m0.names()[oj]);
                            if oj > pos {
                                assert(text_before(m0.names()[pos as int], m0.names()[oj]));
                                lemma_before_transitive(
                                    encode_utf8(name@),
                                    encode_utf8(m0.names()[pos as int]),
                                    encode_utf8(m0.names()[oj]),
                                );
                            }
                        } else if j == pos {
                            assert(self.names()[i] == m0.names()[oi]);
                        } else {
                            assert(self.names()[i] == m0.names()[oi]);
                            assert(self.names()[j] == m0.names()[oj]);
                        }
                    }
                    self.lemma_index(pos as int);
                    assert forall|n: Seq<char>| self.names().contains(n) implies n == name@
                        || m0.names().contains(n) by {
                        let j = self.names().index_of(n);
                        assert(self.names()[j] == n);
                        let oj = if j < pos { j } else { j - 1 };
                        if j != pos {
                            assert(m0.names()[oj] == n);
                        }
                    }
                    assert forall|n: Seq<char>| m0.names().contains(n) implies self.names().contains(
                        n,
                    ) && self.ips()[self.names().index_of(n)] == m0.ips()[m0.names().index_of(
                        n,
                    )] by {
                        let j = m0.names().index_of(n);
                        assert(m0.names()[j] == n);
                        let nj = if j < pos { j } else { j + 1 };
                        assert(self.names()[nj] == n);
                        self.lemma_index(nj);
                        assert(self.ips()[nj] == m0.ips()[j]);
                    }
                    assert(self@ =~= m0@.insert(name@, ip@));
                }
            },
        }
    }

    /// Unbinds a name. Says whether it was bound.
    pub fn remove(&mut self, name: &str) -> (r: bool)
        requires
            old(self).wf(),
        ensures
            final(self).wf(),
            r == old(self)@.dom().contains(name@),
            final(self)@ == old(self)@.remove(name@),
    {
        let ghost m0 = *self;
        match self.position(name) {
            Some(i) => {
                self.entries.remove(i);
                proof {
                    assert(self.names() =~= m0.names().remove(i as int));
                    assert(self.ips() =~= m0.ips().remove(i as int));
                    m0.lemma_index(i as int);
                    assert forall|a: int, b: int| 0 <= a < b < self.names().len() implies text_before(
                        #[trigger] self.names()[a],
                        #[trigger] self.names()[b],
                    ) by {
                        let oa = if a < i { a } else { a + 1 };
                        let ob = if b < i { b } else { b + 1 };
                        assert(self.names()[a] == m0.names()[oa]);
                        assert(self.names()[b] == m0.names()[ob]);
                    }
                    assert forall|n: Seq<char>| self.names().contains(n) implies n != name@
                        && m0.names().contains(n) && self.ips()[self.names().index_of(n)]
                        == m0.ips()[m0.names().index_of(n)] by {
                        let j = self.names().index_of(n);
                        assert(self.names()[j] == n);
                        let oj = if j < i { j } else { j + 1 };
                        assert(m0.names()[oj] == n);
                        m0.lemma_index(oj);
                        assert(m0.ips()[oj] == self.ips()[j]);
                    }
                    assert forall|n: Seq<char>| m0.names().contains(n) && n != name@ implies
                        self.names().contains(n) by {
                        let j = m0.names().index_of(n);
                        assert(m0.names()[j] == n);
                        let nj = if j < i { j } else { j - 1 };
                        assert(self.names()[nj] == n);
                    }
                    assert(self@ =~= m0@.remove(name@));
                }
                true
            },
            None => {
                assert(self@.remove(name@) =~= self@);
                false
            },
        }
    }

    /// The first name that is bound to an address stands at `i`.
    pub open spec fn first_for(&self, ip: Seq<char>, i: int) -> bool {
        &&& 0 <= i < self.ips().len()
        &&& self.ips()[i] == ip
        &&& forall|j: int| 0 <= j < i ==> #[trigger] self.ips()[j] != ip
    }

    /// The first name that is bound to an address.
    pub fn name_for(&self, ip: &str) -> (r: Option<String>)
        requires
            self.wf(),
        ensures
            match r {
                Some(n) => exists|i: int|
                    #[trigger] self.first_for(ip@, i) && n@ == self.names()[i],
                None => !self.ips().contains(ip@),
            },
    {
        let mut i: usize = 0;
        while i < self.entries.len()
            invariant
                self.wf(),
                i <= self.entries@.len(),
                forall|j: int| 0 <= j < i ==> #[trigger] self.ips()[j] != ip@,
            decreases self.entries@.len() - i,
        {
            if same(self.entries[i].1.as_str(), ip) {
                assert(self.first_for(ip@, i as int));
                return Some(self.entries[i].0.clone());
            }
            i = i + 1;
        }
        None
    }
}

proof fn lemma_before_total(a: Seq<char>, b: Seq<char>)
    ensures
        a != b ==> text_before(a, b) || text_before(b, a),
{
    if a != b {
        encode_utf8_decode_utf8(a);
        encode_utf8_decode_utf8(b);
        let x = encode_utf8(a);
        let y = encode_utf8(b);
        lemma_bytes_total(x, y, 0);
    }
}

proof fn lemma_bytes_total(x: Seq<u8>, y: Seq<u8>, i: int)
    requires
        x != y,
        0 <= i <= x.len(),
        i <= y.len(),
        forall|j: int| 0 <= j < i ==> x[j] == y[j],
    ensures
        before(x, y) || before(y, x),
    decreases x.len() - i,
{
    if i == x.len() && i == y.len() {
        assert(x =~= y);
    } else if i == x.len() {
        assert(differs_at(x, y, i));
    } else if i == y.len() {
        assert(differs_at(y, x, i));
    } else if x[i] == y[i] {
        lemma_bytes_total(x, y, i + 1);
    } else if x[i] < y[i] {
        assert(differs_at(x, y, i));
    } else {
        assert(differs_at(y, x, i));
    }
}

} // verus!
