use vstd::prelude::*;
use crate::key::Key;

verus! {

/// The map that a sequence of entries writes, one after the other: where a
/// key occurs more than once, its last entry stands.
pub open spec fn map_of<K: Key, V>(entries: Seq<(K, V)>) -> Map<K::V, V>
    decreases entries.len(),
{
    if entries.len() == 0 {
        Map::empty()
    } else {
        map_of(entries.drop_last()).insert(entries.last().0@, entries.last().1)
    }
}

/// The keys of `map_of(entries)` are the keys of the entries, and the value
/// under each is the value of one of its entries.
pub proof fn lemma_map_of<K: Key, V>(entries: Seq<(K, V)>)
    ensures
        map_of(entries).dom().finite(),
        forall|i: int|
            0 <= i < entries.len() ==> map_of(entries).dom().contains((#[trigger] entries[i]).0@),
        forall|k: K::V| #[trigger]
            map_of(entries).dom().contains(k) ==> exists|i: int|
                0 <= i < entries.len() && (#[trigger] entries[i]).0@ == k && map_of(entries)[k]
                    == entries[i].1,
    decreases entries.len(),
{
    if entries.len() > 0 {
        let front = entries.drop_last();
        let n = entries.len() - 1;
        lemma_map_of(front);
        assert forall|i: int| 0 <= i < entries.len() implies map_of(entries).dom().contains(
            (#[trigger] entries[i]).0@,
        ) by {
            if i < n {
                assert(front[i] == entries[i]);
            }
        }
        assert forall|k: K::V| #[trigger] map_of(entries).dom().contains(k) implies exists|i: int|
            0 <= i < entries.len() && (#[trigger] entries[i]).0@ == k && map_of(entries)[k]
                == entries[i].1 by {
            if k == entries[n].0@ {
                assert(entries[n].0@ == k && map_of(entries)[k] == entries[n].1);
            } else {
                assert(map_of(front).dom().contains(k));
                let i = choose|i: int|
                    0 <= i < front.len() && (#[trigger] front[i]).0@ == k && map_of(front)[k]
                        == front[i].1;
                assert(entries[i].0@ == k && map_of(entries)[k] == entries[i].1);
            }
        }
    }
}

/// A finite map from keys to values, held as two parallel vectors in which
/// no key occurs twice. Its view is the map itself.
pub struct Table<K: Key, V: Copy> {
    keys: Vec<K>,
    values: Vec<V>,
    model: Ghost<Map<K::V, V>>,
}

impl<K: Key, V: Copy> View for Table<K, V> {
    type V = Map<K::V, V>;

    closed spec fn view(&self) -> Map<K::V, V> {
        self.model@
    }
}

impl<K: Key, V: Copy> Table<K, V> {
    /// The key stored at position `i`.
    spec fn slot(&self, i: int) -> K::V {
        self.keys@[i]@
    }

    /// The vectors and the map say the same thing: every stored pair is in
    /// the map, every key of the map is stored, and no key is stored twice.
    pub closed spec fn wf(&self) -> bool {
        &&& self.keys@.len() == self.values@.len()
        &&& self.model@.dom().finite()
        &&& forall|i: int|
            0 <= i < self.keys@.len() ==> self.model@.contains_pair(
                #[trigger] self.slot(i),
                self.values@[i],
            )
        &&& forall|k: K::V| #[trigger]
            self.model@.dom().contains(k) ==> exists|i: int|
                0 <= i < self.keys@.len() && #[trigger] self.slot(i) == k
        &&& forall|i: int, j: int|
            0 <= i < j < self.keys@.len() ==> #[trigger] self.slot(i) != #[trigger] self.slot(j)
    }

    /// A well-formed table has finitely many keys.
    pub proof fn lemma_finite(&self)
        requires
            self.wf(),
        ensures
            self@.dom().finite(),
    {
    }

    /// The table with no entry.
    pub fn new() -> (r: Self)
        ensures
            r.wf(),
            r@ == Map::<K::V, V>::empty(),
    {
        Table { keys: Vec::new(), values: Vec::new(), model: Ghost(Map::empty()) }
    }

    /// The table that `entries` write, one after the other.
    pub fn from_entries(entries: &Vec<(K, V)>) -> (r: Self)
        ensures
            r.wf(),
            r@ == map_of(entries@),
    {
        let mut r: Self = Table::new();
        let mut i: usize = 0;
        while i < entries.len()
            invariant
                i <= entries.len(),
                r.wf(),
                r@ == map_of(entries@.take(i as int)),
            decreases entries.len() - i,
        {
            r.insert(entries[i].0.duplicate(), entries[i].1);
            i += 1;
            assert(entries@.take(i as int).drop_last() =~= entries@.take(i as int - 1));
        }
        assert(entries@.take(entries.len() as int) =~= entries@);
        r
    }

    /// The entries of the table, each key once, in no particular order.
    pub fn entries(&self) -> (r: Vec<(K, V)>)
        requires
            self.wf(),
        ensures
            map_of(r@) == self@,
    {
        let mut r: Vec<(K, V)> = Vec::new();
        let mut i: usize = 0;
        while i < self.keys.len()
            invariant
                i <= self.keys@.len(),
                self.wf(),
                r@.len() == i,
                forall|j: int|
                    0 <= j < i ==> (#[trigger] r@[j]).0@ == self.slot(j) && r@[j].1
                        == self.values@[j],
            decreases self.keys@.len() - i,
        {
            r.push((self.keys[i].duplicate(), self.values[i]));
            i += 1;
        }
        proof {
            lemma_map_of(r@);
            assert forall|k: K::V| map_of(r@).dom().contains(k) implies #[trigger]
                self.model@.dom().contains(k) && self.model@[k] == map_of(r@)[k] by {
                let j = choose|j: int|
                    0 <= j < r@.len() && (#[trigger] r@[j]).0@ == k && map_of(r@)[k] == r@[j].1;
                assert(self.model@.contains_pair(self.slot(j), self.values@[j]));
            }
            assert forall|k: K::V| #[trigger] self.model@.dom().contains(k) implies map_of(
                r@,
            ).dom().contains(k) by {
                let j = choose|j: int| 0 <= j < self.keys@.len() && #[trigger] self.slot(j) == k;
                assert(r@[j].0@ == k);
            }
            assert(map_of(r@) =~= self.model@);
        }
        r
    }

    /// The position of `key`, if it is stored.
    fn find(&self, key: &K) -> (r: Option<usize>)
        requires
            self.wf(),
        ensures
            match r {
                Some(i) => i < self.keys@.len() && self.slot(i as int) == key@,
                None => !self@.dom().contains(key@),
            },
    {
        let mut i: usize = 0;
        while i < self.keys.len()
            invariant
                i <= self.keys@.len(),
                forall|j: int| 0 <= j < i ==> #[trigger] self.slot(j) != key@,
            decreases self.keys@.len() - i,
        {
            if self.keys[i].same(key) {
                return Some(i);
            }
            i += 1;
        }
        None
    }

    /// The value stored under `key`, if there is one.
    pub fn get(&self, key: &K) -> (r: Option<V>)
        requires
            self.wf(),
        ensures
            r == self@.get(key@),
    {
        match self.find(key) {
            Some(i) => {
                assert(self.model@.contains_pair(self.slot(i as int), self.values@[i as int]));
                Some(self.values[i])
            },
            None => None,
        }
    }

    /// Whether anything is stored under `key`.
    pub fn contains(&self, key: &K) -> (r: bool)
        requires
            self.wf(),
        ensures
            r == self@.dom().contains(key@),
    {
        match self.find(key) {
            Some(i) => {
                assert(self.model@.contains_pair(self.slot(i as int), self.values@[i as int]));
                true
            },
            None => false,
        }
    }

    /// Stores `value` under `key`, in place of what was stored there.
    pub fn insert(&mut self, key: K, value: V)
        requires
            old(self).wf(),
        ensures
            final(self).wf(),
            final(self)@ == old(self)@.insert(key@, value),
    {
        let found = self.find(&key);
        match found {
            Some(i) => {
                self.values.set(i, value);
                self.model = Ghost(self.model@.insert(key@, value));
                proof {
                    assert forall|j: int| 0 <= j < self.keys@.len() implies self.model@.contains_pair(
                        #[trigger] self.slot(j),
                        self.values@[j],
                    ) by {
                        assert(old(self).model@.contains_pair(
                            old(self).slot(j),
                            old(self).values@[j],
                        ));
                    }
                    assert forall|k: K::V| #[trigger]
                        self.model@.dom().contains(k) implies exists|j: int|
                        0 <= j < self.keys@.len() && #[trigger] self.slot(j) == k by {
                        if k == key@ {
                            assert(self.slot(i as int) == k);
                        } else {
                            assert(old(self).model@.dom().contains(k));
                            let j = choose|j: int|
                                0 <= j < old(self).keys@.len() && #[trigger] old(self).slot(j)
                                    == k;
                            assert(self.slot(j) == k);
                        }
                    }
                    assert forall|a: int, b: int| 0 <= a < b < self.keys@.len() implies #[trigger]
                        self.slot(a) != #[trigger] self.slot(b) by {
                        assert(old(self).slot(a) != old(self).slot(b));
                    }
                }
            },
            None => {
                let ghost n = self.keys@.len() as int;
                self.keys.push(key);
                self.values.push(value);
                self.model = Ghost(self.model@.insert(key@, value));
                proof {
                    assert forall|j: int| 0 <= j < self.keys@.len() implies self.model@.contains_pair(
                        #[trigger] self.slot(j),
                        self.values@[j],
                    ) by {
                        if j < n {
                            assert(old(self).model@.contains_pair(
                                old(self).slot(j),
                                old(self).values@[j],
                            ));
                        }
                    }
                    assert forall|k: K::V| #[trigger]
                        self.model@.dom().contains(k) implies exists|j: int|
                        0 <= j < self.keys@.len() && #[trigger] self.slot(j) == k by {
                        if k == key@ {
                            assert(self.slot(n) == k);
                        } else {
                            assert(old(self).model@.dom().contains(k));
                            let j = choose|j: int|
                                0 <= j < old(self).keys@.len() && #[trigger] old(self).slot(j)
                                    == k;
                            assert(self.slot(j) == k);
                        }
                    }
                    assert forall|a: int, b: int| 0 <= a < b < self.keys@.len() implies #[trigger]
                        self.slot(a) != #[trigger] self.slot(b) by {
                        if b == n {
                            assert(old(self).model@.contains_pair(
                                old(self).slot(a),
                                old(self).values@[a],
                            ));
                        } else {
                            assert(old(self).slot(a) != old(self).slot(b));
                        }
                    }
                }
            },
        }
    }

    /// Removes what is stored under `key`, if anything is.
    pub fn remove(&mut self, key: &K)
        requires
            old(self).wf(),
        ensures
            final(self).wf(),
            final(self)@ == old(self)@.remove(key@),
    {
        let found = self.find(key);
        match found {
            Some(i) => {
                let ghost last = self.keys@.len() as int - 1;
                self.keys.swap_remove(i);
                self.values.swap_remove(i);
                self.model = Ghost(self.model@.remove(key@));
                proof {
                    assert forall|j: int| 0 <= j < self.keys@.len() implies self.model@.contains_pair(
                        #[trigger] self.slot(j),
                        self.values@[j],
                    ) by {
                        let from = if j == i as int { last } else { j };
                        assert(old(self).model@.contains_pair(
                            old(self).slot(from),
                            old(self).values@[from],
                        ));
                        assert(self.slot(j) == old(self).slot(from));
                        if from < i as int {
                            assert(old(self).slot(from) != old(self).slot(i as int));
                        } else {
                            assert(old(self).slot(i as int) != old(self).slot(from));
                        }
                    }
                    assert forall|k: K::V| #[trigger]
                        self.model@.dom().contains(k) implies exists|j: int|
                        0 <= j < self.keys@.len() && #[trigger] self.slot(j) == k by {
                        assert(old(self).model@.dom().contains(k));
                        let from = choose|j: int|
                            0 <= j < old(self).keys@.len() && #[trigger] old(self).slot(j) == k;
                        let to = if from == last { i as int } else { from };
                        assert(self.slot(to) == k);
                    }
                    assert forall|a: int, b: int| 0 <= a < b < self.keys@.len() implies #[trigger]
                        self.slot(a) != #[trigger] self.slot(b) by {
                        let fa = if a == i as int { last } else { a };
                        let fb = if b == i as int { last } else { b };
                        assert(self.slot(a) == old(self).slot(fa));
                        assert(self.slot(b) == old(self).slot(fb));
                        if fa < fb {
                            assert(old(self).slot(fa) != old(self).slot(fb));
                        } else {
                            assert(old(self).slot(fb) != old(self).slot(fa));
                        }
                    }
                }
            },
            None => {
                assert(self.model@.remove(key@) =~= self.model@);
            },
        }
    }
}

} // verus!
