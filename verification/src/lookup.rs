//! A string-keyed lookup table that remembers the order in which keys were
//! first inserted.
//!
//! Lookups go through a hash index; iteration goes through the key list. The
//! abstract value of a table is a `Map` from key text to the deep view of the
//! stored value.
use vstd::hash_map::StringHashMap;
use vstd::prelude::*;

verus! {

pub struct LookupTable<V> {
    index: StringHashMap<usize>,
    keys: Vec<String>,
    values: Vec<V>,
}

impl<V: DeepView> View for LookupTable<V> {
    type V = Map<Seq<char>, V::V>;

    closed spec fn view(&self) -> Map<Seq<char>, V::V> {
        Map::new(
            |k: Seq<char>| self.index@.contains_key(k),
            |k: Seq<char>| self.values@[self.index@[k] as int].deep_view(),
        )
    }
}

impl<V: DeepView> LookupTable<V> {
    /// The table's internal invariant: the hash index and the key list agree.
    pub closed spec fn wf(&self) -> bool {
        &&& self.keys@.len() == self.values@.len()
        &&& forall|i: int|
            0 <= i < self.keys@.len() ==> #[trigger] self.index@.contains_key(self.keys@[i]@)
                && self.index@[self.keys@[i]@] == i
        &&& forall|k: Seq<char>| #[trigger]
            self.index@.contains_key(k) ==> self.index@[k] < self.keys@.len()
                && self.keys@[self.index@[k] as int]@ == k
    }

    /// The keys, in the order in which they were first inserted.
    pub closed spec fn key_order(&self) -> Seq<Seq<char>> {
        Seq::new(self.keys@.len(), |i: int| self.keys@[i]@)
    }

    /// Every key occurs once in `key_order`, and the keys listed there are
    /// exactly the keys of the table.
    pub proof fn lemma_key_order(&self)
        requires
            self.wf(),
        ensures
            self.key_order().no_duplicates(),
            forall|k: Seq<char>| #[trigger]
                self@.contains_key(k) <==> self.key_order().contains(k),
            forall|i: int|
                0 <= i < self.key_order().len() ==> #[trigger] self@.contains_key(
                    self.key_order()[i],
                ),
    {
        assert forall|i: int, j: int|
            0 <= i < self.key_order().len() && 0 <= j < self.key_order().len() && i != j
                implies self.key_order()[i] != self.key_order()[j] by {
            assert(self.index@.contains_key(self.keys@[i]@));
            assert(self.index@.contains_key(self.keys@[j]@));
        }
        assert forall|k: Seq<char>| #[trigger]
            self@.contains_key(k) implies self.key_order().contains(k) by {
            let i = self.index@[k] as int;
            assert(self.key_order()[i] == k);
        }
        assert forall|k: Seq<char>| self.key_order().contains(k) implies #[trigger]
            self@.contains_key(k) by {
            let i: int = choose|i: int| 0 <= i < self.key_order().len() && self.key_order()[i] == k;
            assert(self.index@.contains_key(self.keys@[i]@));
        }
        assert forall|i: int| 0 <= i < self.key_order().len() implies #[trigger] self@.contains_key(
            self.key_order()[i],
        ) by {
            assert(self.index@.contains_key(self.keys@[i]@));
        }
    }

    /// An empty table.
    pub fn new() -> (table: Self)
        ensures
            table.wf(),
            table@ == Map::<Seq<char>, V::V>::empty(),
            table.key_order() == Seq::<Seq<char>>::empty(),
    {
        let table = LookupTable { index: StringHashMap::new(), keys: Vec::new(), values: Vec::new() };
        assert(table@ =~= Map::<Seq<char>, V::V>::empty());
        assert(table.key_order() =~= Seq::<Seq<char>>::empty());
        table
    }

    /// The number of keys in the table.
    pub fn len(&self) -> (n: usize)
        requires
            self.wf(),
        ensures
            n == self.key_order().len(),
    {
        self.keys.len()
    }

    /// The key at position `i` of `key_order`.
    pub fn key_at(&self, i: usize) -> (k: &String)
        requires
            self.wf(),
            i < self.key_order().len(),
        ensures
            k@ == self.key_order()[i as int],
    {
        &self.keys[i]
    }

    /// The value stored under the key at position `i` of `key_order`.
    pub fn value_at(&self, i: usize) -> (v: &V)
        requires
            self.wf(),
            i < self.key_order().len(),
        ensures
            self@.contains_key(self.key_order()[i as int]),
            v.deep_view() == self@[self.key_order()[i as int]],
    {
        assert(self.index@.contains_key(self.keys@[i as int]@));
        &self.values[i]
    }

    /// The value stored under `k`, if there is one.
    pub fn get(&self, k: &str) -> (r: Option<&V>)
        requires
            self.wf(),
        ensures
            match r {
                Some(v) => self@.contains_key(k@) && v.deep_view() == self@[k@],
                None => !self@.contains_key(k@),
            },
    {
        match self.index.get(k) {
            Some(i) => Some(&self.values[*i]),
            None => None,
        }
    }

    /// Whether the table has a value under `k`.
    pub fn contains_key(&self, k: &str) -> (r: bool)
        requires
            self.wf(),
        ensures
            r == self@.contains_key(k@),
    {
        self.index.contains_key(k)
    }

    /// Stores `v` under `k`, replacing the value that was there. A new key
    /// goes to the end of `key_order`; a known key keeps its place.
    pub fn insert(&mut self, k: String, v: V)
        requires
            old(self).wf(),
        ensures
            final(self).wf(),
            final(self)@ == old(self)@.insert(k@, v.deep_view()),
            final(self).key_order() == (if old(self)@.contains_key(k@) {
                old(self).key_order()
            } else {
                old(self).key_order().push(k@)
            }),
    {
        let ghost old_self = *self;
        match self.index.get(k.as_str()) {
            Some(i) => {
                let i: usize = *i;
                self.values.set(i, v);
                assert(self.keys@ == old_self.keys@);
                assert(self@ =~= old_self@.insert(k@, v.deep_view()));
                assert(self.key_order() =~= old_self.key_order());
            },
            None => {
                let n = self.keys.len();
                let k2 = k.clone();
                self.index.insert(k2, n);
                self.keys.push(k);
                self.values.push(v);
                assert forall|i: int|
                    0 <= i < self.keys@.len() implies #[trigger] self.index@.contains_key(
                    self.keys@[i]@,
                ) && self.index@[self.keys@[i]@] == i by {
                    if i < n {
                        assert(old_self.index@.contains_key(old_self.keys@[i]@));
                    }
                }
                assert forall|kk: Seq<char>| #[trigger]
                    self.index@.contains_key(kk) implies self.index@[kk] < self.keys@.len()
                    && self.keys@[self.index@[kk] as int]@ == kk by {
                    if kk != k@ {
                        assert(old_self.index@.contains_key(kk));
                    }
                }
                assert(self@ =~= old_self@.insert(k@, v.deep_view())) by {
                    assert forall|kk: Seq<char>| #[trigger]
                        self@.contains_key(kk) && kk != k@ implies self@[kk]
                        == old_self@[kk] by {
                        assert(old_self.index@.contains_key(kk));
                    }
                }
                assert(self.key_order() =~= old_self.key_order().push(k@));
            },
        }
    }
}

impl<T: DeepView> LookupTable<Vec<T>> {
    /// Appends `item` to the list stored under `k`, starting a new list
    /// when `k` has none yet.
    pub fn push_to(&mut self, k: String, item: T)
        requires
            old(self).wf(),
        ensures
            final(self).wf(),
            final(self)@ == old(self)@.insert(
                k@,
                (if old(self)@.contains_key(k@) {
                    old(self)@[k@]
                } else {
                    Seq::empty()
                }).push(item.deep_view()),
            ),
            final(self).key_order() == (if old(self)@.contains_key(k@) {
                old(self).key_order()
            } else {
                old(self).key_order().push(k@)
            }),
    {
        let ghost old_self = *self;
        match self.index.get(k.as_str()) {
            Some(i) => {
                let i: usize = *i;
                let ghost old_list = self.values@[i as int];
                self.values[i].push(item);
                assert(self.values@[i as int].deep_view() =~= old_list.deep_view().push(
                    item.deep_view(),
                ));
                assert(self.keys@ == old_self.keys@);
                assert(self@ =~= old_self@.insert(k@, old_self@[k@].push(item.deep_view())));
                assert(self.key_order() =~= old_self.key_order());
            },
            None => {
                let mut list: Vec<T> = Vec::new();
                list.push(item);
                assert(list.deep_view() =~= Seq::<T::V>::empty().push(item.deep_view()));
                self.insert(k, list);
            },
        }
    }
}

} // verus!
