//! A map from strings to strings that remembers the order of insertion.

use vstd::prelude::*;

verus! {

/// One key with its value.
#[derive(Debug)]
pub struct Pair {
    pub key: String,
    pub value: String,
}

/// A map from strings to strings. A key occurs at most once; the keys keep
/// the order in which they first came in.
#[derive(Debug)]
pub struct FlatMap {
    entries: Vec<Pair>,
}

/// The keys of `entries`, in order.
pub open spec fn keys_of(entries: Seq<Pair>) -> Seq<Seq<char>> {
    Seq::new(entries.len(), |i: int| entries[i].key@)
}

impl View for FlatMap {
    type V = Map<Seq<char>, Seq<char>>;

    /// The map as a mathematical map from key to value.
    closed spec fn view(&self) -> Map<Seq<char>, Seq<char>> {
        Map::new(
            |k: Seq<char>| keys_of(self.entries@).contains(k),
            |k: Seq<char>| self.entries@[keys_of(self.entries@).index_of(k)].value@,
        )
    }
}

impl FlatMap {
    /// The keys in the order in which they were first inserted.
    pub closed spec fn keys(&self) -> Seq<Seq<char>> {
        keys_of(self.entries@)
    }

    /// No key occurs twice.
    #[verifier::type_invariant]
    pub closed spec fn wf(&self) -> bool {
        keys_of(self.entries@).no_duplicates()
    }

    /// The keys are exactly the domain of the map, each once.
    pub proof fn lemma_keys(&self)
        requires
            self.wf(),
        ensures
            self.keys().no_duplicates(),
            forall|k: Seq<char>| self.keys().contains(k) <==> #[trigger] self@.contains_key(k),
            self@.dom().finite(),
            self@.dom() == self.keys().to_set(),
            self@.len() == self.keys().len(),
    {
        assert(self@.dom() =~= self.keys().to_set());
        self.keys().unique_seq_to_set();
    }

    /// The value at position `i` is the one that the map gives for the key
    /// at that position.
    proof fn lemma_entry(&self, i: int)
        requires
            self.wf(),
            0 <= i < self.entries@.len(),
        ensures
            self@.contains_key(self.entries@[i].key@),
            self@[self.entries@[i].key@] == self.entries@[i].value@,
            self.keys()[i] == self.entries@[i].key@,
    {
        let ks = keys_of(self.entries@);
        let k = self.entries@[i].key@;
        assert(ks[i] == k);
        assert(ks.contains(k));
        let j = ks.index_of(k);
        assert(ks[j] == k);
    }

    /// An empty map.
    pub fn new() -> (m: FlatMap)
        ensures
            m@ == Map::<Seq<char>, Seq<char>>::empty(),
            m.keys() == Seq::<Seq<char>>::empty(),
            m.wf(),
    {
        let m = FlatMap { entries: Vec::new() };
        assert(m@ =~= Map::<Seq<char>, Seq<char>>::empty());
        assert(m.keys() =~= Seq::<Seq<char>>::empty());
        m
    }

    /// The number of keys.
    pub fn len(&self) -> (n: usize)
        ensures
            n == self.keys().len(),
            n == self@.len(),
    {
        proof {
            use_type_invariant(self);
            self.lemma_keys();
        }
        self.entries.len()
    }

    /// Whether the map has no key.
    pub fn is_empty(&self) -> (b: bool)
        ensures
            b == (self.keys().len() == 0),
            b == (self@ == Map::<Seq<char>, Seq<char>>::empty()),
    {
        proof {
            use_type_invariant(self);
            self.lemma_keys();
            if self.keys().len() == 0 {
                assert(self@ =~= Map::<Seq<char>, Seq<char>>::empty());
            } else {
                assert(self.keys().contains(self.keys()[0]));
            }
        }
        self.entries.len() == 0
    }

    /// The position of `key` among the keys, if it is one.
    fn position(&self, key: &str) -> (r: Option<usize>)
        ensures
            match r {
                Some(i) => i < self.entries@.len() && self.entries@[i as int].key@ == key@,
                None => !self.keys().contains(key@),
            },
    {
        let wanted = String::from_str(key);
        let mut i: usize = 0;
        while i < self.entries.len()
            invariant
                i <= self.entries@.len(),
                wanted@ == key@,
                forall|j: int| 0 <= j < i ==> self.entries@[j].key@ != key@,
            decreases self.entries@.len() - i,
        {
            if self.entries[i].key == wanted {
                return Some(i);
            }
            i += 1;
        }
        None
    }

    /// The value stored under `key`, if there is one.
    pub fn get(&self, key: &str) -> (r: Option<&String>)
        ensures
            match r {
                Some(v) => self@.contains_key(key@) && v@ == self@[key@],
                None => !self@.contains_key(key@),
            },
    {
        proof {
            use_type_invariant(self);
            self.lemma_keys();
        }
        match self.position(key) {
            Some(i) => {
                proof {
                    self.lemma_entry(i as int);
                }
                Some(&self.entries[i].value)
            },
            None => None,
        }
    }

    /// Whether a value is stored under `key`.
    pub fn contains_key(&self, key: &str) -> (b: bool)
        ensures
            b == self@.contains_key(key@),
    {
        self.get(key).is_some()
    }

    /// The key at position `i` in insertion order.
    pub fn key_at(&self, i: usize) -> (k: &String)
        requires
            i < self.keys().len(),
        ensures
            k@ == self.keys()[i as int],
    {
        &self.entries[i].key
    }

    /// The value at position `i` in insertion order.
    pub fn value_at(&self, i: usize) -> (v: &String)
        requires
            i < self.keys().len(),
        ensures
            v@ == self@[self.keys()[i as int]],
    {
        proof {
            use_type_invariant(self);
            self.lemma_entry(i as int);
        }
        &self.entries[i].value
    }

    /// The keys in insertion order.
    pub fn key_list(&self) -> (list: Vec<String>)
        ensures
            list@.len() == self.keys().len(),
            forall|i: int| 0 <= i < list@.len() ==> (#[trigger] list@[i])@ == self.keys()[i],
            Seq::new(list@.len(), |i: int| list@[i]@) == self.keys(),
    {
        let mut list: Vec<String> = Vec::new();
        let mut i: usize = 0;
        while i < self.entries.len()
            invariant
                i <= self.entries@.len(),
                list@.len() == i,
                forall|j: int| 0 <= j < i ==> (#[trigger] list@[j])@ == self.entries@[j].key@,
            decreases self.entries@.len() - i,
        {
            list.push(self.entries[i].key.clone());
            i += 1;
        }
        assert(Seq::new(list@.len(), |i: int| list@[i]@) =~= self.keys());
        list
    }

    /// Stores `value` under `key`. A key that is already there keeps its
    /// place and gets the new value; a new key goes to the end.
    pub fn insert(&mut self, key: String, value: String)
        ensures
            final(self)@ == old(self)@.insert(key@, value@),
            final(self).keys() == if old(self)@.contains_key(key@) {
                old(self).keys()
            } else {
                old(self).keys().push(key@)
            },
            final(self).wf(),
    {
        proof {
            use_type_invariant(&*self);
            self.lemma_keys();
        }
        let ghost before = *self;
        let ghost old_entries = self.entries@;
        match self.position(key.as_str()) {
            Some(i) => {
                let ghost k = key@;
                let ghost v = value@;
                let mut entries: Vec<Pair> = Vec::new();
                core::mem::swap(&mut entries, &mut self.entries);
                entries[i] = Pair { key, value };
                assert(keys_of(entries@) =~= keys_of(old_entries));
                self.entries = entries;
                proof {
                    let ks = keys_of(old_entries);
                    assert(ks[i as int] == k);
                    assert(ks.contains(k));
                    assert(keys_of(self.entries@) == ks);
                    assert forall|q: Seq<char>| #[trigger]
                        self@.contains_key(q) implies self@[q] == before@.insert(k, v)[q] by {
                        let j = ks.index_of(q);
                        assert(ks[j] == q);
                        if q == k {
                            assert(j == i);
                        } else {
                            assert(self.entries@[j] == old_entries[j]);
                        }
                    }
                    assert(self@.dom() =~= before@.insert(k, v).dom());
                    assert(self@ =~= before@.insert(k, v));
                }
            },
            None => {
                let ghost k = key@;
                let ghost v = value@;
                let mut entries: Vec<Pair> = Vec::new();
                core::mem::swap(&mut entries, &mut self.entries);
                entries.push(Pair { key, value });
                assert(keys_of(entries@) =~= keys_of(old_entries).push(k));
                self.entries = entries;
                proof {
                    let ks = keys_of(self.entries@);
                    assert forall|q: Seq<char>| #[trigger] ks.contains(q) <==> (q == k || keys_of(
                        old_entries,
                    ).contains(q)) by {
                        if ks.contains(q) {
                            let j = ks.index_of(q);
                            assert(ks[j] == q);
                            if j < old_entries.len() {
                                assert(keys_of(old_entries)[j] == q);
                            }
                        }
                        if q == k {
                            assert(ks[old_entries.len() as int] == q);
                        }
                        if keys_of(old_entries).contains(q) {
                            let j = keys_of(old_entries).index_of(q);
                            assert(keys_of(old_entries)[j] == q);
                            assert(ks[j] == q);
                        }
                    }
                    assert forall|q: Seq<char>| #[trigger]
                        self@.contains_key(q) implies self@[q] == before@.insert(k, v)[q] by {
                        let j = ks.index_of(q);
                        assert(ks[j] == q);
                        if q != k {
                            let j2 = keys_of(old_entries).index_of(q);
                            assert(keys_of(old_entries)[j2] == q);
                            assert(ks[j2] == q);
                            assert(j == j2);
                        }
                    }
                    assert(self@ =~= before@.insert(k, v));
                }
            },
        }
    }
}

} // verus!
