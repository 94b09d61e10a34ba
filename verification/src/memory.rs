//! A store that keeps everything in memory.

use vstd::prelude::*;
use crate::datastore::{
    first_keys, key_names, lemma_insert_next, lists_keys, lists_metadata, names_metadata,
    passes, pending_after_commit, promoted, Committed, DataStore, MetadataKeys,
};
use crate::error::StoreError;
use crate::flat_map::FlatMap;
use crate::key::{is_dotted_name, is_segment, Key, KeyType};
use crate::text::{opt_text, starts_with};

verus! {

/// The metadata that is set on one data key.
#[derive(Debug)]
struct MetaRecord {
    data_key: String,
    entries: FlatMap,
}

/// A store in memory. Nothing outlives it, and none of its operations fails.
#[derive(Debug)]
pub struct MemoryDataStore {
    pending: FlatMap,
    live: FlatMap,
    metadata: Vec<MetaRecord>,
}

/// Every one of `keys` has the form of a data key.
pub open spec fn all_dotted(keys: Seq<Seq<char>>) -> bool {
    forall|i: int| 0 <= i < keys.len() ==> is_dotted_name(#[trigger] keys[i])
}

/// The data keys of a list of records.
spec fn record_keys(records: Seq<MetaRecord>) -> Seq<Seq<char>> {
    Seq::new(records.len(), |i: int| records[i].data_key@)
}

/// The metadata that a list of records holds.
spec fn meta_of(records: Seq<MetaRecord>) -> Map<(Seq<char>, Seq<char>), Seq<char>> {
    Map::new(
        |id: (Seq<char>, Seq<char>)|
            record_keys(records).contains(id.1) && records[record_keys(records).index_of(
                id.1,
            )].entries@.contains_key(id.0),
        |id: (Seq<char>, Seq<char>)|
            records[record_keys(records).index_of(id.1)].entries@[id.0],
    )
}

/// The records are those of distinct data keys, and every key in them has
/// the form of its kind.
spec fn records_wf(records: Seq<MetaRecord>) -> bool {
    &&& record_keys(records).no_duplicates()
    &&& all_dotted(record_keys(records))
    &&& forall|i: int, m: Seq<char>|
        0 <= i < records.len() && #[trigger] records[i].entries@.contains_key(m) ==> is_segment(m)
    &&& forall|i: int| 0 <= i < records.len() ==> (#[trigger] records[i]).entries.wf()
}

/// What the record at position `i` holds is what the metadata holds for its
/// data key.
proof fn lemma_record(records: Seq<MetaRecord>, i: int)
    requires
        record_keys(records).no_duplicates(),
        0 <= i < records.len(),
    ensures
        record_keys(records).index_of(records[i].data_key@) == i,
        forall|m: Seq<char>|
            meta_of(records).contains_key((m, records[i].data_key@))
                <==> records[i].entries@.contains_key(m),
        forall|m: Seq<char>|
            records[i].entries@.contains_key(m) ==> meta_of(records)[(m, records[i].data_key@)]
                == records[i].entries@[m],
{
    let ks = record_keys(records);
    let d = records[i].data_key@;
    assert(ks[i] == d);
    let j = ks.index_of(d);
    assert(ks[j] == d);
}

/// The data keys of `map` that start with `prefix`.
fn keys_with_prefix(map: &FlatMap, prefix: &str) -> (keys: Vec<Key>)
    requires
        all_dotted(map.keys()),
    ensures
        lists_keys(keys@, map@, prefix@),
{
    proof {
        use_type_invariant(map);
        map.lemma_keys();
    }
    let ghost all = map.keys();
    let mut keys: Vec<Key> = Vec::new();
    let mut i: usize = 0;
    while i < map.len()
        invariant
            i <= all.len(),
            all == map.keys(),
            all.no_duplicates(),
            all_dotted(all),
            key_names(keys@).no_duplicates(),
            forall|j: int| 0 <= j < keys.len() ==> (#[trigger] keys@[j]).kind() == KeyType::Data,
            forall|j: int|
                0 <= j < keys.len() ==> exists|t: int|
                    0 <= t < i && all[t] == #[trigger] key_names(keys@)[j],
            forall|j: int|
                0 <= j < keys.len() ==> prefix@.is_prefix_of(#[trigger] key_names(keys@)[j]),
            forall|t: int|
                0 <= t < i && prefix@.is_prefix_of(all[t]) ==> key_names(keys@).contains(
                    #[trigger] all[t],
                ),
        decreases all.len() - i,
    {
        let name: &String = map.key_at(i);
        if starts_with(name.as_str(), prefix) {
            let ghost before = key_names(keys@);
            assert(is_dotted_name(all[i as int]));
            keys.push(Key::from_valid(KeyType::Data, name.clone()));
            proof {
                let after = key_names(keys@);
                assert(after =~= before.push(all[i as int]));
                assert forall|a: int, b: int|
                    0 <= a < after.len() && 0 <= b < after.len() && a != b implies after[a]
                    != after[b] by {
                    if a < before.len() && b < before.len() {
                        assert(before[a] != before[b]);
                    } else if a < before.len() {
                        let t = choose|t: int| 0 <= t < i && all[t] == before[a];
                    } else {
                        let t = choose|t: int| 0 <= t < i && all[t] == before[b];
                    }
                }
                assert forall|j: int| 0 <= j < keys.len() implies exists|t: int|
                    0 <= t < i + 1 && all[t] == #[trigger] key_names(keys@)[j] by {
                    if j < before.len() {
                        let t = choose|t: int| 0 <= t < i && all[t] == before[j];
                        assert(all[t] == after[j]);
                    } else {
                        assert(all[i as int] == after[j]);
                    }
                }
                assert forall|t: int|
                    0 <= t < i + 1 && prefix@.is_prefix_of(all[t]) implies after.contains(
                    #[trigger] all[t],
                ) by {
                    if t < i {
                        let j = choose|j: int| 0 <= j < before.len() && before[j] == all[t];
                        assert(after[j] == all[t]);
                    } else {
                        assert(after[before.len() as int] == all[t]);
                    }
                }
            }
        }
        i += 1;
    }
    proof {
        let names = key_names(keys@);
        assert forall|k: Seq<char>| #[trigger]
            names.contains(k) <==> map@.contains_key(k) && prefix@.is_prefix_of(k) by {
            if names.contains(k) {
                let j = choose|j: int| 0 <= j < names.len() && names[j] == k;
                let t = choose|t: int| 0 <= t < i && all[t] == names[j];
                assert(all.contains(k));
            }
            if map@.contains_key(k) && prefix@.is_prefix_of(k) {
                let t = choose|t: int| 0 <= t < all.len() && all[t] == k;
                assert(names.contains(all[t]));
            }
        }
    }
    keys
}

impl MemoryDataStore {
    /// Every key of the store has the form of its kind, and metadata is
    /// kept once for each data key.
    #[verifier::type_invariant]
    spec fn wf(&self) -> bool {
        &&& all_dotted(self.pending.keys())
        &&& all_dotted(self.live.keys())
        &&& self.pending.wf()
        &&& self.live.wf()
        &&& records_wf(self.metadata@)
    }

    /// An empty store.
    pub fn new() -> (store: MemoryDataStore)
        ensures
            store.data(Committed::Pending) == Map::<Seq<char>, Seq<char>>::empty(),
            store.data(Committed::Live) == Map::<Seq<char>, Seq<char>>::empty(),
            store.metadata() == Map::<(Seq<char>, Seq<char>), Seq<char>>::empty(),
    {
        let store = MemoryDataStore {
            pending: FlatMap::new(),
            live: FlatMap::new(),
            metadata: Vec::new(),
        };
        assert(store.metadata() =~= Map::<(Seq<char>, Seq<char>), Seq<char>>::empty());
        store
    }

    /// The data of the given state.
    fn dataset(&self, committed: Committed) -> (map: &FlatMap)
        ensures
            map@ == self.data(committed),
            all_dotted(map.keys()),
            map.wf(),
    {
        proof {
            use_type_invariant(self);
        }
        match committed {
            Committed::Pending => &self.pending,
            Committed::Live => &self.live,
        }
    }

    /// The position of the record of `data_key`, if there is one.
    fn find_record(&self, data_key: &str) -> (r: Option<usize>)
        ensures
            match r {
                Some(i) => i < self.metadata@.len() && self.metadata@[i as int].data_key@
                    == data_key@,
                None => !record_keys(self.metadata@).contains(data_key@),
            },
    {
        let wanted = String::from_str(data_key);
        let mut i: usize = 0;
        while i < self.metadata.len()
            invariant
                i <= self.metadata@.len(),
                wanted@ == data_key@,
                forall|j: int| 0 <= j < i ==> record_keys(self.metadata@)[j] != data_key@,
            decreases self.metadata@.len() - i,
        {
            if self.metadata[i].data_key == wanted {
                return Some(i);
            }
            i += 1;
        }
        None
    }
}

impl DataStore for MemoryDataStore {
    closed spec fn data(&self, committed: Committed) -> Map<Seq<char>, Seq<char>> {
        match committed {
            Committed::Pending => self.pending@,
            Committed::Live => self.live@,
        }
    }

    closed spec fn metadata(&self) -> Map<(Seq<char>, Seq<char>), Seq<char>> {
        meta_of(self.metadata@)
    }

    open spec fn reliable(&self) -> bool {
        true
    }

    open spec fn commit_prefix(&self) -> Seq<char> {
        Seq::empty()
    }

    fn key_populated(&self, key: &Key, committed: Committed) -> (r: Result<bool, StoreError>) {
        Ok(self.dataset(committed).contains_key(key.as_str()))
    }

    fn list_populated_keys(&self, prefix: &str, committed: Committed) -> (r: Result<
        Vec<Key>,
        StoreError,
    >) {
        Ok(keys_with_prefix(self.dataset(committed), prefix))
    }

    fn get_key(&self, key: &Key, committed: Committed) -> (r: Result<Option<String>, StoreError>) {
        match self.dataset(committed).get(key.as_str()) {
            Some(value) => Ok(Some(value.clone())),
            None => Ok(None),
        }
    }

    fn set_key(&mut self, key: &Key, value: &str, committed: Committed) -> (r: Result<
        (),
        StoreError,
    >) {
        proof {
            use_type_invariant(&*self);
            use_type_invariant(key);
        }
        let mut map = FlatMap::new();
        match committed {
            Committed::Pending => {
                core::mem::swap(&mut map, &mut self.pending);
                map.insert(String::from_str(key.as_str()), String::from_str(value));
                self.pending = map;
            },
            Committed::Live => {
                core::mem::swap(&mut map, &mut self.live);
                map.insert(String::from_str(key.as_str()), String::from_str(value));
                self.live = map;
            },
        }
        Ok(())
    }

    fn get_metadata_raw(&self, metadata_key: &Key, data_key: &Key) -> (r: Result<
        Option<String>,
        StoreError,
    >) {
        proof {
            use_type_invariant(self);
        }
        match self.find_record(data_key.as_str()) {
            Some(i) => {
                proof {
                    lemma_record(self.metadata@, i as int);
                }
                match self.metadata[i].entries.get(metadata_key.as_str()) {
                    Some(value) => Ok(Some(value.clone())),
                    None => Ok(None),
                }
            },
            None => Ok(None),
        }
    }

    fn set_metadata(&mut self, metadata_key: &Key, data_key: &Key, value: &str) -> (r: Result<
        (),
        StoreError,
    >) {
        proof {
            use_type_invariant(&*self);
            use_type_invariant(metadata_key);
            use_type_invariant(data_key);
        }
        let ghost before = self.metadata@;
        let ghost m = metadata_key@;
        let ghost d = data_key@;
        let ghost v = value@;
        let found = self.find_record(data_key.as_str());
        let mut records: Vec<MetaRecord> = Vec::new();
        core::mem::swap(&mut records, &mut self.metadata);
        match found {
            Some(i) => {
                let mut record = records.remove(i);
                let ghost old_entries = record.entries@;
                record.entries.insert(
                    String::from_str(metadata_key.as_str()),
                    String::from_str(value),
                );
                let ghost changed = record;
                records.insert(i, record);
                proof {
                    before.remove_ensures(i as int);
                    before.remove(i as int).insert_ensures(i as int, changed);
                    assert(records@.len() == before.len());
                    assert forall|j: int| 0 <= j < before.len() && j != i implies records@[j]
                        == before[j] by {}
                    assert(records@[i as int] == changed);
                    assert(record_keys(records@) =~= record_keys(before));
                    assert forall|j: int, q: Seq<char>|
                        0 <= j < records.len() && #[trigger] records@[j].entries@.contains_key(
                            q,
                        ) implies is_segment(q) by {
                        if j != i {
                            assert(records@[j] == before[j]);
                            assert(before[j].entries@.contains_key(q));
                        } else if q != m {
                            assert(before[j].entries@.contains_key(q));
                        }
                    }
                    assert forall|j: int| 0 <= j < records.len() implies (
                    #[trigger] records@[j]).entries.wf() by {
                        if j != i {
                            assert(records@[j] == before[j]);
                        }
                    }
                    lemma_record(before, i as int);
                    lemma_record(records@, i as int);
                    assert(record_keys(before)[i as int] == d);
                    assert forall|id: (Seq<char>, Seq<char>)|
                        meta_of(records@).contains_key(id) <==> meta_of(before).insert(
                            (m, d),
                            v,
                        ).contains_key(id) by {
                        let j = record_keys(before).index_of(id.1);
                        if record_keys(before).contains(id.1) {
                            assert(record_keys(before)[j] == id.1);
                            lemma_record(before, j);
                            lemma_record(records@, j);
                            if j != i {
                                assert(records@[j] == before[j]);
                                assert(id.1 != d);
                            } else {
                                assert(id.1 == d);
                            }
                        }
                    }
                    assert forall|id: (Seq<char>, Seq<char>)|
                        meta_of(records@).contains_key(id) implies #[trigger] meta_of(records@)[id]
                        == meta_of(before).insert((m, d), v)[id] by {
                        let j = record_keys(before).index_of(id.1);
                        assert(record_keys(before)[j] == id.1);
                        lemma_record(before, j);
                        lemma_record(records@, j);
                        if j != i {
                            assert(records@[j] == before[j]);
                            assert(id.1 != d);
                        }
                    }
                    assert(meta_of(records@) =~= meta_of(before).insert((m, d), v));
                }
            },
            None => {
                let mut entries = FlatMap::new();
                entries.insert(String::from_str(metadata_key.as_str()), String::from_str(value));
                records.push(MetaRecord { data_key: String::from_str(data_key.as_str()), entries });
                proof {
                    let n = before.len() as int;
                    assert(record_keys(records@) =~= record_keys(before).push(d));
                    assert forall|j: int| 0 <= j < n implies records@[j] == before[j] by {}
                    assert forall|j: int, q: Seq<char>|
                        0 <= j < records.len() && #[trigger] records@[j].entries@.contains_key(
                            q,
                        ) implies is_segment(q) by {
                        if j < n {
                            assert(before[j].entries@.contains_key(q));
                        }
                    }
                    assert(record_keys(records@).no_duplicates()) by {
                        let ks = record_keys(records@);
                        assert forall|a: int, b: int|
                            0 <= a < ks.len() && 0 <= b < ks.len() && a != b implies ks[a]
                            != ks[b] by {
                            if a < n && b < n {
                                assert(record_keys(before)[a] != record_keys(before)[b]);
                            } else if a < n {
                                assert(record_keys(before)[a] == ks[a]);
                                assert(record_keys(before).contains(ks[a]));
                            } else {
                                assert(record_keys(before)[b] == ks[b]);
                                assert(record_keys(before).contains(ks[b]));
                            }
                        }
                    }
                    assert(record_keys(records@)[n] == d);
                    assert(records@[n].entries@ =~= Map::<Seq<char>, Seq<char>>::empty().insert(
                        m,
                        v,
                    ));
                    lemma_record(records@, n);
                    assert forall|id: (Seq<char>, Seq<char>)|
                        meta_of(records@).contains_key(id) <==> meta_of(before).insert(
                            (m, d),
                            v,
                        ).contains_key(id) by {
                        if record_keys(before).contains(id.1) {
                            let j = record_keys(before).index_of(id.1);
                            assert(record_keys(before)[j] == id.1);
                            assert(record_keys(records@)[j] == id.1);
                            lemma_record(records@, j);
                            lemma_record(before, j);
                        }
                        if record_keys(records@).contains(id.1) {
                            let j = record_keys(records@).index_of(id.1);
                            assert(record_keys(records@)[j] == id.1);
                            lemma_record(records@, j);
                            if j < n {
                                assert(record_keys(before)[j] == id.1);
                                lemma_record(before, j);
                            }
                        }
                    }
                    assert forall|id: (Seq<char>, Seq<char>)|
                        meta_of(records@).contains_key(id) implies #[trigger] meta_of(records@)[id]
                        == meta_of(before).insert((m, d), v)[id] by {
                        let j = record_keys(records@).index_of(id.1);
                        assert(record_keys(records@)[j] == id.1);
                        lemma_record(records@, j);
                        if j < n {
                            assert(record_keys(before)[j] == id.1);
                            lemma_record(before, j);
                        }
                    }
                    assert(meta_of(records@) =~= meta_of(before).insert((m, d), v));
                }
            },
        }
        self.metadata = records;
        Ok(())
    }

    fn list_populated_metadata(&self, prefix: &str, metadata_key_name: &Option<String>) -> (r:
        Result<Vec<MetadataKeys>, StoreError>) {
        proof {
            use_type_invariant(self);
        }
        let ghost records = self.metadata@;
        let ghost only = opt_text(*metadata_key_name);
        let mut list: Vec<MetadataKeys> = Vec::new();
        let mut i: usize = 0;
        while i < self.metadata.len()
            invariant
                i <= records.len(),
                records == self.metadata@,
                records_wf(records),
                only == opt_text(*metadata_key_name),
                list_covers(list@, records, prefix@, only, i as int),
            decreases records.len() - i,
        {
            let record: &MetaRecord = &self.metadata[i];
            if starts_with(record.data_key.as_str(), prefix) {
                let metadata_keys = passing_keys(&record.entries, metadata_key_name);
                if metadata_keys.len() > 0 {
                    assert(is_dotted_name(record_keys(records)[i as int]));
                    let data_key = Key::from_valid(KeyType::Data, record.data_key.clone());
                    let ghost before = list@;
                    list.push(MetadataKeys { data_key, metadata_keys });
                    proof {
                        lemma_list_covers_push(before, list@, records, prefix@, only, i as int);
                    }
                } else {
                    proof {
                        assert forall|m: Seq<char>|
                            !(records[i as int].entries@.contains_key(m) && passes(only, m)) by {
                            if records[i as int].entries@.contains_key(m) && passes(only, m) {
                                assert(key_names(metadata_keys@).contains(m));
                            }
                        }
                        lemma_list_covers_skip(list@, records, prefix@, only, i as int);
                    }
                }
            } else {
                proof {
                    lemma_list_covers_skip(list@, records, prefix@, only, i as int);
                }
            }
            i += 1;
        }
        proof {
            lemma_list_covers_all(list@, records, prefix@, only);
        }
        Ok(list)
    }

    fn commit(&mut self) -> (r: Result<Vec<Key>, StoreError>) {
        proof {
            use_type_invariant(&*self);
            self.pending.lemma_keys();
        }
        let keys = keys_with_prefix(&self.pending, "");
        proof {
            reveal_strlit("");
            assert(""@ =~= Seq::<char>::empty());
        }
        let ghost live0 = self.live@;
        let ghost staged = self.pending@;
        let ghost names = self.pending.keys();
        let mut live = FlatMap::new();
        let mut pending = FlatMap::new();
        core::mem::swap(&mut live, &mut self.live);
        core::mem::swap(&mut pending, &mut self.pending);
        assert(names.take(0) =~= Seq::<Seq<char>>::empty());
        assert(staged.restrict(first_keys(names, 0)) =~= Map::<Seq<char>, Seq<char>>::empty());
        assert(live0.union_prefer_right(Map::<Seq<char>, Seq<char>>::empty()) =~= live0);
        let mut i: usize = 0;
        while i < pending.len()
            invariant
                i <= names.len(),
                names == pending.keys(),
                staged == pending@,
                names.no_duplicates(),
                pending.wf(),
                live.wf(),
                all_dotted(names),
                all_dotted(live.keys()),
                forall|k: Seq<char>| names.contains(k) <==> #[trigger] staged.contains_key(k),
                live@ == live0.union_prefer_right(staged.restrict(first_keys(names, i as int))),
            decreases names.len() - i,
        {
            let key = pending.key_at(i).clone();
            let value = pending.value_at(i).clone();
            proof {
                assert(names.contains(names[i as int]));
                lemma_insert_next(live0, staged, names, i as int);
            }
            live.insert(key, value);
            i += 1;
        }
        proof {
            assert(names.take(names.len() as int) =~= names);
            assert(staged.restrict(first_keys(names, names.len() as int)) =~= promoted(
                staged,
                Seq::<char>::empty(),
            ));
            assert(pending_after_commit(staged, Seq::<char>::empty()) =~= Map::<
                Seq<char>,
                Seq<char>,
            >::empty()) by {
                if forall|k: Seq<char>| !promoted(staged, Seq::<char>::empty()).contains_key(k) {
                    assert forall|k: Seq<char>| !staged.contains_key(k) by {
                        assert(Seq::<char>::empty().is_prefix_of(k));
                        assert(!promoted(staged, Seq::<char>::empty()).contains_key(k));
                    }
                    assert(staged =~= Map::<Seq<char>, Seq<char>>::empty());
                }
            }
        }
        self.live = live;
        Ok(keys)
    }
}

/// The metadata keys of `entries` that pass the filter.
fn passing_keys(entries: &FlatMap, metadata_key_name: &Option<String>) -> (keys: Vec<Key>)
    requires
        forall|m: Seq<char>| entries@.contains_key(m) ==> is_segment(m),
    ensures
        key_names(keys@).no_duplicates(),
        forall|j: int| 0 <= j < keys.len() ==> (#[trigger] keys@[j]).kind() == KeyType::Meta,
        forall|m: Seq<char>| #[trigger]
            key_names(keys@).contains(m) <==> entries@.contains_key(m) && passes(
                opt_text(*metadata_key_name),
                m,
            ),
{
    proof {
        use_type_invariant(entries);
        entries.lemma_keys();
    }
    let ghost all = entries.keys();
    let ghost only = opt_text(*metadata_key_name);
    let mut keys: Vec<Key> = Vec::new();
    let mut i: usize = 0;
    while i < entries.len()
        invariant
            i <= all.len(),
            all == entries.keys(),
            all.no_duplicates(),
            only == opt_text(*metadata_key_name),
            forall|k: Seq<char>| all.contains(k) <==> #[trigger] entries@.contains_key(k),
            forall|m: Seq<char>| entries@.contains_key(m) ==> is_segment(m),
            key_names(keys@).no_duplicates(),
            forall|j: int| 0 <= j < keys.len() ==> (#[trigger] keys@[j]).kind() == KeyType::Meta,
            forall|j: int|
                0 <= j < keys.len() ==> exists|t: int|
                    0 <= t < i && all[t] == #[trigger] key_names(keys@)[j],
            forall|j: int| 0 <= j < keys.len() ==> passes(only, #[trigger] key_names(keys@)[j]),
            forall|t: int|
                0 <= t < i && passes(only, all[t]) ==> key_names(keys@).contains(#[trigger] all[t]),
        decreases all.len() - i,
    {
        let name: &String = entries.key_at(i);
        let wanted: bool = match metadata_key_name {
            Some(only_name) => *only_name == *name,
            None => true,
        };
        if wanted {
            let ghost before = key_names(keys@);
            assert(all.contains(all[i as int]));
            keys.push(Key::from_valid(KeyType::Meta, name.clone()));
            proof {
                let after = key_names(keys@);
                assert(after =~= before.push(all[i as int]));
                assert forall|a: int, b: int|
                    0 <= a < after.len() && 0 <= b < after.len() && a != b implies after[a]
                    != after[b] by {
                    if a < before.len() && b < before.len() {
                        assert(before[a] != before[b]);
                    } else if a < before.len() {
                        let t = choose|t: int| 0 <= t < i && all[t] == before[a];
                    } else {
                        let t = choose|t: int| 0 <= t < i && all[t] == before[b];
                    }
                }
                assert forall|j: int| 0 <= j < keys.len() implies exists|t: int|
                    0 <= t < i + 1 && all[t] == #[trigger] key_names(keys@)[j] by {
                    if j < before.len() {
                        let t = choose|t: int| 0 <= t < i && all[t] == before[j];
                        assert(all[t] == after[j]);
                    } else {
                        assert(all[i as int] == after[j]);
                    }
                }
                assert forall|t: int| 0 <= t < i + 1 && passes(only, all[t]) implies after.contains(
                    #[trigger] all[t],
                ) by {
                    if t < i {
                        let j = choose|j: int| 0 <= j < before.len() && before[j] == all[t];
                        assert(after[j] == all[t]);
                    } else {
                        assert(after[before.len() as int] == all[t]);
                    }
                }
            }
        }
        i += 1;
    }
    proof {
        let names = key_names(keys@);
        assert forall|m: Seq<char>| #[trigger]
            names.contains(m) <==> entries@.contains_key(m) && passes(only, m) by {
            if names.contains(m) {
                let j = choose|j: int| 0 <= j < names.len() && names[j] == m;
                let t = choose|t: int| 0 <= t < i && all[t] == names[j];
                assert(all.contains(m));
            }
            if entries@.contains_key(m) && passes(only, m) {
                let t = choose|t: int| 0 <= t < all.len() && all[t] == m;
                assert(names.contains(all[t]));
            }
        }
    }
    keys
}

/// `list` is the listing of the first `n` records: one entry, in order, for
/// each record whose data key starts with `prefix` and which has metadata
/// that passes the filter.
spec fn list_covers(
    list: Seq<MetadataKeys>,
    records: Seq<MetaRecord>,
    prefix: Seq<char>,
    only: Option<Seq<char>>,
    n: int,
) -> bool {
    &&& forall|a: int|
        0 <= a < list.len() ==> {
            &&& (#[trigger] list[a]).metadata_keys@.len() > 0
            &&& key_names(list[a].metadata_keys@).no_duplicates()
            &&& list[a].data_key.kind() == KeyType::Data
            &&& prefix.is_prefix_of(list[a].data_key@)
            &&& listed_before(list[a], records, only, n)
        }
    &&& forall|a: int, j: int|
        0 <= a < list.len() && 0 <= j < list[a].metadata_keys@.len() ==> (
        #[trigger] list[a].metadata_keys@[j]).kind() == KeyType::Meta
    &&& Seq::new(list.len(), |a: int| list[a].data_key@).no_duplicates()
    &&& forall|t: int, m: Seq<char>|
        0 <= t < n && prefix.is_prefix_of(records[t].data_key@)
            && #[trigger] records[t].entries@.contains_key(m) && passes(only, m)
            ==> names_metadata(list, m, records[t].data_key@)
}

/// `entry` lists one of the first `n` records.
spec fn listed_before(
    entry: MetadataKeys,
    records: Seq<MetaRecord>,
    only: Option<Seq<char>>,
    n: int,
) -> bool {
    exists|t: int| 0 <= t < n && #[trigger] entry_of(entry, records, only, t)
}

/// `entry` lists the record at position `t`: its data key, and those of its
/// metadata keys that pass the filter.
spec fn entry_of(
    entry: MetadataKeys,
    records: Seq<MetaRecord>,
    only: Option<Seq<char>>,
    t: int,
) -> bool {
    &&& 0 <= t < records.len()
    &&& entry.data_key@ == records[t].data_key@
    &&& forall|m: Seq<char>| #[trigger]
        key_names(entry.metadata_keys@).contains(m) <==> records[t].entries@.contains_key(m)
            && passes(only, m)
}

/// A record that is not listed leaves the listing as it is.
proof fn lemma_list_covers_skip(
    list: Seq<MetadataKeys>,
    records: Seq<MetaRecord>,
    prefix: Seq<char>,
    only: Option<Seq<char>>,
    n: int,
)
    requires
        0 <= n < records.len(),
        list_covers(list, records, prefix, only, n),
        !prefix.is_prefix_of(records[n].data_key@) || forall|m: Seq<char>|
            !(records[n].entries@.contains_key(m) && passes(only, m)),
    ensures
        list_covers(list, records, prefix, only, n + 1),
{
    assert forall|a: int| 0 <= a < list.len() implies listed_before(
        #[trigger] list[a],
        records,
        only,
        n + 1,
    ) by {
        assert(listed_before(list[a], records, only, n));
        let t = choose|t: int| 0 <= t < n && #[trigger] entry_of(list[a], records, only, t);
        assert(entry_of(list[a], records, only, t));
    }
}

/// A record that is listed adds its entry to the listing.
proof fn lemma_list_covers_push(
    before: Seq<MetadataKeys>,
    list: Seq<MetadataKeys>,
    records: Seq<MetaRecord>,
    prefix: Seq<char>,
    only: Option<Seq<char>>,
    n: int,
)
    requires
        0 <= n < records.len(),
        record_keys(records).no_duplicates(),
        list_covers(before, records, prefix, only, n),
        list.len() == before.len() + 1,
        forall|a: int| 0 <= a < before.len() ==> list[a] == before[a],
        entry_of(list[before.len() as int], records, only, n),
        prefix.is_prefix_of(records[n].data_key@),
        list[before.len() as int].metadata_keys@.len() > 0,
        key_names(list[before.len() as int].metadata_keys@).no_duplicates(),
        list[before.len() as int].data_key.kind() == KeyType::Data,
        forall|j: int|
            0 <= j < list[before.len() as int].metadata_keys@.len() ==> (
            #[trigger] list[before.len() as int].metadata_keys@[j]).kind() == KeyType::Meta,
    ensures
        list_covers(list, records, prefix, only, n + 1),
{
    let last = before.len() as int;
    assert forall|a: int| 0 <= a < list.len() implies listed_before(
        #[trigger] list[a],
        records,
        only,
        n + 1,
    ) by {
        if a < last {
            assert(listed_before(before[a], records, only, n));
            let t = choose|t: int| 0 <= t < n && #[trigger] entry_of(before[a], records, only, t);
            assert(entry_of(list[a], records, only, t));
        } else {
            assert(entry_of(list[a], records, only, n));
        }
    }
    let data_keys = Seq::new(list.len(), |a: int| list[a].data_key@);
    let data_keys_before = Seq::new(before.len(), |a: int| before[a].data_key@);
    assert forall|a: int, b: int|
        0 <= a < data_keys.len() && 0 <= b < data_keys.len() && a != b implies data_keys[a]
        != data_keys[b] by {
        if a < last && b < last {
            assert(data_keys_before[a] != data_keys_before[b]);
        } else {
            let c = if a < last {
                a
            } else {
                b
            };
            assert(listed_before(before[c], records, only, n));
            let t = choose|t: int| 0 <= t < n && #[trigger] entry_of(before[c], records, only, t);
            assert(record_keys(records)[t] != record_keys(records)[n]);
        }
    }
    assert forall|t: int, m: Seq<char>|
        0 <= t < n + 1 && prefix.is_prefix_of(records[t].data_key@)
            && #[trigger] records[t].entries@.contains_key(m) && passes(only, m)
        implies names_metadata(list, m, records[t].data_key@) by {
        if t < n {
            assert(names_metadata(before, m, records[t].data_key@));
            let (a, j) = choose|a: int, j: int|
                0 <= a < before.len() && 0 <= j < before[a].metadata_keys@.len() && (
                #[trigger] before[a]).data_key@ == records[t].data_key@ && (
                #[trigger] before[a].metadata_keys@[j])@ == m;
            assert(list[a].data_key@ == records[t].data_key@ && list[a].metadata_keys@[j]@ == m);
        } else {
            let names = key_names(list[last].metadata_keys@);
            assert(names.contains(m));
            let j = choose|j: int| 0 <= j < names.len() && names[j] == m;
            assert(list[last].data_key@ == records[t].data_key@ && list[last].metadata_keys@[j]@
                == m);
        }
    }
}

/// The listing of all records is the listing of the metadata they hold.
proof fn lemma_list_covers_all(
    list: Seq<MetadataKeys>,
    records: Seq<MetaRecord>,
    prefix: Seq<char>,
    only: Option<Seq<char>>,
)
    requires
        record_keys(records).no_duplicates(),
        list_covers(list, records, prefix, only, records.len() as int),
    ensures
        lists_metadata(list, meta_of(records), prefix, only),
{
    assert forall|meta: Seq<char>, data_key: Seq<char>| #[trigger]
        names_metadata(list, meta, data_key) <==> meta_of(records).contains_key((meta, data_key))
            && prefix.is_prefix_of(data_key) && passes(only, meta) by {
        if names_metadata(list, meta, data_key) {
            let (a, j) = choose|a: int, j: int|
                0 <= a < list.len() && 0 <= j < list[a].metadata_keys@.len() && (
                #[trigger] list[a]).data_key@ == data_key && (
                #[trigger] list[a].metadata_keys@[j])@ == meta;
            assert(listed_before(list[a], records, only, records.len() as int));
            let t = choose|t: int|
                0 <= t < records.len() && #[trigger] entry_of(list[a], records, only, t);
            assert(key_names(list[a].metadata_keys@)[j] == meta);
            assert(key_names(list[a].metadata_keys@).contains(meta));
            lemma_record(records, t);
        }
        if meta_of(records).contains_key((meta, data_key)) && prefix.is_prefix_of(data_key)
            && passes(only, meta) {
            let t = record_keys(records).index_of(data_key);
            assert(record_keys(records)[t] == data_key);
            assert(records[t].entries@.contains_key(meta));
        }
    }
}

} // verus!
