//! The store abstraction: what every backend of the datastore offers.
//!
//! A store holds data values under data keys, once as pending and once as
//! live, and metadata values under pairs of a metadata key and a data key.
//! Metadata is always live. A commit promotes pending data to live.

use vstd::prelude::*;
use crate::error::{StoreError, StoreErrorView};
use crate::flat_map::FlatMap;
use crate::key::{is_dotted_name, valid_key_name, Key, KeyType, KEY_SEPARATOR};
use crate::text::{head_to, opt_text};

verus! {

/// Whether data is staged or in effect.
#[derive(Debug, Clone, Copy, PartialEq, Eq, Structural, Hash)]
pub enum Committed {
    /// Staged, and not yet in effect.
    Pending,
    /// In effect.
    Live,
}

/// A data key with the metadata keys that are set on it.
#[derive(Debug)]
pub struct MetadataKeys {
    pub data_key: Key,
    pub metadata_keys: Vec<Key>,
}

/// A data key with the metadata that is set on it.
#[derive(Debug)]
pub struct MetadataValues {
    pub data_key: Key,
    pub values: FlatMap,
}

/// The names of a list of keys.
pub open spec fn key_names(keys: Seq<Key>) -> Seq<Seq<char>> {
    Seq::new(keys.len(), |i: int| keys[i]@)
}

/// The value that a map holds for a key, if it holds one.
pub open spec fn lookup<K, V>(map: Map<K, V>, key: K) -> Option<V> {
    if map.contains_key(key) {
        Some(map[key])
    } else {
        None
    }
}

/// `keys` are the data keys of `data` that start with `prefix`, each once.
pub open spec fn lists_keys(
    keys: Seq<Key>,
    data: Map<Seq<char>, Seq<char>>,
    prefix: Seq<char>,
) -> bool {
    &&& key_names(keys).no_duplicates()
    &&& forall|i: int| 0 <= i < keys.len() ==> (#[trigger] keys[i]).kind() == KeyType::Data
    &&& forall|k: Seq<char>| #[trigger]
        key_names(keys).contains(k) <==> data.contains_key(k) && prefix.is_prefix_of(k)
}

/// Whether the metadata key `meta` passes the filter `only`.
pub open spec fn passes(only: Option<Seq<char>>, meta: Seq<char>) -> bool {
    match only {
        Some(name) => name == meta,
        None => true,
    }
}

/// Whether `list` names the metadata key `meta` for the data key `data_key`.
pub open spec fn names_metadata(
    list: Seq<MetadataKeys>,
    meta: Seq<char>,
    data_key: Seq<char>,
) -> bool {
    exists|i: int, j: int|
        0 <= i < list.len() && 0 <= j < list[i].metadata_keys@.len()
            && (#[trigger] list[i]).data_key@ == data_key
            && (#[trigger] list[i].metadata_keys@[j])@ == meta
}

/// `list` holds, for each data key that starts with `prefix` and has
/// metadata that passes the filter, that data key once, with the metadata
/// keys that pass, each once; and no other data key.
pub open spec fn lists_metadata(
    list: Seq<MetadataKeys>,
    metadata: Map<(Seq<char>, Seq<char>), Seq<char>>,
    prefix: Seq<char>,
    only: Option<Seq<char>>,
) -> bool {
    &&& Seq::new(list.len(), |i: int| list[i].data_key@).no_duplicates()
    &&& forall|i: int|
        0 <= i < list.len() ==> {
            &&& (#[trigger] list[i]).metadata_keys@.len() > 0
            &&& key_names(list[i].metadata_keys@).no_duplicates()
            &&& list[i].data_key.kind() == KeyType::Data
        }
    &&& forall|i: int, j: int|
        0 <= i < list.len() && 0 <= j < list[i].metadata_keys@.len() ==> (
        #[trigger] list[i].metadata_keys@[j]).kind() == KeyType::Meta
    &&& forall|meta: Seq<char>, data_key: Seq<char>| #[trigger]
        names_metadata(list, meta, data_key) <==> metadata.contains_key((meta, data_key))
            && prefix.is_prefix_of(data_key) && passes(only, meta)
}

/// The pending data that a commit promotes: what stands under keys that
/// start with `prefix`.
pub open spec fn promoted(pending: Map<Seq<char>, Seq<char>>, prefix: Seq<char>) -> Map<
    Seq<char>,
    Seq<char>,
> {
    pending.restrict(Set::new(|k: Seq<char>| prefix.is_prefix_of(k)))
}

/// The live data after a commit: what was live, with what was promoted in
/// place of it where both hold a key.
pub open spec fn live_after_commit(
    live: Map<Seq<char>, Seq<char>>,
    pending: Map<Seq<char>, Seq<char>>,
    prefix: Seq<char>,
) -> Map<Seq<char>, Seq<char>> {
    live.union_prefer_right(promoted(pending, prefix))
}

/// The pending data after a commit: none, unless nothing was promoted, in
/// which case the commit changes nothing.
pub open spec fn pending_after_commit(
    pending: Map<Seq<char>, Seq<char>>,
    prefix: Seq<char>,
) -> Map<Seq<char>, Seq<char>> {
    if forall|k: Seq<char>| !promoted(pending, prefix).contains_key(k) {
        pending
    } else {
        Map::empty()
    }
}

/// Whether position `n` of `key` ends one of its segments.
pub open spec fn ends_segment(key: Seq<char>, n: int) -> bool {
    0 < n <= key.len() && (n == key.len() || key[n] == KEY_SEPARATOR)
}

/// The metadata `meta` of the nearest ancestor of `key` that has it set,
/// among the ancestors of at most `n` characters. A key is its own nearest
/// ancestor.
pub open spec fn inherited_upto(
    metadata: Map<(Seq<char>, Seq<char>), Seq<char>>,
    meta: Seq<char>,
    key: Seq<char>,
    n: int,
) -> Option<Seq<char>>
    decreases n,
{
    if n <= 0 {
        None
    } else if ends_segment(key, n) && metadata.contains_key((meta, key.take(n))) {
        Some(metadata[(meta, key.take(n))])
    } else {
        inherited_upto(metadata, meta, key, n - 1)
    }
}

/// The metadata `meta` that `key` has or inherits: that of `key` itself
/// where it is set, or else that of the nearest ancestor where it is.
pub open spec fn inherited(
    metadata: Map<(Seq<char>, Seq<char>), Seq<char>>,
    meta: Seq<char>,
    key: Seq<char>,
) -> Option<Seq<char>> {
    inherited_upto(metadata, meta, key, key.len() as int)
}

/// A name that is valid for a key of either kind has the form of a data key.
pub proof fn lemma_valid_is_dotted(key_type: KeyType, name: Seq<char>)
    requires
        valid_key_name(key_type, name),
    ensures
        is_dotted_name(name),
{
}

/// What stands before the end of a segment of a data key is a data key: an
/// ancestor of the key, or the key itself.
pub proof fn lemma_ancestor_is_key(key: Seq<char>, n: int)
    requires
        is_dotted_name(key),
        ends_segment(key, n),
    ensures
        is_dotted_name(key.take(n)),
{
    let ancestor = key.take(n);
    assert forall|i: int|
        0 <= i < ancestor.len() && #[trigger] ancestor[i] == KEY_SEPARATOR
    implies 0 < i < ancestor.len() - 1 && ancestor[i - 1] != KEY_SEPARATOR by {
        assert(key[i] == KEY_SEPARATOR);
        if i == n - 1 {
            if n < key.len() {
                assert(key[n] == KEY_SEPARATOR);
            }
        }
    }
}

/// The keys among the first `n` of `names`.
pub open spec fn first_keys(names: Seq<Seq<char>>, n: int) -> Set<Seq<char>> {
    Set::new(|k: Seq<char>| names.take(n).contains(k))
}

/// Writing the next of a list of staged values onto a base adds it to what
/// the earlier ones have overwritten.
pub proof fn lemma_insert_next(
    base: Map<Seq<char>, Seq<char>>,
    staged: Map<Seq<char>, Seq<char>>,
    names: Seq<Seq<char>>,
    i: int,
)
    requires
        0 <= i < names.len(),
        staged.contains_key(names[i]),
    ensures
        base.union_prefer_right(staged.restrict(first_keys(names, i))).insert(
            names[i],
            staged[names[i]],
        ) == base.union_prefer_right(staged.restrict(first_keys(names, i + 1))),
        first_keys(names, i + 1) == first_keys(names, i).insert(names[i]),
{
    let shorter = names.take(i);
    let longer = names.take(i + 1);
    assert(longer =~= shorter.push(names[i]));
    assert forall|k: Seq<char>| #[trigger]
        first_keys(names, i + 1).contains(k) <==> (first_keys(names, i).contains(k) || k
            == names[i]) by {
        if longer.contains(k) {
            let j = choose|j: int| 0 <= j < longer.len() && longer[j] == k;
            if j < i {
                assert(shorter[j] == k);
            }
        }
        if shorter.contains(k) {
            let j = choose|j: int| 0 <= j < shorter.len() && shorter[j] == k;
            assert(longer[j] == k);
        }
        if k == names[i] {
            assert(longer[i] == k);
        }
    }
    assert(first_keys(names, i + 1) =~= first_keys(names, i).insert(names[i]));
    assert(base.union_prefer_right(staged.restrict(first_keys(names, i))).insert(
        names[i],
        staged[names[i]],
    ) =~= base.union_prefer_right(staged.restrict(first_keys(names, i + 1))));
}

/// The position, from `k` on, of the first of `names` that does not have the
/// form of a data key; the length of `names` where all have it.
pub open spec fn first_invalid_from(names: Seq<Seq<char>>, k: int) -> int
    decreases names.len() - k,
{
    if k < 0 || k >= names.len() {
        names.len() as int
    } else if !is_dotted_name(names[k]) {
        k
    } else {
        first_invalid_from(names, k + 1)
    }
}

/// The position of the first of `names` that does not have the form of a
/// data key; the length of `names` where all have it.
pub open spec fn first_invalid(names: Seq<Seq<char>>) -> int {
    first_invalid_from(names, 0)
}

/// `list` holds, for each data key that starts with `prefix` and has
/// metadata that passes the filter, that data key once, with that metadata;
/// and no other data key.
pub open spec fn holds_metadata(
    list: Seq<MetadataValues>,
    metadata: Map<(Seq<char>, Seq<char>), Seq<char>>,
    prefix: Seq<char>,
    only: Option<Seq<char>>,
) -> bool {
    &&& Seq::new(list.len(), |i: int| list[i].data_key@).no_duplicates()
    &&& forall|i: int|
        0 <= i < list.len() ==> {
            &&& (#[trigger] list[i]).data_key.kind() == KeyType::Data
            &&& prefix.is_prefix_of(list[i].data_key@)
            &&& exists|m: Seq<char>| list[i].values@.contains_key(m)
        }
    &&& forall|i: int, m: Seq<char>|
        0 <= i < list.len() ==> (#[trigger] list[i].values@.contains_key(m)
            <==> metadata.contains_key((m, list[i].data_key@)) && passes(only, m))
    &&& forall|i: int, m: Seq<char>|
        0 <= i < list.len() && #[trigger] list[i].values@.contains_key(m) ==> list[i].values@[m]
            == metadata[(m, list[i].data_key@)]
    &&& forall|m: Seq<char>, d: Seq<char>|
        #[trigger] metadata.contains_key((m, d)) && prefix.is_prefix_of(d) && passes(only, m)
            ==> exists|i: int| 0 <= i < list.len() && (#[trigger] list[i]).data_key@ == d
}

/// What every backend of the datastore offers.
pub trait DataStore {
    /// The data values of the store in the given state, by the names of
    /// their keys. A backend that does not say what it holds is one of whose
    /// contents nothing is known.
    open spec fn data(&self, committed: Committed) -> Map<Seq<char>, Seq<char>> {
        arbitrary()
    }

    /// The metadata values of the store, by the names of a metadata key and
    /// a data key.
    open spec fn metadata(&self) -> Map<(Seq<char>, Seq<char>), Seq<char>> {
        arbitrary()
    }

    /// Whether the store's operations always succeed. A store in memory is
    /// reliable; one that reads and writes files is not, and no backend is
    /// unless it says so.
    open spec fn reliable(&self) -> bool {
        false
    }

    /// The start of the keys that a commit promotes.
    open spec fn commit_prefix(&self) -> Seq<char> {
        "settings."@
    }

    /// Whether a value is stored under the key.
    fn key_populated(&self, key: &Key, committed: Committed) -> (r: Result<bool, StoreError>)
        ensures
            r matches Ok(b) ==> b == self.data(committed).contains_key(key@),
            self.reliable() ==> r is Ok,
    ;

    /// The data keys that have a value and start with `prefix`.
    fn list_populated_keys(&self, prefix: &str, committed: Committed) -> (r: Result<
        Vec<Key>,
        StoreError,
    >)
        ensures
            r matches Ok(keys) ==> lists_keys(keys@, self.data(committed), prefix@),
            self.reliable() ==> r is Ok,
    ;

    /// The metadata keys that are set, for each data key that starts with
    /// `prefix`. With a name in `metadata_key_name`, only the metadata key of
    /// that name is listed. A data key needs no value of its own to have
    /// metadata.
    fn list_populated_metadata(&self, prefix: &str, metadata_key_name: &Option<String>) -> (r:
        Result<Vec<MetadataKeys>, StoreError>)
        ensures
            r matches Ok(list) ==> lists_metadata(
                list@,
                self.metadata(),
                prefix@,
                opt_text(*metadata_key_name),
            ),
            self.reliable() ==> r is Ok,
    ;

    /// The value stored under the key, or `None` where there is none.
    fn get_key(&self, key: &Key, committed: Committed) -> (r: Result<Option<String>, StoreError>)
        ensures
            r matches Ok(value) ==> opt_text(value) == lookup(self.data(committed), key@),
            self.reliable() ==> r is Ok,
    ;

    /// Stores the value under the key, in place of what was there.
    fn set_key(&mut self, key: &Key, value: &str, committed: Committed) -> (r: Result<
        (),
        StoreError,
    >)
        requires
            key.kind() == KeyType::Data,
        ensures
            r is Ok ==> final(self).data(committed) == old(self).data(committed).insert(
                key@,
                value@,
            ),
            r is Ok ==> forall|other: Committed|
                other != committed ==> final(self).data(other) == old(self).data(other),
            r is Ok ==> final(self).metadata() == old(self).metadata(),
            old(self).reliable() ==> r is Ok,
            final(self).reliable() == old(self).reliable(),
            final(self).commit_prefix() == old(self).commit_prefix(),
    ;

    /// The metadata value that is set on the data key itself, or `None`
    /// where none is.
    fn get_metadata_raw(&self, metadata_key: &Key, data_key: &Key) -> (r: Result<
        Option<String>,
        StoreError,
    >)
        ensures
            r matches Ok(value) ==> opt_text(value) == lookup(
                self.metadata(),
                (metadata_key@, data_key@),
            ),
            self.reliable() ==> r is Ok,
    ;

    /// Sets the metadata value on the data key, in place of what was there.
    fn set_metadata(&mut self, metadata_key: &Key, data_key: &Key, value: &str) -> (r: Result<
        (),
        StoreError,
    >)
        requires
            metadata_key.kind() == KeyType::Meta,
            data_key.kind() == KeyType::Data,
        ensures
            r is Ok ==> final(self).metadata() == old(self).metadata().insert(
                (metadata_key@, data_key@),
                value@,
            ),
            r is Ok ==> forall|committed: Committed|
                final(self).data(committed) == old(self).data(committed),
            old(self).reliable() ==> r is Ok,
            final(self).reliable() == old(self).reliable(),
            final(self).commit_prefix() == old(self).commit_prefix(),
    ;

    /// Promotes the pending data under the commit prefix to live, and
    /// returns the keys that were promoted. Where there are none, nothing
    /// changes; else no pending data is left.
    fn commit(&mut self) -> (r: Result<Vec<Key>, StoreError>)
        ensures
            r matches Ok(keys) ==> {
                &&& lists_keys(keys@, old(self).data(Committed::Pending), old(self).commit_prefix())
                &&& final(self).data(Committed::Live) == live_after_commit(
                    old(self).data(Committed::Live),
                    old(self).data(Committed::Pending),
                    old(self).commit_prefix(),
                )
                &&& final(self).data(Committed::Pending) == pending_after_commit(
                    old(self).data(Committed::Pending),
                    old(self).commit_prefix(),
                )
                &&& final(self).metadata() == old(self).metadata()
            },
            old(self).reliable() ==> r is Ok,
            final(self).reliable() == old(self).reliable(),
            final(self).commit_prefix() == old(self).commit_prefix(),
    ;

    /// The metadata value that the data key has or inherits: the one set
    /// on the key itself, or else on its nearest ancestor that has one. The
    /// ancestors of `a.b.c` are `a.b` and `a`.
    fn get_metadata(&self, metadata_key: &Key, data_key: &Key) -> (r: Result<
        Option<String>,
        StoreError,
    >)
        ensures
            r matches Ok(value) ==> opt_text(value) == inherited(
                self.metadata(),
                metadata_key@,
                data_key@,
            ),
            self.reliable() ==> r is Ok,
    {
        proof {
            use_type_invariant(data_key);
            lemma_valid_is_dotted(data_key.kind(), data_key@);
        }
        let name: &str = data_key.as_str();
        let len: usize = name.unicode_len();
        let mut result: Option<String> = None;
        let mut n: usize = 0;
        while n < len
            invariant
                n <= len,
                len == name@.len(),
                name@ == data_key@,
                is_dotted_name(name@),
                opt_text(result) == inherited_upto(
                    self.metadata(),
                    metadata_key@,
                    data_key@,
                    n as int,
                ),
            decreases len - n,
        {
            n += 1;
            let at_end: bool = if n == len {
                true
            } else {
                name.get_char(n) == KEY_SEPARATOR
            };
            if at_end {
                proof {
                    lemma_ancestor_is_key(name@, n as int);
                }
                let ancestor = Key::from_valid(KeyType::Data, head_to(name, n));
                match self.get_metadata_raw(metadata_key, &ancestor) {
                    Ok(Some(value)) => {
                        result = Some(value);
                    },
                    Ok(None) => {},
                    Err(e) => {
                        return Err(e);
                    },
                }
            }
        }
        Ok(result)
    }

    /// Stores every value of `pairs` under its key, in the order of the
    /// pairs. A key that does not have the form of a data key ends the
    /// writing: the pairs before it are stored, and the error names it.
    fn set_keys(&mut self, pairs: &FlatMap, committed: Committed) -> (r: Result<(), StoreError>)
        ensures
            r is Ok ==> {
                &&& final(self).data(committed) == old(self).data(committed).union_prefer_right(
                    pairs@,
                )
                &&& forall|other: Committed|
                    other != committed ==> final(self).data(other) == old(self).data(other)
                &&& final(self).metadata() == old(self).metadata()
                &&& first_invalid(pairs.keys()) == pairs.keys().len()
            },
            old(self).reliable() ==> {
                let n = first_invalid(pairs.keys());
                &&& r is Ok <==> n == pairs.keys().len()
                &&& r matches Err(e) ==> e@ == (StoreErrorView::InvalidKey {
                    name: pairs.keys()[n],
                })
                &&& final(self).data(committed) == old(self).data(committed).union_prefer_right(
                    pairs@.restrict(first_keys(pairs.keys(), n)),
                )
                &&& forall|other: Committed|
                    other != committed ==> final(self).data(other) == old(self).data(other)
                &&& final(self).metadata() == old(self).metadata()
            },
            final(self).reliable() == old(self).reliable(),
            final(self).commit_prefix() == old(self).commit_prefix(),
    {
        proof {
            use_type_invariant(pairs);
            pairs.lemma_keys();
        }
        let ghost names = pairs.keys();
        let ghost staged = pairs@;
        let ghost base = self.data(committed);
        let ghost pending0 = self.data(Committed::Pending);
        let ghost live0 = self.data(Committed::Live);
        let ghost metadata0 = self.metadata();
        let ghost reliable0 = self.reliable();
        let ghost prefix0 = self.commit_prefix();
        let count: usize = pairs.len();
        let mut i: usize = 0;
        proof {
            assert(names.take(0) =~= Seq::<Seq<char>>::empty());
            assert(staged.restrict(first_keys(names, 0)) =~= Map::<Seq<char>, Seq<char>>::empty());
            assert(base.union_prefer_right(Map::<Seq<char>, Seq<char>>::empty()) =~= base);
        }
        while i < count
            invariant
                i <= count,
                count == names.len(),
                names == pairs.keys(),
                staged == pairs@,
                base == match committed {
                    Committed::Pending => pending0,
                    Committed::Live => live0,
                },
                forall|k: Seq<char>| names.contains(k) <==> #[trigger] staged.contains_key(k),
                first_invalid(names) == first_invalid_from(names, i as int),
                self.data(committed) == base.union_prefer_right(
                    staged.restrict(first_keys(names, i as int)),
                ),
                committed != Committed::Pending ==> self.data(Committed::Pending) == pending0,
                committed != Committed::Live ==> self.data(Committed::Live) == live0,
                self.metadata() == metadata0,
                self.reliable() == reliable0,
                self.commit_prefix() == prefix0,
                pending0 == old(self).data(Committed::Pending),
                live0 == old(self).data(Committed::Live),
                metadata0 == old(self).metadata(),
                reliable0 == old(self).reliable(),
                prefix0 == old(self).commit_prefix(),
            decreases count - i,
        {
            let name: &String = pairs.key_at(i);
            let value: &String = pairs.value_at(i);
            assert(names.contains(names[i as int]));
            match Key::new(KeyType::Data, name.as_str()) {
                Err(e) => {
                    return Err(e);
                },
                Ok(key) => {
                    match self.set_key(&key, value.as_str(), committed) {
                        Err(e) => {
                            return Err(e);
                        },
                        Ok(()) => {
                            proof {
                                lemma_insert_next(base, staged, names, i as int);
                            }
                        },
                    }
                },
            }
            i += 1;
        }
        proof {
            assert(names.take(count as int) =~= names);
            assert(staged.restrict(first_keys(names, count as int)) =~= staged);
        }
        Ok(())
    }

    /// The data values whose keys start with `find_prefix`, by their keys.
    fn get_prefix(&self, find_prefix: &str, committed: Committed) -> (r: Result<
        FlatMap,
        StoreError,
    >)
        ensures
            r matches Ok(map) ==> map@ == promoted(self.data(committed), find_prefix@),
            self.reliable() ==> r is Ok,
    {
        let keys: Vec<Key> = match self.list_populated_keys(find_prefix, committed) {
            Ok(keys) => keys,
            Err(e) => {
                return Err(e);
            },
        };
        let ghost data = self.data(committed);
        let ghost names = key_names(keys@);
        let mut result = FlatMap::new();
        let mut i: usize = 0;
        proof {
            assert(names.take(0) =~= Seq::<Seq<char>>::empty());
            assert(data.restrict(first_keys(names, 0)) =~= Map::<Seq<char>, Seq<char>>::empty());
        }
        while i < keys.len()
            invariant
                i <= keys.len(),
                data == self.data(committed),
                names == key_names(keys@),
                lists_keys(keys@, data, find_prefix@),
                result@ == data.restrict(first_keys(names, i as int)),
            decreases keys.len() - i,
        {
            let key: &Key = &keys[i];
            assert(names[i as int] == key@);
            assert(names.contains(names[i as int]));
            match self.get_key(key, committed) {
                Ok(Some(value)) => {
                    proof {
                        lemma_insert_next(Map::empty(), data, names, i as int);
                        assert(data.restrict(first_keys(names, i as int)).insert(
                            key@,
                            value@,
                        ) =~= data.restrict(first_keys(names, i + 1)));
                    }
                    result.insert(String::from_str(key.as_str()), value);
                },
                Ok(None) => {
                    assert(false);
                },
                Err(e) => {
                    return Err(e);
                },
            }
            i += 1;
        }
        proof {
            assert(names.take(keys.len() as int) =~= names);
            assert(data.restrict(first_keys(names, keys.len() as int)) =~= promoted(
                data,
                find_prefix@,
            ));
        }
        Ok(result)
    }

    /// The metadata that is set, for each data key that starts with
    /// `find_prefix`. With a name in `metadata_key_name`, only the metadata
    /// of that name is returned.
    fn get_metadata_prefix(&self, find_prefix: &str, metadata_key_name: &Option<String>) -> (r:
        Result<Vec<MetadataValues>, StoreError>)
        ensures
            r matches Ok(list) ==> holds_metadata(
                list@,
                self.metadata(),
                find_prefix@,
                opt_text(*metadata_key_name),
            ),
            self.reliable() ==> r is Ok,
    {
        let listed: Vec<MetadataKeys> = match self.list_populated_metadata(
            find_prefix,
            metadata_key_name,
        ) {
            Ok(listed) => listed,
            Err(e) => {
                return Err(e);
            },
        };
        let ghost all = listed@;
        let ghost metadata = self.metadata();
        let ghost only = opt_text(*metadata_key_name);
        let mut result: Vec<MetadataValues> = Vec::new();
        for entry in it: listed
            invariant
                it.seq() == all,
                metadata == self.metadata(),
                only == opt_text(*metadata_key_name),
                lists_metadata(all, metadata, find_prefix@, only),
                result.len() == it.index(),
                forall|i: int|
                    0 <= i < result.len() ==> (#[trigger] result@[i]).data_key@ == all[i].data_key@
                        && result@[i].data_key.kind() == KeyType::Data,
                forall|i: int, m: Seq<char>|
                    0 <= i < result.len() ==> (#[trigger] result@[i].values@.contains_key(m)
                        <==> key_names(all[i].metadata_keys@).contains(m)),
                forall|i: int, m: Seq<char>|
                    0 <= i < result.len() && #[trigger] result@[i].values@.contains_key(m)
                        ==> result@[i].values@[m] == metadata[(m, all[i].data_key@)],
        {
            let ghost n = it.index();
            let MetadataKeys { data_key, metadata_keys } = entry;
            assert(all[n].data_key@ == data_key@ && all[n].metadata_keys@ == metadata_keys@);
            let ghost names = key_names(metadata_keys@);
            let mut values = FlatMap::new();
            let mut j: usize = 0;
            proof {
                assert(names.take(0) =~= Seq::<Seq<char>>::empty());
            }
            while j < metadata_keys.len()
                invariant
                    j <= metadata_keys.len(),
                    0 <= n < all.len(),
                    metadata == self.metadata(),
                    names == key_names(metadata_keys@),
                    all[n].data_key@ == data_key@,
                    all[n].metadata_keys@ == metadata_keys@,
                    lists_metadata(all, metadata, find_prefix@, only),
                    forall|m: Seq<char>|
                        #[trigger] values@.contains_key(m) <==> names.take(j as int).contains(m),
                    forall|m: Seq<char>| #[trigger]
                        values@.contains_key(m) ==> values@[m] == metadata[(m, data_key@)],
                decreases metadata_keys.len() - j,
            {
                let metadata_key: &Key = &metadata_keys[j];
                let ghost m = metadata_key@;
                proof {
                    assert(names[j as int] == m);
                    assert(names_metadata(all, m, data_key@));
                    lemma_insert_next(Map::empty(), Map::empty().insert(m, m), names, j as int);
                }
                match self.get_metadata_raw(metadata_key, &data_key) {
                    Ok(Some(value)) => {
                        values.insert(String::from_str(metadata_key.as_str()), value);
                    },
                    Ok(None) => {
                        assert(false);
                    },
                    Err(e) => {
                        return Err(e);
                    },
                }
                proof {
                    assert forall|q: Seq<char>| #[trigger]
                        values@.contains_key(q) <==> names.take(j + 1).contains(q) by {
                        assert(first_keys(names, j + 1).contains(q) <==> names.take(
                            j + 1,
                        ).contains(q));
                        assert(first_keys(names, j as int).contains(q) <==> names.take(
                            j as int,
                        ).contains(q));
                    }
                }
                j += 1;
            }
            proof {
                assert(names.take(metadata_keys.len() as int) =~= names);
            }
            result.push(MetadataValues { data_key, values });
        }
        proof {
            lemma_holds_metadata(result@, all, metadata, find_prefix@, only);
        }
        Ok(result)
    }
}

/// A list that holds, for each entry of a listing of metadata keys, the
/// values of those keys, holds the metadata that the listing names.
pub proof fn lemma_holds_metadata(
    list: Seq<MetadataValues>,
    listed: Seq<MetadataKeys>,
    metadata: Map<(Seq<char>, Seq<char>), Seq<char>>,
    prefix: Seq<char>,
    only: Option<Seq<char>>,
)
    requires
        lists_metadata(listed, metadata, prefix, only),
        list.len() == listed.len(),
        forall|i: int|
            0 <= i < list.len() ==> (#[trigger] list[i]).data_key@ == listed[i].data_key@
                && list[i].data_key.kind() == KeyType::Data,
        forall|i: int, m: Seq<char>|
            0 <= i < list.len() ==> (#[trigger] list[i].values@.contains_key(m) <==> key_names(
                listed[i].metadata_keys@,
            ).contains(m)),
        forall|i: int, m: Seq<char>|
            0 <= i < list.len() && #[trigger] list[i].values@.contains_key(m) ==> list[i].values@[m]
                == metadata[(m, listed[i].data_key@)],
    ensures
        holds_metadata(list, metadata, prefix, only),
{
    let data_keys = Seq::new(list.len(), |i: int| list[i].data_key@);
    let listed_keys = Seq::new(listed.len(), |i: int| listed[i].data_key@);
    assert(data_keys =~= listed_keys);
    assert forall|i: int, m: Seq<char>| 0 <= i < list.len() implies (
    #[trigger] list[i].values@.contains_key(m) <==> metadata.contains_key(
        (m, list[i].data_key@),
    ) && passes(only, m)) by {
        let d = listed[i].data_key@;
        let names = key_names(listed[i].metadata_keys@);
        if names.contains(m) {
            let j = choose|j: int| 0 <= j < names.len() && names[j] == m;
            assert(listed[i].data_key@ == d && listed[i].metadata_keys@[j]@ == m);
            assert(names_metadata(listed, m, d));
        }
        if metadata.contains_key((m, d)) && passes(only, m) {
            assert(listed[i].metadata_keys@.len() > 0);
            let first = listed[i].metadata_keys@[0]@;
            assert(names_metadata(listed, first, d));
            assert(prefix.is_prefix_of(d));
            assert(names_metadata(listed, m, d));
            let (a, j) = choose|a: int, j: int|
                0 <= a < listed.len() && 0 <= j < listed[a].metadata_keys@.len() && (
                #[trigger] listed[a]).data_key@ == d && (#[trigger] listed[a].metadata_keys@[j])@
                    == m;
            assert(listed_keys[a] == listed_keys[i]);
            assert(a == i);
            assert(names[j] == m);
        }
    }
    assert forall|i: int| 0 <= i < list.len() implies {
        &&& (#[trigger] list[i]).data_key.kind() == KeyType::Data
        &&& prefix.is_prefix_of(list[i].data_key@)
        &&& exists|m: Seq<char>| list[i].values@.contains_key(m)
    } by {
        let d = listed[i].data_key@;
        assert(listed[i].metadata_keys@.len() > 0);
        let first = listed[i].metadata_keys@[0]@;
        assert(names_metadata(listed, first, d));
        assert(key_names(listed[i].metadata_keys@)[0] == first);
        assert(list[i].values@.contains_key(first));
    }
    assert forall|m: Seq<char>, d: Seq<char>|
        #[trigger] metadata.contains_key((m, d)) && prefix.is_prefix_of(d) && passes(
            only,
            m,
        ) implies exists|i: int| 0 <= i < list.len() && (#[trigger] list[i]).data_key@ == d by {
        assert(names_metadata(listed, m, d));
        let (a, j) = choose|a: int, j: int|
            0 <= a < listed.len() && 0 <= j < listed[a].metadata_keys@.len() && (
            #[trigger] listed[a]).data_key@ == d && (#[trigger] listed[a].metadata_keys@[j])@ == m;
        assert(list[a].data_key@ == d);
    }
}


/// Whether `ancestor` is `key` or one of its ancestors: what stands before
/// the end of one of the segments of `key`.
pub open spec fn is_ancestor(ancestor: Seq<char>, key: Seq<char>) -> bool {
    exists|n: int| ends_segment(key, n) && #[trigger] key.take(n) == ancestor
}

/// Metadata is inherited from the nearest ancestor that has it: where it is
/// set on the ancestor that ends at `n`, and on none between that one and the
/// key, the key inherits the ancestor's value. With `n` the length of the
/// key this says that a value set on the key itself is the one returned.
pub proof fn lemma_inherits_from_nearest(
    metadata: Map<(Seq<char>, Seq<char>), Seq<char>>,
    meta: Seq<char>,
    key: Seq<char>,
    n: int,
)
    requires
        ends_segment(key, n),
        metadata.contains_key((meta, key.take(n))),
        forall|k: int|
            n < k <= key.len() && ends_segment(key, k) ==> !metadata.contains_key(
                (meta, #[trigger] key.take(k)),
            ),
    ensures
        inherited(metadata, meta, key) == Some(metadata[(meta, key.take(n))]),
{
    lemma_inherited_skips(metadata, meta, key, n, key.len() as int);
}

/// Ancestors between `n` and `m` that do not have the metadata set do not
/// change what is inherited.
proof fn lemma_inherited_skips(
    metadata: Map<(Seq<char>, Seq<char>), Seq<char>>,
    meta: Seq<char>,
    key: Seq<char>,
    n: int,
    m: int,
)
    requires
        0 <= n <= m <= key.len(),
        forall|k: int|
            n < k <= m && ends_segment(key, k) ==> !metadata.contains_key(
                (meta, #[trigger] key.take(k)),
            ),
    ensures
        inherited_upto(metadata, meta, key, m) == inherited_upto(metadata, meta, key, n),
    decreases m - n,
{
    if n < m {
        lemma_inherited_skips(metadata, meta, key, n, m - 1);
        if ends_segment(key, m) {
            assert(!metadata.contains_key((meta, key.take(m))));
        }
    }
}

/// Metadata that is set on no ancestor of a key, and not on the key, is
/// not inherited: in particular not from a descendant of the key.
pub proof fn lemma_nothing_to_inherit(
    metadata: Map<(Seq<char>, Seq<char>), Seq<char>>,
    meta: Seq<char>,
    key: Seq<char>,
)
    requires
        forall|ancestor: Seq<char>|
            is_ancestor(ancestor, key) ==> !metadata.contains_key((meta, ancestor)),
    ensures
        inherited(metadata, meta, key).is_none(),
{
    assert forall|k: int| 0 < k <= key.len() && ends_segment(key, k) implies !metadata.contains_key(
        (meta, #[trigger] key.take(k)),
    ) by {
        assert(is_ancestor(key.take(k), key));
    }
    lemma_inherited_skips(metadata, meta, key, 0, key.len() as int);
}

/// What a key inherits is what is set on the key or on one of its
/// ancestors.
pub proof fn lemma_inherited_is_set(
    metadata: Map<(Seq<char>, Seq<char>), Seq<char>>,
    meta: Seq<char>,
    key: Seq<char>,
    n: int,
)
    requires
        n <= key.len(),
        inherited_upto(metadata, meta, key, n).is_some(),
    ensures
        exists|ancestor: Seq<char>|
            is_ancestor(ancestor, key) && #[trigger] metadata.contains_key((meta, ancestor))
                && inherited_upto(metadata, meta, key, n) == Some(metadata[(meta, ancestor)]),
    decreases n,
{
    if n > 0 {
        if ends_segment(key, n) && metadata.contains_key((meta, key.take(n))) {
            assert(is_ancestor(key.take(n), key));
        } else {
            lemma_inherited_is_set(metadata, meta, key, n - 1);
        }
    }
}

/// A commit promotes every pending value under the commit prefix: it is
/// live afterwards, in place of what was live under its key. What was live
/// under other keys stays. Where something is promoted, nothing is pending
/// afterwards.
pub proof fn lemma_commit_promotes(
    live: Map<Seq<char>, Seq<char>>,
    pending: Map<Seq<char>, Seq<char>>,
    prefix: Seq<char>,
)
    ensures
        forall|k: Seq<char>|
            (pending.contains_key(k) && prefix.is_prefix_of(k)) ==> #[trigger] live_after_commit(
                live,
                pending,
                prefix,
            ).contains_key(k) && live_after_commit(live, pending, prefix)[k] == pending[k],
        forall|k: Seq<char>|
            !(pending.contains_key(k) && prefix.is_prefix_of(k)) ==> (#[trigger] live_after_commit(
                live,
                pending,
                prefix,
            ).contains_key(k) <==> live.contains_key(k)),
        forall|k: Seq<char>|
            live.contains_key(k) && !(pending.contains_key(k) && prefix.is_prefix_of(k))
                ==> #[trigger] live_after_commit(live, pending, prefix)[k] == live[k],
        (exists|k: Seq<char>| pending.contains_key(k) && prefix.is_prefix_of(k))
            ==> pending_after_commit(pending, prefix) == Map::<Seq<char>, Seq<char>>::empty(),
        live == Map::<Seq<char>, Seq<char>>::empty() ==> live_after_commit(live, pending, prefix)
            == promoted(pending, prefix),
{
    if exists|k: Seq<char>| pending.contains_key(k) && prefix.is_prefix_of(k) {
        let k = choose|k: Seq<char>| pending.contains_key(k) && prefix.is_prefix_of(k);
        assert(promoted(pending, prefix).contains_key(k));
    }
    if live == Map::<Seq<char>, Seq<char>>::empty() {
        assert(live_after_commit(live, pending, prefix) =~= promoted(pending, prefix));
    }
}

/// A commit with nothing pending under the commit prefix promotes nothing
/// and changes nothing.
pub proof fn lemma_commit_of_nothing(
    live: Map<Seq<char>, Seq<char>>,
    pending: Map<Seq<char>, Seq<char>>,
    prefix: Seq<char>,
)
    requires
        forall|k: Seq<char>| !(pending.contains_key(k) && prefix.is_prefix_of(k)),
    ensures
        promoted(pending, prefix) == Map::<Seq<char>, Seq<char>>::empty(),
        live_after_commit(live, pending, prefix) == live,
        pending_after_commit(pending, prefix) == pending,
{
    assert(promoted(pending, prefix) =~= Map::<Seq<char>, Seq<char>>::empty());
    assert(live_after_commit(live, pending, prefix) =~= live);
}

} // verus!
