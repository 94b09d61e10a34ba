//! Keys read back from the paths of the files of a store: what a path
//! stands for, which of the files that a walk finds are keys, and how the
//! metadata keys among them are grouped by their data keys.

use vstd::prelude::*;
use crate::datastore::{key_names, passes, Committed, MetadataKeys};
use crate::error::{StoreError, StoreErrorView};
use crate::key::{is_dotted_name, is_segment, is_segment_char, Key, KeyType, KEY_SEPARATOR};
use crate::text::{
    find_char, first_index, head_to, lemma_first_index, opt_text, starts_with, tail_from,
};
use super::{
    key_of_suffix, key_suffix, lemma_key_descends, lemma_suffix_round_trip, suffix_key,
    with_metadata, FilesystemDataStore, METADATA_KEY_PREFIX, PATH_SEPARATOR,
};

verus! {

/// The names of the data key and of the metadata key that a path below the
/// base of a store stands for. What stands before the first dot is the path
/// of the data key; what follows the dot names the metadata key.
pub open spec fn key_path_names(path: Seq<char>) -> (Seq<char>, Option<Seq<char>>) {
    let n = first_index(path, METADATA_KEY_PREFIX);
    (
        suffix_key(path.take(n)),
        if n < path.len() {
            Some(path.skip(n + 1))
        } else {
            None
        },
    )
}

/// Whether a path below the base of a store stands for a key.
pub open spec fn is_key_path(path: Seq<char>) -> bool {
    let (data_name, metadata_name) = key_path_names(path);
    &&& is_dotted_name(data_name)
    &&& match metadata_name {
        Some(name) => is_segment(name),
        None => true,
    }
}

/// The path of a data key is read back as that data key.
pub proof fn lemma_key_path_of_data(name: Seq<char>)
    requires
        is_dotted_name(name),
    ensures
        key_path_names(key_suffix(name)) == (name, None::<Seq<char>>),
        is_key_path(key_suffix(name)),
{
    let path = key_suffix(name);
    lemma_key_descends(name);
    lemma_first_index(path, METADATA_KEY_PREFIX, path.len() as int);
    assert(path.take(path.len() as int) =~= path);
    assert forall|i: int| 0 <= i < name.len() implies name[i] != PATH_SEPARATOR by {
        assert(is_segment_char(name[i]) || name[i] == KEY_SEPARATOR);
    }
    lemma_suffix_round_trip(name);
}

/// The path of a metadata key is read back as that metadata key and its
/// data key.
pub proof fn lemma_key_path_of_metadata(name: Seq<char>, metadata_name: Seq<char>)
    requires
        is_dotted_name(name),
        is_segment(metadata_name),
    ensures
        key_path_names(with_metadata(key_suffix(name), metadata_name)) == (
            name,
            Some(metadata_name),
        ),
        is_key_path(with_metadata(key_suffix(name), metadata_name)),
{
    let data_path = key_suffix(name);
    let path = with_metadata(data_path, metadata_name);
    lemma_key_descends(name);
    let n = data_path.len() as int;
    assert forall|j: int| 0 <= j < n implies path[j] != METADATA_KEY_PREFIX by {
        assert(path[j] == data_path[j]);
    }
    assert(path[n] == METADATA_KEY_PREFIX);
    lemma_first_index(path, METADATA_KEY_PREFIX, n);
    assert(path.take(n) =~= data_path);
    assert(path.skip(n + 1) =~= metadata_name);
    assert forall|i: int| 0 <= i < name.len() implies name[i] != PATH_SEPARATOR by {
        assert(is_segment_char(name[i]) || name[i] == KEY_SEPARATOR);
    }
    lemma_suffix_round_trip(name);
}

/// The key that a path below the base of a store stands for: a data key,
/// or a metadata key with the data key that it belongs to.
#[derive(Debug)]
pub struct KeyPath {
    pub data_key: Key,
    pub metadata_key: Option<Key>,
}

impl View for KeyPath {
    type V = (Seq<char>, Option<Seq<char>>);

    open spec fn view(&self) -> (Seq<char>, Option<Seq<char>>) {
        (
            self.data_key@,
            match self.metadata_key {
                Some(key) => Some(key@),
                None => None,
            },
        )
    }
}

impl KeyPath {
    /// The kind of key that the path stands for.
    pub open spec fn kind(&self) -> KeyType {
        match self.metadata_key {
            Some(_) => KeyType::Meta,
            None => KeyType::Data,
        }
    }

    /// The keys are of the kinds that their places ask for.
    pub open spec fn wf(&self) -> bool {
        &&& self.data_key.kind() == KeyType::Data
        &&& self.data_key.wf()
        &&& match self.metadata_key {
            Some(key) => key.kind() == KeyType::Meta && key.wf(),
            None => true,
        }
    }

    /// The key that the path `path` below the base of a store stands
    /// for. The error is that of the first name that is no key.
    pub fn new(path: &str) -> (r: Result<KeyPath, StoreError>)
        ensures
            match r {
                Ok(key_path) => is_key_path(path@) && key_path@ == key_path_names(path@)
                    && key_path.wf(),
                Err(e) => !is_key_path(path@) && e@ == (StoreErrorView::InvalidKey {
                    name: if !is_dotted_name(key_path_names(path@).0) {
                        key_path_names(path@).0
                    } else {
                        key_path_names(path@).1.unwrap()
                    },
                }),
            },
    {
        let split: usize = find_char(path, METADATA_KEY_PREFIX);
        let data_key_raw: String = head_to(path, split);
        let data_key_str: String = key_of_suffix(data_key_raw.as_str());
        let data_key: Key = match Key::new(KeyType::Data, data_key_str.as_str()) {
            Ok(key) => key,
            Err(e) => {
                return Err(e);
            },
        };
        let metadata_key: Option<Key> = if split < path.unicode_len() {
            let metadata_name: String = tail_from(path, split + 1);
            match Key::new(KeyType::Meta, metadata_name.as_str()) {
                Ok(key) => Some(key),
                Err(e) => {
                    return Err(e);
                },
            }
        } else {
            None
        };
        Ok(KeyPath { data_key, metadata_key })
    }

    /// The kind of key that the path stands for.
    pub fn key_type(&self) -> (t: KeyType)
        ensures
            t == self.kind(),
    {
        match self.metadata_key {
            Some(_) => KeyType::Meta,
            None => KeyType::Data,
        }
    }
}

/// What a walk of a directory tree found at one place.
#[derive(Debug)]
pub struct WalkEntry {
    /// Whether the place holds a regular file.
    pub is_file: bool,
    /// The path of the place.
    pub path: String,
}

/// A base path as the start of the paths below it: with a separator at its
/// end.
pub open spec fn as_directory(base: Seq<char>) -> Seq<char> {
    if base.len() == 0 || base.last() == PATH_SEPARATOR {
        base
    } else {
        base.push(PATH_SEPARATOR)
    }
}

/// The path `path` relative to `base`, where it lies below `base` or is
/// `base`.
pub open spec fn relative_to(path: Seq<char>, base: Seq<char>) -> Option<Seq<char>> {
    if as_directory(base).is_prefix_of(path) {
        Some(path.skip(as_directory(base).len() as int))
    } else if path == base {
        Some(Seq::empty())
    } else {
        None
    }
}

/// The key path that an entry of a walk stands for, if it stands for one:
/// none for what is no regular file, and none for a file whose path is not
/// that of a key. An entry that does not lie below `base` is an error.
pub open spec fn entry_key_path(entry: WalkEntry, base: Seq<char>) -> Result<
    Option<(Seq<char>, Option<Seq<char>>)>,
    StoreErrorView,
> {
    if !entry.is_file {
        Ok(None)
    } else {
        match relative_to(entry.path@, base) {
            None => Err(StoreErrorView::Path { path: entry.path@, base }),
            Some(rel) => if is_key_path(rel) {
                Ok(Some(key_path_names(rel)))
            } else {
                Ok(None)
            },
        }
    }
}

/// The path `path` relative to `base`, where it lies below `base` or is
/// `base`.
pub fn strip_base(path: &str, base: &str) -> (r: Option<String>)
    ensures
        match r {
            Some(rel) => relative_to(path@, base@) == Some(rel@),
            None => relative_to(path@, base@).is_none(),
        },
{
    let base_len: usize = base.unicode_len();
    let mut directory = String::from_str(base);
    if base_len > 0 && base.get_char(base_len - 1) != PATH_SEPARATOR {
        directory.push(PATH_SEPARATOR);
    }
    if starts_with(path, directory.as_str()) {
        let skip: usize = directory.as_str().unicode_len();
        Some(tail_from(path, skip))
    } else if String::from_str(path) == String::from_str(base) {
        Some(String::new())
    } else {
        None
    }
}

/// The key path that an entry of a walk stands for, if it stands for one.
pub fn key_path_for_entry(entry: &WalkEntry, strip_path_prefix: &str) -> (r: Result<
    Option<KeyPath>,
    StoreError,
>)
    ensures
        match r {
            Ok(Some(key_path)) => entry_key_path(*entry, strip_path_prefix@) == Ok::<
                Option<(Seq<char>, Option<Seq<char>>)>,
                StoreErrorView,
            >(Some(key_path@)) && key_path.wf(),
            Ok(None) => entry_key_path(*entry, strip_path_prefix@) == Ok::<
                Option<(Seq<char>, Option<Seq<char>>)>,
                StoreErrorView,
            >(None),
            Err(e) => entry_key_path(*entry, strip_path_prefix@) == Err::<
                Option<(Seq<char>, Option<Seq<char>>)>,
                StoreErrorView,
            >(e@),
        },
{
    if !entry.is_file {
        return Ok(None);
    }
    match strip_base(entry.path.as_str(), strip_path_prefix) {
        None => Err(
            StoreError::Path {
                path: entry.path.clone(),
                base: String::from_str(strip_path_prefix),
            },
        ),
        Some(rel) => match KeyPath::new(rel.as_str()) {
            Ok(key_path) => Ok(Some(key_path)),
            Err(_) => Ok(None),
        },
    }
}

/// The names of a list of key paths.
pub open spec fn key_path_views(paths: Seq<KeyPath>) -> Seq<(Seq<char>, Option<Seq<char>>)> {
    Seq::new(paths.len(), |i: int| paths[i]@)
}

/// The kind of key that the names of a key path stand for.
pub open spec fn kind_of(names: (Seq<char>, Option<Seq<char>>)) -> KeyType {
    match names.1 {
        Some(_) => KeyType::Meta,
        None => KeyType::Data,
    }
}

/// The key paths of the wanted kind, with data keys that start with
/// `prefix`, among the first `n` entries of a walk below `base`: each once,
/// in the order in which the walk came to them. The first entry that does
/// not lie below `base` decides the error.
pub open spec fn found_upto(
    entries: Seq<WalkEntry>,
    base: Seq<char>,
    key_type: KeyType,
    prefix: Seq<char>,
    n: nat,
) -> Result<Seq<(Seq<char>, Option<Seq<char>>)>, StoreErrorView>
    decreases n,
{
    if n == 0 || n > entries.len() {
        Ok(Seq::empty())
    } else {
        match found_upto(entries, base, key_type, prefix, (n - 1) as nat) {
            Err(e) => Err(e),
            Ok(found) => match entry_key_path(entries[n - 1], base) {
                Err(e) => Err(e),
                Ok(None) => Ok(found),
                Ok(Some(names)) => if prefix.is_prefix_of(names.0) && kind_of(names) == key_type
                    && !found.contains(names) {
                    Ok(found.push(names))
                } else {
                    Ok(found)
                },
            },
        }
    }
}

/// The populated key paths that a walk shows. A store without its live
/// directory is corrupt; one without its pending directory has nothing
/// pending.
pub open spec fn populated_key_paths(
    base_exists: bool,
    entries: Seq<WalkEntry>,
    base: Seq<char>,
    key_type: KeyType,
    prefix: Seq<char>,
    committed: Committed,
) -> Result<Seq<(Seq<char>, Option<Seq<char>>)>, StoreErrorView> {
    if !base_exists {
        match committed {
            Committed::Live => Err(
                StoreErrorView::Corruption { msg: "Live datastore missing"@, path: base },
            ),
            Committed::Pending => Ok(Seq::empty()),
        }
    } else {
        found_upto(entries, base, key_type, prefix, entries.len())
    }
}

/// Once an entry has failed, the entries after it do not change the error.
proof fn lemma_found_error_stays(
    entries: Seq<WalkEntry>,
    base: Seq<char>,
    key_type: KeyType,
    prefix: Seq<char>,
    n: nat,
    m: nat,
)
    requires
        n <= m <= entries.len(),
        found_upto(entries, base, key_type, prefix, n) is Err,
    ensures
        found_upto(entries, base, key_type, prefix, m) == found_upto(
            entries,
            base,
            key_type,
            prefix,
            n,
        ),
    decreases m - n,
{
    if n < m {
        lemma_found_error_stays(entries, base, key_type, prefix, n, (m - 1) as nat);
    }
}

/// Whether two optional keys have the same name, or are both absent.
fn same_optional_key(a: &Option<Key>, b: &Option<Key>) -> (same: bool)
    ensures
        same == (match (*a, *b) {
            (Some(x), Some(y)) => x@ == y@,
            (None, None) => true,
            _ => false,
        }),
{
    match a {
        Some(x) => match b {
            Some(y) => String::from_str(x.as_str()) == String::from_str(y.as_str()),
            None => false,
        },
        None => match b {
            Some(_) => false,
            None => true,
        },
    }
}

/// Whether `paths` holds a key path with the names of `wanted`.
fn contains_key_path(paths: &Vec<KeyPath>, wanted: &KeyPath) -> (found: bool)
    ensures
        found == key_path_views(paths@).contains(wanted@),
{
    let mut i: usize = 0;
    while i < paths.len()
        invariant
            i <= paths.len(),
            forall|j: int| 0 <= j < i ==> key_path_views(paths@)[j] != wanted@,
        decreases paths.len() - i,
    {
        let candidate: &KeyPath = &paths[i];
        if String::from_str(candidate.data_key.as_str()) == String::from_str(
            wanted.data_key.as_str(),
        ) && same_optional_key(&candidate.metadata_key, &wanted.metadata_key) {
            assert(key_path_views(paths@)[i as int] == wanted@);
            return true;
        }
        assert(key_path_views(paths@)[i as int] != wanted@);
        i += 1;
    }
    false
}

/// The result of a search for key paths, by the names of what was found.
pub open spec fn key_paths_result(r: Result<Vec<KeyPath>, StoreError>) -> Result<
    Seq<(Seq<char>, Option<Seq<char>>)>,
    StoreErrorView,
> {
    match r {
        Ok(paths) => Ok(key_path_views(paths@)),
        Err(e) => Err(e@),
    }
}

/// Every one of `paths` holds keys of the kinds that their places ask for.
pub open spec fn all_wf(paths: Seq<KeyPath>) -> bool {
    forall|i: int| 0 <= i < paths.len() ==> (#[trigger] paths[i]).wf()
}

impl FilesystemDataStore {
    /// The populated keys of the given kind whose data keys start with
    /// `prefix`, from what a walk of the state's base directory found.
    /// `base_exists` says whether that directory is there, and `entries` is
    /// what the walk came to, in its order.
    pub fn find_populated_key_paths(
        &self,
        base_exists: bool,
        entries: &Vec<WalkEntry>,
        key_type: KeyType,
        prefix: &str,
        committed: Committed,
    ) -> (r: Result<Vec<KeyPath>, StoreError>)
        ensures
            key_paths_result(r) == populated_key_paths(
                base_exists,
                entries@,
                self.spec_base_path(committed),
                key_type,
                prefix@,
                committed,
            ),
            r matches Ok(paths) ==> all_wf(paths@),
    {
        let base: &String = self.base_path(committed);
        if !base_exists {
            return match committed {
                Committed::Live => Err(
                    StoreError::Corruption {
                        msg: String::from_str("Live datastore missing"),
                        path: base.clone(),
                    },
                ),
                Committed::Pending => {
                    let none: Vec<KeyPath> = Vec::new();
                    assert(key_path_views(none@) =~= Seq::empty());
                    Ok(none)
                },
            };
        }
        let mut key_paths: Vec<KeyPath> = Vec::new();
        let mut i: usize = 0;
        assert(key_path_views(key_paths@) =~= Seq::empty());
        while i < entries.len()
            invariant
                i <= entries.len(),
                base_exists,
                base@ == self.spec_base_path(committed),
                all_wf(key_paths@),
                found_upto(entries@, base@, key_type, prefix@, i as nat) == Ok::<
                    Seq<(Seq<char>, Option<Seq<char>>)>,
                    StoreErrorView,
                >(key_path_views(key_paths@)),
            decreases entries.len() - i,
        {
            let ghost before = key_path_views(key_paths@);
            match key_path_for_entry(&entries[i], base.as_str()) {
                Err(e) => {
                    proof {
                        assert(found_upto(entries@, base@, key_type, prefix@, (i + 1) as nat)
                            is Err);
                        lemma_found_error_stays(
                            entries@,
                            base@,
                            key_type,
                            prefix@,
                            (i + 1) as nat,
                            entries@.len(),
                        );
                    }
                    return Err(e);
                },
                Ok(None) => {},
                Ok(Some(key_path)) => {
                    if starts_with(key_path.data_key.as_str(), prefix) && key_path.key_type()
                        == key_type && !contains_key_path(&key_paths, &key_path) {
                        let ghost names = key_path@;
                        key_paths.push(key_path);
                        assert(key_path_views(key_paths@) =~= before.push(names));
                    }
                },
            }
            i += 1;
        }
        Ok(key_paths)
    }
}


/// The data keys of a list of key paths.
pub open spec fn data_names(paths: Seq<(Seq<char>, Option<Seq<char>>)>) -> Seq<Seq<char>> {
    Seq::new(paths.len(), |i: int| paths[i].0)
}

/// The message for a metadata key path without a metadata key.
pub open spec fn no_dot_message(data_name: Seq<char>) -> Seq<char> {
    "Found meta key path with no dot: "@ + data_name
}

/// The position, from `k` on, of the first group of the data key `data`.
pub open spec fn group_index_from(
    groups: Seq<(Seq<char>, Seq<Seq<char>>)>,
    data: Seq<char>,
    k: int,
) -> Option<int>
    decreases groups.len() - k,
{
    if k < 0 || k >= groups.len() {
        None
    } else if groups[k].0 == data {
        Some(k)
    } else {
        group_index_from(groups, data, k + 1)
    }
}

/// The metadata keys of the first `n` key paths that pass the filter, each
/// in the group of its data key: the groups in the order in which their
/// data keys first occur, and the metadata keys of a group in the order in
/// which they occur, each once. A key path without a metadata key is an
/// error.
pub open spec fn grouped_upto(
    paths: Seq<(Seq<char>, Option<Seq<char>>)>,
    only: Option<Seq<char>>,
    n: nat,
) -> Result<Seq<(Seq<char>, Seq<Seq<char>>)>, StoreErrorView>
    decreases n,
{
    if n == 0 || n > paths.len() {
        Ok(Seq::empty())
    } else {
        match grouped_upto(paths, only, (n - 1) as nat) {
            Err(e) => Err(e),
            Ok(groups) => {
                let (data, metadata) = paths[n - 1];
                match metadata {
                    None => Err(StoreErrorView::Internal { msg: no_dot_message(data) }),
                    Some(name) => if !passes(only, name) {
                        Ok(groups)
                    } else {
                        match group_index_from(groups, data, 0) {
                            Some(i) => if 0 <= i < groups.len() && !groups[i].1.contains(name) {
                                Ok(groups.update(i, (data, groups[i].1.push(name))))
                            } else {
                                Ok(groups)
                            },
                            None => Ok(groups.push((data, seq![name]))),
                        }
                    },
                }
            },
        }
    }
}

/// Once a key path has failed, those after it do not change the error.
proof fn lemma_grouped_error_stays(
    paths: Seq<(Seq<char>, Option<Seq<char>>)>,
    only: Option<Seq<char>>,
    n: nat,
    m: nat,
)
    requires
        n <= m <= paths.len(),
        grouped_upto(paths, only, n) is Err,
    ensures
        grouped_upto(paths, only, m) == grouped_upto(paths, only, n),
    decreases m - n,
{
    if n < m {
        lemma_grouped_error_stays(paths, only, n, (m - 1) as nat);
    }
}

/// The names in a list of groups of metadata keys.
pub open spec fn group_views(list: Seq<MetadataKeys>) -> Seq<(Seq<char>, Seq<Seq<char>>)> {
    Seq::new(list.len(), |i: int| (list[i].data_key@, key_names(list[i].metadata_keys@)))
}

/// The result of a listing of metadata, by the names of what was listed.
pub open spec fn groups_result(r: Result<Vec<MetadataKeys>, StoreError>) -> Result<
    Seq<(Seq<char>, Seq<Seq<char>>)>,
    StoreErrorView,
> {
    match r {
        Ok(list) => Ok(group_views(list@)),
        Err(e) => Err(e@),
    }
}

/// The position of the first group of the data key `data`.
fn find_group(list: &Vec<MetadataKeys>, data: &Key) -> (r: Option<usize>)
    ensures
        match r {
            Some(i) => i < list.len() && group_index_from(group_views(list@), data@, 0) == Some(
                i as int,
            ) && list@[i as int].data_key@ == data@,
            None => group_index_from(group_views(list@), data@, 0).is_none(),
        },
{
    let wanted = String::from_str(data.as_str());
    let mut k: usize = 0;
    while k < list.len()
        invariant
            k <= list.len(),
            wanted@ == data@,
            group_index_from(group_views(list@), data@, 0) == group_index_from(
                group_views(list@),
                data@,
                k as int,
            ),
        decreases list.len() - k,
    {
        if String::from_str(list[k].data_key.as_str()) == wanted {
            return Some(k);
        }
        k += 1;
    }
    None
}

/// Whether `keys` holds a key called as `wanted` is.
fn contains_key_named(keys: &Vec<Key>, wanted: &Key) -> (found: bool)
    ensures
        found == key_names(keys@).contains(wanted@),
{
    let name = String::from_str(wanted.as_str());
    let mut i: usize = 0;
    while i < keys.len()
        invariant
            i <= keys.len(),
            name@ == wanted@,
            forall|j: int| 0 <= j < i ==> key_names(keys@)[j] != wanted@,
        decreases keys.len() - i,
    {
        if String::from_str(keys[i].as_str()) == name {
            assert(key_names(keys@)[i as int] == wanted@);
            return true;
        }
        i += 1;
    }
    false
}

/// Groups metadata key paths by their data keys. With a name in
/// `metadata_key_name`, only the metadata keys of that name are kept. A data
/// key has a group only where a metadata key of it is kept.
pub fn group_metadata(key_paths: Vec<KeyPath>, metadata_key_name: &Option<String>) -> (r: Result<
    Vec<MetadataKeys>,
    StoreError,
>)
    ensures
        groups_result(r) == grouped_upto(
            key_path_views(key_paths@),
            opt_text(*metadata_key_name),
            key_paths@.len(),
        ),
{
    let ghost all = key_paths@;
    let ghost paths = key_path_views(all);
    let ghost only = opt_text(*metadata_key_name);
    let mut result: Vec<MetadataKeys> = Vec::new();
    assert(group_views(result@) =~= Seq::empty());
    for key_path in it: key_paths
        invariant
            it.seq() == all,
            paths == key_path_views(all),
            only == opt_text(*metadata_key_name),
            grouped_upto(paths, only, it.index() as nat) == Ok::<
                Seq<(Seq<char>, Seq<Seq<char>>)>,
                StoreErrorView,
            >(group_views(result@)),
    {
        let ghost n = it.index();
        let ghost before = group_views(result@);
        assert(paths[n] == all[n]@);
        let KeyPath { data_key, metadata_key } = key_path;
        let meta_key: Key = match metadata_key {
            Some(key) => key,
            None => {
                let e = StoreError::Internal {
                    msg: String::from_str("Found meta key path with no dot: ").concat(
                        data_key.as_str(),
                    ),
                };
                proof {
                    assert(grouped_upto(paths, only, (n + 1) as nat) is Err);
                    lemma_grouped_error_stays(paths, only, (n + 1) as nat, paths.len());
                }
                return Err(e);
            },
        };
        let wanted: bool = match metadata_key_name {
            Some(name) => *name == String::from_str(meta_key.as_str()),
            None => true,
        };
        if wanted {
            match find_group(&result, &data_key) {
                Some(i) => {
                    if !contains_key_named(&result[i].metadata_keys, &meta_key) {
                        let ghost old_list = result@;
                        assert(before[i as int] == (
                            old_list[i as int].data_key@,
                            key_names(old_list[i as int].metadata_keys@),
                        ));
                        let mut group: MetadataKeys = result.remove(i);
                        assert(group == old_list[i as int]);
                        let ghost name = meta_key@;
                        let ghost names = key_names(group.metadata_keys@);
                        let mut keys: Vec<Key> = Vec::new();
                        core::mem::swap(&mut keys, &mut group.metadata_keys);
                        keys.push(meta_key);
                        group.metadata_keys = keys;
                        assert(key_names(group.metadata_keys@) =~= names.push(
                            name,
                        ));
                        let ghost changed = group;
                        result.insert(i, group);
                        proof {
                            old_list.remove_ensures(i as int);
                            old_list.remove(i as int).insert_ensures(i as int, changed);
                            assert forall|j: int|
                                0 <= j < old_list.len() && j != i
                            implies result@[j] == old_list[j] by {}
                            assert(result@[i as int] == changed);
                            assert(result@.len() == old_list.len());
                            assert(changed.data_key@ == data_key@);
                            assert forall|j: int| 0 <= j < result@.len() implies group_views(
                                result@,
                            )[j] == before.update(
                                i as int,
                                (data_key@, before[i as int].1.push(name)),
                            )[j] by {
                                if j != i {
                                    assert(result@[j] == old_list[j]);
                                    assert(before[j] == (
                                        old_list[j].data_key@,
                                        key_names(old_list[j].metadata_keys@),
                                    ));
                                }
                            }
                            assert(group_views(result@) =~= before.update(
                                i as int,
                                (data_key@, before[i as int].1.push(name)),
                            ));
                        }
                    }
                },
                None => {
                    let ghost name = meta_key@;
                    let ghost data = data_key@;
                    let mut keys: Vec<Key> = Vec::new();
                    keys.push(meta_key);
                    assert(key_names(keys@) =~= seq![name]);
                    result.push(MetadataKeys { data_key, metadata_keys: keys });
                    assert(group_views(result@) =~= before.push((data, seq![name])));
                },
            }
        }
    }
    Ok(result)
}

/// The data keys of a list of key paths.
pub fn data_keys(key_paths: Vec<KeyPath>) -> (keys: Vec<Key>)
    ensures
        key_names(keys@) == data_names(key_path_views(key_paths@)),
{
    let ghost all = key_paths@;
    let mut keys: Vec<Key> = Vec::new();
    for key_path in it: key_paths
        invariant
            it.seq() == all,
            keys.len() == it.index(),
            forall|j: int| 0 <= j < keys.len() ==> (#[trigger] keys@[j])@ == all[j].data_key@,
    {
        let KeyPath { data_key, metadata_key } = key_path;
        keys.push(data_key);
    }
    assert(key_names(keys@) =~= data_names(key_path_views(all)));
    keys
}

impl FilesystemDataStore {
    /// The data keys that have a value and start with `prefix`, from what a
    /// walk of the state's base directory found.
    pub fn list_populated_keys(
        &self,
        base_exists: bool,
        entries: &Vec<WalkEntry>,
        prefix: &str,
        committed: Committed,
    ) -> (r: Result<Vec<Key>, StoreError>)
        ensures
            match populated_key_paths(
                base_exists,
                entries@,
                self.spec_base_path(committed),
                KeyType::Data,
                prefix@,
                committed,
            ) {
                Ok(paths) => r is Ok && key_names(r->Ok_0@) == data_names(paths),
                Err(e) => r is Err && r->Err_0@ == e,
            },
    {
        match self.find_populated_key_paths(
            base_exists,
            entries,
            KeyType::Data,
            prefix,
            committed,
        ) {
            Ok(key_paths) => Ok(data_keys(key_paths)),
            Err(e) => Err(e),
        }
    }

    /// The metadata keys that are set, for each data key that starts with
    /// `prefix`, from what a walk of the live base directory found.
    pub fn list_populated_metadata(
        &self,
        base_exists: bool,
        entries: &Vec<WalkEntry>,
        prefix: &str,
        metadata_key_name: &Option<String>,
    ) -> (r: Result<Vec<MetadataKeys>, StoreError>)
        ensures
            groups_result(r) == match populated_key_paths(
                base_exists,
                entries@,
                self.spec_base_path(Committed::Live),
                KeyType::Meta,
                prefix@,
                Committed::Live,
            ) {
                Ok(paths) => grouped_upto(
                    paths,
                    opt_text(*metadata_key_name),
                    paths.len(),
                ),
                Err(e) => Err(e),
            },
    {
        match self.find_populated_key_paths(
            base_exists,
            entries,
            KeyType::Meta,
            prefix,
            Committed::Live,
        ) {
            Ok(key_paths) => group_metadata(key_paths, metadata_key_name),
            Err(e) => Err(e),
        }
    }
}

} // verus!
