//! The store on disk: where its values lie, and how keys are read back from
//! the files that are found there.
//!
//! A store has a base directory with a directory `live` and a directory
//! `pending` in it. The value of the data key `a.b.c` lies in the file
//! `a/b/c` below one of the two; the metadata `meta1` of that key lies in the
//! file `a/b/c.meta1` beside it. This module computes; reading and writing
//! is left to the caller.

use vstd::prelude::*;
use crate::datastore::{lemma_valid_is_dotted, Committed};
use crate::error::{StoreError, StoreErrorView};
use crate::key::{
    is_dotted_name, is_segment, is_segment_char, valid_key_name, Key, KeyType, KEY_SEPARATOR,
};

pub mod key_path;
pub mod update;

verus! {


/// Separates the parts of a path.
pub const PATH_SEPARATOR: char = '/';

/// Stands between the name of a data key's file and the name of a
/// metadata key.
pub const METADATA_KEY_PREFIX: char = '.';

/// The path of a key below the base of its store: the key's name with the
/// path separator in place of the key separator.
pub open spec fn key_suffix(name: Seq<char>) -> Seq<char> {
    Seq::new(
        name.len(),
        |i: int|
            if name[i] == KEY_SEPARATOR {
                PATH_SEPARATOR
            } else {
                name[i]
            },
    )
}

/// The name of the key whose path below the base is `path`: the path with
/// the key separator in place of the path separator.
pub open spec fn suffix_key(path: Seq<char>) -> Seq<char> {
    Seq::new(
        path.len(),
        |i: int|
            if path[i] == PATH_SEPARATOR {
                KEY_SEPARATOR
            } else {
                path[i]
            },
    )
}

/// `rel` adjoined to the path `base`. An absolute `rel` takes the place of
/// `base`; any other follows it, after a separator where `base` does not end
/// in one.
pub open spec fn join_path(base: Seq<char>, rel: Seq<char>) -> Seq<char> {
    if rel.len() > 0 && rel[0] == PATH_SEPARATOR {
        rel
    } else if base.len() == 0 || base.last() == PATH_SEPARATOR {
        base + rel
    } else {
        base.push(PATH_SEPARATOR) + rel
    }
}

/// Whether the relative path `rel` leads to a place strictly below where it
/// starts: it is not empty, none of its parts is empty, so that it is not
/// absolute, and no dot is in it, so that no part names the directory itself
/// or its parent.
pub open spec fn is_descent(rel: Seq<char>) -> bool {
    &&& rel.len() > 0
    &&& rel[0] != PATH_SEPARATOR
    &&& rel.last() != PATH_SEPARATOR
    &&& forall|i: int|
        0 < i < rel.len() && #[trigger] rel[i] == PATH_SEPARATOR ==> rel[i - 1] != PATH_SEPARATOR
    &&& forall|i: int| 0 <= i < rel.len() ==> #[trigger] rel[i] != '.'
}

/// The path of the key called `name` in the store at `base`, or the error
/// of a name whose path would not lie strictly below `base`.
pub open spec fn path_of(base: Seq<char>, name: Seq<char>) -> Result<Seq<char>, StoreErrorView> {
    if is_descent(key_suffix(name)) {
        Ok(join_path(base, key_suffix(name)))
    } else {
        Err(StoreErrorView::PathTraversal { name })
    }
}

/// The name of the directory of a state below the base of a store.
pub open spec fn state_name(committed: Committed) -> Seq<char> {
    match committed {
        Committed::Pending => "pending"@,
        Committed::Live => "live"@,
    }
}

/// The path of a data key's file with the name of a metadata key after it.
pub open spec fn with_metadata(data_path: Seq<char>, metadata_name: Seq<char>) -> Seq<char> {
    data_path.push(METADATA_KEY_PREFIX) + metadata_name
}

/// The position after the last separator of a path; zero where there is none.
pub open spec fn basename_start(path: Seq<char>) -> int
    decreases path.len(),
{
    if path.len() == 0 {
        0
    } else if path.last() == PATH_SEPARATOR {
        path.len() as int
    } else {
        basename_start(path.drop_last())
    }
}

/// The directory of a path: what stands before its last separator.
pub open spec fn dirname(path: Seq<char>) -> Seq<char> {
    if basename_start(path) == 0 {
        Seq::empty()
    } else {
        path.take(basename_start(path) - 1)
    }
}

/// The last part of a path: what stands after its last separator.
pub open spec fn basename(path: Seq<char>) -> Seq<char> {
    path.skip(basename_start(path))
}

/// The last separator of a path stands just before `basename_start`, and
/// none stands after it.
pub proof fn lemma_basename_start(path: Seq<char>)
    ensures
        0 <= basename_start(path) <= path.len(),
        basename_start(path) > 0 ==> path[basename_start(path) - 1] == PATH_SEPARATOR,
        forall|i: int| basename_start(path) <= i < path.len() ==> path[i] != PATH_SEPARATOR,
    decreases path.len(),
{
    if path.len() > 0 && path.last() != PATH_SEPARATOR {
        lemma_basename_start(path.drop_last());
        assert forall|i: int| basename_start(path) <= i < path.len() implies path[i]
            != PATH_SEPARATOR by {
            if i < path.len() - 1 {
                assert(path.drop_last()[i] == path[i]);
            }
        }
    }
}

/// Appending text without a separator to a path leaves its directory, and
/// appends to its last part.
pub proof fn lemma_basename_append(path: Seq<char>, tail: Seq<char>)
    requires
        forall|i: int| 0 <= i < tail.len() ==> tail[i] != PATH_SEPARATOR,
    ensures
        basename_start(path + tail) == basename_start(path),
        dirname(path + tail) == dirname(path),
        basename(path + tail) == basename(path) + tail,
    decreases tail.len(),
{
    if tail.len() == 0 {
        assert(path + tail =~= path);
        assert(basename(path) + tail =~= basename(path));
    } else {
        let whole = path + tail;
        assert(whole.last() == tail.last());
        assert(whole.drop_last() =~= path + tail.drop_last());
        lemma_basename_append(path, tail.drop_last());
        lemma_basename_start(path);
        assert(dirname(whole) =~= dirname(path));
        assert(basename(whole) =~= basename(path) + tail);
    }
}

/// The key's name with the path separator in place of the key separator.
pub fn path_suffix(name: &str) -> (suffix: String)
    ensures
        suffix@ == key_suffix(name@),
{
    let len: usize = name.unicode_len();
    let mut suffix = String::new();
    let mut i: usize = 0;
    while i < len
        invariant
            i <= len,
            len == name@.len(),
            suffix@ == key_suffix(name@).take(i as int),
        decreases len - i,
    {
        let c: char = name.get_char(i);
        let ghost before = suffix@;
        if c == KEY_SEPARATOR {
            suffix.push(PATH_SEPARATOR);
        } else {
            suffix.push(c);
        }
        assert(suffix@ =~= key_suffix(name@).take(i + 1));
        i += 1;
    }
    assert(key_suffix(name@).take(len as int) =~= key_suffix(name@));
    suffix
}

/// The path with the key separator in place of the path separator.
pub fn key_of_suffix(path: &str) -> (name: String)
    ensures
        name@ == suffix_key(path@),
{
    let len: usize = path.unicode_len();
    let mut name = String::new();
    let mut i: usize = 0;
    while i < len
        invariant
            i <= len,
            len == path@.len(),
            name@ == suffix_key(path@).take(i as int),
        decreases len - i,
    {
        let c: char = path.get_char(i);
        if c == PATH_SEPARATOR {
            name.push(KEY_SEPARATOR);
        } else {
            name.push(c);
        }
        assert(name@ =~= suffix_key(path@).take(i + 1));
        i += 1;
    }
    assert(suffix_key(path@).take(len as int) =~= suffix_key(path@));
    name
}

/// Decides [`is_descent`].
pub fn leads_below(rel: &str) -> (ok: bool)
    ensures
        ok == is_descent(rel@),
{
    let len: usize = rel.unicode_len();
    if len == 0 {
        return false;
    }
    let mut after_separator: bool = true;
    let mut i: usize = 0;
    while i < len
        invariant
            i <= len,
            len == rel@.len(),
            after_separator == (i == 0 || rel@[i - 1] == PATH_SEPARATOR),
            i > 0 ==> rel@[0] != PATH_SEPARATOR,
            forall|j: int|
                0 < j < i && #[trigger] rel@[j] == PATH_SEPARATOR ==> rel@[j - 1]
                    != PATH_SEPARATOR,
            forall|j: int| 0 <= j < i ==> #[trigger] rel@[j] != '.',
        decreases len - i,
    {
        let c: char = rel.get_char(i);
        if c == PATH_SEPARATOR {
            if after_separator {
                return false;
            }
            after_separator = true;
        } else if c == '.' {
            return false;
        } else {
            after_separator = false;
        }
        i += 1;
    }
    !after_separator
}

/// `rel` adjoined to the path `base`.
pub fn join_paths(base: &str, rel: &str) -> (path: String)
    ensures
        path@ == join_path(base@, rel@),
{
    let rel_len: usize = rel.unicode_len();
    let base_len: usize = base.unicode_len();
    if rel_len > 0 && rel.get_char(0) == PATH_SEPARATOR {
        String::from_str(rel)
    } else if base_len == 0 || base.get_char(base_len - 1) == PATH_SEPARATOR {
        String::from_str(base).concat(rel)
    } else {
        let mut path = String::from_str(base);
        path.push(PATH_SEPARATOR);
        path.concat(rel)
    }
}

/// The path of the key called `name` in the store at `base`. A name whose
/// path would not lie strictly below `base` is refused.
pub fn path_for(base: &str, name: &str) -> (r: Result<String, StoreError>)
    ensures
        match r {
            Ok(path) => path_of(base@, name@) == Ok::<Seq<char>, StoreErrorView>(path@),
            Err(e) => path_of(base@, name@) == Err::<Seq<char>, StoreErrorView>(e@),
        },
{
    let suffix = path_suffix(name);
    if leads_below(suffix.as_str()) {
        Ok(join_paths(base, suffix.as_str()))
    } else {
        Err(StoreError::PathTraversal { name: String::from_str(name) })
    }
}

/// The path of a valid data key leads strictly below the base.
pub proof fn lemma_key_descends(name: Seq<char>)
    requires
        is_dotted_name(name),
    ensures
        is_descent(key_suffix(name)),
{
    let rel = key_suffix(name);
    assert forall|i: int| 0 <= i < rel.len() implies #[trigger] rel[i] != '.' by {
        assert(is_segment_char(name[i]) || name[i] == KEY_SEPARATOR);
    }
    assert(rel[0] != PATH_SEPARATOR) by {
        assert(is_segment_char(name[0]) || name[0] == KEY_SEPARATOR);
    }
    assert(rel.last() != PATH_SEPARATOR) by {
        let l = name.len() - 1;
        assert(is_segment_char(name[l]) || name[l] == KEY_SEPARATOR);
    }
    assert forall|i: int| 0 < i < rel.len() && #[trigger] rel[i] == PATH_SEPARATOR implies rel[i
        - 1] != PATH_SEPARATOR by {
        assert(is_segment_char(name[i]) || name[i] == KEY_SEPARATOR);
        assert(name[i] == KEY_SEPARATOR);
        assert(is_segment_char(name[i - 1]) || name[i - 1] == KEY_SEPARATOR);
    }
}

/// A path that leads below a base lies strictly below it: it starts with
/// the base, goes on after it, and what follows the base, after the
/// separator, is the relative path, in which no part leads up again.
pub proof fn lemma_descent_is_below(base: Seq<char>, rel: Seq<char>)
    requires
        is_descent(rel),
    ensures
        base.is_prefix_of(join_path(base, rel)),
        join_path(base, rel).len() > base.len(),
        join_path(base, rel) != base,
        rel.is_suffix_of(join_path(base, rel)),
{
    let path = join_path(base, rel);
    if base.len() == 0 || base.last() == PATH_SEPARATOR {
        assert(path.subrange(0, base.len() as int) =~= base);
        assert(path.subrange(path.len() - rel.len(), path.len() as int) =~= rel);
    } else {
        assert(path.subrange(0, base.len() as int) =~= base);
        assert(path.subrange(path.len() - rel.len(), path.len() as int) =~= rel);
    }
}

/// The path of a valid key lies strictly below the base of its store: it
/// starts with the base and goes on after it with the key's own path, in
/// which no part is empty or leads up.
pub proof fn lemma_key_stays_below(base: Seq<char>, key_type: KeyType, name: Seq<char>)
    requires
        valid_key_name(key_type, name),
    ensures
        path_of(base, name) == Ok::<Seq<char>, StoreErrorView>(
            join_path(base, key_suffix(name)),
        ),
        is_descent(key_suffix(name)),
        base.is_prefix_of(join_path(base, key_suffix(name))),
        join_path(base, key_suffix(name)).len() > base.len(),
        key_suffix(name).is_suffix_of(join_path(base, key_suffix(name))),
{
    lemma_valid_is_dotted(key_type, name);
    lemma_key_descends(name);
    lemma_descent_is_below(base, key_suffix(name));
}

/// A name that holds a path separator, or two dots in a row, or a dot at
/// its start, is no key of either kind: no key can name a parent directory
/// or an absolute path.
pub proof fn lemma_traversal_is_no_key(key_type: KeyType, name: Seq<char>, i: int)
    requires
        0 <= i < name.len(),
        name[i] == PATH_SEPARATOR || (name[i] == '.' && (i == 0 || name[i - 1] == '.')),
    ensures
        !valid_key_name(key_type, name),
{
    if valid_key_name(key_type, name) {
        lemma_valid_is_dotted(key_type, name);
        assert(is_segment_char(name[i]) || name[i] == KEY_SEPARATOR);
    }
}

/// The key of a path is the key that the path was made from.
pub proof fn lemma_suffix_round_trip(name: Seq<char>)
    requires
        forall|i: int| 0 <= i < name.len() ==> name[i] != PATH_SEPARATOR,
    ensures
        suffix_key(key_suffix(name)) == name,
{
    assert(suffix_key(key_suffix(name)) =~= name);
}

/// The two base paths of a store on disk.
#[derive(Debug)]
pub struct FilesystemDataStore {
    live_path: String,
    pending_path: String,
}

impl FilesystemDataStore {
    /// The base path of the given state.
    pub closed spec fn spec_base_path(&self, committed: Committed) -> Seq<char> {
        match committed {
            Committed::Pending => self.pending_path@,
            Committed::Live => self.live_path@,
        }
    }

    /// The path of a data key's file.
    pub open spec fn spec_data_path(&self, key: Seq<char>, committed: Committed) -> Seq<char> {
        join_path(self.spec_base_path(committed), key_suffix(key))
    }

    /// The store whose two states lie in `live` and `pending` below
    /// `base_path`.
    pub fn new(base_path: &str) -> (store: FilesystemDataStore)
        ensures
            forall|committed: Committed| #[trigger]
                store.spec_base_path(committed) == join_path(base_path@, state_name(committed)),
    {
        FilesystemDataStore {
            live_path: join_paths(base_path, "live"),
            pending_path: join_paths(base_path, "pending"),
        }
    }

    /// The base path of the given state.
    pub fn base_path(&self, committed: Committed) -> (path: &String)
        ensures
            path@ == self.spec_base_path(committed),
    {
        match committed {
            Committed::Pending => &self.pending_path,
            Committed::Live => &self.live_path,
        }
    }

    /// The path of the file that holds the value of the data key. It lies
    /// strictly below the base path of the state.
    pub fn data_path(&self, key: &Key, committed: Committed) -> (r: Result<String, StoreError>)
        ensures
            r matches Ok(path) && path@ == self.spec_data_path(key@, committed),
            is_descent(key_suffix(key@)),
    {
        proof {
            use_type_invariant(key);
            lemma_valid_is_dotted(key.kind(), key@);
            lemma_key_descends(key@);
        }
        path_for(self.base_path(committed).as_str(), key.as_str())
    }

    /// The path of the file that holds the metadata of the data key: the
    /// path of the data key's file with the name of the metadata key after
    /// it.
    pub fn metadata_path(&self, metadata_key: &Key, data_key: &Key, committed: Committed) -> (r:
        Result<String, StoreError>)
        ensures
            r matches Ok(path) && path@ == with_metadata(
                self.spec_data_path(data_key@, committed),
                metadata_key@,
            ),
    {
        match self.data_path(data_key, committed) {
            Ok(data_path) => {
                let mut path = data_path;
                path.push(METADATA_KEY_PREFIX);
                Ok(path.concat(metadata_key.as_str()))
            },
            Err(e) => Err(e),
        }
    }
}


/// The paths of one key in the two states differ in the directory of the
/// state only: each is the base, the state's directory, and the key's name
/// with the path separator in place of the key separator.
pub proof fn lemma_data_paths(
    store: FilesystemDataStore,
    base: Seq<char>,
    key: Seq<char>,
    committed: Committed,
)
    requires
        is_dotted_name(key),
        base.len() > 0,
        base.last() != PATH_SEPARATOR,
        forall|c: Committed| #[trigger] store.spec_base_path(c) == join_path(base, state_name(c)),
    ensures
        store.spec_data_path(key, committed) == base.push(PATH_SEPARATOR) + state_name(committed)
            + seq![PATH_SEPARATOR] + key_suffix(key),
        store.spec_data_path(key, Committed::Pending) == base + "/pending/"@ + key_suffix(key),
        store.spec_data_path(key, Committed::Live) == base + "/live/"@ + key_suffix(key),
{
    reveal_strlit("pending");
    reveal_strlit("live");
    reveal_strlit("/pending/");
    reveal_strlit("/live/");
    lemma_key_descends(key);
    let suffix = key_suffix(key);
    assert(store.spec_base_path(Committed::Pending) == join_path(base, "pending"@));
    assert(store.spec_base_path(Committed::Live) == join_path(base, "live"@));
    assert(store.spec_base_path(committed) == join_path(base, state_name(committed)));
    let pending = base.push(PATH_SEPARATOR) + "pending"@;
    let live = base.push(PATH_SEPARATOR) + "live"@;
    assert(pending.last() == 'g');
    assert(live.last() == 'e');
    assert(pending.push(PATH_SEPARATOR) + suffix =~= base + "/pending/"@ + suffix);
    assert(live.push(PATH_SEPARATOR) + suffix =~= base + "/live/"@ + suffix);
    assert(pending.push(PATH_SEPARATOR) + suffix =~= base.push(PATH_SEPARATOR) + "pending"@
        + seq![PATH_SEPARATOR] + suffix);
    assert(live.push(PATH_SEPARATOR) + suffix =~= base.push(PATH_SEPARATOR) + "live"@
        + seq![PATH_SEPARATOR] + suffix);
}

/// The path of a metadata key lies in the directory of its data key's
/// path, and its last part is that of the data key's path, the metadata
/// separator, and the name of the metadata key.
pub proof fn lemma_metadata_path_parts(data_path: Seq<char>, metadata_name: Seq<char>)
    requires
        is_segment(metadata_name),
    ensures
        dirname(with_metadata(data_path, metadata_name)) == dirname(data_path),
        basename(with_metadata(data_path, metadata_name)) == basename(data_path).push(
            METADATA_KEY_PREFIX,
        ) + metadata_name,
        basename_start(data_path) > 0 ==> with_metadata(data_path, metadata_name) == dirname(
            data_path,
        ).push(PATH_SEPARATOR) + (basename(data_path).push(METADATA_KEY_PREFIX) + metadata_name),
{
    let tail = seq![METADATA_KEY_PREFIX] + metadata_name;
    assert forall|i: int| 0 <= i < tail.len() implies tail[i] != PATH_SEPARATOR by {
        if i > 0 {
            assert(is_segment_char(metadata_name[i - 1]));
        }
    }
    assert(with_metadata(data_path, metadata_name) =~= data_path + tail);
    lemma_basename_append(data_path, tail);
    assert(basename(data_path) + tail =~= basename(data_path).push(METADATA_KEY_PREFIX)
        + metadata_name);
    lemma_basename_start(data_path);
    if basename_start(data_path) > 0 {
        assert(data_path =~= dirname(data_path).push(PATH_SEPARATOR) + basename(data_path));
        assert(data_path + tail =~= dirname(data_path).push(PATH_SEPARATOR) + (basename(
            data_path,
        ).push(METADATA_KEY_PREFIX) + metadata_name));
    }
}

} // verus!
