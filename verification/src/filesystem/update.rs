//! What changes a store on disk: the plan of a commit, the meaning of the
//! outcome of a read, and the directory that a write needs.

use vstd::prelude::*;
use crate::datastore::{first_invalid, first_invalid_from, key_names};
use crate::error::{StoreError, StoreErrorView};
use crate::flat_map::FlatMap;
use crate::key::{Key, KeyType};
use crate::text::head_to;
use super::{basename_start, dirname, lemma_basename_start, PATH_SEPARATOR};

verus! {

/// What a commit is to do.
#[derive(Debug)]
pub enum CommitPlan {
    /// Nothing is pending: nothing is to be changed.
    Nothing,
    /// The pending values are to be written to live, all of them, and the
    /// pending directory is to be removed after that. `keys` are the keys
    /// that are promoted by this.
    Promote { keys: Vec<Key> },
}

/// What a commit is to do with the pending data under the commit prefix.
pub open spec fn commit_plan(pending: Seq<Seq<char>>) -> Result<
    Option<Seq<Seq<char>>>,
    StoreErrorView,
> {
    if pending.len() == 0 {
        Ok(None)
    } else if first_invalid(pending) < pending.len() {
        Err(StoreErrorView::InvalidKey { name: pending[first_invalid(pending)] })
    } else {
        Ok(Some(pending))
    }
}

/// The contents of a plan or the error in its place.
pub open spec fn plan_view(r: Result<CommitPlan, StoreError>) -> Result<
    Option<Seq<Seq<char>>>,
    StoreErrorView,
> {
    match r {
        Ok(CommitPlan::Nothing) => Ok(None),
        Ok(CommitPlan::Promote { keys }) => Ok(Some(key_names(keys@))),
        Err(e) => Err(e@),
    }
}

/// Decides what a commit is to do, from the pending data under the commit
/// prefix. Without pending data nothing is to be changed. Else every key
/// must be a data key, and all are promoted; the first that is none is
/// the error, and nothing is to be changed.
pub fn plan_commit(pending_data: &FlatMap) -> (r: Result<CommitPlan, StoreError>)
    ensures
        plan_view(r) == commit_plan(pending_data.keys()),
        r matches Ok(CommitPlan::Promote { keys }) ==> forall|i: int|
            0 <= i < keys.len() ==> (#[trigger] keys@[i]).kind() == KeyType::Data,
{
    if pending_data.is_empty() {
        return Ok(CommitPlan::Nothing);
    }
    let ghost names = pending_data.keys();
    let mut keys: Vec<Key> = Vec::new();
    let mut i: usize = 0;
    while i < pending_data.len()
        invariant
            i <= names.len(),
            names == pending_data.keys(),
            names.len() > 0,
            keys.len() == i,
            forall|j: int| 0 <= j < i ==> (#[trigger] keys@[j])@ == names[j],
            forall|j: int| 0 <= j < i ==> (#[trigger] keys@[j]).kind() == KeyType::Data,
            first_invalid(names) == first_invalid_from(
                names,
                i as int,
            ),
        decreases names.len() - i,
    {
        match Key::new(KeyType::Data, pending_data.key_at(i).as_str()) {
            Ok(key) => {
                keys.push(key);
            },
            Err(e) => {
                return Err(e);
            },
        }
        i += 1;
    }
    assert(key_names(keys@) =~= names);
    Ok(CommitPlan::Promote { keys })
}

/// How the reading of a file ended.
#[derive(Debug)]
pub enum ReadOutcome {
    /// The file was read, and this is what it holds.
    Found(String),
    /// There is no such file.
    NotFound,
    /// The reading failed for the given reason.
    Failed(String),
}

/// The value of a key, from how the reading of its file ended. A file that
/// is not there is a value that is not set, and no error.
pub fn read_file_for_key(key: &Key, outcome: ReadOutcome) -> (r: Result<Option<String>, StoreError>)
    ensures
        match outcome {
            ReadOutcome::Found(value) => r == Ok::<Option<String>, StoreError>(Some(value)),
            ReadOutcome::NotFound => r == Ok::<Option<String>, StoreError>(None),
            ReadOutcome::Failed(reason) => r is Err && r->Err_0@ == (StoreErrorView::KeyRead {
                key: key@,
                reason: reason@,
            }),
        },
{
    match outcome {
        ReadOutcome::Found(value) => Ok(Some(value)),
        ReadOutcome::NotFound => Ok(None),
        ReadOutcome::Failed(reason) => Err(
            StoreError::KeyRead { key: String::from_str(key.as_str()), reason },
        ),
    }
}

/// The message for a path that has no directory to make before a file is
/// written to it.
pub open spec fn no_parent_message(path: Seq<char>) -> Seq<char> {
    "Given path to write without proper prefix: "@ + path
}

/// The directory that must exist before a file is written to `path`: what
/// stands before the last separator of `path`, or the root where nothing
/// stands before it. A path that is empty or ends in a separator names no
/// file.
pub open spec fn parent_of(path: Seq<char>) -> Result<Seq<char>, StoreErrorView> {
    if path.len() == 0 || path.last() == PATH_SEPARATOR {
        Err(StoreErrorView::Internal { msg: no_parent_message(path) })
    } else if basename_start(path) == 1 {
        Ok(seq![PATH_SEPARATOR])
    } else {
        Ok(dirname(path))
    }
}

/// The position after the last separator of a path; zero where there is none.
pub fn last_part_start(path: &str) -> (start: usize)
    ensures
        start == basename_start(path@),
{
    let len: usize = path.unicode_len();
    let mut n: usize = len;
    assert(path@.take(len as int) =~= path@);
    while n > 0
        invariant
            n <= len,
            len == path@.len(),
            basename_start(path@) == basename_start(path@.take(n as int)),
        decreases n,
    {
        if path.get_char(n - 1) == PATH_SEPARATOR {
            assert(path@.take(n as int).last() == PATH_SEPARATOR);
            return n;
        }
        assert(path@.take(n as int).drop_last() =~= path@.take(n - 1));
        n -= 1;
    }
    assert(path@.take(0).len() == 0);
    0
}

/// The directory that must exist before a file is written to `path`.
pub fn parent_directory(path: &str) -> (r: Result<String, StoreError>)
    ensures
        match r {
            Ok(directory) => parent_of(path@) == Ok::<Seq<char>, StoreErrorView>(directory@),
            Err(e) => parent_of(path@) == Err::<Seq<char>, StoreErrorView>(e@),
        },
{
    let len: usize = path.unicode_len();
    let start: usize = last_part_start(path);
    proof {
        lemma_basename_start(path@);
    }
    if len == 0 || start == len {
        Err(
            StoreError::Internal {
                msg: String::from_str("Given path to write without proper prefix: ").concat(path),
            },
        )
    } else if start == 1 {
        let mut root = String::new();
        root.push(PATH_SEPARATOR);
        assert(root@ =~= seq![PATH_SEPARATOR]);
        Ok(root)
    } else if start == 0 {
        assert(dirname(path@) =~= Seq::<char>::empty());
        Ok(String::new())
    } else {
        Ok(head_to(path, start - 1))
    }
}

} // verus!
