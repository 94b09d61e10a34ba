//! Keys: validated dotted names of data and metadata values.

use vstd::prelude::*;
use crate::error::{StoreError, StoreErrorView};

verus! {

/// Separates the segments of a data key.
pub const KEY_SEPARATOR: char = '.';

/// The two kinds of key.
#[derive(Debug, Clone, Copy, PartialEq, Eq, Structural, Hash)]
pub enum KeyType {
    /// Names a value of the store; may have several dotted segments.
    Data,
    /// Names a piece of metadata attached to a data key; a single segment.
    Meta,
}

/// A character that may stand in a segment of a key.
pub open spec fn is_segment_char(c: char) -> bool {
    ||| 'a' <= c <= 'z'
    ||| 'A' <= c <= 'Z'
    ||| '0' <= c <= '9'
    ||| c == '_'
    ||| c == '-'
}

/// A non-empty run of segment characters.
pub open spec fn is_segment(s: Seq<char>) -> bool {
    &&& s.len() > 0
    &&& forall|i: int| 0 <= i < s.len() ==> is_segment_char(#[trigger] s[i])
}

/// One or more segments joined by the separator: no other character occurs,
/// and no segment is empty.
pub open spec fn is_dotted_name(s: Seq<char>) -> bool {
    &&& s.len() > 0
    &&& forall|i: int|
        0 <= i < s.len() ==> is_segment_char(#[trigger] s[i]) || s[i] == KEY_SEPARATOR
    &&& forall|i: int|
        0 <= i < s.len() && #[trigger] s[i] == KEY_SEPARATOR ==> {
            &&& 0 < i < s.len() - 1
            &&& s[i - 1] != KEY_SEPARATOR
        }
}

/// Whether `name` is acceptable as a key of kind `key_type`.
pub open spec fn valid_key_name(key_type: KeyType, name: Seq<char>) -> bool {
    match key_type {
        KeyType::Data => is_dotted_name(name),
        KeyType::Meta => is_segment(name),
    }
}

/// A validated name of a data or metadata value.
#[derive(Debug)]
pub struct Key {
    name: String,
    key_type: KeyType,
}

impl View for Key {
    type V = Seq<char>;

    closed spec fn view(&self) -> Seq<char> {
        self.name@
    }
}

impl Key {
    /// The kind that the key was made as.
    pub closed spec fn kind(&self) -> KeyType {
        self.key_type
    }

    /// Every key holds a name that is valid for its kind.
    #[verifier::type_invariant]
    pub open spec fn wf(&self) -> bool {
        valid_key_name(self.kind(), self@)
    }

    /// Makes a key of the given kind, or says that the name is not valid for it.
    pub fn new(key_type: KeyType, name: &str) -> (r: Result<Key, StoreError>)
        ensures
            match r {
                Ok(key) => valid_key_name(key_type, name@) && key@ == name@ && key.kind()
                    == key_type && key.wf(),
                Err(e) => !valid_key_name(key_type, name@) && e@ == (StoreErrorView::InvalidKey {
                    name: name@,
                }),
            },
    {
        if name_is_valid(key_type, name) {
            Ok(Key { name: String::from_str(name), key_type })
        } else {
            Err(StoreError::InvalidKey { name: String::from_str(name) })
        }
    }

    /// A key of the given kind with a name that is known to be valid for it.
    pub(crate) fn from_valid(key_type: KeyType, name: String) -> (key: Key)
        requires
            valid_key_name(key_type, name@),
        ensures
            key@ == name@,
            key.kind() == key_type,
            key.wf(),
    {
        Key { name, key_type }
    }

    /// The key's name.
    pub fn as_str(&self) -> (s: &str)
        ensures
            s@ == self@,
    {
        self.name.as_str()
    }

    /// The key's kind.
    pub fn key_type(&self) -> (t: KeyType)
        ensures
            t == self.kind(),
    {
        self.key_type
    }
}

impl Clone for Key {
    fn clone(&self) -> (copy: Key)
        ensures
            copy@ == self@,
            copy.kind() == self.kind(),
    {
        proof {
            use_type_invariant(self);
        }
        Key { name: self.name.clone(), key_type: self.key_type }
    }
}

impl PartialEq for Key {
    fn eq(&self, other: &Key) -> (r: bool) {
        self.name == other.name
    }
}

impl vstd::std_specs::cmp::PartialEqSpecImpl for Key {
    open spec fn obeys_eq_spec() -> bool {
        true
    }

    /// Two keys are equal where their names are.
    open spec fn eq_spec(&self, other: &Key) -> bool {
        self@ == other@
    }
}

impl Eq for Key {

}

/// Decides [`valid_key_name`].
pub fn name_is_valid(key_type: KeyType, name: &str) -> (ok: bool)
    ensures
        ok == valid_key_name(key_type, name@),
{
    let n: usize = name.unicode_len();
    if n == 0 {
        return false;
    }
    let mut i: usize = 0;
    let mut after_dot: bool = true;
    while i < n
        invariant
            n == name@.len(),
            0 <= i <= n,
            after_dot == (i == 0 || name@[i - 1] == KEY_SEPARATOR),
            forall|j: int| 0 <= j < i ==> is_segment_char(#[trigger] name@[j]) || (key_type
                == KeyType::Data && name@[j] == KEY_SEPARATOR),
            forall|j: int|
                0 <= j < i && #[trigger] name@[j] == KEY_SEPARATOR ==> 0 < j
                    && name@[j - 1] != KEY_SEPARATOR,
        decreases n - i,
    {
        let c: char = name.get_char(i);
        if c == KEY_SEPARATOR {
            if after_dot || key_type == KeyType::Meta {
                return false;
            }
            after_dot = true;
        } else if is_segment_char_exec(c) {
            after_dot = false;
        } else {
            return false;
        }
        i += 1;
    }
    !after_dot
}

/// Decides [`is_segment_char`].
pub fn is_segment_char_exec(c: char) -> (ok: bool)
    ensures
        ok == is_segment_char(c),
{
    ('a' <= c && c <= 'z') || ('A' <= c && c <= 'Z') || ('0' <= c && c <= '9') || c == '_' || c
        == '-'
}

} // verus!
