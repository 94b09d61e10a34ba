//! Decoding of dotted key-value pairs.
//!
//! The keys of a flat map are read as paths: `a.b.c` is the field `c` of the
//! field `b` of the record `a`. One level of a nested value is rebuilt by
//! grouping the keys by their first segment; a group whose keys go on after
//! the segment is a nested value, and is rebuilt in the same way.

use vstd::prelude::*;
use crate::flat_map::FlatMap;
use crate::key::KEY_SEPARATOR;
use crate::scalar::{deserialize_scalar, scalar_of, Scalar};
use crate::text::{
    find_char, first_index, head_to, join, join_with, lemma_first_index_is_first, lowercase,
    opt_text, starts_with, tail_from,
};
use super::error::{DecodeError, DecodeErrorView};

verus! {

/// The contents of a list of strings.
pub open spec fn texts(v: Seq<String>) -> Seq<Seq<char>> {
    Seq::new(v.len(), |i: int| v[i]@)
}

/// The first segment of a key: what stands before its first separator.
pub open spec fn branch_of(key: Seq<char>) -> Seq<char> {
    key.take(first_index(key, KEY_SEPARATOR))
}

/// Whether a key goes on after its first segment.
pub open spec fn has_branch(key: Seq<char>) -> bool {
    first_index(key, KEY_SEPARATOR) < key.len()
}

/// A name followed by the separator.
pub open spec fn dotted(name: Seq<char>) -> Seq<char> {
    name.push(KEY_SEPARATOR)
}

/// The path of the value `name` below `path`.
pub open spec fn extend_path(path: Option<Seq<char>>, name: Seq<char>) -> Seq<char> {
    match path {
        Some(p) => join_with(p, KEY_SEPARATOR, name),
        None => name,
    }
}

/// `key` without `prefix` at its start; a key that does not start with
/// `prefix` stays as it is.
pub open spec fn strip_prefix(key: Seq<char>, prefix: Seq<char>) -> Seq<char> {
    if prefix.is_prefix_of(key) {
        key.skip(prefix.len() as int)
    } else {
        key
    }
}

/// Every key with the dotted `prefix` stripped once.
pub open spec fn relative_keys(keys: Seq<Seq<char>>, prefix: Seq<char>) -> Seq<Seq<char>> {
    Seq::new(keys.len(), |i: int| strip_prefix(keys[i], dotted(prefix)))
}

/// The keys that start with `branch` and a separator, without that start,
/// in their order.
pub open spec fn sub_keys(keys: Seq<Seq<char>>, branch: Seq<char>) -> Seq<Seq<char>>
    decreases keys.len(),
{
    if keys.len() == 0 {
        Seq::empty()
    } else {
        let rest = sub_keys(keys.drop_last(), branch);
        if dotted(branch).is_prefix_of(keys.last()) {
            rest.push(keys.last().skip(branch.len() as int + 1))
        } else {
            rest
        }
    }
}

/// The state of a decoder of nested values.
pub struct CompoundView {
    /// The flat map that is being decoded.
    pub map: Map<Seq<char>, Seq<char>>,
    /// The keys that this decoder is to consider.
    pub keys: Seq<Seq<char>>,
    /// Where in the flat map the decoder stands.
    pub path: Option<Seq<char>>,
    /// Whether the keys are already relative to the path.
    pub nested: bool,
}

/// The state of a decoder of one value.
pub enum ValueView {
    /// A leaf: its full key and the text stored under it.
    Scalar { key: Seq<char>, text: Seq<char> },
    /// A nested value.
    Compound(CompoundView),
}

/// Drives the decoding of one nested value, and holds what is needed to
/// know where in the whole it stands.
pub struct CompoundDeserializer<'de> {
    /// The input.
    map: &'de FlatMap,
    /// The keys to consider. At the root these are the keys of the input; in
    /// a nested value they are the keys below it, without the path to it.
    keys: Vec<String>,
    /// The path from the root to this value.
    path: Option<String>,
    /// Whether the keys are already relative to the path.
    nested: bool,
}

/// Decodes one leaf from the text stored under its key.
pub struct ScalarDeserializer<'de> {
    key: String,
    text: &'de String,
}

/// Decodes one value: a leaf, or a nested value.
pub enum ValueDeserializer<'de> {
    Scalar(ScalarDeserializer<'de>),
    Compound(CompoundDeserializer<'de>),
}

/// A name with the decoder of the value that belongs to it.
pub struct Entry<'de> {
    pub name: String,
    pub value: ValueDeserializer<'de>,
}

impl<'de> View for CompoundDeserializer<'de> {
    type V = CompoundView;

    closed spec fn view(&self) -> CompoundView {
        CompoundView {
            map: self.map@,
            keys: texts(self.keys@),
            path: opt_text(self.path),
            nested: self.nested,
        }
    }
}

impl<'de> View for ValueDeserializer<'de> {
    type V = ValueView;

    open spec fn view(&self) -> ValueView {
        match *self {
            ValueDeserializer::Scalar(scalar) => ValueView::Scalar {
                key: scalar.spec_key(),
                text: scalar.spec_text(),
            },
            ValueDeserializer::Compound(compound) => ValueView::Compound(compound@),
        }
    }
}

impl<'de> View for Entry<'de> {
    type V = (Seq<char>, ValueView);

    open spec fn view(&self) -> (Seq<char>, ValueView) {
        (self.name@, self.value@)
    }
}

/// The contents of a list of entries.
pub open spec fn entry_views(entries: Seq<Entry>) -> Seq<(Seq<char>, ValueView)> {
    Seq::new(entries.len(), |i: int| entries[i]@)
}

/// Whether a key before position `i` goes on after the first segment `branch`.
pub open spec fn seen_branch(keys: Seq<Seq<char>>, i: int, branch: Seq<char>) -> bool {
    exists|j: int|
        0 <= j < i && j < keys.len() && has_branch(#[trigger] keys[j]) && branch_of(keys[j])
            == branch
}

/// Whether `key` occurs before position `i`.
pub open spec fn seen_key(keys: Seq<Seq<char>>, i: int, key: Seq<char>) -> bool {
    exists|j: int| 0 <= j < i && j < keys.len() && #[trigger] keys[j] == key
}

/// What the key at position `i` adds to the level that `keys` describe.
///
/// A key that goes on after its first segment stands for a nested value,
/// which is entered once, at the first such key; it gets the keys below it
/// and the path to it. A key of one segment is a leaf, if the flat map holds
/// a text at its path; a key that occurred before adds nothing.
pub open spec fn entry_at(
    map: Map<Seq<char>, Seq<char>>,
    keys: Seq<Seq<char>>,
    path: Option<Seq<char>>,
    i: int,
) -> Option<(Seq<char>, ValueView)> {
    let key = keys[i];
    let name = branch_of(key);
    let full = extend_path(path, name);
    if has_branch(key) {
        if seen_branch(keys, i, name) {
            None
        } else {
            Some(
                (
                    name,
                    ValueView::Compound(
                        CompoundView {
                            map,
                            keys: sub_keys(keys, name),
                            path: Some(full),
                            nested: true,
                        },
                    ),
                ),
            )
        }
    } else if seen_key(keys, i, key) || !map.contains_key(full) {
        None
    } else {
        Some((name, ValueView::Scalar { key: full, text: map[full] }))
    }
}

/// The entries that the first `n` keys add, in the order of the keys.
pub open spec fn entries_upto(
    map: Map<Seq<char>, Seq<char>>,
    keys: Seq<Seq<char>>,
    path: Option<Seq<char>>,
    n: nat,
) -> Seq<(Seq<char>, ValueView)>
    decreases n,
{
    if n == 0 {
        Seq::empty()
    } else {
        let rest = entries_upto(map, keys, path, (n - 1) as nat);
        match entry_at(map, keys, path, n - 1) {
            Some(e) => rest.push(e),
            None => rest,
        }
    }
}

/// One level of a nested value: for each first segment among the keys one
/// entry, a leaf or a nested value.
pub open spec fn level_entries(
    map: Map<Seq<char>, Seq<char>>,
    keys: Seq<Seq<char>>,
    path: Option<Seq<char>>,
) -> Seq<(Seq<char>, ValueView)> {
    entries_upto(map, keys, path, keys.len())
}

/// A key without a separator is its own first segment.
pub proof fn lemma_leaf_is_branch(key: Seq<char>)
    requires
        !has_branch(key),
    ensures
        branch_of(key) == key,
{
    lemma_first_index_is_first(key, KEY_SEPARATOR);
    assert(key.take(key.len() as int) =~= key);
}

/// Stripping a prefix takes from a key that stands below the prefix
/// exactly the prefix and the separator after it.
pub proof fn lemma_strip_prefix(prefix: Seq<char>, rest: Seq<char>)
    ensures
        strip_prefix(dotted(prefix) + rest, dotted(prefix)) == rest,
{
    let key = dotted(prefix) + rest;
    assert(key.subrange(0, dotted(prefix).len() as int) =~= dotted(prefix));
    assert(key.skip(dotted(prefix).len() as int) =~= rest);
}

/// Whether one of a list of strings has the contents of `wanted`.
fn contains_text(list: &Vec<String>, wanted: &String) -> (b: bool)
    ensures
        b == texts(list@).contains(wanted@),
{
    let mut i: usize = 0;
    while i < list.len()
        invariant
            i <= list.len(),
            forall|j: int| 0 <= j < i ==> texts(list@)[j] != wanted@,
        decreases list.len() - i,
    {
        if list[i] == *wanted {
            assert(texts(list@)[i as int] == wanted@);
            return true;
        }
        i += 1;
    }
    false
}

/// Whether the key at position `i` occurs before that position.
fn occurs_before(keys: &Vec<String>, i: usize) -> (b: bool)
    requires
        i < keys.len(),
    ensures
        b == seen_key(texts(keys@), i as int, keys@[i as int]@),
{
    let mut j: usize = 0;
    while j < i
        invariant
            j <= i < keys.len(),
            forall|k: int| 0 <= k < j ==> texts(keys@)[k] != keys@[i as int]@,
        decreases i - j,
    {
        if keys[j] == keys[i] {
            assert(texts(keys@)[j as int] == keys@[i as int]@);
            return true;
        }
        j += 1;
    }
    false
}

/// The keys below `branch`: those that start with it and a separator,
/// without that start.
fn collect_sub_keys(keys: &Vec<String>, branch: &String) -> (sub: Vec<String>)
    ensures
        texts(sub@) == sub_keys(texts(keys@), branch@),
{
    let dotted_prefix = {
        let mut p = branch.clone();
        p.push(KEY_SEPARATOR);
        p
    };
    let skip: usize = dotted_prefix.as_str().unicode_len();
    let mut sub: Vec<String> = Vec::new();
    let mut i: usize = 0;
    assert(texts(keys@).take(0) =~= Seq::<Seq<char>>::empty());
    while i < keys.len()
        invariant
            i <= keys.len(),
            dotted_prefix@ == dotted(branch@),
            skip == branch@.len() + 1,
            texts(sub@) == sub_keys(texts(keys@).take(i as int), branch@),
        decreases keys.len() - i,
    {
        let ghost before = texts(sub@);
        proof {
            assert(texts(keys@).take(i + 1).drop_last() =~= texts(keys@).take(i as int));
            assert(texts(keys@).take(i + 1).last() == keys@[i as int]@);
        }
        if starts_with(keys[i].as_str(), dotted_prefix.as_str()) {
            sub.push(tail_from(keys[i].as_str(), skip));
            assert(texts(sub@) =~= before.push(keys@[i as int]@.skip(branch@.len() as int + 1)));
        }
        i += 1;
    }
    assert(texts(keys@).take(keys.len() as int) =~= texts(keys@));
    sub
}

impl<'de> ScalarDeserializer<'de> {
    /// The full key of the leaf.
    pub closed spec fn spec_key(&self) -> Seq<char> {
        self.key@
    }

    /// The text stored under the key.
    pub closed spec fn spec_text(&self) -> Seq<char> {
        self.text@
    }

    /// The full key of the leaf.
    pub fn key(&self) -> (key: &str)
        ensures
            key@ == self.spec_key(),
    {
        self.key.as_str()
    }

    /// The text stored under the key.
    pub fn text(&self) -> (text: &'de str)
        ensures
            text@ == self.spec_text(),
    {
        self.text.as_str()
    }
}

/// A decoder for the leaf stored as `scalar` under `key`.
pub fn deserializer_for_scalar<'de>(key: String, scalar: &'de String) -> (de: ScalarDeserializer<
    'de,
>)
    ensures
        de.spec_key() == key@,
        de.spec_text() == scalar@,
{
    ScalarDeserializer { key, text: scalar }
}

/// The length of the longest of `keys`.
pub open spec fn longest(keys: Seq<Seq<char>>) -> nat
    decreases keys.len(),
{
    if keys.len() == 0 {
        0
    } else {
        let rest = longest(keys.drop_last());
        if keys.last().len() > rest {
            keys.last().len()
        } else {
            rest
        }
    }
}

/// No key is longer than the longest.
pub proof fn lemma_longest_bounds(keys: Seq<Seq<char>>, i: int)
    requires
        0 <= i < keys.len(),
    ensures
        keys[i].len() <= longest(keys),
    decreases keys.len(),
{
    if i < keys.len() - 1 {
        lemma_longest_bounds(keys.drop_last(), i);
    }
}

/// The keys below a branch are shorter than the longest key.
pub proof fn lemma_sub_keys_shorter(keys: Seq<Seq<char>>, branch: Seq<char>)
    ensures
        longest(sub_keys(keys, branch)) <= longest(keys),
        sub_keys(keys, branch).len() > 0 ==> longest(sub_keys(keys, branch)) < longest(keys),
    decreases keys.len(),
{
    if keys.len() > 0 {
        let rest = keys.drop_last();
        lemma_sub_keys_shorter(rest, branch);
        let sub_rest = sub_keys(rest, branch);
        if dotted(branch).is_prefix_of(keys.last()) {
            let sub = sub_keys(keys, branch);
            assert(sub.drop_last() =~= sub_rest);
            assert(sub.last().len() == keys.last().len() - branch.len() - 1);
        }
    }
}

/// The keys below the branch of a key that goes on are shorter than the
/// longest key: descending into a branch comes to an end.
pub proof fn lemma_branch_descends(keys: Seq<Seq<char>>, i: int)
    requires
        0 <= i < keys.len(),
        has_branch(keys[i]),
    ensures
        longest(sub_keys(keys, branch_of(keys[i]))) < longest(keys),
{
    lemma_longest_bounds(keys, i);
    lemma_sub_keys_shorter(keys, branch_of(keys[i]));
}

/// A decoded value.
#[derive(Debug)]
pub enum Node {
    /// A leaf, as the scalar codec read it.
    Scalar(Scalar),
    /// An optional value that is not there.
    Absent,
    /// An optional value that is there.
    Present(Box<Node>),
    /// A nested value with its named parts in order.
    Compound(Vec<Field>),
}

/// A named part of a nested value.
#[derive(Debug)]
pub struct Field {
    pub name: String,
    pub value: Node,
}

/// The mathematical form of a [`Node`].
pub enum NodeView {
    Scalar(Scalar),
    Absent,
    Present(Box<NodeView>),
    Compound(Seq<(Seq<char>, NodeView)>),
}

/// The contents of a list of fields.
pub open spec fn fields_view(fields: Seq<Field>) -> Seq<(Seq<char>, NodeView)>
    decreases fields,
{
    if fields.len() == 0 {
        Seq::empty()
    } else {
        fields_view(fields.drop_last()).push(
            (fields.last().name@, node_view(fields.last().value)),
        )
    }
}

/// The contents of a decoded value.
pub open spec fn node_view(d: Node) -> NodeView
    decreases d,
{
    match d {
        Node::Scalar(s) => NodeView::Scalar(s),
        Node::Absent => NodeView::Absent,
        Node::Present(inner) => NodeView::Present(Box::new(node_view(*inner))),
        Node::Compound(fields) => NodeView::Compound(fields_view(fields@)),
    }
}

impl View for Node {
    type V = NodeView;

    open spec fn view(&self) -> NodeView {
        node_view(*self)
    }
}

/// The fields of a level, decoded in full, from its first `n` keys: each
/// leaf read by the scalar codec, each nested value decoded in the same way
/// from the keys below it. The first key whose leaf the codec cannot read
/// decides the error.
pub open spec fn tree_upto(
    map: Map<Seq<char>, Seq<char>>,
    keys: Seq<Seq<char>>,
    path: Option<Seq<char>>,
    n: nat,
) -> Result<Seq<(Seq<char>, NodeView)>, DecodeErrorView>
    decreases longest(keys), n,
{
    if n == 0 || n > keys.len() {
        Ok(Seq::empty())
    } else {
        match tree_upto(map, keys, path, (n - 1) as nat) {
            Err(e) => Err(e),
            Ok(rest) => {
                match entry_at(map, keys, path, n - 1) {
                    None => Ok(rest),
                    Some((name, ValueView::Scalar { key, text })) => match scalar_of(text) {
                        Some(s) => Ok(rest.push((name, NodeView::Scalar(s)))),
                        None => Err(DecodeErrorView::DeserializeScalar { key }),
                    },
                    Some((name, ValueView::Compound(de))) => {
                        proof {
                            lemma_branch_descends(keys, n - 1);
                        }
                        match tree_upto(de.map, de.keys, de.path, de.keys.len()) {
                            Ok(children) => Ok(rest.push((name, NodeView::Compound(children)))),
                            Err(e) => Err(e),
                        }
                    },
                }
            },
        }
    }
}

/// A level decoded in full.
pub open spec fn level_tree(
    map: Map<Seq<char>, Seq<char>>,
    keys: Seq<Seq<char>>,
    path: Option<Seq<char>>,
) -> Result<NodeView, DecodeErrorView> {
    match tree_upto(map, keys, path, keys.len()) {
        Ok(fields) => Ok(NodeView::Compound(fields)),
        Err(e) => Err(e),
    }
}

/// The decoder as it stands once the root has been settled. A nested
/// decoder is settled already. At the root the path is the one that was
/// given, or else the lowercase form of the record's name, if it has one;
/// and where there is a path, it is stripped, with a separator, from the start
/// of every key, once.
pub open spec fn rooted(de: CompoundView, name: Seq<char>) -> CompoundView {
    if de.nested {
        de
    } else {
        let path = match de.path {
            Some(p) => Some(p),
            None => if name.len() > 0 {
                Some(lowercase(name))
            } else {
                None
            },
        };
        match path {
            Some(p) => CompoundView {
                map: de.map,
                keys: relative_keys(de.keys, p),
                path: Some(p),
                nested: true,
            },
            None => CompoundView { map: de.map, keys: de.keys, path: None, nested: true },
        }
    }
}

/// The entries of the record `name`, as the decoder `de` finds them.
pub open spec fn struct_entries(de: CompoundView, name: Seq<char>) -> Seq<(Seq<char>, ValueView)> {
    let r = rooted(de, name);
    level_entries(r.map, r.keys, r.path)
}

/// The entries of a mapping: those of a record without a name, where the
/// decoder has a path; without one there is nothing to anchor the mapping.
pub open spec fn map_entries(de: CompoundView) -> Result<
    Seq<(Seq<char>, ValueView)>,
    DecodeErrorView,
> {
    match de.path {
        Some(_) => Ok(struct_entries(de, Seq::empty())),
        None => Err(DecodeErrorView::BadRoot),
    }
}

/// The record `name` decoded in full.
pub open spec fn struct_tree(de: CompoundView, name: Seq<char>) -> Result<
    NodeView,
    DecodeErrorView,
> {
    let r = rooted(de, name);
    level_tree(r.map, r.keys, r.path)
}

/// A mapping decoded in full.
pub open spec fn map_tree(de: CompoundView) -> Result<NodeView, DecodeErrorView> {
    match de.path {
        Some(_) => struct_tree(de, Seq::empty()),
        None => Err(DecodeErrorView::BadRoot),
    }
}

/// A leaf decoded: what the scalar codec reads from its text, or the error
/// that names its key.
pub open spec fn scalar_tree(key: Seq<char>, text: Seq<char>) -> Result<
    NodeView,
    DecodeErrorView,
> {
    match scalar_of(text) {
        Some(s) => Ok(NodeView::Scalar(s)),
        None => Err(DecodeErrorView::DeserializeScalar { key }),
    }
}

/// A value decoded in full: a leaf by the scalar codec, a nested value as a
/// mapping.
pub open spec fn value_tree(value: ValueView) -> Result<NodeView, DecodeErrorView> {
    match value {
        ValueView::Scalar { key, text } => scalar_tree(key, text),
        ValueView::Compound(de) => map_tree(de),
    }
}

/// An optional value decoded in full: a leaf that reads as null is absent,
/// any other value is present.
pub open spec fn optional_tree(value: ValueView) -> Result<Option<NodeView>, DecodeErrorView> {
    match value_tree(value) {
        Ok(NodeView::Scalar(s)) => if s.spec_is_null() {
            Ok(None)
        } else {
            Ok(Some(NodeView::Scalar(s)))
        },
        Ok(tree) => Ok(Some(tree)),
        Err(e) => Err(e),
    }
}

/// The first `n` of a list of entries, each value decoded in full. The
/// first value that cannot be decoded decides the error.
pub open spec fn decoded_upto(entries: Seq<(Seq<char>, ValueView)>, n: nat) -> Result<
    Seq<(Seq<char>, NodeView)>,
    DecodeErrorView,
>
    decreases n,
{
    if n == 0 || n > entries.len() {
        Ok(Seq::empty())
    } else {
        match decoded_upto(entries, (n - 1) as nat) {
            Err(e) => Err(e),
            Ok(rest) => match value_tree(entries[n - 1].1) {
                Ok(value) => Ok(rest.push((entries[n - 1].0, value))),
                Err(e) => Err(e),
            },
        }
    }
}

/// What the first entries decode to does not depend on the entries after
/// them.
proof fn lemma_decoded_prefix(
    entries: Seq<(Seq<char>, ValueView)>,
    longer: Seq<(Seq<char>, ValueView)>,
    n: nat,
)
    requires
        n <= entries.len() <= longer.len(),
        forall|i: int| 0 <= i < entries.len() ==> entries[i] == longer[i],
    ensures
        decoded_upto(longer, n) == decoded_upto(entries, n),
    decreases n,
{
    if n > 0 {
        lemma_decoded_prefix(entries, longer, (n - 1) as nat);
    }
}

/// Decoding a level in full is decoding each of its entries in full, in
/// their order: the entries that `deserialize_struct` hands out, decoded one
/// by one with `deserialize_any`, give what `decode_struct` returns.
pub proof fn lemma_tree_is_entries_decoded(
    map: Map<Seq<char>, Seq<char>>,
    keys: Seq<Seq<char>>,
    path: Option<Seq<char>>,
    n: nat,
)
    requires
        n <= keys.len(),
    ensures
        tree_upto(map, keys, path, n) == decoded_upto(
            entries_upto(map, keys, path, n),
            entries_upto(map, keys, path, n).len(),
        ),
    decreases n,
{
    if n > 0 {
        lemma_tree_is_entries_decoded(map, keys, path, (n - 1) as nat);
        let rest = entries_upto(map, keys, path, (n - 1) as nat);
        match entry_at(map, keys, path, n - 1) {
            None => {},
            Some(entry) => {
                let all = rest.push(entry);
                lemma_decoded_prefix(rest, all, rest.len());
                assert(all[rest.len() as int] == entry);
                match entry.1 {
                    ValueView::Scalar { key, text } => {},
                    ValueView::Compound(de) => {
                        assert(rooted(de, Seq::empty()) == de);
                    },
                }
            },
        }
    }
}

/// The contents of a result of decoding.
pub open spec fn result_view(r: Result<Node, DecodeError>) -> Result<
    NodeView,
    DecodeErrorView,
> {
    match r {
        Ok(d) => Ok(d@),
        Err(e) => Err(e@),
    }
}

/// The contents of a list of entries or the error in its place.
pub open spec fn entries_result_view(r: Result<Vec<Entry>, DecodeError>) -> Result<
    Seq<(Seq<char>, ValueView)>,
    DecodeErrorView,
> {
    match r {
        Ok(entries) => Ok(entry_views(entries@)),
        Err(e) => Err(e@),
    }
}

/// How the branches seen before a position grow with the position.
proof fn lemma_seen_branch_step(keys: Seq<Seq<char>>, i: int)
    requires
        0 <= i < keys.len(),
    ensures
        forall|b: Seq<char>|
            seen_branch(keys, i + 1, b) <==> (seen_branch(keys, i, b) || (has_branch(keys[i])
                && branch_of(keys[i]) == b)),
{
    assert forall|b: Seq<char>|
        seen_branch(keys, i + 1, b) <==> (seen_branch(keys, i, b) || (has_branch(keys[i])
            && branch_of(keys[i]) == b)) by {
        if seen_branch(keys, i + 1, b) {
            let j = choose|j: int|
                0 <= j < i + 1 && j < keys.len() && has_branch(#[trigger] keys[j]) && branch_of(
                    keys[j],
                ) == b;
            if j < i {
                assert(seen_branch(keys, i, b));
            }
        }
        if seen_branch(keys, i, b) {
            let j = choose|j: int|
                0 <= j < i && j < keys.len() && has_branch(#[trigger] keys[j]) && branch_of(keys[j])
                    == b;
            assert(has_branch(keys[j]));
        }
        if has_branch(keys[i]) && branch_of(keys[i]) == b {
            assert(has_branch(keys[i]));
        }
    }
}

/// The branch names in `done` are those seen before position `i`.
pub open spec fn tracks_branches(done: Seq<String>, keys: Seq<Seq<char>>, i: int) -> bool {
    forall|b: Seq<char>| texts(done).contains(b) <==> seen_branch(keys, i, b)
}

/// Appending to the list of visited branch names adds that one name.
proof fn lemma_done_push(before: Seq<Seq<char>>, after: Seq<Seq<char>>, name: Seq<char>)
    requires
        after == before.push(name),
    ensures
        forall|b: Seq<char>| after.contains(b) <==> (before.contains(b) || b == name),
{
    assert forall|b: Seq<char>| after.contains(b) <==> (before.contains(b) || b == name) by {
        if after.contains(b) {
            let j = choose|j: int| 0 <= j < after.len() && after[j] == b;
            if j < before.len() {
                assert(before[j] == b);
            }
        }
        if b == name {
            assert(after[before.len() as int] == b);
        }
        if before.contains(b) {
            let j = choose|j: int| 0 <= j < before.len() && before[j] == b;
            assert(after[j] == b);
        }
    }
}

/// What the key at position `i` adds to its level. `structs_done` holds the
/// names of the nested values that were entered at earlier keys, and gets
/// the name of the one that is entered here.
fn next_entry<'de>(
    map: &'de FlatMap,
    keys: &Vec<String>,
    path: &Option<String>,
    i: usize,
    structs_done: &mut Vec<String>,
) -> (e: Option<Entry<'de>>)
    requires
        i < keys.len(),
        tracks_branches(old(structs_done)@, texts(keys@), i as int),
    ensures
        tracks_branches(final(structs_done)@, texts(keys@), i + 1),
        match e {
            Some(entry) => entry_at(map@, texts(keys@), opt_text(*path), i as int) == Some(entry@),
            None => entry_at(map@, texts(keys@), opt_text(*path), i as int).is_none(),
        },
{
    let ghost ks = texts(keys@);
    let ghost done_before = texts(structs_done@);
    let key: &str = keys[i].as_str();
    assert(key@ == ks[i as int]);
    proof {
        lemma_seen_branch_step(ks, i as int);
    }
    let split: usize = find_char(key, KEY_SEPARATOR);
    let struct_name: String = head_to(key, split);
    let new_path: String = match path {
        Some(p) => join(p.as_str(), KEY_SEPARATOR, struct_name.as_str()),
        None => struct_name.clone(),
    };
    assert(new_path@ == extend_path(opt_text(*path), branch_of(key@)));
    if split < key.unicode_len() {
        if contains_text(structs_done, &struct_name) {
            None
        } else {
            structs_done.push(struct_name.clone());
            proof {
                assert(texts(structs_done@) =~= done_before.push(struct_name@));
                lemma_done_push(done_before, texts(structs_done@), struct_name@);
            }
            let sub: Vec<String> = collect_sub_keys(keys, &struct_name);
            Some(
                Entry {
                    name: struct_name,
                    value: ValueDeserializer::Compound(
                        CompoundDeserializer { map, keys: sub, path: Some(new_path), nested: true },
                    ),
                },
            )
        }
    } else {
        proof {
            lemma_leaf_is_branch(key@);
        }
        if occurs_before(keys, i) {
            None
        } else {
            match map.get(new_path.as_str()) {
                Some(text) => Some(
                    Entry {
                        name: struct_name,
                        value: ValueDeserializer::Scalar(deserializer_for_scalar(new_path, text)),
                    },
                ),
                None => None,
            }
        }
    }
}

/// One level of a nested value, from keys that are relative to `path`.
fn level<'de>(map: &'de FlatMap, keys: &Vec<String>, path: &Option<String>) -> (entries: Vec<
    Entry<'de>,
>)
    ensures
        entry_views(entries@) == level_entries(map@, texts(keys@), opt_text(*path)),
{
    let mut entries: Vec<Entry<'de>> = Vec::new();
    let mut structs_done: Vec<String> = Vec::new();
    let mut i: usize = 0;
    assert(entry_views(entries@) =~= Seq::empty());
    while i < keys.len()
        invariant
            i <= keys.len(),
            entry_views(entries@) == entries_upto(
                map@,
                texts(keys@),
                opt_text(*path),
                i as nat,
            ),
            tracks_branches(structs_done@, texts(keys@), i as int),
        decreases keys.len() - i,
    {
        let ghost before = entry_views(entries@);
        match next_entry(map, keys, path, i, &mut structs_done) {
            Some(entry) => {
                let ghost view = entry@;
                entries.push(entry);
                assert(entry_views(entries@) =~= before.push(view));
            },
            None => {},
        }
        i += 1;
    }
    entries
}

/// The contents of a list of fields, position by position.
pub proof fn lemma_fields_view_index(fields: Seq<Field>)
    ensures
        fields_view(fields).len() == fields.len(),
        forall|i: int|
            0 <= i < fields.len() ==> #[trigger] fields_view(fields)[i] == (
                fields[i].name@,
                fields[i].value@,
            ),
    decreases fields.len(),
{
    if fields.len() > 0 {
        lemma_fields_view_index(fields.drop_last());
        assert forall|i: int| 0 <= i < fields.len() implies #[trigger] fields_view(fields)[i] == (
            fields[i].name@,
            fields[i].value@,
        ) by {
            if i < fields.len() - 1 {
                assert(fields.drop_last()[i] == fields[i]);
            }
        }
    }
}

/// The contents of a list of fields with one more at its end.
pub proof fn lemma_fields_push(fields: Seq<Field>, field: Field)
    ensures
        fields_view(fields.push(field)) == fields_view(fields).push((field.name@, field.value@)),
{
    assert(fields.push(field).drop_last() =~= fields);
}

/// One level decoded in full, from keys that are relative to `path`.
fn decode_level<'de>(map: &'de FlatMap, keys: &Vec<String>, path: &Option<String>) -> (r: Result<
    Vec<Field>,
    DecodeError,
>)
    ensures
        match r {
            Ok(fields) => tree_upto(map@, texts(keys@), opt_text(*path), keys.len() as nat) == Ok::<
                Seq<(Seq<char>, NodeView)>,
                DecodeErrorView,
            >(fields_view(fields@)),
            Err(e) => tree_upto(map@, texts(keys@), opt_text(*path), keys.len() as nat) == Err::<
                Seq<(Seq<char>, NodeView)>,
                DecodeErrorView,
            >(e@),
        },
    decreases longest(texts(keys@)),
{
    let ghost ks = texts(keys@);
    let ghost pv = opt_text(*path);
    let mut fields: Vec<Field> = Vec::new();
    let mut structs_done: Vec<String> = Vec::new();
    let mut i: usize = 0;
    while i < keys.len()
        invariant
            i <= keys.len(),
            ks == texts(keys@),
            pv == opt_text(*path),
            tree_upto(map@, ks, pv, i as nat) == Ok::<
                Seq<(Seq<char>, NodeView)>,
                DecodeErrorView,
            >(fields_view(fields@)),
            tracks_branches(structs_done@, ks, i as int),
        decreases keys.len() - i,
    {
        let ghost before = fields@;
        match next_entry(map, keys, path, i, &mut structs_done) {
            None => {},
            Some(entry) => {
                let Entry { name, value } = entry;
                let ghost key = ks[i as int];
                assert(name@ == branch_of(key));
                match value {
                    ValueDeserializer::Scalar(scalar) => {
                        let ScalarDeserializer { key: full, text } = scalar;
                        match deserialize_scalar(text.as_str()) {
                            Ok(s) => {
                                let field = Field { name, value: Node::Scalar(s) };
                                proof {
                                    lemma_fields_push(before, field);
                                }
                                fields.push(field);
                            },
                            Err(source) => {
                                let e = DecodeError::DeserializeScalar { key: full, source };
                                proof {
                                    lemma_tree_error_stays(
                                        map@,
                                        ks,
                                        pv,
                                        (i + 1) as nat,
                                        keys.len() as nat,
                                    );
                                }
                                return Err(e);
                            },
                        }
                    },
                    ValueDeserializer::Compound(compound) => {
                        let CompoundDeserializer { map: _, keys: sub, path: sub_path, nested: _ } =
                            compound;
                        proof {
                            lemma_branch_descends(ks, i as int);
                        }
                        match decode_level(map, &sub, &sub_path) {
                            Ok(children) => {
                                let field = Field { name, value: Node::Compound(children) };
                                proof {
                                    lemma_fields_push(before, field);
                                }
                                fields.push(field);
                            },
                            Err(e) => {
                                proof {
                                    lemma_tree_error_stays(
                                        map@,
                                        ks,
                                        pv,
                                        (i + 1) as nat,
                                        keys.len() as nat,
                                    );
                                }
                                return Err(e);
                            },
                        }
                    },
                }
            },
        }
        i += 1;
    }
    Ok(fields)
}

/// Once a key has failed, the keys after it do not change the error.
proof fn lemma_tree_error_stays(
    map: Map<Seq<char>, Seq<char>>,
    keys: Seq<Seq<char>>,
    path: Option<Seq<char>>,
    n: nat,
    m: nat,
)
    requires
        n <= m <= keys.len(),
        tree_upto(map, keys, path, n) is Err,
    ensures
        tree_upto(map, keys, path, m) == tree_upto(map, keys, path, n),
    decreases m - n,
{
    if n < m {
        lemma_tree_error_stays(map, keys, path, n, (m - 1) as nat);
    }
}

/// Every key without `prefix` and a separator at its start.
fn strip_keys(keys: &Vec<String>, prefix: &str) -> (stripped: Vec<String>)
    ensures
        texts(stripped@) == relative_keys(texts(keys@), prefix@),
{
    let mut dotted_prefix = String::from_str(prefix);
    dotted_prefix.push(KEY_SEPARATOR);
    let skip: usize = dotted_prefix.as_str().unicode_len();
    let mut stripped: Vec<String> = Vec::new();
    let mut i: usize = 0;
    while i < keys.len()
        invariant
            i <= keys.len(),
            dotted_prefix@ == dotted(prefix@),
            skip == dotted_prefix@.len(),
            stripped.len() == i,
            forall|j: int|
                0 <= j < i ==> (#[trigger] stripped@[j])@ == strip_prefix(
                    keys@[j]@,
                    dotted(prefix@),
                ),
        decreases keys.len() - i,
    {
        let key: &str = keys[i].as_str();
        if starts_with(key, dotted_prefix.as_str()) {
            stripped.push(tail_from(key, skip));
        } else {
            stripped.push(String::from_str(key));
        }
        i += 1;
    }
    assert(texts(stripped@) =~= relative_keys(texts(keys@), prefix@));
    stripped
}

impl<'de> CompoundDeserializer<'de> {
    /// A decoder at the root of `map`, which is to consider `keys`. With a
    /// `path`, the keys are read as standing below it.
    pub fn new(map: &'de FlatMap, keys: Vec<String>, path: Option<String>) -> (de:
        CompoundDeserializer<'de>)
        ensures
            de@ == (CompoundView {
                map: map@,
                keys: texts(keys@),
                path: opt_text(path),
                nested: false,
            }),
    {
        CompoundDeserializer { map, keys, path, nested: false }
    }

    /// Settles the root: finds the path, from the record's name if none
    /// was given, and makes the keys relative to it.
    fn settle(self, name: &str) -> (de: CompoundDeserializer<'de>)
        ensures
            de@ == rooted(self@, name@),
            de.map == self.map,
    {
        let CompoundDeserializer { map, keys, path, nested } = self;
        if nested {
            return CompoundDeserializer { map, keys, path, nested };
        }
        let path: Option<String> = match path {
            Some(p) => Some(p),
            None => if !name.is_empty() {
                Some(name.to_lowercase())
            } else {
                None
            },
        };
        match path {
            Some(p) => {
                let stripped = strip_keys(&keys, p.as_str());
                CompoundDeserializer { map, keys: stripped, path: Some(p), nested: true }
            },
            None => CompoundDeserializer { map, keys, path: None, nested: true },
        }
    }

    /// The entries of the record `name`: for each first segment among the
    /// keys a leaf or a nested value, in the order in which the segments
    /// first occur.
    ///
    /// At the root the record's name, in lowercase, is the path under which
    /// its fields stand, unless a path was given; that path is stripped from
    /// the keys. A nested record needs no name: the key that led to it gave
    /// the path.
    pub fn deserialize_struct(self, name: &str) -> (entries: Vec<Entry<'de>>)
        ensures
            entry_views(entries@) == struct_entries(self@, name@),
    {
        let de = self.settle(name);
        level(de.map, &de.keys, &de.path)
    }

    /// The entries of a mapping. A mapping has no name of its own, so the
    /// decoder must have a path: a given prefix at the root, or the path
    /// that led to a nested mapping.
    pub fn deserialize_map(self) -> (r: Result<Vec<Entry<'de>>, DecodeError>)
        ensures
            entries_result_view(r) == map_entries(self@),
    {
        match self.path {
            Some(_) => Ok(self.deserialize_struct("")),
            None => bad_root(),
        }
    }

    /// An optional nested value is present: keys led to it.
    pub fn deserialize_option(self) -> (r: Option<CompoundDeserializer<'de>>)
        ensures
            r == Some(self),
    {
        Some(self)
    }

    /// A nested value cannot be read as a leaf, nor can it stand at the
    /// root without a name.
    pub fn deserialize_any(self) -> (r: Result<Node, DecodeError>)
        ensures
            r is Err,
            r->Err_0@ == DecodeErrorView::BadRoot,
    {
        bad_root()
    }

    /// The record `name` decoded in full.
    pub fn decode_struct(self, name: &str) -> (r: Result<Node, DecodeError>)
        ensures
            result_view(r) == struct_tree(self@, name@),
    {
        let de = self.settle(name);
        match decode_level(de.map, &de.keys, &de.path) {
            Ok(fields) => Ok(Node::Compound(fields)),
            Err(e) => Err(e),
        }
    }

    /// A mapping decoded in full.
    pub fn decode_map(self) -> (r: Result<Node, DecodeError>)
        ensures
            result_view(r) == map_tree(self@),
    {
        match self.path {
            Some(_) => self.decode_struct(""),
            None => bad_root(),
        }
    }
}

/// The failure of a decoding that did not start at a named record or with a
/// prefix.
pub fn bad_root<T>() -> (r: Result<T, DecodeError>)
    ensures
        r is Err,
        r->Err_0@ == DecodeErrorView::BadRoot,
{
    Err(DecodeError::BadRoot)
}

impl<'de> ValueDeserializer<'de> {
    /// Decodes the value in full: a leaf by the scalar codec, a nested
    /// value as a mapping.
    pub fn deserialize_any(self) -> (r: Result<Node, DecodeError>)
        ensures
            result_view(r) == value_tree(self@),
    {
        match self {
            ValueDeserializer::Scalar(scalar) => {
                let ScalarDeserializer { key, text } = scalar;
                match deserialize_scalar(text.as_str()) {
                    Ok(s) => Ok(Node::Scalar(s)),
                    Err(source) => Err(DecodeError::DeserializeScalar { key, source }),
                }
            },
            ValueDeserializer::Compound(compound) => compound.decode_map(),
        }
    }

    /// Decodes the value as an optional one: a leaf that reads as null is
    /// absent; every other value is present.
    pub fn deserialize_option(self) -> (r: Result<Option<Node>, DecodeError>)
        ensures
            match r {
                Ok(Some(d)) => optional_tree(self@) == Ok::<Option<NodeView>, DecodeErrorView>(
                    Some(d@),
                ),
                Ok(None) => optional_tree(self@) == Ok::<Option<NodeView>, DecodeErrorView>(
                    None,
                ),
                Err(e) => optional_tree(self@) == Err::<Option<NodeView>, DecodeErrorView>(e@),
            },
    {
        match self.deserialize_any() {
            Ok(Node::Scalar(s)) => if s.is_null() {
                Ok(None)
            } else {
                Ok(Some(Node::Scalar(s)))
            },
            Ok(tree) => Ok(Some(tree)),
            Err(e) => Err(e),
        }
    }
}

} // verus!
