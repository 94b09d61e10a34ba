//! The shape of a decoding's target, and the decoding of a flat map into a
//! value of that shape.
//!
//! A shape says what a value is to look like: which fields a record has,
//! which of them may be absent, what a mapping holds. Decoding first rebuilds
//! the nesting that the keys describe, and then holds it against the shape.

use vstd::prelude::*;
use crate::flat_map::FlatMap;
use super::error::{DecodeError, DecodeErrorView};
use super::pairs::{
    bad_root, fields_view, lemma_fields_push, lemma_fields_view_index, map_tree, result_view,
    struct_tree, CompoundDeserializer, CompoundView, Field, Node, NodeView,
};
use crate::text::opt_text;

verus! {

/// What a decoding is to produce.
#[derive(Debug)]
pub enum Shape {
    /// A single value, taken as the data give it.
    Scalar,
    /// A value that may be absent.
    Optional { inner: Box<Shape> },
    /// A record with a name and named fields.
    Record { name: String, fields: Vec<FieldShape> },
    /// A mapping from free keys to values of one shape.
    Mapping { values: Box<Shape> },
}

/// A field of a record: its name and the shape of its value.
#[derive(Debug)]
pub struct FieldShape {
    pub name: String,
    pub shape: Shape,
}

/// The message for a field of a record that the data do not hold.
pub open spec fn missing_field(name: Seq<char>) -> Seq<char> {
    "missing field `"@ + name + "`"@
}

/// The message for a field of a record that the data hold twice.
pub open spec fn duplicate_field(name: Seq<char>) -> Seq<char> {
    "duplicate field `"@ + name + "`"@
}

/// The position, from `k` on, of the first field called `name`.
pub open spec fn field_index_from(fields: Seq<FieldShape>, name: Seq<char>, k: int) -> Option<int>
    decreases fields.len() - k,
{
    if k < 0 || k >= fields.len() {
        None
    } else if fields[k].name@ == name {
        Some(k)
    } else {
        field_index_from(fields, name, k + 1)
    }
}

/// The position of the first field called `name`.
pub open spec fn field_index(fields: Seq<FieldShape>, name: Seq<char>) -> Option<int> {
    field_index_from(fields, name, 0)
}

/// Whether a shape lets its value be absent.
pub open spec fn is_optional(shape: Shape) -> bool {
    shape is Optional
}

/// A decoded value held against a shape.
///
/// A single value is taken as it is. An optional value is absent where the
/// data hold a null leaf, and present otherwise. A record takes its fields
/// from a nested value, and a mapping its entries; where the data hold a
/// leaf in their place, the leaf is handed on as it is.
pub open spec fn conformed(shape: Shape, raw: NodeView) -> Result<NodeView, DecodeErrorView>
    decreases shape, 0nat,
{
    match shape {
        Shape::Scalar => Ok(raw),
        Shape::Optional { inner } => match raw {
            NodeView::Scalar(s) if s.spec_is_null() => Ok(NodeView::Absent),
            _ => match conformed(*inner, raw) {
                Ok(value) => Ok(NodeView::Present(Box::new(value))),
                Err(e) => Err(e),
            },
        },
        Shape::Record { name, fields } => match raw {
            NodeView::Compound(entries) => match slots_upto(fields@, entries, entries.len()) {
                Ok(slots) => match record_upto(fields@, slots, fields@.len()) {
                    Ok(parts) => Ok(NodeView::Compound(parts)),
                    Err(e) => Err(e),
                },
                Err(e) => Err(e),
            },
            _ => Ok(raw),
        },
        Shape::Mapping { values } => match raw {
            NodeView::Compound(entries) => match mapping_upto(*values, entries, entries.len()) {
                Ok(parts) => Ok(NodeView::Compound(parts)),
                Err(e) => Err(e),
            },
            _ => Ok(raw),
        },
    }
}

/// The values found for the fields of a record among the first `n` entries
/// of the data, one slot for each field. An entry that names no field is
/// passed over; one that names a field whose slot is taken is an error.
pub open spec fn slots_upto(
    fields: Seq<FieldShape>,
    entries: Seq<(Seq<char>, NodeView)>,
    n: nat,
) -> Result<Seq<Option<NodeView>>, DecodeErrorView>
    decreases fields, n,
{
    if n == 0 || n > entries.len() {
        Ok(Seq::new(fields.len(), |k: int| None))
    } else {
        match slots_upto(fields, entries, (n - 1) as nat) {
            Err(e) => Err(e),
            Ok(slots) => {
                let (name, raw) = entries[n - 1];
                match field_index(fields, name) {
                    None => Ok(slots),
                    Some(k) => if 0 <= k < fields.len() && k < slots.len() {
                        if slots[k] is Some {
                            Err(DecodeErrorView::Message { msg: duplicate_field(name) })
                        } else {
                            match conformed(fields[k].shape, raw) {
                                Ok(value) => Ok(slots.update(k, Some(value))),
                                Err(e) => Err(e),
                            }
                        }
                    } else {
                        Ok(slots)
                    },
                }
            },
        }
    }
}

/// The first `k` fields of a record with their values. A field without a
/// value is absent if its shape allows that, and an error otherwise.
pub open spec fn record_upto(
    fields: Seq<FieldShape>,
    slots: Seq<Option<NodeView>>,
    k: nat,
) -> Result<Seq<(Seq<char>, NodeView)>, DecodeErrorView>
    decreases k,
{
    if k == 0 || k > fields.len() || k > slots.len() {
        Ok(Seq::empty())
    } else {
        match record_upto(fields, slots, (k - 1) as nat) {
            Err(e) => Err(e),
            Ok(parts) => {
                let name = fields[k - 1].name@;
                match slots[k - 1] {
                    Some(value) => Ok(parts.push((name, value))),
                    None => if is_optional(fields[k - 1].shape) {
                        Ok(parts.push((name, NodeView::Absent)))
                    } else {
                        Err(DecodeErrorView::Message { msg: missing_field(name) })
                    },
                }
            },
        }
    }
}

/// The first `n` entries of a mapping, each value held against the shape
/// of the mapping's values.
pub open spec fn mapping_upto(
    values: Shape,
    entries: Seq<(Seq<char>, NodeView)>,
    n: nat,
) -> Result<Seq<(Seq<char>, NodeView)>, DecodeErrorView>
    decreases values, n + 1,
{
    if n == 0 || n > entries.len() {
        Ok(Seq::empty())
    } else {
        match mapping_upto(values, entries, (n - 1) as nat) {
            Err(e) => Err(e),
            Ok(parts) => {
                let (name, raw) = entries[n - 1];
                match conformed(values, raw) {
                    Ok(value) => Ok(parts.push((name, value))),
                    Err(e) => Err(e),
                }
            },
        }
    }
}

/// Once an entry has failed, the entries after it do not change the error.
proof fn lemma_slots_error_stays(
    fields: Seq<FieldShape>,
    entries: Seq<(Seq<char>, NodeView)>,
    n: nat,
    m: nat,
)
    requires
        n <= m <= entries.len(),
        slots_upto(fields, entries, n) is Err,
    ensures
        slots_upto(fields, entries, m) == slots_upto(fields, entries, n),
    decreases m - n,
{
    if n < m {
        lemma_slots_error_stays(fields, entries, n, (m - 1) as nat);
    }
}

/// Once a field has failed, the fields after it do not change the error.
proof fn lemma_record_error_stays(
    fields: Seq<FieldShape>,
    slots: Seq<Option<NodeView>>,
    k: nat,
    m: nat,
)
    requires
        k <= m <= fields.len(),
        m <= slots.len(),
        record_upto(fields, slots, k) is Err,
    ensures
        record_upto(fields, slots, m) == record_upto(fields, slots, k),
    decreases m - k,
{
    if k < m {
        lemma_record_error_stays(fields, slots, k, (m - 1) as nat);
    }
}

/// Once an entry has failed, the entries after it do not change the error.
proof fn lemma_mapping_error_stays(
    values: Shape,
    entries: Seq<(Seq<char>, NodeView)>,
    n: nat,
    m: nat,
)
    requires
        n <= m <= entries.len(),
        mapping_upto(values, entries, n) is Err,
    ensures
        mapping_upto(values, entries, m) == mapping_upto(values, entries, n),
    decreases m - n,
{
    if n < m {
        lemma_mapping_error_stays(values, entries, n, (m - 1) as nat);
    }
}

/// The position that `field_index_from` finds is that of a field called
/// `name`.
proof fn lemma_field_index(fields: Seq<FieldShape>, name: Seq<char>, k: int)
    requires
        0 <= k,
    ensures
        match field_index_from(fields, name, k) {
            Some(j) => k <= j < fields.len() && fields[j].name@ == name,
            None => true,
        },
    decreases fields.len() - k,
{
    if k < fields.len() && fields[k].name@ != name {
        lemma_field_index(fields, name, k + 1);
    }
}

/// The slot of a field that no entry names stays empty.
proof fn lemma_slot_stays_empty(
    fields: Seq<FieldShape>,
    entries: Seq<(Seq<char>, NodeView)>,
    n: nat,
    k: int,
)
    requires
        0 <= k < fields.len(),
        n <= entries.len(),
        forall|i: int| 0 <= i < entries.len() ==> (#[trigger] entries[i]).0 != fields[k].name@,
        slots_upto(fields, entries, n) is Ok,
    ensures
        slots_upto(fields, entries, n)->Ok_0.len() == fields.len(),
        slots_upto(fields, entries, n)->Ok_0[k] is None,
    decreases n,
{
    if n > 0 {
        lemma_slot_stays_empty(fields, entries, (n - 1) as nat, k);
        lemma_field_index(fields, entries[n - 1].0, 0);
    }
}

/// The parts of a record stand in the order of its fields, each with the
/// value of its slot, or absent where the slot is empty.
proof fn lemma_record_part(
    fields: Seq<FieldShape>,
    slots: Seq<Option<NodeView>>,
    m: nat,
    k: int,
)
    requires
        0 <= k < m <= fields.len(),
        m <= slots.len(),
        record_upto(fields, slots, m) is Ok,
    ensures
        record_upto(fields, slots, m)->Ok_0.len() == m,
        record_upto(fields, slots, m)->Ok_0[k] == (
            fields[k].name@,
            match slots[k] {
                Some(value) => value,
                None => NodeView::Absent,
            },
        ),
    decreases m,
{
    lemma_record_len(fields, slots, m);
    if k < m - 1 {
        lemma_record_part(fields, slots, (m - 1) as nat, k);
    } else {
        lemma_record_len(fields, slots, (m - 1) as nat);
    }
}

/// A record has one part for each of its fields.
proof fn lemma_record_len(fields: Seq<FieldShape>, slots: Seq<Option<NodeView>>, m: nat)
    requires
        m <= fields.len(),
        m <= slots.len(),
        record_upto(fields, slots, m) is Ok,
    ensures
        record_upto(fields, slots, m)->Ok_0.len() == m,
    decreases m,
{
    if m > 0 {
        lemma_record_len(fields, slots, (m - 1) as nat);
    }
}

/// An optional field of a record for which the data hold no entry is
/// absent in the decoded record, at the field's place.
pub proof fn lemma_absent_optional_field(
    shape: Shape,
    entries: Seq<(Seq<char>, NodeView)>,
    k: int,
)
    requires
        shape is Record,
        0 <= k < shape->fields@.len(),
        is_optional(shape->fields@[k].shape),
        forall|i: int|
            0 <= i < entries.len() ==> (#[trigger] entries[i]).0 != shape->fields@[k].name@,
        conformed(shape, NodeView::Compound(entries)) is Ok,
    ensures
        conformed(shape, NodeView::Compound(entries))->Ok_0 is Compound,
        conformed(shape, NodeView::Compound(entries))->Ok_0->Compound_0.len()
            == shape->fields@.len(),
        conformed(shape, NodeView::Compound(entries))->Ok_0->Compound_0[k] == (
            shape->fields@[k].name@,
            NodeView::Absent,
        ),
{
    let fields = shape->fields@;
    lemma_slot_stays_empty(fields, entries, entries.len(), k);
    let slots = slots_upto(fields, entries, entries.len())->Ok_0;
    lemma_record_part(fields, slots, fields.len(), k);
}

/// The contents of a list of slots.
pub open spec fn slot_views(slots: Seq<Option<Node>>) -> Seq<Option<NodeView>> {
    Seq::new(
        slots.len(),
        |k: int|
            match slots[k] {
                Some(d) => Some(d@),
                None => None,
            },
    )
}

/// The position of the first field called `name`.
fn find_field(fields: &Vec<FieldShape>, name: &String) -> (r: Option<usize>)
    ensures
        match r {
            Some(k) => k < fields.len() && field_index(fields@, name@) == Some(k as int),
            None => field_index(fields@, name@).is_none(),
        },
{
    let mut k: usize = 0;
    while k < fields.len()
        invariant
            k <= fields.len(),
            field_index(fields@, name@) == field_index_from(fields@, name@, k as int),
        decreases fields.len() - k,
    {
        if fields[k].name == *name {
            return Some(k);
        }
        k += 1;
    }
    None
}

/// The message for a field of a record that the data do not hold.
fn missing_field_message(name: &str) -> (msg: String)
    ensures
        msg@ == missing_field(name@),
{
    String::from_str("missing field `").concat(name).concat("`")
}

/// The message for a field of a record that the data hold twice.
fn duplicate_field_message(name: &str) -> (msg: String)
    ensures
        msg@ == duplicate_field(name@),
{
    String::from_str("duplicate field `").concat(name).concat("`")
}

/// The fields of a record, from the entries of a nested value.
fn conform_record(fields: &Vec<FieldShape>, entries: Vec<Field>) -> (r: Result<
    Node,
    DecodeError,
>)
    ensures
        result_view(r) == match slots_upto(
            fields@,
            fields_view(entries@),
            fields_view(entries@).len(),
        ) {
            Ok(slots) => match record_upto(fields@, slots, fields@.len()) {
                Ok(parts) => Ok(NodeView::Compound(parts)),
                Err(e) => Err(e),
            },
            Err(e) => Err(e),
        },
    decreases fields, 1nat,
{
    let ghost all = entries@;
    let ghost raw = fields_view(all);
    proof {
        lemma_fields_view_index(all);
    }
    let mut slots: Vec<Option<Node>> = Vec::new();
    while slots.len() < fields.len()
        invariant
            slots.len() <= fields.len(),
            forall|k: int| 0 <= k < slots.len() ==> slots@[k] is None,
        decreases fields.len() - slots.len(),
    {
        slots.push(None);
    }
    assert(slot_views(slots@) =~= Seq::new(fields@.len(), |k: int| None::<NodeView>));
    for entry in it: entries
        invariant
            it.seq() == all,
            raw == fields_view(all),
            raw.len() == all.len(),
            forall|i: int|
                0 <= i < all.len() ==> #[trigger] raw[i] == (all[i].name@, all[i].value@),
            slots.len() == fields.len(),
            slots_upto(fields@, raw, it.index() as nat) == Ok::<
                Seq<Option<NodeView>>,
                DecodeErrorView,
            >(slot_views(slots@)),
    {
        let ghost n = it.index();
        let ghost before = slot_views(slots@);
        assert(raw[n] == (all[n].name@, all[n].value@));
        let Field { name, value } = entry;
        match find_field(fields, &name) {
            None => {},
            Some(k) => {
                if slots[k].is_some() {
                    let e = DecodeError::Message { msg: duplicate_field_message(name.as_str()) };
                    proof {
                        assert(before[k as int] is Some);
                        lemma_slots_error_stays(fields@, raw, (n + 1) as nat, raw.len());
                    }
                    return Err(e);
                }
                assert(before[k as int] is None);
                match fields[k].shape.conform(value) {
                    Ok(v) => {
                        let ghost view = v@;
                        slots[k] = Some(v);
                        assert(slot_views(slots@) =~= before.update(k as int, Some(view)));
                    },
                    Err(e) => {
                        proof {
                            lemma_slots_error_stays(fields@, raw, (n + 1) as nat, raw.len());
                        }
                        return Err(e);
                    },
                }
            },
        }
    }
    let ghost found = slot_views(slots@);
    let ghost all_slots = slots@;
    let mut parts: Vec<Field> = Vec::new();
    for slot in it: slots
        invariant
            it.seq() == all_slots,
            found == slot_views(all_slots),
            all_slots.len() == fields.len(),
            parts.len() == it.index(),
            raw == fields_view(all),
            all == entries@,
            slots_upto(fields@, raw, raw.len()) == Ok::<Seq<Option<NodeView>>, DecodeErrorView>(
                found,
            ),
            record_upto(fields@, found, it.index() as nat) == Ok::<
                Seq<(Seq<char>, NodeView)>,
                DecodeErrorView,
            >(fields_view(parts@)),
    {
        let ghost k = it.index();
        let ghost before = parts@;
        assert(found[k] == match all_slots[k] {
            Some(d) => Some(d@),
            None => None,
        });
        let position: usize = parts.len();
        let shape: &FieldShape = &fields[position];
        match slot {
            Some(value) => {
                let field = Field { name: shape.name.clone(), value };
                proof {
                    lemma_fields_push(before, field);
                }
                parts.push(field);
            },
            None => {
                if shape.shape.is_optional() {
                    let field = Field { name: shape.name.clone(), value: Node::Absent };
                    proof {
                        lemma_fields_push(before, field);
                    }
                    parts.push(field);
                } else {
                    let e = DecodeError::Message {
                        msg: missing_field_message(shape.name.as_str()),
                    };
                    proof {
                        assert(record_upto(fields@, found, (k + 1) as nat) is Err);
                        lemma_record_error_stays(fields@, found, (k + 1) as nat, fields@.len());
                    }
                    return Err(e);
                }
            },
        }
    }
    Ok(Node::Compound(parts))
}

/// The entries of a mapping, from the entries of a nested value.
fn conform_mapping(values: &Shape, entries: Vec<Field>) -> (r: Result<Node, DecodeError>)
    ensures
        result_view(r) == match mapping_upto(
            *values,
            fields_view(entries@),
            fields_view(entries@).len(),
        ) {
            Ok(parts) => Ok(NodeView::Compound(parts)),
            Err(e) => Err(e),
        },
    decreases values, 1nat,
{
    let ghost all = entries@;
    let ghost raw = fields_view(all);
    proof {
        lemma_fields_view_index(all);
    }
    let mut parts: Vec<Field> = Vec::new();
    for entry in it: entries
        invariant
            it.seq() == all,
            raw == fields_view(all),
            raw.len() == all.len(),
            forall|i: int|
                0 <= i < all.len() ==> #[trigger] raw[i] == (all[i].name@, all[i].value@),
            mapping_upto(*values, raw, it.index() as nat) == Ok::<
                Seq<(Seq<char>, NodeView)>,
                DecodeErrorView,
            >(fields_view(parts@)),
    {
        let ghost n = it.index();
        let ghost before = parts@;
        assert(raw[n] == (all[n].name@, all[n].value@));
        let Field { name, value } = entry;
        match values.conform(value) {
            Ok(v) => {
                let field = Field { name, value: v };
                proof {
                    lemma_fields_push(before, field);
                }
                parts.push(field);
            },
            Err(e) => {
                proof {
                    lemma_mapping_error_stays(*values, raw, (n + 1) as nat, raw.len());
                }
                return Err(e);
            },
        }
    }
    Ok(Node::Compound(parts))
}

impl Shape {
    /// Whether the shape lets its value be absent.
    pub fn is_optional(&self) -> (b: bool)
        ensures
            b == is_optional(*self),
    {
        match self {
            Shape::Optional { .. } => true,
            _ => false,
        }
    }

    /// Holds a decoded value against the shape: fills in the optional
    /// fields that the data do not hold, and refuses a record of which the
    /// data lack a field or hold one twice.
    pub fn conform(&self, raw: Node) -> (r: Result<Node, DecodeError>)
        ensures
            result_view(r) == conformed(*self, raw@),
        decreases self, 0nat,
    {
        match self {
            Shape::Scalar => Ok(raw),
            Shape::Optional { inner } => {
                let null: bool = match &raw {
                    Node::Scalar(s) => s.is_null(),
                    _ => false,
                };
                if null {
                    Ok(Node::Absent)
                } else {
                    match inner.conform(raw) {
                        Ok(value) => Ok(Node::Present(Box::new(value))),
                        Err(e) => Err(e),
                    }
                }
            },
            Shape::Record { name, fields } => match raw {
                Node::Compound(entries) => conform_record(fields, entries),
                other => Ok(other),
            },
            Shape::Mapping { values } => match raw {
                Node::Compound(entries) => conform_mapping(values, entries),
                other => Ok(other),
            },
        }
    }
}

/// What the decoder `de` produces at the root for a target of the given
/// shape. A record is decoded under its name, a mapping under the path that
/// was given, and the nested value that comes of it is held against the
/// shape. An optional value at the root is present. A single value cannot
/// stand at the root.
pub open spec fn root_tree(de: CompoundView, shape: Shape) -> Result<NodeView, DecodeErrorView>
    decreases shape,
{
    match shape {
        Shape::Record { name, fields } => match struct_tree(de, name@) {
            Ok(raw) => conformed(shape, raw),
            Err(e) => Err(e),
        },
        Shape::Mapping { values } => match map_tree(de) {
            Ok(raw) => conformed(shape, raw),
            Err(e) => Err(e),
        },
        Shape::Optional { inner } => match root_tree(de, *inner) {
            Ok(value) => Ok(NodeView::Present(Box::new(value))),
            Err(e) => Err(e),
        },
        Shape::Scalar => Err(DecodeErrorView::BadRoot),
    }
}

/// The decoder that stands at the root of `map` and considers all its keys.
pub open spec fn root_of(map: &FlatMap, prefix: Option<Seq<char>>) -> CompoundView {
    CompoundView { map: map@, keys: map.keys(), path: prefix, nested: false }
}

/// A mapping cannot be decoded at the root without a prefix, whatever the
/// flat map holds.
pub proof fn lemma_mapping_needs_prefix(map: &FlatMap, values: Box<Shape>)
    ensures
        root_tree(root_of(map, None), Shape::Mapping { values }) == Err::<
            NodeView,
            DecodeErrorView,
        >(DecodeErrorView::BadRoot),
{
}

/// Decodes at the root for a target of the given shape.
fn decode_root<'de>(de: CompoundDeserializer<'de>, shape: &Shape) -> (r: Result<
    Node,
    DecodeError,
>)
    ensures
        result_view(r) == root_tree(de@, *shape),
    decreases shape,
{
    match shape {
        Shape::Record { name, fields } => match de.decode_struct(name.as_str()) {
            Ok(raw) => shape.conform(raw),
            Err(e) => Err(e),
        },
        Shape::Mapping { values } => match de.decode_map() {
            Ok(raw) => shape.conform(raw),
            Err(e) => Err(e),
        },
        Shape::Optional { inner } => match de.deserialize_option() {
            Some(de) => match decode_root(de, inner) {
                Ok(value) => Ok(Node::Present(Box::new(value))),
                Err(e) => Err(e),
            },
            None => bad_root(),
        },
        Shape::Scalar => de.deserialize_any(),
    }
}

/// Decodes the flat `map` into a value of the given shape.
///
/// The shape is a record as a rule: its name, in lowercase, is the first
/// segment of the keys that belong to it.
pub fn from_map(shape: &Shape, map: &FlatMap) -> (r: Result<Node, DecodeError>)
    ensures
        result_view(r) == root_tree(root_of(map, None), *shape),
{
    let de = CompoundDeserializer::new(map, map.key_list(), None);
    decode_root(de, shape)
}

/// Decodes the flat `map` into a value of the given shape, whose keys stand
/// below `prefix`. This is the way to decode a mapping, which has no name
/// from which a prefix could be taken. The separator after the prefix is
/// stripped with it.
pub fn from_map_with_prefix(shape: &Shape, prefix: Option<String>, map: &FlatMap) -> (r: Result<
    Node,
    DecodeError,
>)
    ensures
        result_view(r) == root_tree(root_of(map, opt_text(prefix)), *shape),
{
    let de = CompoundDeserializer::new(map, map.key_list(), prefix);
    decode_root(de, shape)
}

} // verus!
