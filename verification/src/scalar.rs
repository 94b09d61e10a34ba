//! The scalar codec: every leaf value of the store is kept as JSON text, so
//! that its type survives the trip through a plain string.

use vstd::prelude::*;

verus! {

/// A JSON value, as `serde_json` holds it.
#[verifier::external_type_specification]
#[verifier::external_body]
pub struct ExValue(serde_json::Value);

/// The error that `serde_json` reports.
#[verifier::external_type_specification]
#[verifier::external_body]
pub struct ExScalarError(serde_json::Error);

/// The error of the scalar codec.
pub type ScalarError = serde_json::Error;

/// What sort of JSON value a scalar is.
#[derive(Debug, Clone, Copy, PartialEq, Eq, Structural)]
pub enum ScalarKind {
    Null,
    Bool,
    Number,
    Text,
    Sequence,
    Object,
}

/// A decoded leaf value together with its sort.
#[derive(Debug)]
pub struct Scalar {
    kind: ScalarKind,
    value: serde_json::Value,
}

/// What the codec reads from `text`: the scalar, or `None` where `text` is
/// not well-formed JSON.
pub uninterp spec fn scalar_of(text: Seq<char>) -> Option<Scalar>;

/// What the codec writes for `scalar`: its JSON text, or `None` where it
/// cannot be written.
pub uninterp spec fn text_of(scalar: Scalar) -> Option<Seq<char>>;

impl Scalar {
    /// The sort of the value.
    pub closed spec fn spec_kind(&self) -> ScalarKind {
        self.kind
    }

    /// The decoded value.
    pub closed spec fn spec_value(&self) -> serde_json::Value {
        self.value
    }

    /// Whether the value is JSON `null`, which stands for an absent option.
    pub open spec fn spec_is_null(&self) -> bool {
        self.spec_kind() == ScalarKind::Null
    }

    /// The sort of the value.
    pub fn kind(&self) -> (k: ScalarKind)
        ensures
            k == self.spec_kind(),
    {
        self.kind
    }

    /// Whether the value is JSON `null`, which stands for an absent option.
    pub fn is_null(&self) -> (b: bool)
        ensures
            b == self.spec_is_null(),
    {
        self.kind == ScalarKind::Null
    }

    /// The decoded value.
    pub fn value(&self) -> (value: &serde_json::Value)
        ensures
            *value == self.spec_value(),
    {
        &self.value
    }
}

/// Reads a scalar from its JSON text with `serde_json::from_str`, and sorts
/// the value by its variant. The result is the one that `scalar_of` names:
/// the same text always reads as the same scalar, and fails to read exactly
/// where `scalar_of` is `None`.
#[verifier::external_body]
pub fn deserialize_scalar(scalar: &str) -> (r: Result<Scalar, ScalarError>)
    ensures
        match r {
            Ok(s) => scalar_of(scalar@) == Some(s),
            Err(_) => scalar_of(scalar@).is_none(),
        },
{
    let value = serde_json::from_str::<serde_json::Value>(scalar)?;
    let kind = match &value {
        serde_json::Value::Null => ScalarKind::Null,
        serde_json::Value::Bool(_) => ScalarKind::Bool,
        serde_json::Value::Number(_) => ScalarKind::Number,
        serde_json::Value::String(_) => ScalarKind::Text,
        serde_json::Value::Array(_) => ScalarKind::Sequence,
        serde_json::Value::Object(_) => ScalarKind::Object,
    };
    Ok(Scalar { kind, value })
}

/// Writes a scalar as JSON text with `serde_json::to_string`. The result is
/// the one that `text_of` names: the same scalar always gives the same text.
#[verifier::external_body]
pub fn serialize_scalar(scalar: &Scalar) -> (r: Result<String, ScalarError>)
    ensures
        match r {
            Ok(text) => text_of(*scalar) == Some(text@),
            Err(_) => text_of(*scalar).is_none(),
        },
{
    serde_json::to_string(&scalar.value)
}

} // verus!
