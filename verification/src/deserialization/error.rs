//! Errors of the structural decoder.

use vstd::prelude::*;

verus! {

/// Why a flat map could not be decoded.
#[derive(Debug)]
pub enum DecodeError {
    /// The target's own validation refused the data.
    Message { msg: String },
    /// The text stored under `key` is not well-formed for the scalar codec.
    DeserializeScalar { key: String, source: serde_json::Error },
    /// Decoding started at something other than a named record, and no
    /// prefix was given to anchor it.
    BadRoot,
}

/// The mathematical form of a [`DecodeError`].
pub enum DecodeErrorView {
    Message { msg: Seq<char> },
    DeserializeScalar { key: Seq<char> },
    BadRoot,
}

impl View for DecodeError {
    type V = DecodeErrorView;

    open spec fn view(&self) -> DecodeErrorView {
        match *self {
            DecodeError::Message { msg } => DecodeErrorView::Message { msg: msg@ },
            DecodeError::DeserializeScalar { key, source } => DecodeErrorView::DeserializeScalar {
                key: key@,
            },
            DecodeError::BadRoot => DecodeErrorView::BadRoot,
        }
    }
}

impl DecodeError {
    /// A short description of the error, for messages.
    pub open spec fn spec_message(&self) -> Seq<char> {
        match *self {
            DecodeError::Message { msg } => "Error during deserialization: "@ + msg@,
            DecodeError::DeserializeScalar { key, source } =>
                "Error deserializing scalar value of '"@ + key@ + "'"@,
            DecodeError::BadRoot =>
                "Data store deserializer must be used on a struct, or you must give a prefix"@,
        }
    }

    /// A short description of the error, for messages.
    pub fn message(&self) -> (text: String)
        ensures
            text@ == self.spec_message(),
    {
        match self {
            DecodeError::Message { msg } => String::from_str("Error during deserialization: ")
                .concat(msg.as_str()),
            DecodeError::DeserializeScalar { key, source } => String::from_str(
                "Error deserializing scalar value of '",
            ).concat(key.as_str()).concat("'"),
            DecodeError::BadRoot => String::from_str(
                "Data store deserializer must be used on a struct, or you must give a prefix",
            ),
        }
    }

    /// An error that carries the message of a validation that failed.
    pub fn custom(msg: &str) -> (e: DecodeError)
        ensures
            e@ == (DecodeErrorView::Message { msg: msg@ }),
    {
        DecodeError::Message { msg: String::from_str(msg) }
    }
}

} // verus!
