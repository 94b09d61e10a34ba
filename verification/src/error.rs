//! Errors of the datastore.

use vstd::prelude::*;

verus! {

/// What can go wrong when a key is built or mapped to a place in the store.
#[derive(Debug)]
pub enum StoreError {
    /// The name does not have the form of a key of the requested kind.
    InvalidKey { name: String },
    /// The path built for a key is not strictly below the store's base path.
    PathTraversal { name: String },
    /// The store on disk is not in a state that the datastore could have left.
    Corruption { msg: String, path: String },
    /// A condition that the datastore's own logic should have excluded.
    Internal { msg: String },
    /// Reading or writing at `path` failed.
    Io { path: String, reason: String },
    /// The value of `key` could not be read.
    KeyRead { key: String, reason: String },
    /// The keys of the store could not be listed.
    ListKeys { reason: String },
    /// A path that was found in the store does not lie below the store's
    /// base path.
    Path { path: String, base: String },
}

/// The mathematical form of an [`StoreError`].
pub enum StoreErrorView {
    InvalidKey { name: Seq<char> },
    PathTraversal { name: Seq<char> },
    Corruption { msg: Seq<char>, path: Seq<char> },
    Internal { msg: Seq<char> },
    Io { path: Seq<char>, reason: Seq<char> },
    KeyRead { key: Seq<char>, reason: Seq<char> },
    ListKeys { reason: Seq<char> },
    Path { path: Seq<char>, base: Seq<char> },
}

impl View for StoreError {
    type V = StoreErrorView;

    open spec fn view(&self) -> StoreErrorView {
        match *self {
            StoreError::InvalidKey { name } => StoreErrorView::InvalidKey { name: name@ },
            StoreError::PathTraversal { name } => StoreErrorView::PathTraversal { name: name@ },
            StoreError::Corruption { msg, path } => StoreErrorView::Corruption {
                msg: msg@,
                path: path@,
            },
            StoreError::Internal { msg } => StoreErrorView::Internal { msg: msg@ },
            StoreError::Io { path, reason } => StoreErrorView::Io { path: path@, reason: reason@ },
            StoreError::KeyRead { key, reason } => StoreErrorView::KeyRead {
                key: key@,
                reason: reason@,
            },
            StoreError::ListKeys { reason } => StoreErrorView::ListKeys { reason: reason@ },
            StoreError::Path { path, base } => StoreErrorView::Path { path: path@, base: base@ },
        }
    }
}

impl StoreError {
    /// A short description of the error, for messages.
    pub fn message(&self) -> (text: String)
        ensures
            text@ == self.spec_message(),
    {
        match self {
            StoreError::InvalidKey { name } => String::from_str("Key name is invalid: ").concat(
                name.as_str(),
            ),
            StoreError::PathTraversal { name } => String::from_str(
                "Key would traverse outside data store: ",
            ).concat(name.as_str()),
            StoreError::Corruption { msg, path } => String::from_str(
                "Data store integrity violation at ",
            ).concat(path.as_str()).concat(": ").concat(msg.as_str()),
            StoreError::Internal { msg } => String::from_str("Data store logic error: ").concat(
                msg.as_str(),
            ),
            StoreError::Io { path, reason } => String::from_str("IO error on '").concat(
                path.as_str(),
            ).concat("': ").concat(reason.as_str()),
            StoreError::KeyRead { key, reason } => String::from_str("Reading key '").concat(
                key.as_str(),
            ).concat("' failed: ").concat(reason.as_str()),
            StoreError::ListKeys { reason } => String::from_str("Error listing datastore keys: ")
                .concat(reason.as_str()),
            StoreError::Path { path, base } => String::from_str("Listed key path '").concat(
                path.as_str(),
            ).concat("' not in data store '").concat(base.as_str()).concat("'"),
        }
    }

    /// The text that [`StoreError::message`] returns.
    pub open spec fn spec_message(&self) -> Seq<char> {
        match *self {
            StoreError::InvalidKey { name } => "Key name is invalid: "@ + name@,
            StoreError::PathTraversal { name } => "Key would traverse outside data store: "@
                + name@,
            StoreError::Corruption { msg, path } => "Data store integrity violation at "@ + path@
                + ": "@ + msg@,
            StoreError::Internal { msg } => "Data store logic error: "@ + msg@,
            StoreError::Io { path, reason } => "IO error on '"@ + path@ + "': "@ + reason@,
            StoreError::KeyRead { key, reason } => "Reading key '"@ + key@ + "' failed: "@
                + reason@,
            StoreError::ListKeys { reason } => "Error listing datastore keys: "@ + reason@,
            StoreError::Path { path, base } => "Listed key path '"@ + path@
                + "' not in data store '"@ + base@ + "'"@,
        }
    }
}

} // verus!
