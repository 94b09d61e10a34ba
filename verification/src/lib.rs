//! A hierarchical settings datastore.
//!
//! Values are addressed by dotted keys, staged as pending and promoted to live
//! by a commit, and may carry metadata that is inherited along the key
//! hierarchy. A structural decoder rebuilds nested values from the flat
//! dotted-key form, and a scalar codec gives every leaf a JSON text form.

pub mod builder;
pub mod datastore;
pub mod decoded;
pub mod deserialization;
pub mod error;
pub mod filesystem;
pub mod flat_map;
pub mod infra;
pub mod key;
pub mod manifest;
pub mod memory;
pub mod scalar;
pub mod text;
