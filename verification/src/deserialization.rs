//! The structural decoder: from the flat dotted-key form of the store back to
//! nested values.

pub mod error;
pub mod pairs;
pub mod shape;
