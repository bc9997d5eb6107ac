//! Reading schema documents: YAML events, the tree that they build, and the
//! JSON value that the tree means.

pub mod convert;
pub mod events;
pub mod meaning;
pub mod reader;
pub mod tree;
