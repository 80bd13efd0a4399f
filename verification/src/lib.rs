//! A small path-query language for addressing and mutating values inside a
//! hierarchical document made of tables (string-keyed mappings), arrays
//! (ordered sequences) and scalars.
//!
//! A caller addresses one location in the document with a single string such
//! as `"a.b.[2].c"`. The string is tokenized into navigation steps, the steps
//! are resolved against the tree, and one of four operations — get, insert,
//! set, delete — is applied at the final step.

pub mod delete;
pub mod error;
pub mod get;
pub mod insert;
pub mod laws;
pub mod model;
pub mod resolver;
pub mod set;
pub mod tokenizer;
pub mod tree;
pub mod views;
