//! An idempotent structural patcher for small, hand-authored XML
//! configuration documents.
//!
//! The library parses an existing document into an ordered element tree,
//! locates a target container by tag and attribute, removes previously
//! inserted entries that collide with a semantic identity key, appends a
//! freshly built entry, and serializes the whole document again, leaving
//! every untouched sibling exactly as it was.  When no prior document
//! exists it synthesizes a minimal skeleton instead.

pub mod api;
pub mod chars;
pub mod escape;
pub mod identity;
pub mod laws;
pub mod merge;
pub mod outside;
pub mod parse;
pub mod patch;
pub mod payload;
pub mod roundtrip;
pub mod serialize;
pub mod tree;
