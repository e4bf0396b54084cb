//! Big-JSON engine: a streaming parser and offset index for very large
//! JSON files, with a query language on top.
//!
//! # Index model
//!
//! A JSON file is indexed into a flat, pre-order array of
//! [`document::NodeRecord`]s. Records are emitted only for containers and
//! for strings whose source span reaches
//! [`document::FAT_STRING_THRESHOLD`]; smaller primitives live only in the
//! source bytes and are found again by scanning their parent.
//!
//! Two invariants carry the rest of the engine:
//!
//! 1. Pre-order layout: the descendants of record `k` occupy exactly the
//!    ids `k + 1 .. k + subtree_size`.
//! 2. Interleaving: a container's children are its record-bearing children
//!    and its primitives, met in source order.

pub mod browse;
pub mod children;
pub mod cli;
pub mod container_scan;
pub mod document;
pub mod error;
pub mod interleaving;
pub mod json;
pub mod layout;
pub mod node;
pub mod opening;
pub mod parser;
pub mod path;
pub mod progress;
pub mod projection;
pub mod query;
pub mod render;
pub mod session;
pub mod sidecar;
pub mod source_scan;
pub mod table;
pub mod text;
