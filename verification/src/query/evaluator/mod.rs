//! The evaluator: runs a query tree over a document.
pub mod aggregating;
pub mod calling;
pub mod compare;
pub mod comparing;
pub mod counts;
pub mod fingerprint;
pub mod functions;
pub mod groups;
pub mod indexed;
pub mod joining;
pub mod laws;
pub mod lookups;
pub mod model;
pub mod pieces;
pub mod reaching;
pub mod reducing;
pub mod render;
pub mod results;
pub mod scan;
pub mod search;
pub mod sorting;
pub mod semantics;
pub mod spans;
pub mod stream;
pub mod tally;
pub mod walk;
pub mod queries;
