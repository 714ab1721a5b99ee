//! A heuristic static-analysis engine for C/C++-like codebases.
//!
//! The crate locates lexical scopes with a single-pass bracket scan, extracts
//! program entities (classes, functions, objects, lambdas, call sites,
//! assignments, member-access chains) from raw text with per-language pattern
//! banks, resolves each file's imports to other project files, and builds a
//! cross-file symbol graph connecting every referenced type name to a
//! definition, a built-in primitive type, or an explicit unresolved marker.

pub mod bytes;
pub mod extract;
pub mod graph;
pub mod imports;
pub mod project;
pub mod lang;
pub mod laws;
pub mod rx;
pub mod scopes;
pub mod tags;
