//! Audit data for the use of `unsafe` across a dependency graph.
//!
//! The crate holds the scanning, aggregation, graph and rendering logic as
//! functions from plain values to plain values; reading files, running the
//! build and printing are left to the caller.

pub mod aggregate;
pub mod counters;
pub mod dep_info;
pub mod builder;
pub mod files;
pub mod graph;
pub mod introspect;
pub mod options;
pub mod package;
pub mod raw;
pub mod render;
pub mod report;
pub mod scan;
pub mod syntax;
pub mod text;
pub mod traversal;
pub mod tree;
pub mod used;
