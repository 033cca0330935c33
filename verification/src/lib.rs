//! Bootstrap library for a tag-taxonomy service: a validating parser for
//! hierarchical dot-delimited tags, and the startup configuration logic
//! (argument shapes, JSON config interpretation, write-once commit, and the
//! static route table) that a thin server shell runs.
pub mod config;
pub mod json;
pub mod routes;
pub mod tags;
