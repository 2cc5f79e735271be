//! Resolves machine-code addresses of a binary to decoded instructions and to
//! source locations, and exposes both as a queryable graph.

pub mod location;
pub mod line_table;
pub mod instruction;
pub mod adapter;
pub mod graph;
pub mod dwarf;
