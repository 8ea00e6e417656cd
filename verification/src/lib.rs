//! A verified tabular-text processing library.
//!
//! The library parses delimited text into an in-memory table of named
//! columns, projects the table onto a fixed ordered list of required
//! columns, normalizes one text field by stripping a set of characters,
//! and serializes the result back to delimited text.  Every step carries
//! a contract relating its output to a mathematical model of the input.

pub mod errors;
pub mod laws;
pub mod paths;
pub mod pipeline;
pub mod reader;
pub mod table;
pub mod text;
pub mod transform;
pub mod writer;
