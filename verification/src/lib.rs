//! A scanner for a small subset of C: it cuts a source text into words and
//! keeps the exact byte range of each.

pub mod encoding;
pub mod errors;
pub mod grammar;
pub mod scanner;
pub mod source_map;
