//! Parsing of the tabular text that `lsof` and `ps` print: header
//! validation, whitespace tokenization, positional column-to-field
//! mapping, pid/port filtering and listener/process cross-referencing.

pub mod cli;
pub mod lsof;
pub mod ps;
pub mod text;
