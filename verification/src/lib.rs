//! A lexical and syntactic front end for a small shell-like scripting
//! language.
//!
//! Raw source characters flow through a pull-based pipeline: a character
//! source feeds a two-mode scanner, whose token output feeds a
//! recursive-descent parser that builds a command tree.  Every stage is
//! specified against a mathematical model (sequences of characters, tokens
//! and tree nodes) and verified against that model.

pub mod util;
pub mod result;
pub mod scanner;
pub mod parser;
