//! A CSS front end: a priority-ordered tokenizer and a predictive
//! recursive-descent parser that builds a typed syntax tree.
//!
//! - `tokens`: token kinds and tokens.
//! - `tokenizer`: the lexical patterns, stated as spec functions, and the
//!   scanner that follows them.
//! - `node`: the syntax tree and its mathematical model.
//! - `grammar`: the grammar, stated over positions in the source.
//! - `parser`: the parser, proved to build what the grammar states.
//! - `error`: why a parse fails.
//! - `laws`, `spacing`: properties that hold for every input.
pub mod error;
pub mod grammar;
pub mod laws;
pub mod node;
pub mod parser;
pub mod spacing;
pub mod tokenizer;
pub mod tokens;
