//! A small query engine for tables kept as comma-separated text.
//!
//! A statement goes through three steps. `lexer::tokenize` cuts its text into
//! tokens, `parser::parse` builds the statement tree from them, and
//! `executor::execute_query` carries the tree out on the lines of one table. The
//! result is an outcome to act on: lines to print for SELECT, a line to append
//! for INSERT, the new lines of the table for UPDATE and DELETE. The library
//! reads and writes no file.
//!
//! Every function is verified against a specification over sequences of
//! characters. `semantics` says what each statement means, `laws` what follows
//! for every statement and every table. Four functions of the standard library
//! are taken on trust, under the names `lexer::is_alphabetic`,
//! `lexer::is_alphanumeric`, `lexer::uppercase` and `data::trim_end`: they
//! depend on Unicode tables, and the specification names their results.

pub mod ast;
pub mod data;
pub mod errors;
pub mod executor;
pub mod grammar;
pub mod laws;
pub mod lexer;
pub mod parser;
pub mod predicate;
pub mod semantics;
pub mod sort;
pub mod text;
