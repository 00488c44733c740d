//! Cursor-triggered quick fixes for a small declarative expression language.
//!
//! A request pairs a syntax tree and a snapshot of diagnostics with the
//! caller's cursor; providers resolve the cursor to a construct, check the
//! diagnostics, and offer text edits that remove or rewrite it.
pub mod range;
pub mod tree;
pub mod lexer;
pub mod parser;
pub mod diagnostic;
pub mod edit;
pub mod assists;
pub mod remove_unused_rec;
pub mod engine;
