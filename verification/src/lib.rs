//! Verified front end and intermediate representation for the `GGB`
//! (Great Game Boy) programming language.
//!
//! - [`lex`]: lexical analysis (raw byte tokenizer and token classification).
//! - [`ast`]: syntax tree and parser.
//! - [`ir`]: intermediate representation, compilation and optimization.
//! - [`registers`]: storage of virtual registers.
//! - [`scope`]: nested scopes of identifiers.
//! - [`span`]: source locations.
//! - [`error`]: analysis errors.
//! - [`target`]: the interface of code generators.
pub mod ast;
pub mod error;
pub mod ir;
pub mod lex;
pub mod registers;
pub mod scope;
pub mod span;
pub mod target;
