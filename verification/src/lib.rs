//! Front end of the Z++ toolchain: source text is tokenized, then parsed into
//! a span-annotated abstract syntax tree. Every lexical, syntactic or semantic
//! problem is reported as a structured diagnostic bound to a byte range of the
//! source text.
//!
//! * [`errors`]: spans, diagnostics, and the reporter that builds them.
//! * [`lexer`]: the lexical grammar and the lexer.
//! * [`ast`]: the nodes of the syntax tree.
//! * [`parser`]: the grammar and the parser.
//!
//! Data flows one way: text, tokens, tree. Nothing here prints or reads a
//! file: the caller hands in the text and gets the tree or the diagnostics.

pub mod ast;
pub mod errors;
pub mod lexer;
pub mod parser;
