//! Front end of a small source-to-script transpiler: a lexical analysis
//! engine that turns raw source text into a stream of typed tokens, and an
//! abstract-syntax-tree model with a recursive code-generation mechanism
//! that renders tree nodes into a batch-style scripting dialect.

pub mod ast;
pub mod compiler;
pub mod lexer;
