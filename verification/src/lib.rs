//! Front end of a small scripting-language toolchain: a lexer, a replayable
//! token cursor, and a precedence-climbing parser with error recovery.
//!
//! Raw source text is turned into a stream of located tokens, and the token
//! stream into a diagnostic-annotated abstract syntax tree.  Malformed input
//! never aborts a parse: it degrades into diagnostics and `Error` placeholder
//! nodes, and parsing continues.

pub mod location;
pub mod token;
pub mod util;
pub mod numbers;
pub mod strings;
pub mod diag;
pub mod lexer;
pub mod ast;
pub mod pathmap;
pub mod parser;
pub mod pool;
pub mod grammar;
