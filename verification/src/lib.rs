//! EROX: a small scripting language front end (lexer, Pratt parser, bytecode
//! compiler, diagnostics) with the pure parts of its runtime, verified with Verus.
pub mod compiler;
pub mod pipeline;
pub mod text;
pub mod vm;
