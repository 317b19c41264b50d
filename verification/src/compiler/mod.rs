//! The front end: lexer, parser, bytecode compiler and diagnostics.
pub mod codegen;
pub mod diagnostics;
pub mod lexer;
pub mod messages;
pub mod parser;
pub mod syntax;
pub mod code_laws;
