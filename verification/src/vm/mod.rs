//! The runtime: instruction set, compiled values, the stack machine, and the
//! pure parts of the built-in library.
pub mod object;
pub mod opcodes;
pub mod control;
pub mod methods;
pub mod stdlib;
pub mod machine;
