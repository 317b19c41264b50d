//! Compiled values: functions and the constants a program refers to.
use vstd::prelude::*;
use crate::vm::opcodes::Opcode;

verus! {

/// A function body compiled to bytecode.
#[derive(Debug, Clone, PartialEq)]
pub struct CompiledFunction {
    pub name: String,
    pub instructions: Vec<Opcode>,
    pub num_locals: usize,
    pub num_upvalues: usize,
    pub is_async: bool,
}

/// A constant of a compiled program.
#[derive(Debug, Clone, PartialEq)]
pub enum Constant {
    /// A number, as the text of its literal.
    Number(String),
    String(String),
    Function(CompiledFunction),
}

/// The value of a constant: its strings as character sequences.
pub enum SpecConstant {
    Number(Seq<char>),
    Str(Seq<char>),
    Function {
        name: Seq<char>,
        instructions: Seq<Opcode>,
        num_locals: usize,
        num_upvalues: usize,
        is_async: bool,
    },
}

impl View for Constant {
    type V = SpecConstant;

    open spec fn view(&self) -> SpecConstant {
        match self {
            Constant::Number(s) => SpecConstant::Number(s@),
            Constant::String(s) => SpecConstant::Str(s@),
            Constant::Function(f) => SpecConstant::Function {
                name: f.name@,
                instructions: f.instructions@,
                num_locals: f.num_locals,
                num_upvalues: f.num_upvalues,
                is_async: f.is_async,
            },
        }
    }
}

} // verus!
