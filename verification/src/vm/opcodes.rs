//! The bytecode instruction set.
use vstd::prelude::*;

verus! {

/// One VM instruction. Operands are indices into the constant pool, the
/// globals, the frame's locals or upvalues, or instruction addresses.
#[derive(Debug, Clone, Copy, PartialEq, Eq, Structural)]
pub enum Opcode {
    OpConstant(usize),
    OpAdd,
    OpSub,
    OpMul,
    OpDiv,
    OpModulo,
    OpTrue,
    OpFalse,
    OpNull,
    OpEqual,
    OpNotEqual,
    OpGT,
    OpLT,
    OpGTE,
    OpLTE,
    OpNot,
    OpPop,
    OpSetGlobal(usize),
    OpGetGlobal(usize),
    OpSetLocal(usize),
    OpGetLocal(usize),
    OpJump(usize),
    OpJumpIfFalse(usize),
    OpCall(usize),
    OpReturnValue,
    OpGetUpvalue(usize),
    OpSetUpvalue(usize),
    OpClosure(usize, usize),
    OpShellExecute,
    /// Pop N elements, create an array, push it.
    OpArray(usize),
    /// Pop N key-value pairs, create an object, push it.
    OpObject(usize),
    /// Pop index and collection, push the element.
    OpIndex,
    /// Pop value, index and collection, set the element, push the value.
    OpSetIndex,
    /// Pop a module path, push the module.
    OpImport,
    /// Install an exception handler whose catch block starts at the address.
    OpTryStart(usize),
    /// Remove the innermost exception handler.
    OpTryEnd,
    /// Pop a value and raise it as an error.
    OpThrow,
    /// Call a method: receiver, method name and N arguments are on the stack.
    OpMethodCall(usize),
    /// Resolve a future.
    OpAwait,
}

} // verus!
