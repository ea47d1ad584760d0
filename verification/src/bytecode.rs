//! The instruction set and the program representation.

use vstd::prelude::*;

verus! {

/// A single operation of the virtual machine.
///
/// A program is an ordered sequence of instructions with stable positions
/// starting at 0.  Values are 64-bit integers and variable names are strings.
#[allow(non_camel_case_types)]
#[derive(Debug, Clone)]
pub enum Instruction {
    /// Push the value onto the stack.
    LOAD_VAL(i64),
    /// Look the key up in the variable table and push its value.
    READ_VAR(String),
    /// Pop the top of the stack and bind the key to it.
    WRITE_VAR(String),
    /// Pop two values and push their sum (wrapping on overflow).
    ADD,
    /// Pop two values and push their product (wrapping on overflow).
    MULTIPLY,
    /// Open the single loop context: set its limit and reset its counter.
    LOOP(usize),
    /// Rewind execution by the offset and count one more iteration.
    JUMP(usize),
    /// Skip the following instruction when the loop counter has reached
    /// the loop limit.
    IF_NOT_EQUAL,
    /// Pop the top of the stack into the result register.
    RETURN_VALUE,
}

/// One instruction of a program, as the interpreter consumes it.
#[derive(Debug, Clone)]
pub struct ByteCode {
    pub instruction: Instruction,
}

/// The instruction sequence that a sequence of [`ByteCode`] units denotes.
pub open spec fn prog_of(code: Seq<ByteCode>) -> Seq<Instruction> {
    Seq::new(code.len(), |i: int| code[i].instruction)
}

} // verus!
