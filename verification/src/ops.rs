use vstd::prelude::*;

verus! {

/// A bytecode instruction.  Instructions carry no source positions: runtime
/// faults are reported against the instruction stream, not the source text.
#[derive(Clone, Copy, Debug, PartialEq, Eq, Structural)]
pub enum Op {
    /// Discard the top of the stack (used for scope cleanup).
    Pop,
    Add,
    Sub,
    Mult,
    Divide,
    Modulo,
    Negate,
    /// Push the constant at the given index of the constant pool.
    Constant(usize),
    /// Pop the top of the stack and record it on the machine's output log.
    Print,
    /// Push a copy of the value at the given absolute stack position.
    Local(usize),
}

} // verus!
