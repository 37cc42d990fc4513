//! Instruction-set definitions: opcodes, operands, instructions, and the
//! error taxonomy of the assembler and of the execution engine.

use vstd::prelude::*;

verus! {

/// The operation selecting which instruction semantics to execute.
#[derive(Clone, Copy, Debug, PartialEq, Eq, Structural)]
pub enum Opcode {
    Noop,
    Halt,
    Mov,
    Add,
    Push,
    Pop,
    Int,
    Cmp,
    Jmp,
    Je,
    Jne,
    Jl,
    Jle,
    Jg,
    Jge,
}

/// A value consumed by an instruction: an immediate constant, a register
/// reference, a resolved label address, or an unused operand slot.
#[derive(Clone, Copy, Debug, PartialEq, Eq, Structural)]
pub enum Operand {
    Immediate(i64),
    Register(usize),
    Address(usize),
    Unused,
}

/// One decoded instruction: an opcode and its two operand slots.
/// Built once by the encoder, immutable afterwards.
#[derive(Clone, Copy, Debug, PartialEq, Eq, Structural)]
pub struct Instruction {
    pub opcode: Opcode,
    pub operand_a: Operand,
    pub operand_b: Operand,
}

/// An operand is well formed when a resolved address fits in a machine word,
/// so that using it as a value (`Address(a)` resolves to `a`) cannot truncate.
pub open spec fn wf_operand(op: Operand) -> bool {
    match op {
        Operand::Address(a) => a <= i64::MAX,
        _ => true,
    }
}

pub open spec fn wf_instruction(inst: Instruction) -> bool {
    wf_operand(inst.operand_a) && wf_operand(inst.operand_b)
}

/// A program is well formed when every instruction in it is.
pub open spec fn wf_program(prog: Seq<Instruction>) -> bool {
    forall|i: int| 0 <= i < prog.len() ==> wf_instruction(#[trigger] prog[i])
}

/// Why one source token could not be encoded; carries the offending token.
#[derive(Debug, PartialEq, Eq)]
pub enum DecodeErrorKind {
    UnknownOpcode(String),
    InvalidOperand(String),
}

/// An assembly failure: the first offending token and the line it stands on.
#[derive(Debug, PartialEq, Eq)]
pub struct DecodeError {
    pub line: usize,
    pub kind: DecodeErrorKind,
}

/// Why the execution engine stopped with a fault.
#[derive(Clone, Copy, Debug, PartialEq, Eq, Structural)]
pub enum FaultReason {
    InvalidFetch,
    RegisterOutOfRange,
    StackOverflow,
    StackUnderflow,
}

/// The execution engine's state: running, halted cleanly, or stopped by a fault.
#[derive(Clone, Copy, Debug, PartialEq, Eq, Structural)]
pub enum Status {
    Running,
    Halted,
    Faulted(FaultReason),
}

/// One of the two condition flags set by `CMP` and read by conditional jumps.
#[derive(Clone, Copy, Debug, PartialEq, Eq, Structural)]
pub enum Flag {
    /// Zero flag: the compared values were equal.
    Zf,
    /// Carry flag: the first compared value was less than the second.
    Cf,
}

} // verus!
