//! The ways in which loading or running a program can fail.

use crate::instruction::Instruction;
use vstd::prelude::*;

verus! {

/// What went wrong.
///
/// The first three kinds arise while a program is loaded, the last three
/// while it runs.
#[derive(Clone, Copy, Debug, PartialEq, Eq, Structural)]
pub enum ErrorKind {
    /// The line has a shape that the lexer does not recognise, or `sub` or a
    /// test met an operand that stands for no value.
    LexError,
    /// The mnemonic is not one of the instruction set.
    UnknownInstruction,
    /// The mnemonic was given the wrong number of operands.
    ArityError,
    /// A register was read before anything was written to it.
    UndefinedRegister,
    /// A jump names a label that the program never declares.
    UndefinedLabel,
    /// An addition, subtraction or multiplication left the range of the
    /// accumulator.
    ArithmeticBoundary,
}

/// Why a source text could not be loaded: the first line at fault, counted
/// from 0, and what is wrong with it.
#[derive(Clone, Copy, Debug, PartialEq, Eq, Structural)]
pub struct LoadError {
    pub line: usize,
    pub kind: ErrorKind,
}

/// Why a run was aborted: where the program counter stood, the instruction
/// that failed there, and how it failed.
#[derive(Clone, Copy, Debug, PartialEq, Eq, Structural)]
pub struct Fault {
    pub pc: usize,
    pub instruction: Instruction,
    pub kind: ErrorKind,
}

} // verus!
