//! A small register machine for a line-oriented assembly dialect.
//!
//! A source text is a sequence of lines. Each line is a comment (`# ...`), a
//! label declaration (`name:`), or an instruction: an optional guard (`+` or
//! `-`), a mnemonic, and up to two operands, separated by white space. An
//! operand is an unsigned decimal number or a name; a name is a label after
//! `jmp` and a register everywhere else.
//!
//! The way from text to a result:
//!
//! - [`parse`] lexes a line into a head and tokens and decodes those into a
//!   typed program line;
//! - [`program`] loads a whole text into a [`program::Program`], or reports
//!   the first line that does not decode;
//! - [`labels`] resolves the label declarations of a program to program
//!   indices;
//! - [`machine`] executes program lines over a [`register::RegisterBank`] and
//!   runs a program until it halts.
//!
//! What every function returns is stated over plain mathematical values:
//! sequences of characters for text, maps for the registers and the labels.
//! [`laws`] holds what follows for every program.
//!
//! Three points on which a machine of this kind has a choice are settled as
//! follows. Arithmetic that leaves the 64 bits of the accumulator fails; it
//! neither wraps nor saturates. `mov` makes its destination register where
//! the register does not exist yet. Where a label is declared more than
//! once, the last declaration counts.
//!
//! The decoder classifies each operand by its form alone, so `mov 1 2` and
//! `jmp 5` are program lines. What such a line does when it runs is stated
//! with the instructions, in [`machine`].

pub mod error;
pub mod instruction;
pub mod labels;
pub mod laws;
pub mod machine;
pub mod parse;
pub mod program;
pub mod register;
pub mod table;
pub mod text;
