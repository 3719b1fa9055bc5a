//! The instruction set, the operands of a program line, and the shape that a
//! line must have to be run.

use crate::error::ErrorKind;
use vstd::prelude::*;

verus! {

/// The instructions of the machine.
#[derive(Clone, Copy, Debug, PartialEq, Eq, Structural)]
pub enum Instruction {
    /// Declares a jump target; does nothing when run.
    Label,
    /// Does nothing.
    Nop,
    /// Copies a value into a register.
    Mov,
    /// Adds a value to the accumulator.
    Add,
    /// Subtracts a value from the accumulator.
    Sub,
    /// Multiplies the accumulator by a value.
    Mul,
    /// Toggles the accumulator between 0 and 100.
    Not,
    /// Continues at a label.
    Jmp,
    /// Sets the branch flag if two values are equal.
    Teq,
    /// Sets the branch flag if the first value is the greater.
    Tgt,
    /// Sets the branch flag if the first value is the smaller.
    Tlt,
}

/// One argument of a program line.
#[derive(Debug, PartialEq, Eq, Hash)]
pub enum Arg {
    /// A literal value.
    Number(u64),
    /// A register, by name.
    Register(String),
    /// A label, by name.
    Label(String),
    /// The line runs only while the branch flag is set.
    BranchTrue,
    /// The line runs only while the branch flag is clear.
    BranchFalse,
}

/// The mathematical value of an [`Arg`]: a name is a sequence of characters.
pub enum ArgView {
    Number(u64),
    Register(Seq<char>),
    Label(Seq<char>),
    BranchTrue,
    BranchFalse,
}

/// The mathematical value of a program line: the instruction, and its
/// arguments in order.
pub type LineView = (Instruction, Seq<ArgView>);

impl View for Arg {
    type V = ArgView;

    open spec fn view(&self) -> ArgView {
        match *self {
            Arg::Number(n) => ArgView::Number(n),
            Arg::Register(name) => ArgView::Register(name@),
            Arg::Label(name) => ArgView::Label(name@),
            Arg::BranchTrue => ArgView::BranchTrue,
            Arg::BranchFalse => ArgView::BranchFalse,
        }
    }
}

impl DeepView for Arg {
    type V = ArgView;

    open spec fn deep_view(&self) -> ArgView {
        self@
    }
}

impl DeepView for Instruction {
    type V = Instruction;

    open spec fn deep_view(&self) -> Instruction {
        *self
    }
}

impl Clone for Arg {
    fn clone(&self) -> (copy: Arg)
        ensures
            copy == *self,
    {
        match self {
            Arg::Number(n) => Arg::Number(*n),
            Arg::Register(name) => Arg::Register(name.clone()),
            Arg::Label(name) => Arg::Label(name.clone()),
            Arg::BranchTrue => Arg::BranchTrue,
            Arg::BranchFalse => Arg::BranchFalse,
        }
    }
}

/// The argument is a conditional guard.
pub open spec fn is_guard(arg: ArgView) -> bool {
    arg is BranchTrue || arg is BranchFalse
}

/// The argument stands for a value: a literal, or a register to read.
pub open spec fn is_value(arg: ArgView) -> bool {
    arg is Number || arg is Register
}

/// The guard of an argument list: `Some(true)` where the list ends in
/// [`Arg::BranchTrue`], `Some(false)` where it ends in [`Arg::BranchFalse`],
/// `None` where it ends in neither.
pub open spec fn guard_of(args: Seq<ArgView>) -> Option<bool> {
    if args.len() > 0 && is_guard(args.last()) {
        Some(args.last() is BranchTrue)
    } else {
        None
    }
}

/// The positional operands of an argument list: all of it but a guard at its
/// end.
pub open spec fn operands_of(args: Seq<ArgView>) -> Seq<ArgView> {
    if guard_of(args) is Some {
        args.drop_last()
    } else {
        args
    }
}

/// The number of positional operands that an instruction takes.
pub open spec fn arity(instr: Instruction) -> nat {
    match instr {
        Instruction::Nop | Instruction::Not => 0,
        Instruction::Label
        | Instruction::Add
        | Instruction::Sub
        | Instruction::Mul
        | Instruction::Jmp => 1,
        Instruction::Mov | Instruction::Teq | Instruction::Tgt | Instruction::Tlt => 2,
    }
}

/// What is wrong with the shape of a line, if anything: a line whose
/// operands are not as many as the instruction takes has an
/// [`ErrorKind::ArityError`].
///
/// A guard counts as an operand unless it is the last argument. Of what kind
/// an operand is plays no part here: an operand that the instruction cannot
/// work on shows when the line runs.
pub open spec fn line_fault(line: LineView) -> Option<ErrorKind> {
    if operands_of(line.1).len() != arity(line.0) {
        Some(ErrorKind::ArityError)
    } else {
        None
    }
}

/// The number of positional operands that an instruction takes.
pub fn operand_count(instr: Instruction) -> (n: usize)
    ensures
        n == arity(instr),
{
    match instr {
        Instruction::Nop | Instruction::Not => 0,
        Instruction::Label
        | Instruction::Add
        | Instruction::Sub
        | Instruction::Mul
        | Instruction::Jmp => 1,
        Instruction::Mov | Instruction::Teq | Instruction::Tgt | Instruction::Tlt => 2,
    }
}

/// Tells whether an argument is a guard.
fn guards(arg: &Arg) -> (r: bool)
    ensures
        r == is_guard(arg@),
{
    match arg {
        Arg::BranchTrue => true,
        Arg::BranchFalse => true,
        _ => false,
    }
}

/// Checks the shape of a line.
///
/// Returns `None` for a line with as many operands as its instruction takes,
/// and [`ErrorKind::ArityError`] for any other.
pub fn check_line(instr: Instruction, args: &Vec<Arg>) -> (fault: Option<ErrorKind>)
    ensures
        fault == line_fault((instr, args.deep_view())),
{
    let len = args.len();
    let count = if len > 0 && guards(&args[len - 1]) {
        len - 1
    } else {
        len
    };
    assert(count == operands_of(args.deep_view()).len());
    if count != operand_count(instr) {
        Some(ErrorKind::ArityError)
    } else {
        None
    }
}

} // verus!
