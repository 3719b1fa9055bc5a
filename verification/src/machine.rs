//! The execution engine: what one program line does, and the run of a
//! program from its first line until it halts.

use crate::error::{ErrorKind, Fault};
use crate::instruction::{
    check_line, is_value, line_fault, operands_of, Arg, ArgView, Instruction, LineView,
};
use crate::labels::{jump_target, LabelTable};
use crate::program::Program;
use crate::register::{acc_name, read_register, RegisterBank};
use vstd::prelude::*;

verus! {

/// What a line leaves behind when it has run: where the program goes on, the
/// branch flag, and the registers.
pub struct Effect {
    pub pc: int,
    pub flag: bool,
    pub bank: Map<Seq<char>, u64>,
}

/// The value that an operand stands for: a literal for itself, a register
/// for what it holds. A register that the bank does not hold gives
/// [`ErrorKind::UndefinedRegister`].
pub open spec fn value_of(bank: Map<Seq<char>, u64>, arg: ArgView) -> Result<u64, ErrorKind> {
    match arg {
        ArgView::Number(n) => Ok(n),
        ArgView::Register(name) => read_register(bank, name),
        _ => Err(ErrorKind::LexError),
    }
}

/// The guard of the line keeps it from running: the line carries
/// [`Arg::BranchTrue`] while the flag is clear, or [`Arg::BranchFalse`] while
/// it is set.
pub open spec fn suppressed(args: Seq<ArgView>, flag: bool) -> bool {
    (args.contains(ArgView::BranchTrue) && !flag) || (args.contains(ArgView::BranchFalse) && flag)
}

/// The result of `add`, `sub` or `mul` on the accumulator. A result outside
/// the 64 bits of the accumulator is an [`ErrorKind::ArithmeticBoundary`]:
/// the machine neither wraps nor saturates.
pub open spec fn arithmetic(instr: Instruction, acc: u64, operand: u64) -> Result<u64, ErrorKind> {
    let exact: int = match instr {
        Instruction::Add => acc + operand,
        Instruction::Sub => acc - operand,
        _ => acc * operand,
    };
    if 0 <= exact <= u64::MAX {
        Ok(exact as u64)
    } else {
        Err(ErrorKind::ArithmeticBoundary)
    }
}

/// The outcome of the test that `teq`, `tgt` or `tlt` makes.
pub open spec fn comparison(instr: Instruction, left: u64, right: u64) -> bool {
    match instr {
        Instruction::Teq => left == right,
        Instruction::Tgt => left > right,
        _ => left < right,
    }
}

/// What `not` makes of the accumulator: 100 of 0, and 0 of anything else.
pub open spec fn toggled(acc: u64) -> u64 {
    if acc == 0 {
        100
    } else {
        0
    }
}

/// What `add`, `sub` or `mul` leaves in the registers: the accumulator
/// combined with the operand.
///
/// The accumulator must exist. `add` and `mul` with an operand that is no
/// value change nothing; `sub` fails on such an operand, with
/// [`ErrorKind::LexError`].
pub open spec fn accumulate(instr: Instruction, operand: ArgView, bank: Map<Seq<char>, u64>) -> Result<
    Map<Seq<char>, u64>,
    ErrorKind,
> {
    match read_register(bank, acc_name()) {
        Err(kind) => Err(kind),
        Ok(acc) => if instr != Instruction::Sub && !is_value(operand) {
            Ok(bank)
        } else {
            match value_of(bank, operand) {
                Err(kind) => Err(kind),
                Ok(value) => match arithmetic(instr, acc, value) {
                    Ok(result) => Ok(bank.insert(acc_name(), result)),
                    Err(kind) => Err(kind),
                },
            }
        },
    }
}

/// What `not` leaves in the registers: the accumulator toggled.
pub open spec fn negate(bank: Map<Seq<char>, u64>) -> Result<Map<Seq<char>, u64>, ErrorKind> {
    match read_register(bank, acc_name()) {
        Ok(acc) => Ok(bank.insert(acc_name(), toggled(acc))),
        Err(kind) => Err(kind),
    }
}

/// What `mov` leaves in the registers: the value of the source in the
/// register that the target names, which need not exist before. With a
/// source that is no value, or a target that is no register, `mov` changes
/// nothing.
pub open spec fn transfer(source: ArgView, target: ArgView, bank: Map<Seq<char>, u64>) -> Result<
    Map<Seq<char>, u64>,
    ErrorKind,
> {
    match target {
        ArgView::Register(name) => if is_value(source) {
            match value_of(bank, source) {
                Ok(value) => Ok(bank.insert(name, value)),
                Err(kind) => Err(kind),
            }
        } else {
            Ok(bank)
        },
        _ => Ok(bank),
    }
}

/// The flag that `teq`, `tgt` or `tlt` sets: the outcome of comparing the
/// value of the first operand with the value of the second. An operand that
/// is no value fails with [`ErrorKind::LexError`]; where both operands fail,
/// the first decides.
pub open spec fn test(instr: Instruction, left: ArgView, right: ArgView, bank: Map<Seq<char>, u64>) -> Result<
    bool,
    ErrorKind,
> {
    match value_of(bank, left) {
        Err(kind) => Err(kind),
        Ok(first) => match value_of(bank, right) {
            Err(kind) => Err(kind),
            Ok(second) => Ok(comparison(instr, first, second)),
        },
    }
}

/// Where `jmp` goes on: at the index that the table holds for the label. An
/// operand that is no label is in no table, and fails likewise with
/// [`ErrorKind::UndefinedLabel`].
pub open spec fn jump(target: ArgView, labels: Map<Seq<char>, usize>) -> Result<usize, ErrorKind> {
    match target {
        ArgView::Label(name) => jump_target(labels, name),
        _ => Err(ErrorKind::UndefinedLabel),
    }
}

/// What a line with the right number of operands does when its guard lets
/// it run.
///
/// - `nop` and a label declaration only move on to the next line.
/// - `add`, `sub` and `mul` work on the accumulator, as [`accumulate`] says.
/// - `not` toggles the accumulator, as [`negate`] says.
/// - `mov` writes a register, as [`transfer`] says.
/// - `teq`, `tgt` and `tlt` set the branch flag, as [`test`] says.
/// - `jmp` goes on where [`jump`] says.
///
/// All but `jmp` go on at the next line. Only the tests change the flag.
pub open spec fn dispatch(
    line: LineView,
    bank: Map<Seq<char>, u64>,
    labels: Map<Seq<char>, usize>,
    pc: int,
    flag: bool,
) -> Result<Effect, ErrorKind> {
    let operands = operands_of(line.1);
    match line.0 {
        Instruction::Nop | Instruction::Label => Ok(Effect { pc: pc + 1, flag, bank }),
        Instruction::Add | Instruction::Sub | Instruction::Mul => match accumulate(
            line.0,
            operands[0],
            bank,
        ) {
            Ok(after) => Ok(Effect { pc: pc + 1, flag, bank: after }),
            Err(kind) => Err(kind),
        },
        Instruction::Not => match negate(bank) {
            Ok(after) => Ok(Effect { pc: pc + 1, flag, bank: after }),
            Err(kind) => Err(kind),
        },
        Instruction::Mov => match transfer(operands[0], operands[1], bank) {
            Ok(after) => Ok(Effect { pc: pc + 1, flag, bank: after }),
            Err(kind) => Err(kind),
        },
        Instruction::Teq | Instruction::Tgt | Instruction::Tlt => match test(
            line.0,
            operands[0],
            operands[1],
            bank,
        ) {
            Ok(outcome) => Ok(Effect { pc: pc + 1, flag: outcome, bank }),
            Err(kind) => Err(kind),
        },
        Instruction::Jmp => match jump(operands[0], labels) {
            Ok(index) => Ok(Effect { pc: index as int, flag, bank }),
            Err(kind) => Err(kind),
        },
    }
}

/// What executing a line does.
///
/// A line whose guard does not agree with the branch flag is skipped,
/// whatever else it holds: the program goes on at the next line, and nothing
/// else changes. A line that is not skipped fails with its fault where it
/// has one, and else does what [`dispatch`] says.
pub open spec fn exec_spec(
    line: LineView,
    bank: Map<Seq<char>, u64>,
    labels: Map<Seq<char>, usize>,
    pc: int,
    flag: bool,
) -> Result<Effect, ErrorKind> {
    if suppressed(line.1, flag) {
        Ok(Effect { pc: pc + 1, flag, bank })
    } else {
        match line_fault(line) {
            Some(kind) => Err(kind),
            None => dispatch(line, bank, labels, pc, flag),
        }
    }
}

/// The program counter as a machine holds it: a counter that would pass the
/// largest index stays there, beyond the end of every program.
pub open spec fn counter_of(pc: int) -> usize {
    if pc <= usize::MAX {
        pc as usize
    } else {
        usize::MAX
    }
}

/// Tells whether an argument is a literal or a register.
fn stands_for_value(arg: &Arg) -> (r: bool)
    ensures
        r == is_value(arg@),
{
    match arg {
        Arg::Number(_) => true,
        Arg::Register(_) => true,
        _ => false,
    }
}

/// The value of an operand.
fn value(registers: &RegisterBank, arg: &Arg) -> (res: Result<u64, ErrorKind>)
    ensures
        res == value_of(registers@, arg@),
{
    match arg {
        Arg::Number(n) => Ok(*n),
        Arg::Register(name) => registers.read(name.as_str()),
        _ => Err(ErrorKind::LexError),
    }
}

/// Tells whether the guard of a line keeps it from running.
fn is_suppressed(args: &Vec<Arg>, flag: bool) -> (r: bool)
    ensures
        r == suppressed(args.deep_view(), flag),
{
    let ghost view = args.deep_view();
    let unwanted = if flag {
        ArgView::BranchFalse
    } else {
        ArgView::BranchTrue
    };
    let n = args.len();
    let mut i: usize = 0;
    while i < n
        invariant
            view == args.deep_view(),
            n == args.len(),
            i <= n,
            forall|k: int| 0 <= k < i ==> view[k] != unwanted,
            flag ==> unwanted == ArgView::BranchFalse,
            !flag ==> unwanted == ArgView::BranchTrue,
        decreases n - i,
    {
        assert(view[i as int] == args@[i as int]@);
        let found = match &args[i] {
            Arg::BranchTrue => !flag,
            Arg::BranchFalse => flag,
            _ => false,
        };
        if found {
            return true;
        }
        i += 1;
    }
    false
}

/// Computes what `add`, `sub` or `mul` makes of the accumulator.
fn compute(instr: Instruction, acc: u64, operand: u64) -> (res: Result<u64, ErrorKind>)
    ensures
        res == arithmetic(instr, acc, operand),
{
    let exact = match instr {
        Instruction::Add => acc.checked_add(operand),
        Instruction::Sub => acc.checked_sub(operand),
        _ => acc.checked_mul(operand),
    };
    match exact {
        Some(result) => Ok(result),
        None => Err(ErrorKind::ArithmeticBoundary),
    }
}

/// Works `add`, `sub` or `mul` on the accumulator.
fn do_accumulate(instr: Instruction, operand: &Arg, registers: &mut RegisterBank) -> (res: Result<
    (),
    ErrorKind,
>)
    ensures
        match res {
            Ok(_) => accumulate(instr, operand@, old(registers)@) == Ok::<
                Map<Seq<char>, u64>,
                ErrorKind,
            >(final(registers)@),
            Err(kind) => {
                &&& accumulate(instr, operand@, old(registers)@) == Err::<
                    Map<Seq<char>, u64>,
                    ErrorKind,
                >(kind)
                &&& final(registers)@ == old(registers)@
                &&& final(registers).names() == old(registers).names()
            },
        },
{
    let acc = match registers.read("acc") {
        Ok(acc) => acc,
        Err(kind) => {
            return Err(kind);
        },
    };
    let ignores = match instr {
        Instruction::Sub => false,
        _ => !stands_for_value(operand),
    };
    if ignores {
        return Ok(());
    }
    let amount = match value(registers, operand) {
        Ok(amount) => amount,
        Err(kind) => {
            return Err(kind);
        },
    };
    match compute(instr, acc, amount) {
        Ok(result) => {
            registers.write("acc", result);
            Ok(())
        },
        Err(kind) => Err(kind),
    }
}

/// Toggles the accumulator.
fn do_negate(registers: &mut RegisterBank) -> (res: Result<(), ErrorKind>)
    ensures
        match res {
            Ok(_) => negate(old(registers)@) == Ok::<Map<Seq<char>, u64>, ErrorKind>(
                final(registers)@,
            ),
            Err(kind) => {
                &&& negate(old(registers)@) == Err::<Map<Seq<char>, u64>, ErrorKind>(kind)
                &&& final(registers)@ == old(registers)@
                &&& final(registers).names() == old(registers).names()
            },
        },
{
    match registers.read("acc") {
        Ok(acc) => {
            let result: u64 = if acc == 0 {
                100
            } else {
                0
            };
            registers.write("acc", result);
            Ok(())
        },
        Err(kind) => Err(kind),
    }
}

/// Moves a value into a register.
fn do_transfer(source: &Arg, target: &Arg, registers: &mut RegisterBank) -> (res: Result<
    (),
    ErrorKind,
>)
    ensures
        match res {
            Ok(_) => transfer(source@, target@, old(registers)@) == Ok::<
                Map<Seq<char>, u64>,
                ErrorKind,
            >(final(registers)@),
            Err(kind) => {
                &&& transfer(source@, target@, old(registers)@) == Err::<
                    Map<Seq<char>, u64>,
                    ErrorKind,
                >(kind)
                &&& final(registers)@ == old(registers)@
                &&& final(registers).names() == old(registers).names()
            },
        },
{
    match target {
        Arg::Register(name) => {
            if !stands_for_value(source) {
                return Ok(());
            }
            match value(registers, source) {
                Ok(value) => {
                    registers.write(name.as_str(), value);
                    Ok(())
                },
                Err(kind) => Err(kind),
            }
        },
        _ => Ok(()),
    }
}

/// Compares two operands.
fn do_test(instr: Instruction, left: &Arg, right: &Arg, registers: &RegisterBank) -> (res: Result<
    bool,
    ErrorKind,
>)
    ensures
        res == test(instr, left@, right@, registers@),
{
    let first = match value(registers, left) {
        Ok(first) => first,
        Err(kind) => {
            return Err(kind);
        },
    };
    let second = match value(registers, right) {
        Ok(second) => second,
        Err(kind) => {
            return Err(kind);
        },
    };
    Ok(
        match instr {
            Instruction::Teq => first == second,
            Instruction::Tgt => first > second,
            _ => first < second,
        },
    )
}

/// Looks up where a jump goes.
fn do_jump(target: &Arg, labels: &LabelTable) -> (res: Result<usize, ErrorKind>)
    ensures
        res == jump(target@, labels@),
{
    match target {
        Arg::Label(name) => labels.target(name.as_str()),
        _ => Err(ErrorKind::UndefinedLabel),
    }
}

/// Given a line, executes it: alters the registers if need be, and returns
/// the new program counter and the new branch flag.
///
/// On an error nothing has changed. The errors are
/// [`ErrorKind::UndefinedRegister`] for reading a register that was never
/// written, [`ErrorKind::UndefinedLabel`] for a jump to a label that the
/// table does not hold, [`ErrorKind::ArithmeticBoundary`] for a result that
/// does not fit the accumulator, [`ErrorKind::ArityError`] for a line with
/// the wrong number of operands, and [`ErrorKind::LexError`] for `sub` or a
/// test on what is no value. A line that its guard suppresses never fails.
/// See [`exec_spec`] for what each instruction does.
///
/// The counter that is returned is that of [`exec_spec`], unless that is
/// more than a counter can hold: then the counter stays where it is, at the
/// largest index, beyond the end of every program.
pub fn exec(
    line: &(Instruction, Vec<Arg>),
    registers: &mut RegisterBank,
    labels: &LabelTable,
    pc: usize,
    branch: &bool,
) -> (res: Result<(usize, bool), ErrorKind>)
    ensures
        match res {
            Ok(next) => {
                &&& exec_spec(line.deep_view(), old(registers)@, labels@, pc as int, *branch)
                    matches Ok(effect)
                &&& next.0 == counter_of(effect.pc)
                &&& next.1 == effect.flag
                &&& final(registers)@ == effect.bank
            },
            Err(kind) => {
                &&& exec_spec(line.deep_view(), old(registers)@, labels@, pc as int, *branch)
                    == Err::<Effect, ErrorKind>(kind)
                &&& final(registers)@ == old(registers)@
                &&& final(registers).names() == old(registers).names()
            },
        },
{
    let flag = *branch;
    let instr = line.0;
    let args = &line.1;
    let ghost view = args.deep_view();
    let onward: usize = if pc < usize::MAX {
        pc + 1
    } else {
        pc
    };
    if is_suppressed(args, flag) {
        return Ok((onward, flag));
    }
    if let Some(kind) = check_line(instr, args) {
        return Err(kind);
    }
    assert(forall|i: int| 0 <= i < operands_of(view).len() ==> operands_of(view)[i] == args@[i]@);
    match instr {
        Instruction::Nop | Instruction::Label => Ok((onward, flag)),
        Instruction::Add | Instruction::Sub | Instruction::Mul => {
            match do_accumulate(instr, &args[0], registers) {
                Ok(_) => Ok((onward, flag)),
                Err(kind) => Err(kind),
            }
        },
        Instruction::Not => match do_negate(registers) {
            Ok(_) => Ok((onward, flag)),
            Err(kind) => Err(kind),
        },
        Instruction::Mov => match do_transfer(&args[0], &args[1], registers) {
            Ok(_) => Ok((onward, flag)),
            Err(kind) => Err(kind),
        },
        Instruction::Teq | Instruction::Tgt | Instruction::Tlt => {
            match do_test(instr, &args[0], &args[1], registers) {
                Ok(outcome) => Ok((onward, outcome)),
                Err(kind) => Err(kind),
            }
        },
        Instruction::Jmp => match do_jump(&args[0], labels) {
            Ok(index) => Ok((index, flag)),
            Err(kind) => Err(kind),
        },
    }
}

/// The state of a machine between two steps.
pub struct Snapshot {
    /// The index of the line to execute next.
    pub pc: int,
    /// The branch flag.
    pub flag: bool,
    /// The registers.
    pub bank: Map<Seq<char>, u64>,
    /// The number of steps taken so far.
    pub steps: nat,
}

/// The state in which a run starts: at the first line, with a clear flag,
/// and no step taken.
pub open spec fn start(bank: Map<Seq<char>, u64>) -> Snapshot {
    Snapshot { pc: 0, flag: false, bank, steps: 0 }
}

/// The machine has halted: the program counter has left the program.
pub open spec fn halted(program: Seq<LineView>, pc: int) -> bool {
    pc >= program.len()
}

/// One step of a machine that has not halted: the line at the program
/// counter is executed, and the step is counted. A line that fails aborts
/// the run with a [`Fault`] that names the program counter and the
/// instruction.
pub open spec fn step(
    program: Seq<LineView>,
    labels: Map<Seq<char>, usize>,
    state: Snapshot,
) -> Result<Snapshot, Fault>
    recommends
        0 <= state.pc < program.len(),
{
    let line = program[state.pc];
    match exec_spec(line, state.bank, labels, state.pc, state.flag) {
        Ok(effect) => Ok(
            Snapshot {
                pc: effect.pc,
                flag: effect.flag,
                bank: effect.bank,
                steps: state.steps + 1,
            },
        ),
        Err(kind) => Err(Fault { pc: state.pc as usize, instruction: line.0, kind }),
    }
}

/// The run of a machine for at most `fuel` steps: it steps until it halts,
/// fails, or has no fuel left.
pub open spec fn run_from(
    program: Seq<LineView>,
    labels: Map<Seq<char>, usize>,
    state: Snapshot,
    fuel: nat,
) -> Result<Snapshot, Fault>
    decreases fuel,
{
    if fuel == 0 || halted(program, state.pc) {
        Ok(state)
    } else {
        match step(program, labels, state) {
            Ok(next) => run_from(program, labels, next, (fuel - 1) as nat),
            Err(fault) => Err(fault),
        }
    }
}

/// The number of steps that a ceiling allows. Without a ceiling a run may
/// take as many steps as the step count can hold.
pub open spec fn fuel_of(ceiling: Option<u64>) -> nat {
    match ceiling {
        Some(limit) => limit as nat,
        None => u64::MAX as nat,
    }
}

/// How a run ended that did not fail.
pub struct Outcome {
    /// The registers as the run left them.
    pub registers: RegisterBank,
    /// The number of steps taken.
    pub steps: u64,
    /// The program counter.
    pub pc: usize,
    /// The branch flag.
    pub flag: bool,
    /// Whether the machine halted. Where it did not, the run was stopped at
    /// the ceiling.
    pub halted: bool,
}

impl Outcome {
    /// The state that the outcome reports.
    pub open spec fn view(&self) -> Snapshot {
        Snapshot {
            pc: self.pc as int,
            flag: self.flag,
            bank: self.registers@,
            steps: self.steps as nat,
        }
    }
}

/// The value of what a run returns.
pub open spec fn outcome_view(res: Result<Outcome, Fault>) -> Result<Snapshot, Fault> {
    match res {
        Ok(outcome) => Ok(outcome@),
        Err(fault) => Err(fault),
    }
}

/// Runs a program from its first line, with a clear branch flag, on the
/// registers given.
///
/// The machine steps until the program counter leaves the program, and then
/// reports the registers and the number of steps. A line that fails aborts
/// the run at once. The ceiling, where one is given, bounds the number of
/// steps: a run that reaches it stops there and reports that it has not
/// halted, which is for the caller to judge and no fault of the program.
pub fn run(
    program: &Program,
    labels: &LabelTable,
    registers: RegisterBank,
    ceiling: Option<u64>,
) -> (res: Result<Outcome, Fault>)
    ensures
        outcome_view(res) == run_from(program@, labels@, start(registers@), fuel_of(ceiling)),
        res matches Ok(outcome) ==> outcome.halted == halted(program@, outcome.pc as int),
{
    let fuel: u64 = match ceiling {
        Some(limit) => limit,
        None => u64::MAX,
    };
    let n = program.len();
    let mut bank = registers;
    let mut pc: usize = 0;
    let mut flag = false;
    let mut steps: u64 = 0;
    let ghost begin = start(bank@);
    while pc < n && steps < fuel
        invariant
            n == program@.len(),
            fuel == fuel_of(ceiling),
            steps <= fuel,
            begin == start(registers@),
            run_from(program@, labels@, begin, fuel as nat) == run_from(
                program@,
                labels@,
                Snapshot { pc: pc as int, flag, bank: bank@, steps: steps as nat },
                (fuel - steps) as nat,
            ),
        decreases fuel - steps,
    {
        let line = program.line(pc);
        match exec(line, &mut bank, labels, pc, &flag) {
            Ok(next) => {
                pc = next.0;
                flag = next.1;
                steps = steps + 1;
            },
            Err(kind) => {
                return Err(Fault { pc, instruction: line.0, kind });
            },
        }
    }
    Ok(Outcome { registers: bank, steps, pc, flag, halted: pc >= n })
}

} // verus!
