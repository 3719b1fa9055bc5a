use register_machine::error::{ErrorKind, Fault};
use register_machine::instruction::{Arg, Instruction};
use register_machine::labels::{resolve_labels, LabelTable};
use register_machine::machine::{exec, run, Outcome};
use register_machine::program::Program;
use register_machine::register::RegisterBank;

fn source(lines: &[&str]) -> Vec<String> {
    lines.iter().map(|line| line.to_string()).collect()
}

fn register(name: &str) -> Arg {
    Arg::Register(name.to_string())
}

fn label(name: &str) -> Arg {
    Arg::Label(name.to_string())
}

fn bank_with(values: &[(&str, u64)]) -> RegisterBank {
    let mut bank = RegisterBank::new();
    for (name, value) in values {
        bank.write(name, *value);
    }
    bank
}

fn contents(bank: &RegisterBank) -> Vec<(String, u64)> {
    (0..bank.len()).map(|i| bank.entry(i)).collect()
}

fn run_text(lines: &[&str], bank: RegisterBank, ceiling: Option<u64>) -> Result<Outcome, Fault> {
    let program = Program::load(&source(lines)).unwrap();
    let labels = resolve_labels(&program);
    run(&program, &labels, bank, ceiling)
}

fn exec_one(
    line: (Instruction, Vec<Arg>),
    bank: &mut RegisterBank,
    flag: bool,
) -> Result<(usize, bool), ErrorKind> {
    exec(&line, bank, &LabelTable::new(), 7, &flag)
}

#[test]
fn mov_then_read() {
    let mut bank = RegisterBank::new();
    let next = exec_one((Instruction::Mov, vec![Arg::Number(5), register("x1")]), &mut bank, false);
    assert_eq!(next, Ok((8, false)));
    assert_eq!(bank.read("x1"), Ok(5));
}

#[test]
fn mov_copies_between_registers_and_makes_the_destination() {
    let mut bank = bank_with(&[("x1", 9)]);
    let next = exec_one((Instruction::Mov, vec![register("x1"), register("fresh")]), &mut bank, true);
    assert_eq!(next, Ok((8, true)));
    assert_eq!(bank.read("fresh"), Ok(9));
    assert_eq!(bank.read("x1"), Ok(9));
    let next = exec_one((Instruction::Mov, vec![register("nowhere"), register("x1")]), &mut bank, true);
    assert_eq!(next, Err(ErrorKind::UndefinedRegister));
    assert_eq!(bank.read("x1"), Ok(9));
}

#[test]
fn add_then_sub_returns_to_zero() {
    let mut bank = RegisterBank::new();
    assert_eq!(exec_one((Instruction::Add, vec![Arg::Number(3)]), &mut bank, false), Ok((8, false)));
    assert_eq!(bank.read("acc"), Ok(3));
    assert_eq!(exec_one((Instruction::Sub, vec![Arg::Number(3)]), &mut bank, false), Ok((8, false)));
    assert_eq!(bank.read("acc"), Ok(0));
}

#[test]
fn arithmetic_works_on_the_accumulator() {
    let mut bank = bank_with(&[("acc", 6), ("x", 7)]);
    assert_eq!(exec_one((Instruction::Mul, vec![register("x")]), &mut bank, false), Ok((8, false)));
    assert_eq!(bank.read("acc"), Ok(42));
    assert_eq!(exec_one((Instruction::Sub, vec![Arg::Number(2)]), &mut bank, false), Ok((8, false)));
    assert_eq!(bank.read("acc"), Ok(40));
    assert_eq!(exec_one((Instruction::Add, vec![register("acc")]), &mut bank, false), Ok((8, false)));
    assert_eq!(bank.read("acc"), Ok(80));
    assert_eq!(exec_one((Instruction::Mul, vec![Arg::Number(0)]), &mut bank, false), Ok((8, false)));
    assert_eq!(bank.read("acc"), Ok(0));
    assert_eq!(bank.read("x"), Ok(7));
}

#[test]
fn arithmetic_outside_the_accumulator_fails() {
    let mut bank = bank_with(&[("acc", u64::MAX)]);
    assert_eq!(
        exec_one((Instruction::Add, vec![Arg::Number(1)]), &mut bank, false),
        Err(ErrorKind::ArithmeticBoundary)
    );
    assert_eq!(
        exec_one((Instruction::Mul, vec![Arg::Number(2)]), &mut bank, false),
        Err(ErrorKind::ArithmeticBoundary)
    );
    assert_eq!(bank.read("acc"), Ok(u64::MAX));
    assert_eq!(exec_one((Instruction::Add, vec![Arg::Number(0)]), &mut bank, false), Ok((8, false)));
    assert_eq!(exec_one((Instruction::Mul, vec![Arg::Number(1)]), &mut bank, false), Ok((8, false)));
    assert_eq!(bank.read("acc"), Ok(u64::MAX));
    let mut bank = bank_with(&[("acc", 2)]);
    assert_eq!(
        exec_one((Instruction::Sub, vec![Arg::Number(3)]), &mut bank, false),
        Err(ErrorKind::ArithmeticBoundary)
    );
    assert_eq!(bank.read("acc"), Ok(2));
    assert_eq!(exec_one((Instruction::Sub, vec![Arg::Number(2)]), &mut bank, false), Ok((8, false)));
    assert_eq!(bank.read("acc"), Ok(0));
}

#[test]
fn not_toggles_between_zero_and_a_hundred() {
    let mut bank = RegisterBank::new();
    assert_eq!(exec_one((Instruction::Not, vec![]), &mut bank, true), Ok((8, true)));
    assert_eq!(bank.read("acc"), Ok(100));
    assert_eq!(exec_one((Instruction::Not, vec![]), &mut bank, true), Ok((8, true)));
    assert_eq!(bank.read("acc"), Ok(0));
    for nonzero in [1, 99, 100, 101, u64::MAX] {
        let mut bank = bank_with(&[("acc", nonzero)]);
        assert_eq!(exec_one((Instruction::Not, vec![]), &mut bank, false), Ok((8, false)));
        assert_eq!(bank.read("acc"), Ok(0));
    }
}

#[test]
fn teq_sets_the_flag_exactly_when_equal() {
    let mut bank = bank_with(&[("x1", 5)]);
    let line = || (Instruction::Teq, vec![register("x1"), Arg::Number(5)]);
    assert_eq!(exec_one(line(), &mut bank, false), Ok((8, true)));
    assert_eq!(exec_one(line(), &mut bank, true), Ok((8, true)));
    bank.write("x1", 4);
    assert_eq!(exec_one(line(), &mut bank, false), Ok((8, false)));
    assert_eq!(exec_one(line(), &mut bank, true), Ok((8, false)));
    assert_eq!(contents(&bank), vec![(String::from("acc"), 0), (String::from("x1"), 4)]);
}

#[test]
fn tgt_and_tlt_compare_the_first_operand_with_the_second() {
    let mut bank = bank_with(&[("a", 3), ("b", 8)]);
    assert_eq!(exec_one((Instruction::Tgt, vec![register("a"), register("b")]), &mut bank, true), Ok((8, false)));
    assert_eq!(exec_one((Instruction::Tgt, vec![register("b"), register("a")]), &mut bank, false), Ok((8, true)));
    assert_eq!(exec_one((Instruction::Tgt, vec![Arg::Number(3), register("a")]), &mut bank, true), Ok((8, false)));
    assert_eq!(exec_one((Instruction::Tlt, vec![register("a"), register("b")]), &mut bank, false), Ok((8, true)));
    assert_eq!(exec_one((Instruction::Tlt, vec![Arg::Number(9), register("b")]), &mut bank, true), Ok((8, false)));
    assert_eq!(exec_one((Instruction::Tlt, vec![Arg::Number(1), Arg::Number(2)]), &mut bank, false), Ok((8, true)));
    assert_eq!(exec_one((Instruction::Teq, vec![Arg::Number(2), Arg::Number(2)]), &mut bank, false), Ok((8, true)));
}

#[test]
fn a_test_on_an_unwritten_register_fails() {
    let mut bank = RegisterBank::new();
    assert_eq!(
        exec_one((Instruction::Teq, vec![register("x1"), Arg::Number(5)]), &mut bank, false),
        Err(ErrorKind::UndefinedRegister)
    );
    assert_eq!(
        exec_one((Instruction::Tlt, vec![Arg::Number(5), register("x1")]), &mut bank, false),
        Err(ErrorKind::UndefinedRegister)
    );
    assert_eq!(
        exec_one((Instruction::Add, vec![register("x1")]), &mut bank, false),
        Err(ErrorKind::UndefinedRegister)
    );
}

#[test]
fn a_guarded_line_runs_only_when_the_flag_agrees() {
    let plus = || (Instruction::Add, vec![Arg::Number(1), Arg::BranchTrue]);
    let minus = || (Instruction::Add, vec![Arg::Number(1), Arg::BranchFalse]);
    let mut bank = RegisterBank::new();
    assert_eq!(exec_one(plus(), &mut bank, false), Ok((8, false)));
    assert_eq!(bank.read("acc"), Ok(0));
    assert_eq!(exec_one(plus(), &mut bank, true), Ok((8, true)));
    assert_eq!(bank.read("acc"), Ok(1));
    assert_eq!(exec_one(minus(), &mut bank, true), Ok((8, true)));
    assert_eq!(bank.read("acc"), Ok(1));
    assert_eq!(exec_one(minus(), &mut bank, false), Ok((8, false)));
    assert_eq!(bank.read("acc"), Ok(2));
}

#[test]
fn a_skipped_line_does_not_fail() {
    let mut bank = RegisterBank::new();
    let line = (Instruction::Add, vec![register("nowhere"), Arg::BranchTrue]);
    assert_eq!(exec_one(line, &mut bank, false), Ok((8, false)));
    let line = (Instruction::Jmp, vec![label("nowhere"), Arg::BranchFalse]);
    assert_eq!(exec_one(line, &mut bank, true), Ok((8, true)));
}

#[test]
fn nop_and_label_only_move_on() {
    let mut bank = bank_with(&[("x", 1)]);
    assert_eq!(exec_one((Instruction::Nop, vec![]), &mut bank, true), Ok((8, true)));
    assert_eq!(exec_one((Instruction::Label, vec![label("here")]), &mut bank, false), Ok((8, false)));
    assert_eq!(contents(&bank), vec![(String::from("acc"), 0), (String::from("x"), 1)]);
}

#[test]
fn jmp_goes_to_the_index_of_the_label() {
    let mut labels = LabelTable::new();
    labels.declare("back", 0);
    labels.declare("ahead", 12);
    let mut bank = RegisterBank::new();
    let line = (Instruction::Jmp, vec![label("ahead")]);
    assert_eq!(exec(&line, &mut bank, &labels, 5, &true), Ok((12, true)));
    let line = (Instruction::Jmp, vec![label("back")]);
    assert_eq!(exec(&line, &mut bank, &labels, 5, &false), Ok((0, false)));
    let line = (Instruction::Jmp, vec![label("nowhere")]);
    assert_eq!(exec(&line, &mut bank, &labels, 5, &false), Err(ErrorKind::UndefinedLabel));
    let line = (Instruction::Jmp, vec![label("ahead"), Arg::BranchTrue]);
    assert_eq!(exec(&line, &mut bank, &labels, 5, &true), Ok((12, true)));
    assert_eq!(exec(&line, &mut bank, &labels, 5, &false), Ok((6, false)));
}

#[test]
fn a_line_with_the_wrong_number_of_operands_fails() {
    let mut bank = RegisterBank::new();
    assert_eq!(exec_one((Instruction::Add, vec![]), &mut bank, false), Err(ErrorKind::ArityError));
    assert_eq!(
        exec_one((Instruction::Add, vec![Arg::BranchTrue, Arg::Number(1)]), &mut bank, true),
        Err(ErrorKind::ArityError)
    );
    assert_eq!(
        exec_one((Instruction::Nop, vec![Arg::Number(1)]), &mut bank, false),
        Err(ErrorKind::ArityError)
    );
    assert_eq!(contents(&bank), vec![(String::from("acc"), 0)]);
}

#[test]
fn the_guard_is_tested_before_the_operands() {
    let mut bank = RegisterBank::new();
    assert_eq!(exec_one((Instruction::Add, vec![Arg::BranchTrue]), &mut bank, false), Ok((8, false)));
    assert_eq!(
        exec_one((Instruction::Add, vec![Arg::BranchTrue]), &mut bank, true),
        Err(ErrorKind::ArityError)
    );
    assert_eq!(
        exec_one((Instruction::Mov, vec![Arg::Number(1), Arg::BranchFalse]), &mut bank, true),
        Ok((8, true))
    );
    assert_eq!(
        exec_one((Instruction::Sub, vec![label("x"), Arg::BranchFalse]), &mut bank, true),
        Ok((8, true))
    );
    assert_eq!(contents(&bank), vec![(String::from("acc"), 0)]);
}

#[test]
fn a_guard_counts_wherever_the_line_carries_it() {
    let mut bank = RegisterBank::new();
    assert_eq!(
        exec_one((Instruction::Add, vec![Arg::BranchTrue, Arg::Number(1)]), &mut bank, false),
        Ok((8, false))
    );
    assert_eq!(
        exec_one((Instruction::Add, vec![Arg::BranchFalse, Arg::Number(1)]), &mut bank, true),
        Ok((8, true))
    );
    let both = || (Instruction::Add, vec![Arg::Number(1), Arg::BranchFalse, Arg::BranchTrue]);
    assert_eq!(exec_one(both(), &mut bank, false), Ok((8, false)));
    assert_eq!(exec_one(both(), &mut bank, true), Ok((8, true)));
    assert_eq!(contents(&bank), vec![(String::from("acc"), 0)]);
}

#[test]
fn add_mul_and_mov_pass_over_an_operand_they_cannot_work_on() {
    let mut bank = bank_with(&[("acc", 3), ("x", 4)]);
    assert_eq!(exec_one((Instruction::Add, vec![label("x")]), &mut bank, true), Ok((8, true)));
    assert_eq!(exec_one((Instruction::Mul, vec![label("x")]), &mut bank, false), Ok((8, false)));
    assert_eq!(
        exec_one((Instruction::Mov, vec![Arg::Number(1), Arg::Number(2)]), &mut bank, false),
        Ok((8, false))
    );
    assert_eq!(
        exec_one((Instruction::Mov, vec![register("x"), Arg::Number(2)]), &mut bank, false),
        Ok((8, false))
    );
    assert_eq!(
        exec_one((Instruction::Mov, vec![register("nowhere"), label("x")]), &mut bank, false),
        Ok((8, false))
    );
    assert_eq!(
        exec_one((Instruction::Mov, vec![label("x"), register("x")]), &mut bank, false),
        Ok((8, false))
    );
    assert_eq!(contents(&bank), vec![(String::from("acc"), 3), (String::from("x"), 4)]);
}

#[test]
fn sub_the_tests_and_jmp_fail_on_an_operand_they_cannot_work_on() {
    let mut bank = bank_with(&[("acc", 3), ("x", 4)]);
    assert_eq!(exec_one((Instruction::Sub, vec![label("x")]), &mut bank, false), Err(ErrorKind::LexError));
    assert_eq!(
        exec_one((Instruction::Teq, vec![label("x"), Arg::Number(1)]), &mut bank, false),
        Err(ErrorKind::LexError)
    );
    assert_eq!(
        exec_one((Instruction::Tgt, vec![Arg::Number(1), label("x")]), &mut bank, false),
        Err(ErrorKind::LexError)
    );
    assert_eq!(
        exec_one((Instruction::Tlt, vec![register("nowhere"), label("x")]), &mut bank, false),
        Err(ErrorKind::UndefinedRegister)
    );
    assert_eq!(
        exec_one((Instruction::Jmp, vec![Arg::Number(1)]), &mut bank, false),
        Err(ErrorKind::UndefinedLabel)
    );
    assert_eq!(
        exec_one((Instruction::Jmp, vec![register("x")]), &mut bank, false),
        Err(ErrorKind::UndefinedLabel)
    );
    assert_eq!(contents(&bank), vec![(String::from("acc"), 3), (String::from("x"), 4)]);
}

#[test]
fn mov_to_a_number_and_jmp_to_a_number_in_a_program() {
    let outcome = run_text(&["mov 1 2", "add 4"], RegisterBank::new(), None).unwrap();
    assert_eq!(outcome.steps, 2);
    assert_eq!(contents(&outcome.registers), vec![(String::from("acc"), 4)]);
    let fault = run_text(&["5:", "jmp 5"], RegisterBank::new(), Some(10)).err();
    assert_eq!(fault, Some(Fault { pc: 1, instruction: Instruction::Jmp, kind: ErrorKind::UndefinedLabel }));
}

#[test]
fn the_counter_stays_at_the_largest_index() {
    let mut bank = RegisterBank::new();
    let mut labels = LabelTable::new();
    labels.declare("here", 3);
    assert_eq!(exec(&(Instruction::Nop, vec![]), &mut bank, &labels, usize::MAX, &false), Ok((usize::MAX, false)));
    assert_eq!(exec(&(Instruction::Nop, vec![]), &mut bank, &labels, usize::MAX - 1, &true), Ok((usize::MAX, true)));
    assert_eq!(exec(&(Instruction::Jmp, vec![label("here")]), &mut bank, &labels, usize::MAX, &false), Ok((3, false)));
}

#[test]
fn the_scenario_runs_in_six_steps() {
    let outcome = run_text(
        &["mov 5 x1", "teq x1 5", "+ add 1", "jmp end", "end:", "nop"],
        RegisterBank::new(),
        None,
    )
    .unwrap();
    assert_eq!(outcome.steps, 6);
    assert_eq!(outcome.pc, 6);
    assert!(outcome.flag);
    assert!(outcome.halted);
    assert_eq!(outcome.registers.read("x1"), Ok(5));
    assert_eq!(outcome.registers.read("acc"), Ok(1));
    assert_eq!(contents(&outcome.registers), vec![(String::from("acc"), 1), (String::from("x1"), 5)]);
}

#[test]
fn the_scenario_step_by_step() {
    let program = Program::load(&source(&["mov 5 x1", "teq x1 5", "+ add 1", "jmp end", "end:", "nop"])).unwrap();
    let labels = resolve_labels(&program);
    let mut bank = RegisterBank::new();
    let mut state = (0, false);
    let mut trace = Vec::new();
    while state.0 < program.len() {
        state = exec(program.line(state.0), &mut bank, &labels, state.0, &state.1).unwrap();
        trace.push((state.0, state.1, bank.read("acc").unwrap(), bank.read("x1").ok()));
    }
    assert_eq!(
        trace,
        vec![
            (1, false, 0, Some(5)),
            (2, true, 0, Some(5)),
            (3, true, 1, Some(5)),
            (4, true, 1, Some(5)),
            (5, true, 1, Some(5)),
            (6, true, 1, Some(5)),
        ]
    );
}

#[test]
fn two_runs_end_alike() {
    let lines = ["mov 3 n", "loop:", "add n", "mov acc last", "teq acc 9", "- jmp loop", "not"];
    let first = run_text(&lines, bank_with(&[("seed", 4)]), None).unwrap();
    let second = run_text(&lines, bank_with(&[("seed", 4)]), None).unwrap();
    assert_eq!(first.steps, second.steps);
    assert_eq!(first.pc, second.pc);
    assert_eq!(first.flag, second.flag);
    assert_eq!(contents(&first.registers), contents(&second.registers));
    assert_eq!(first.steps, 17);
    assert_eq!(
        contents(&first.registers),
        vec![
            (String::from("acc"), 0),
            (String::from("seed"), 4),
            (String::from("n"), 3),
            (String::from("last"), 9)
        ]
    );
}

#[test]
fn a_backward_jump_loops_until_the_test_holds() {
    let outcome = run_text(
        &["top:", "add 2", "tlt acc 10", "+ jmp top", "mov acc out"],
        RegisterBank::new(),
        Some(1000),
    )
    .unwrap();
    assert!(outcome.halted);
    assert_eq!(outcome.registers.read("out"), Ok(10));
    assert_eq!(outcome.steps, 21);
    assert!(!outcome.flag);
}

#[test]
fn a_forward_jump_skips_what_lies_between() {
    let outcome = run_text(&["jmp over", "add 1", "add 1", "over:", "add 5"], RegisterBank::new(), None).unwrap();
    assert_eq!(outcome.registers.read("acc"), Ok(5));
    assert_eq!(outcome.steps, 3);
    assert_eq!(outcome.pc, 5);
}

#[test]
fn the_ceiling_stops_a_run_that_does_not_halt() {
    let outcome = run_text(&["again:", "add 1", "jmp again"], RegisterBank::new(), Some(10)).unwrap();
    assert!(!outcome.halted);
    assert_eq!(outcome.steps, 10);
    assert_eq!(outcome.pc, 1);
    assert_eq!(outcome.registers.read("acc"), Ok(3));
    let outcome = run_text(&["again:", "add 1", "jmp again"], RegisterBank::new(), Some(0)).unwrap();
    assert!(!outcome.halted);
    assert_eq!(outcome.steps, 0);
    assert_eq!(outcome.pc, 0);
}

#[test]
fn a_ceiling_that_is_not_reached_changes_nothing() {
    let lines = ["mov 2 x", "add x", "mul 21"];
    let bounded = run_text(&lines, RegisterBank::new(), Some(3)).unwrap();
    let free = run_text(&lines, RegisterBank::new(), None).unwrap();
    assert!(bounded.halted && free.halted);
    assert_eq!(bounded.steps, 3);
    assert_eq!(free.steps, 3);
    assert_eq!(contents(&bounded.registers), contents(&free.registers));
    assert_eq!(free.registers.read("acc"), Ok(42));
}

#[test]
fn the_empty_program_halts_at_once() {
    let outcome = run_text(&[], bank_with(&[("x", 1)]), None).unwrap();
    assert!(outcome.halted);
    assert_eq!(outcome.steps, 0);
    assert_eq!(outcome.pc, 0);
    assert!(!outcome.flag);
    assert_eq!(outcome.registers.read("x"), Ok(1));
}

#[test]
fn a_fault_names_the_line_and_the_instruction() {
    let fault = run_text(&["nop", "add x9"], RegisterBank::new(), None).err();
    assert_eq!(
        fault,
        Some(Fault { pc: 1, instruction: Instruction::Add, kind: ErrorKind::UndefinedRegister })
    );
    let fault = run_text(&["# c", "nop", "nop", "jmp nowhere", "nop"], RegisterBank::new(), None).err();
    assert_eq!(fault, Some(Fault { pc: 2, instruction: Instruction::Jmp, kind: ErrorKind::UndefinedLabel }));
    let fault = run_text(&["sub 1"], RegisterBank::new(), None).err();
    assert_eq!(
        fault,
        Some(Fault { pc: 0, instruction: Instruction::Sub, kind: ErrorKind::ArithmeticBoundary })
    );
    let fault = run_text(&["mov 4294967296 x", "mov x acc", "mul x", "mul x"], RegisterBank::new(), None).err();
    assert_eq!(
        fault,
        Some(Fault { pc: 2, instruction: Instruction::Mul, kind: ErrorKind::ArithmeticBoundary })
    );
}

#[test]
fn a_jump_to_a_label_declared_twice_goes_to_the_last() {
    let outcome = run_text(
        &["jmp a", "a:", "add 1", "jmp out", "a:", "add 10", "out:"],
        RegisterBank::new(),
        Some(100),
    )
    .unwrap();
    assert!(outcome.halted);
    assert_eq!(outcome.registers.read("acc"), Ok(10));
    assert_eq!(outcome.steps, 4);
}
