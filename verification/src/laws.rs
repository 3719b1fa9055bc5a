//! Laws of the machine: what holds of every program, every line and every
//! state, proved from the definitions of the other modules.

use crate::error::{ErrorKind, Fault, LoadError};
use crate::instruction::{
    arity, guard_of, is_guard, operands_of, ArgView, Instruction, LineView,
};
use crate::labels::{declared_label, label_map, lemma_label_map};
use crate::machine::{
    arithmetic, comparison, counter_of, exec_spec, fuel_of, run_from, start, step, suppressed,
    value_of, Effect, Snapshot,
};
use crate::parse::{
    carried_guard, classified, classify, decode, decode_args, is_guard_token, is_guarded,
    label_tokens, lemma_operand_tokens_of_plain, lex_line, mnemonic, operand_tokens,
};
use crate::program::{decode_line, lemma_load_fails_early, load_lines};
use crate::register::{acc_name, read_register};
use crate::text::{
    colon_index, is_space, lemma_colon_index, lemma_colon_index_is, lemma_first_word,
    lemma_trim_start_keeps, lemma_word_len_bounds, trim_start, word_len, words,
};
use vstd::prelude::*;

verus! {

/// A run is determined by what it starts from: two runs of one program with
/// one label table, on equal registers and under one ceiling, end alike,
/// either in the same registers after the same number of steps, at the same
/// line and with the same flag, or in the same fault.
pub proof fn law_run_is_deterministic(
    program: Seq<LineView>,
    labels: Map<Seq<char>, usize>,
    bank: Map<Seq<char>, u64>,
    ceiling: Option<u64>,
    first: Result<Snapshot, Fault>,
    second: Result<Snapshot, Fault>,
)
    requires
        first == run_from(program, labels, start(bank), fuel_of(ceiling)),
        second == run_from(program, labels, start(bank), fuel_of(ceiling)),
    ensures
        first == second,
{
}

/// A run that halts within some number of steps ends in the same state with
/// any larger allowance: the ceiling does not change what a program
/// computes.
pub proof fn law_ceiling_is_no_part_of_the_result(
    program: Seq<LineView>,
    labels: Map<Seq<char>, usize>,
    state: Snapshot,
    fuel: nat,
    more: nat,
)
    requires
        fuel <= more,
        run_from(program, labels, state, fuel) matches Ok(end) && end.pc >= program.len(),
    ensures
        run_from(program, labels, state, more) == run_from(program, labels, state, fuel),
    decreases fuel,
{
    if fuel > 0 && state.pc < program.len() {
        match step(program, labels, state) {
            Ok(next) => {
                law_ceiling_is_no_part_of_the_result(
                    program,
                    labels,
                    next,
                    (fuel - 1) as nat,
                    (more - 1) as nat,
                );
            },
            Err(_) => {},
        }
    }
}

/// After `mov` of a value to a register, the register reads as that value,
/// whether or not it existed before.
pub proof fn law_mov_then_read(
    bank: Map<Seq<char>, u64>,
    labels: Map<Seq<char>, usize>,
    pc: int,
    flag: bool,
    source: ArgView,
    target: Seq<char>,
)
    requires
        value_of(bank, source) is Ok,
    ensures
        exec_spec(
            (Instruction::Mov, seq![source, ArgView::Register(target)]),
            bank,
            labels,
            pc,
            flag,
        ) matches Ok(effect) && read_register(effect.bank, target) == value_of(bank, source)
            && effect.pc == pc + 1 && effect.flag == flag,
{
    let args = seq![source, ArgView::Register(target)];
    assert(operands_of(args) == args);
}

/// `add` of a value and then `sub` of the same value bring the accumulator
/// back to where it was, wherever the sum fits the accumulator.
pub proof fn law_add_then_sub(
    bank: Map<Seq<char>, u64>,
    labels: Map<Seq<char>, usize>,
    pc: int,
    flag: bool,
    amount: u64,
)
    requires
        bank.contains_key(acc_name()),
        bank[acc_name()] + amount <= u64::MAX,
    ensures
        exec_spec((Instruction::Add, seq![ArgView::Number(amount)]), bank, labels, pc, flag)
            matches Ok(added) && exec_spec(
            (Instruction::Sub, seq![ArgView::Number(amount)]),
            added.bank,
            labels,
            added.pc,
            added.flag,
        ) matches Ok(back) && back.bank == bank && back.pc == pc + 2 && back.flag == flag,
{
    let args = seq![ArgView::Number(amount)];
    assert(operands_of(args) == args);
    let acc = bank[acc_name()];
    let sum = (acc + amount) as u64;
    assert(arithmetic(Instruction::Add, acc, amount) == Ok::<u64, ErrorKind>(sum));
    let added = bank.insert(acc_name(), sum);
    assert(arithmetic(Instruction::Sub, sum, amount) == Ok::<u64, ErrorKind>(acc));
    assert(added.insert(acc_name(), acc) =~= bank);
}

/// `not` makes 100 of an accumulator that holds 0, and 0 of one that holds
/// anything else. It changes nothing but the accumulator.
pub proof fn law_not_toggles(
    bank: Map<Seq<char>, u64>,
    labels: Map<Seq<char>, usize>,
    pc: int,
    flag: bool,
)
    requires
        bank.contains_key(acc_name()),
    ensures
        exec_spec((Instruction::Not, Seq::<ArgView>::empty()), bank, labels, pc, flag) == Ok::<
            Effect,
            ErrorKind,
        >(
            Effect {
                pc: pc + 1,
                flag,
                bank: bank.insert(
                    acc_name(),
                    if bank[acc_name()] == 0 {
                        100
                    } else {
                        0
                    },
                ),
            },
        ),
{
    let args = Seq::<ArgView>::empty();
    assert(operands_of(args) == args);
}

/// A test sets the branch flag to the outcome of its comparison, and to
/// nothing else: after `teq` the flag is set if and only if the two values
/// are equal, after `tgt` if and only if the first is the greater, after
/// `tlt` if and only if the first is the smaller. The registers stay as they
/// are and the program goes on at the next line, whatever the outcome.
pub proof fn law_test_sets_flag(
    bank: Map<Seq<char>, u64>,
    labels: Map<Seq<char>, usize>,
    pc: int,
    flag: bool,
    test: Instruction,
    left: ArgView,
    right: ArgView,
)
    requires
        test == Instruction::Teq || test == Instruction::Tgt || test == Instruction::Tlt,
        value_of(bank, left) is Ok,
        value_of(bank, right) is Ok,
    ensures
        exec_spec((test, seq![left, right]), bank, labels, pc, flag) == Ok::<Effect, ErrorKind>(
            Effect {
                pc: pc + 1,
                flag: comparison(test, value_of(bank, left)->Ok_0, value_of(bank, right)->Ok_0),
                bank,
            },
        ),
        comparison(Instruction::Teq, value_of(bank, left)->Ok_0, value_of(bank, right)->Ok_0) <==> (
        value_of(bank, left)->Ok_0 == value_of(bank, right)->Ok_0),
{
    let args = seq![left, right];
    assert(operands_of(args) == args);
}

/// A guarded line runs only while the branch flag is what its guard asks
/// for. A line that carries `+` is skipped while the flag is clear, and one
/// that carries `-` while the flag is set, whatever else the line holds: the
/// program goes on at the next line, and the flag and the registers stay as
/// they are. While the flag agrees, a line with its one guard at the end
/// does what it would do without the guard.
pub proof fn law_guard_follows_flag(
    line: LineView,
    bank: Map<Seq<char>, u64>,
    labels: Map<Seq<char>, usize>,
    pc: int,
    flag: bool,
)
    ensures
        (line.1.contains(ArgView::BranchTrue) && !flag) || (line.1.contains(ArgView::BranchFalse)
            && flag) ==> exec_spec(line, bank, labels, pc, flag) == Ok::<Effect, ErrorKind>(
            Effect { pc: pc + 1, flag, bank },
        ),
        guard_of(line.1) == Some(flag) && (forall|i: int|
            0 <= i < operands_of(line.1).len() ==> !is_guard(#[trigger] operands_of(line.1)[i]))
            ==> exec_spec(line, bank, labels, pc, flag) == exec_spec(
            (line.0, operands_of(line.1)),
            bank,
            labels,
            pc,
            flag,
        ),
{
    let args = line.1;
    let operands = operands_of(args);
    if guard_of(args) == Some(flag) && (forall|i: int|
        0 <= i < operands.len() ==> !is_guard(#[trigger] operands[i])) {
        let unwanted = if flag {
            ArgView::BranchFalse
        } else {
            ArgView::BranchTrue
        };
        assert(!args.contains(unwanted)) by {
            if args.contains(unwanted) {
                let i = choose|i: int| 0 <= i < args.len() && args[i] == unwanted;
                if i < operands.len() {
                    assert(operands[i] == args[i]);
                }
            }
        }
        assert(!operands.contains(unwanted)) by {
            if operands.contains(unwanted) {
                let i = choose|i: int| 0 <= i < operands.len() && operands[i] == unwanted;
                assert(is_guard(operands[i]));
            }
        }
        if operands.len() > 0 {
            assert(!is_guard(operands.last()));
        }
        assert(operands_of(operands) == operands);
    }
}

/// The arguments of a decoded instruction are its tokens one by one, each
/// classified by its own form and in the order given: a number as a
/// literal, any other token as a name.
pub proof fn law_decode_classifies_each_token(
    head: Seq<char>,
    tokens: Seq<Seq<char>>,
    instr: Instruction,
)
    requires
        head.len() > 0,
        head[0] != '#',
        !head.contains(':'),
        mnemonic(head) == Some(instr),
        carried_guard(tokens) is None,
        tokens.len() == arity(instr),
    ensures
        decode(head, tokens) matches Ok(Some(line)) && line.0 == instr && line.1.len()
            == tokens.len() && forall|i: int|
            0 <= i < tokens.len() ==> #[trigger] line.1[i] == classify(instr, tokens[i]),
{
    lemma_operand_tokens_of_plain(tokens);
    let args = decode_args(instr, tokens);
    if args.len() > 0 {
        assert(args.last() == classify(instr, tokens[tokens.len() - 1]));
    }
    assert(operands_of(args) == args);
}

/// A decoded line holds one guard at most, and holds it last, wherever the
/// guard stood among the tokens and however many there were.
pub proof fn law_decoded_guard_stands_last(
    head: Seq<char>,
    tokens: Seq<Seq<char>>,
    line: LineView,
    i: int,
)
    requires
        decode(head, tokens) == Ok::<Option<LineView>, ErrorKind>(Some(line)),
        0 <= i < line.1.len(),
        is_guard(line.1[i]),
    ensures
        i == line.1.len() - 1,
        carried_guard(tokens) == Some(line.1[i]),
{
    if !(head.contains(':') && !is_guarded(tokens)) {
        let instr = mnemonic(head)->Some_0;
        let operands = classified(instr, operand_tokens(tokens));
        if i < operands.len() {
            assert(line.1[i] == operands[i]);
        }
    }
}

/// Only a test changes the branch flag, and only a jump leaves the order of
/// the lines: after any other line that runs without failing, the flag is
/// what it was, or the program goes on at the next line.
pub proof fn law_flag_and_counter(
    line: LineView,
    bank: Map<Seq<char>, u64>,
    labels: Map<Seq<char>, usize>,
    pc: int,
    flag: bool,
)
    requires
        exec_spec(line, bank, labels, pc, flag) is Ok,
    ensures
        line.0 != Instruction::Teq && line.0 != Instruction::Tgt && line.0 != Instruction::Tlt
            ==> exec_spec(line, bank, labels, pc, flag)->Ok_0.flag == flag,
        line.0 != Instruction::Jmp ==> exec_spec(line, bank, labels, pc, flag)->Ok_0.pc == pc
            + 1,
        line.0 != Instruction::Mov && line.0 != Instruction::Add && line.0 != Instruction::Sub
            && line.0 != Instruction::Mul && line.0 != Instruction::Not ==> exec_spec(
            line,
            bank,
            labels,
            pc,
            flag,
        )->Ok_0.bank == bank,
{
}

/// A jump lands on its label: a `jmp` that runs goes on exactly at the line
/// that declares the label (the last such line, where there are several),
/// whether that line stands before the jump or after it. Neither the flag nor
/// the registers change.
pub proof fn law_jump_lands_on_label(
    program: Seq<LineView>,
    state: Snapshot,
    name: Seq<char>,
    target: int,
)
    requires
        program.len() <= usize::MAX,
        0 <= state.pc < program.len(),
        program[state.pc].0 == Instruction::Jmp,
        operands_of(program[state.pc].1) == seq![ArgView::Label(name)],
        !suppressed(program[state.pc].1, state.flag),
        0 <= target < program.len(),
        declared_label(program[target]) == Some(name),
        forall|j: int| target < j < program.len() ==> declared_label(#[trigger] program[j]) != Some(
            name,
        ),
    ensures
        step(program, label_map(program), state) == Ok::<Snapshot, Fault>(
            Snapshot { pc: target, flag: state.flag, bank: state.bank, steps: state.steps + 1 },
        ),
{
    lemma_label_map(program, name);
    let at = label_map(program)[name] as int;
    assert(at == target);
}

/// A line that holds a colon, and starts neither as a comment nor with a
/// guard, declares a label, whatever else it holds. The name of the label is
/// the text before the first colon, without the white space at the start of
/// the line.
pub proof fn law_label_line_declares_label(line: Seq<char>)
    requires
        line.contains(':'),
        trim_start(line)[0] != '#',
        !is_guard_token(words(line)[0]),
    ensures
        decode_line(line) == Ok::<Option<LineView>, ErrorKind>(
            Some(
                (
                    Instruction::Label,
                    seq![
                        ArgView::Label(
                            trim_start(line).take(colon_index(trim_start(line)) as int),
                        ),
                    ],
                ),
            ),
        ),
{
    let text = trim_start(line);
    let colon = colon_index(text) as int;
    let w = words(line);
    lemma_trim_start_keeps(line, ':');
    lemma_colon_index(text);
    assert(w.len() > 0) by {
        lemma_words_of_text(line);
    }
    lemma_first_word(line);
    if !is_space(line[0]) {
        assert(text == line);
    }
    if line[0] == ':' {
        assert(colon == 0);
    } else if w[0].contains(':') {
        let head = w[0];
        lemma_word_len_bounds(text);
        assert(head.len() == word_len(text));
        lemma_colon_index(head);
        let at = colon_index(head) as int;
        assert forall|k: int| 0 <= k < at implies #[trigger] text[k] != ':' by {
            assert(text[k] == head[k]);
        }
        assert(text[at] == head[at]);
        lemma_colon_index_is(text, at);
        assert(head.take(at) =~= text.take(colon));
        assert(!is_guarded(label_tokens(w.skip(1))));
    } else {
        let head = text.take(colon + 1);
        assert(head[colon] == ':');
        assert(head.contains(':'));
        assert forall|k: int| 0 <= k < colon implies #[trigger] head[k] != ':' by {
            assert(head[k] == text[k]);
        }
        lemma_colon_index_is(head, colon);
        assert(head.take(colon) =~= text.take(colon));
        assert(lex_line(line) == Ok::<(Seq<char>, Seq<Seq<char>>), ErrorKind>(
            (head, Seq::<Seq<char>>::empty()),
        ));
    }
}

/// A text that holds a colon holds a word.
proof fn lemma_words_of_text(s: Seq<char>)
    requires
        s.contains(':'),
    ensures
        words(s).len() > 0,
    decreases s.len(),
{
    if s.len() > 0 && is_space(s[0]) {
        let t = s.drop_first();
        let i = choose|i: int| 0 <= i < s.len() && s[i] == ':';
        assert(t[i - 1] == ':');
        lemma_words_of_text(t);
    }
}

/// The line is an instruction line whose mnemonic names no instruction.
pub open spec fn has_unknown_mnemonic(line: Seq<char>) -> bool {
    lex_line(line) matches Ok(lexed) && lexed.0.len() > 0 && lexed.0[0] != '#' && !(
    lexed.0.contains(':') && !is_guarded(lexed.1)) && mnemonic(lexed.0) is None
}

/// A mnemonic outside the instruction set, on any line of the source, makes
/// the load fail, so that no program comes into being and nothing runs. The
/// load reports [`ErrorKind::UnknownInstruction`] for that line unless an
/// earlier line fails first.
pub proof fn law_unknown_mnemonic_fails_load(source: Seq<Seq<char>>, at: int)
    requires
        0 <= at < source.len(),
        has_unknown_mnemonic(source[at]),
    ensures
        decode_line(source[at]) == Err::<Option<LineView>, ErrorKind>(
            ErrorKind::UnknownInstruction,
        ),
        load_lines(source) is Err,
        load_lines(source.take(at)) is Ok ==> load_lines(source) == Err::<
            Seq<LineView>,
            LoadError,
        >(LoadError { line: at as usize, kind: ErrorKind::UnknownInstruction }),
{
    assert(source.take(at + 1).drop_last() =~= source.take(at));
    assert(source.take(at + 1).last() == source[at]);
    lemma_load_fails_early(source, at + 1);
}

/// A decoded line fails only for what the run meets: a register that was
/// never written, a label that was never declared, a result that does not
/// fit the accumulator. So a loaded program never fails with an error of the
/// load.
pub proof fn law_decoded_line_fails_only_at_run_time(
    head: Seq<char>,
    tokens: Seq<Seq<char>>,
    line: LineView,
    bank: Map<Seq<char>, u64>,
    labels: Map<Seq<char>, usize>,
    pc: int,
    flag: bool,
)
    requires
        decode(head, tokens) == Ok::<Option<LineView>, ErrorKind>(Some(line)),
    ensures
        exec_spec(line, bank, labels, pc, flag) matches Err(kind) ==> kind
            == ErrorKind::UndefinedRegister || kind == ErrorKind::UndefinedLabel || kind
            == ErrorKind::ArithmeticBoundary,
{
    if !(head.contains(':') && !is_guarded(tokens)) {
        let instr = mnemonic(head)->Some_0;
        let names = operand_tokens(tokens);
        let plain = classified(instr, names);
        let operands = operands_of(line.1);
        if plain.len() > 0 {
            assert(!is_guard(plain.last()));
        }
        assert(operands == plain);
        if operands.len() > 0 {
            assert(operands[0] == classify(instr, names[0]));
        }
        if operands.len() > 1 {
            assert(operands[1] == classify(instr, names[1]));
        }
    }
}

/// What a line does is determined by the line, the registers, the labels,
/// the program counter and the branch flag: two executions from equal
/// registers end alike, in the same counter, the same flag and equal
/// registers, or in the same error.
pub proof fn law_exec_is_deterministic(
    line: LineView,
    bank: Map<Seq<char>, u64>,
    labels: Map<Seq<char>, usize>,
    pc: int,
    flag: bool,
    first: Result<Effect, ErrorKind>,
    second: Result<Effect, ErrorKind>,
)
    requires
        first == exec_spec(line, bank, labels, pc, flag),
        second == exec_spec(line, bank, labels, pc, flag),
    ensures
        first == second,
{
}

/// A jump that runs goes on exactly at the index that the table holds for
/// its label, wherever the program counter stands: before that index, on it
/// or after it. The flag and the registers stay as they are.
pub proof fn law_jump_goes_to_the_index(
    bank: Map<Seq<char>, u64>,
    labels: Map<Seq<char>, usize>,
    pc: int,
    flag: bool,
    name: Seq<char>,
)
    requires
        labels.contains_key(name),
    ensures
        exec_spec((Instruction::Jmp, seq![ArgView::Label(name)]), bank, labels, pc, flag) == Ok::<
            Effect,
            ErrorKind,
        >(Effect { pc: labels[name] as int, flag, bank }),
        counter_of(labels[name] as int) == labels[name],
{
    let args = seq![ArgView::Label(name)];
    assert(operands_of(args) == args);
}

} // verus!
