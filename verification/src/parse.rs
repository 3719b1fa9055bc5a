//! The lexer and the decoder: from a line of text to a typed program line.
//!
//! A line is lexed into a head and a list of tokens, and that pair is decoded
//! into an instruction with its arguments. In a lexed instruction the head is
//! the mnemonic; the lexer puts a guard, `+` or `-`, first among the tokens,
//! before the operands, and the decoder takes a guard wherever it stands
//! among them. A comment is known by the `#` at the start of its head, and a
//! label declaration by the colon in its head, with tokens that start with
//! no guard.

use crate::error::ErrorKind;
use crate::instruction::{check_line, line_fault, Arg, ArgView, Instruction, LineView};
use crate::text::{
    chars_of, colon_index, find_colon, is_space, lemma_colon_index_is, lemma_words_are_solid,
    number, parse_number, same_text, skip_spaces, split_words, trim_start, words,
};
use vstd::prelude::*;
use vstd::string::*;

verus! {

/// A lexed line, as a value: the head and the tokens.
pub type Lexed = (Seq<char>, Seq<Seq<char>>);

/// The token is a guard: `+` or `-` alone.
pub open spec fn is_guard_token(token: Seq<char>) -> bool {
    token == "+"@ || token == "-"@
}

/// The list of tokens starts with a guard.
pub open spec fn is_guarded(tokens: Seq<Seq<char>>) -> bool {
    tokens.len() > 0 && is_guard_token(tokens[0])
}

/// One of the tokens is a guard.
pub open spec fn holds_guard_token(tokens: Seq<Seq<char>>) -> bool {
    exists|i: int| 0 <= i < tokens.len() && is_guard_token(#[trigger] tokens[i])
}

/// Lexes the words of an instruction line: an optional guard, the mnemonic,
/// and at most two operands, none of which is a bare `+` or `-`.
///
/// The result is the mnemonic as the head and, as the tokens, the guard (if
/// there is one) followed by the operands. Any other shape is an
/// [`ErrorKind::LexError`]: no word at all, a guard without a mnemonic, more
/// than two operands, a guard among the operands.
pub open spec fn lex_words(words: Seq<Seq<char>>) -> Result<Lexed, ErrorKind> {
    let first: int = if is_guarded(words) {
        2
    } else {
        1
    };
    if words.len() < first || words.len() > first + 2 || holds_guard_token(words.skip(first)) {
        Err(ErrorKind::LexError)
    } else if first == 2 {
        Ok((words[1], seq![words[0]] + words.skip(2)))
    } else {
        Ok((words[0], words.skip(1)))
    }
}

/// Lexes an instruction line: its words, split at white space, go through
/// [`lex_words`].
pub open spec fn lex_instruction(line: Seq<char>) -> Result<Lexed, ErrorKind> {
    lex_words(words(line))
}

/// The head that carries a label declaration: the line from its first
/// character other than white space up to and including its first colon.
pub open spec fn label_head(line: Seq<char>) -> Seq<char> {
    let text = trim_start(line);
    text.take(colon_index(text) as int + 1)
}

/// The guard that a list of tokens carries: [`Arg::BranchTrue`] where one
/// of the tokens is `+`, else [`Arg::BranchFalse`] where one of them is `-`,
/// and none where no token is a guard.
pub open spec fn carried_guard(tokens: Seq<Seq<char>>) -> Option<ArgView> {
    if tokens.contains("+"@) {
        Some(ArgView::BranchTrue)
    } else if tokens.contains("-"@) {
        Some(ArgView::BranchFalse)
    } else {
        None
    }
}

/// The operand tokens of a list of tokens: its tokens other than guards, in
/// order.
pub open spec fn operand_tokens(tokens: Seq<Seq<char>>) -> Seq<Seq<char>>
    decreases tokens.len(),
{
    if tokens.len() == 0 {
        Seq::empty()
    } else {
        let front = operand_tokens(tokens.drop_last());
        if is_guard_token(tokens.last()) {
            front
        } else {
            front.push(tokens.last())
        }
    }
}

/// The tokens that go with the head of a label declaration: the words after
/// it. Where those start with a guard they are dropped, since tokens that
/// start with a guard mark a line that starts with one.
pub open spec fn label_tokens(rest: Seq<Seq<char>>) -> Seq<Seq<char>> {
    if is_guarded(rest) {
        Seq::empty()
    } else {
        rest
    }
}

/// Lexes a line of source text. The rules, in order:
///
/// 1. A line that is empty or all white space gives the empty head.
/// 2. A line whose first character other than white space is `#` is a
///    comment. Where the `#` is the first character of the line, the head is
///    the line as it stands, and there are no tokens. Where white space
///    stands before the `#`, the head is the first word and the tokens are
///    the words after it.
/// 3. A line that holds a colon and does not start with a guard declares a
///    label. Where the colon is the first character of the line, the head is
///    the line as it stands, and there are no tokens. Where the first word
///    holds a colon, the head is that word, and the tokens are what
///    [`label_tokens`] makes of the words after it. Where the first colon
///    stands in a later word, the head is the text up to and including that
///    colon, and there are no tokens.
/// 4. Any other line is an instruction line, lexed by [`lex_instruction`].
pub open spec fn lex_line(line: Seq<char>) -> Result<Lexed, ErrorKind> {
    let w = words(line);
    if w.len() == 0 {
        Ok((Seq::empty(), Seq::empty()))
    } else if line[0] == '#' || line[0] == ':' {
        Ok((line, Seq::empty()))
    } else if w[0][0] == '#' {
        Ok((w[0], w.skip(1)))
    } else if !is_guard_token(w[0]) && line.contains(':') {
        if w[0].contains(':') {
            Ok((w[0], label_tokens(w.skip(1))))
        } else {
            Ok((label_head(line), Seq::empty()))
        }
    } else {
        lex_instruction(line)
    }
}

/// The instruction that a mnemonic names.
pub open spec fn mnemonic(word: Seq<char>) -> Option<Instruction> {
    if word == "nop"@ {
        Some(Instruction::Nop)
    } else if word == "mov"@ {
        Some(Instruction::Mov)
    } else if word == "add"@ {
        Some(Instruction::Add)
    } else if word == "sub"@ {
        Some(Instruction::Sub)
    } else if word == "mul"@ {
        Some(Instruction::Mul)
    } else if word == "not"@ {
        Some(Instruction::Not)
    } else if word == "jmp"@ {
        Some(Instruction::Jmp)
    } else if word == "teq"@ {
        Some(Instruction::Teq)
    } else if word == "tgt"@ {
        Some(Instruction::Tgt)
    } else if word == "tlt"@ {
        Some(Instruction::Tlt)
    } else {
        None
    }
}

/// The argument that an operand token stands for: a literal where the token
/// writes a number, else a name, of a label for `jmp` and of a register for
/// every other instruction.
pub open spec fn classify(instr: Instruction, token: Seq<char>) -> ArgView {
    match number(token) {
        Some(n) => ArgView::Number(n),
        None => if instr == Instruction::Jmp {
            ArgView::Label(token)
        } else {
            ArgView::Register(token)
        },
    }
}

/// The arguments that operand tokens stand for, one by one.
pub open spec fn classified(instr: Instruction, tokens: Seq<Seq<char>>) -> Seq<ArgView> {
    Seq::new(tokens.len(), |i: int| classify(instr, tokens[i]))
}

/// The arguments that the tokens of an instruction stand for: the operands
/// in order, then the guard where the tokens carry one. A guard token counts
/// as the guard wherever it stands among the tokens, and never as an
/// operand.
pub open spec fn decode_args(instr: Instruction, tokens: Seq<Seq<char>>) -> Seq<ArgView> {
    let operands = classified(instr, operand_tokens(tokens));
    match carried_guard(tokens) {
        Some(guard) => operands.push(guard),
        None => operands,
    }
}

/// Tokens without a guard are all operand tokens.
pub proof fn lemma_operand_tokens_of_plain(tokens: Seq<Seq<char>>)
    requires
        carried_guard(tokens) is None,
    ensures
        operand_tokens(tokens) == tokens,
    decreases tokens.len(),
{
    if tokens.len() > 0 {
        let front = tokens.drop_last();
        assert(tokens[tokens.len() - 1] == tokens.last());
        assert(!is_guard_token(tokens.last()));
        assert(carried_guard(front) is None) by {
            if front.contains("+"@) {
                let i = choose|i: int| 0 <= i < front.len() && front[i] == "+"@;
                assert(tokens[i] == "+"@);
            }
            if front.contains("-"@) {
                let i = choose|i: int| 0 <= i < front.len() && front[i] == "-"@;
                assert(tokens[i] == "-"@);
            }
        }
        lemma_operand_tokens_of_plain(front);
        assert(front.push(tokens.last()) =~= tokens);
    }
}

/// Decodes a lexed line. The rules, in order:
///
/// 1. The empty head is no program line.
/// 2. A head that starts with `#` is a comment, and no program line.
/// 3. A head that holds a colon, with tokens that do not start with a guard,
///    declares the label named by the text before the first colon.
/// 4. Any other head is a mnemonic. One that names no instruction is an
///    [`ErrorKind::UnknownInstruction`]. The tokens become the arguments as
///    [`decode_args`] says, each by its own form, and there must be as many
///    operands as the instruction takes, else the line has an
///    [`ErrorKind::ArityError`].
pub open spec fn decode(head: Seq<char>, tokens: Seq<Seq<char>>) -> Result<
    Option<LineView>,
    ErrorKind,
> {
    if head.len() == 0 || head[0] == '#' {
        Ok(None)
    } else if head.contains(':') && !is_guarded(tokens) {
        Ok(Some((Instruction::Label, seq![ArgView::Label(head.take(colon_index(head) as int))])))
    } else {
        match mnemonic(head) {
            None => Err(ErrorKind::UnknownInstruction),
            Some(instr) => {
                let line = (instr, decode_args(instr, tokens));
                match line_fault(line) {
                    Some(kind) => Err(kind),
                    None => Ok(Some(line)),
                }
            },
        }
    }
}

/// The value of what the lexer returns.
pub open spec fn lexed_view(res: Result<(String, Vec<String>), ErrorKind>) -> Result<
    Lexed,
    ErrorKind,
> {
    match res {
        Ok(pair) => Ok((pair.0@, pair.1.deep_view())),
        Err(kind) => Err(kind),
    }
}

/// The value of what the decoder returns.
pub open spec fn decoded_view(res: Result<Option<(Instruction, Vec<Arg>)>, ErrorKind>) -> Result<
    Option<LineView>,
    ErrorKind,
> {
    match res {
        Ok(Some(line)) => Ok(Some((line.0, line.1.deep_view()))),
        Ok(None) => Ok(None),
        Err(kind) => Err(kind),
    }
}

/// Tests a token for being a guard.
fn is_guard_word(token: &str) -> (r: bool)
    ensures
        r == is_guard_token(token@),
{
    same_text(token, "+") || same_text(token, "-")
}

/// Tells whether one of the tokens is the word.
fn holds_word(tokens: &Vec<String>, word: &str) -> (r: bool)
    ensures
        r == tokens.deep_view().contains(word@),
{
    let ghost t = tokens.deep_view();
    let mut i: usize = 0;
    while i < tokens.len()
        invariant
            t == tokens.deep_view(),
            i <= tokens.len(),
            forall|k: int| 0 <= k < i ==> t[k] != word@,
        decreases tokens.len() - i,
    {
        assert(t[i as int] == tokens@[i as int]@);
        if same_text(tokens[i].as_str(), word) {
            return true;
        }
        i += 1;
    }
    false
}

/// Lexes the words of an instruction line.
fn lex_word_list(words: &Vec<String>) -> (res: Result<(String, Vec<String>), ErrorKind>)
    ensures
        lexed_view(res) == lex_words(words.deep_view()),
{
    let ghost w = words.deep_view();
    assert(forall|k: int| 0 <= k < w.len() ==> w[k] == words@[k]@);
    let n = words.len();
    let guarded = n > 0 && is_guard_word(words[0].as_str());
    let first: usize = if guarded {
        2
    } else {
        1
    };
    if n < first || n - first > 2 {
        return Err(ErrorKind::LexError);
    }
    let mut tokens: Vec<String> = Vec::new();
    if guarded {
        tokens.push(words[0].clone());
    }
    let ghost lead = tokens.deep_view();
    assert(lead =~= (if guarded {
        seq![w[0]]
    } else {
        Seq::<Seq<char>>::empty()
    }));
    let mut i: usize = first;
    assert(w.subrange(first as int, i as int) =~= Seq::<Seq<char>>::empty());
    assert(lead + Seq::<Seq<char>>::empty() =~= lead);
    while i < n
        invariant
            w == words.deep_view(),
            forall|k: int| 0 <= k < w.len() ==> w[k] == words@[k]@,
            n == words.len(),
            1 <= first <= i <= n,
            n <= first + 2,
            first == (if is_guarded(w) {
                2int
            } else {
                1int
            }),
            tokens.deep_view() == lead + w.subrange(first as int, i as int),
            forall|k: int| first <= k < i ==> !is_guard_token(#[trigger] w[k]),
        decreases n - i,
    {
        if is_guard_word(words[i].as_str()) {
            assert(w.skip(first as int)[i - first] == w[i as int]);
            return Err(ErrorKind::LexError);
        }
        let ghost before = tokens.deep_view();
        tokens.push(words[i].clone());
        assert(tokens.deep_view() =~= before.push(w[i as int]));
        assert(w.subrange(first as int, i + 1) =~= w.subrange(first as int, i as int).push(
            w[i as int],
        ));
        i += 1;
    }
    assert(w.subrange(first as int, n as int) =~= w.skip(first as int));
    assert(!holds_guard_token(w.skip(first as int))) by {
        assert forall|k: int| 0 <= k < w.skip(first as int).len() implies !is_guard_token(
            #[trigger] w.skip(first as int)[k],
        ) by {
            assert(w.skip(first as int)[k] == w[k + first]);
        }
    }
    let head = if guarded {
        words[1].clone()
    } else {
        words[0].clone()
    };
    Ok((head, tokens))
}

/// Given an instruction line, turns it into the mnemonic and the tokens
/// after it.
///
/// The tokens are the operands, after the guard where the line starts with
/// one: `+ jmp end` gives `jmp` with the tokens `+` and `end`. A line that is
/// no instruction line gives [`ErrorKind::LexError`]; see [`lex_words`] for
/// the shapes.
pub fn parse_instruction(line: &str) -> (res: Result<(String, Vec<String>), ErrorKind>)
    ensures
        lexed_view(res) == lex_instruction(line@),
{
    let words = split_words(line);
    lex_word_list(&words)
}

/// Copies the words after the first.
fn words_after_first(words: &Vec<String>) -> (rest: Vec<String>)
    requires
        words.len() > 0,
    ensures
        rest.deep_view() == words.deep_view().skip(1),
{
    let ghost w = words.deep_view();
    let mut rest: Vec<String> = Vec::new();
    let mut i: usize = 1;
    assert(rest.deep_view() =~= w.subrange(1, 1));
    while i < words.len()
        invariant
            w == words.deep_view(),
            1 <= i <= words.len(),
            rest.deep_view() == w.subrange(1, i as int),
        decreases words.len() - i,
    {
        let ghost before = rest.deep_view();
        rest.push(words[i].clone());
        assert(w[i as int] == words@[i as int]@);
        assert(rest.deep_view() =~= before.push(w[i as int]));
        assert(w.subrange(1, i + 1) =~= w.subrange(1, i as int).push(w[i as int]));
        i += 1;
    }
    assert(w.subrange(1, words.len() as int) =~= w.skip(1));
    rest
}

/// Given a line, determines what it is and splits it into a head and
/// tokens.
///
/// An empty line gives the empty head. A line that starts with `#` or with
/// `:` is handed on whole, as the head. A comment after white space and a
/// label declaration give their first word as the head, and an instruction
/// line gives what [`parse_instruction`] gives. See [`lex_line`] for the
/// rules.
pub fn split_line(line: &str) -> (res: Result<(String, Vec<String>), ErrorKind>)
    ensures
        lexed_view(res) == lex_line(line@),
{
    let words = split_words(line);
    let ghost w = words.deep_view();
    assert(forall|k: int| 0 <= k < w.len() ==> w[k] == words@[k]@);
    if words.len() == 0 {
        let res = Ok((String::new(), Vec::new()));
        assert(lexed_view(res) matches Ok(pair) && pair.0 =~= Seq::<char>::empty() && pair.1
            =~= Seq::<Seq<char>>::empty());
        return res;
    }
    proof {
        lemma_words_are_solid(line@);
    }
    let chars = chars_of(line);
    if chars[0] == '#' || chars[0] == ':' {
        let res = Ok((line.to_owned(), Vec::new()));
        assert(lexed_view(res) matches Ok(pair) && pair.0 == line@ && pair.1 =~= Seq::<
            Seq<char>,
        >::empty());
        return res;
    }
    let first = chars_of(words[0].as_str());
    if first[0] == '#' {
        return Ok((words[0].clone(), words_after_first(&words)));
    }
    if !is_guard_word(words[0].as_str()) {
        let colon = find_colon(&chars);
        if colon < chars.len() {
            if find_colon(&first) < first.len() {
                let rest = words_after_first(&words);
                let guarded = rest.len() > 0 && is_guard_word(rest[0].as_str());
                assert(rest.len() > 0 ==> rest.deep_view()[0] == rest@[0]@);
                if guarded {
                    let res = Ok((words[0].clone(), Vec::new()));
                    assert(lexed_view(res) matches Ok(pair) && pair.0 == w[0] && pair.1
                        =~= Seq::<Seq<char>>::empty());
                    return res;
                }
                return Ok((words[0].clone(), rest));
            }
            let start = skip_spaces(&chars);
            assert(start <= colon) by {
                if colon < start {
                    assert(is_space(chars@[colon as int]));
                }
            }
            let head = line.substring_char(start, colon + 1).to_owned();
            proof {
                let text = line@.skip(start as int);
                assert forall|k: int| 0 <= k < colon - start implies #[trigger] text[k]
                    != ':' by {
                    assert(text[k] == line@[k + start]);
                }
                lemma_colon_index_is(text, colon - start);
                assert(text.take(colon - start + 1) =~= line@.subrange(
                    start as int,
                    colon + 1,
                ));
            }
            let res = Ok((head, Vec::new()));
            assert(lexed_view(res) matches Ok(pair) && pair.0 == label_head(line@) && pair.1
                =~= Seq::<Seq<char>>::empty());
            return res;
        }
    }
    lex_word_list(&words)
}

/// Looks a mnemonic up in the instruction set.
fn lookup_mnemonic(word: &str) -> (found: Option<Instruction>)
    ensures
        found == mnemonic(word@),
{
    if same_text(word, "nop") {
        Some(Instruction::Nop)
    } else if same_text(word, "mov") {
        Some(Instruction::Mov)
    } else if same_text(word, "add") {
        Some(Instruction::Add)
    } else if same_text(word, "sub") {
        Some(Instruction::Sub)
    } else if same_text(word, "mul") {
        Some(Instruction::Mul)
    } else if same_text(word, "not") {
        Some(Instruction::Not)
    } else if same_text(word, "jmp") {
        Some(Instruction::Jmp)
    } else if same_text(word, "teq") {
        Some(Instruction::Teq)
    } else if same_text(word, "tgt") {
        Some(Instruction::Tgt)
    } else if same_text(word, "tlt") {
        Some(Instruction::Tlt)
    } else {
        None
    }
}

/// Turns an operand token into the argument it stands for.
fn classify_token(instr: Instruction, token: &String) -> (arg: Arg)
    ensures
        arg@ == classify(instr, token@),
{
    match parse_number(token.as_str()) {
        Some(n) => Arg::Number(n),
        None => match instr {
            Instruction::Jmp => Arg::Label(token.clone()),
            _ => Arg::Register(token.clone()),
        },
    }
}

/// Turns a lexed line into an instruction and its arguments.
///
/// Returns `Ok(None)` for what is no program line: the empty head and a
/// comment. Returns the label declaration or the instruction for a line that
/// is one, and the error for a line that is neither:
/// [`ErrorKind::UnknownInstruction`] for a mnemonic outside the instruction
/// set, [`ErrorKind::ArityError`] for the wrong number of operands. See
/// [`decode`] for the rules.
pub fn abstracted(instruction: (String, Vec<String>)) -> (res: Result<
    Option<(Instruction, Vec<Arg>)>,
    ErrorKind,
>)
    ensures
        decoded_view(res) == decode(instruction.0@, instruction.1.deep_view()),
{
    let (head, tokens) = instruction;
    let ghost t = tokens.deep_view();
    assert(forall|k: int| 0 <= k < t.len() ==> t[k] == tokens@[k]@);
    let chars = chars_of(head.as_str());
    if chars.len() == 0 || chars[0] == '#' {
        return Ok(None);
    }
    let guarded = tokens.len() > 0 && is_guard_word(tokens[0].as_str());
    if !guarded {
        let colon = find_colon(&chars);
        if colon < chars.len() {
            let name = head.as_str().substring_char(0, colon).to_owned();
            assert(name@ =~= head@.take(colon as int));
            let mut args: Vec<Arg> = Vec::new();
            args.push(Arg::Label(name));
            assert(args.deep_view() =~= seq![ArgView::Label(head@.take(colon as int))]);
            return Ok(Some((Instruction::Label, args)));
        }
    }
    let instr = match lookup_mnemonic(head.as_str()) {
        Some(instr) => instr,
        None => {
            return Err(ErrorKind::UnknownInstruction);
        },
    };
    let n = tokens.len();
    let mut args: Vec<Arg> = Vec::new();
    let mut i: usize = 0;
    assert(t.take(0) =~= Seq::<Seq<char>>::empty());
    assert(args.deep_view() =~= classified(instr, operand_tokens(t.take(0))));
    while i < n
        invariant
            t == tokens.deep_view(),
            forall|k: int| 0 <= k < t.len() ==> t[k] == tokens@[k]@,
            n == tokens.len(),
            i <= n,
            args.deep_view() == classified(instr, operand_tokens(t.take(i as int))),
        decreases n - i,
    {
        assert(t.take(i + 1).drop_last() =~= t.take(i as int));
        assert(t.take(i + 1).last() == t[i as int]);
        if !is_guard_word(tokens[i].as_str()) {
            let ghost before = args.deep_view();
            args.push(classify_token(instr, &tokens[i]));
            assert(args.deep_view() =~= before.push(classify(instr, t[i as int])));
            assert(args.deep_view() =~= classified(instr, operand_tokens(t.take(i + 1))));
        }
        i += 1;
    }
    assert(t.take(n as int) =~= t);
    let ghost operands = args.deep_view();
    let plus = holds_word(&tokens, "+");
    let minus = holds_word(&tokens, "-");
    if plus {
        args.push(Arg::BranchTrue);
        assert(args.deep_view() =~= operands.push(ArgView::BranchTrue));
    } else if minus {
        args.push(Arg::BranchFalse);
        assert(args.deep_view() =~= operands.push(ArgView::BranchFalse));
    }
    match check_line(instr, &args) {
        Some(kind) => Err(kind),
        None => Ok(Some((instr, args))),
    }
}

} // verus!
