//! Programs: validated program lines in order, loaded from source text.

use crate::error::{ErrorKind, LoadError};
use crate::instruction::{check_line, line_fault, Arg, Instruction, LineView};
use crate::parse::{abstracted, decode, lex_line, split_line};
use vstd::prelude::*;

verus! {

/// Every line of the program has as many operands as its instruction takes.
pub open spec fn valid_program(lines: Seq<LineView>) -> bool {
    forall|i: int| 0 <= i < lines.len() ==> line_fault(#[trigger] lines[i]) is None
}

/// What a line of source text decodes to: a program line, nothing (for an
/// empty line and for a comment), or an error.
pub open spec fn decode_line(line: Seq<char>) -> Result<Option<LineView>, ErrorKind> {
    match lex_line(line) {
        Ok(lexed) => decode(lexed.0, lexed.1),
        Err(kind) => Err(kind),
    }
}

/// What a source text loads to: the program lines that its lines decode to,
/// in order, or the first line that does not decode, with its error.
pub open spec fn load_lines(source: Seq<Seq<char>>) -> Result<Seq<LineView>, LoadError>
    decreases source.len(),
{
    if source.len() == 0 {
        Ok(Seq::empty())
    } else {
        match load_lines(source.drop_last()) {
            Err(error) => Err(error),
            Ok(lines) => match decode_line(source.last()) {
                Err(kind) => Err(LoadError { line: (source.len() - 1) as usize, kind }),
                Ok(None) => Ok(lines),
                Ok(Some(line)) => Ok(lines.push(line)),
            },
        }
    }
}

/// A text that fails to load up to some line fails in the same way as a
/// whole.
pub proof fn lemma_load_fails_early(source: Seq<Seq<char>>, n: int)
    requires
        0 <= n <= source.len(),
        load_lines(source.take(n)) is Err,
    ensures
        load_lines(source) == load_lines(source.take(n)),
    decreases source.len() - n,
{
    if n == source.len() {
        assert(source.take(n) =~= source);
    } else {
        assert(source.take(n + 1).drop_last() =~= source.take(n));
        lemma_load_fails_early(source, n + 1);
    }
}

/// What decodes has the right number of operands, so what loads is a valid
/// program.
pub proof fn lemma_load_is_valid(source: Seq<Seq<char>>)
    ensures
        load_lines(source) matches Ok(lines) ==> valid_program(lines),
    decreases source.len(),
{
    if source.len() > 0 {
        lemma_load_is_valid(source.drop_last());
    }
}

/// A program: an ordered sequence of program lines, each with as many
/// operands as its instruction takes. Its index space is the address space
/// of jumps. A program does not change once it is built.
pub struct Program {
    lines: Vec<(Instruction, Vec<Arg>)>,
}

impl Program {
    /// The program as a sequence of lines.
    pub closed spec fn view(&self) -> Seq<LineView> {
        self.lines.deep_view()
    }

    #[verifier::type_invariant]
    spec fn well_formed(self) -> bool {
        valid_program(self.lines.deep_view())
    }

    /// Builds a program from lines that are already decoded.
    ///
    /// Fails at the first line with the wrong number of operands.
    pub fn from_lines(lines: Vec<(Instruction, Vec<Arg>)>) -> (res: Result<Program, LoadError>)
        ensures
            match res {
                Ok(program) => program@ == lines.deep_view() && valid_program(program@),
                Err(error) => {
                    &&& error.line < lines.len()
                    &&& line_fault(lines.deep_view()[error.line as int]) == Some(error.kind)
                    &&& valid_program(lines.deep_view().take(error.line as int))
                },
            },
    {
        let n = lines.len();
        let ghost view = lines.deep_view();
        let mut i: usize = 0;
        while i < n
            invariant
                view == lines.deep_view(),
                n == lines.len(),
                i <= n,
                valid_program(view.take(i as int)),
            decreases n - i,
        {
            assert(view[i as int] == (lines@[i as int].0, lines@[i as int].1.deep_view()));
            match check_line(lines[i].0, &lines[i].1) {
                Some(kind) => {
                    return Err(LoadError { line: i, kind });
                },
                None => {},
            }
            assert forall|k: int| 0 <= k < i + 1 implies line_fault(
                #[trigger] view.take(i + 1)[k],
            ) is None by {
                if k < i {
                    assert(view.take(i + 1)[k] == view.take(i as int)[k]);
                }
            }
            i += 1;
        }
        assert(view.take(n as int) =~= view);
        Ok(Program { lines })
    }

    /// Loads a program from the lines of a source text.
    ///
    /// Every line is lexed and decoded. Empty lines and comments leave no
    /// trace in the program. The first line that fails stops the load, and is
    /// reported with its index and its error.
    pub fn load(source: &Vec<String>) -> (res: Result<Program, LoadError>)
        ensures
            match res {
                Ok(program) => load_lines(source.deep_view()) == Ok::<Seq<LineView>, LoadError>(
                    program@,
                ) && valid_program(program@),
                Err(error) => load_lines(source.deep_view()) == Err::<Seq<LineView>, LoadError>(
                    error,
                ),
            },
    {
        let ghost text = source.deep_view();
        let n = source.len();
        let mut lines: Vec<(Instruction, Vec<Arg>)> = Vec::new();
        let mut i: usize = 0;
        assert(text.take(0) =~= Seq::<Seq<char>>::empty());
        assert(lines.deep_view() =~= Seq::<LineView>::empty());
        while i < n
            invariant
                text == source.deep_view(),
                n == source.len(),
                i <= n,
                load_lines(text.take(i as int)) == Ok::<Seq<LineView>, LoadError>(
                    lines.deep_view(),
                ),
            decreases n - i,
        {
            assert(text[i as int] == source@[i as int]@);
            assert(text.take(i + 1).drop_last() =~= text.take(i as int));
            assert(text.take(i + 1).last() == text[i as int]);
            let decoded = match split_line(source[i].as_str()) {
                Ok(lexed) => abstracted(lexed),
                Err(kind) => Err(kind),
            };
            match decoded {
                Err(kind) => {
                    proof {
                        lemma_load_fails_early(text, i + 1);
                    }
                    return Err(LoadError { line: i, kind });
                },
                Ok(None) => {},
                Ok(Some(line)) => {
                    let ghost before = lines.deep_view();
                    let ghost view = (line.0, line.1.deep_view());
                    lines.push(line);
                    assert(lines.deep_view() =~= before.push(view));
                },
            }
            i += 1;
        }
        assert(text.take(n as int) =~= text);
        proof {
            lemma_load_is_valid(text);
        }
        Ok(Program { lines })
    }

    /// The number of lines.
    pub fn len(&self) -> (n: usize)
        ensures
            n == self@.len(),
    {
        self.lines.len()
    }

    /// The line at an index.
    pub fn line(&self, i: usize) -> (line: &(Instruction, Vec<Arg>))
        requires
            i < self@.len(),
        ensures
            line.deep_view() == self@[i as int],
            line_fault(self@[i as int]) is None,
    {
        proof {
            use_type_invariant(self);
        }
        &self.lines[i]
    }
}

} // verus!
