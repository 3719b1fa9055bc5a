//! Labels: the table from label names to program indices, and the scan that
//! builds it.

use crate::error::ErrorKind;
use crate::instruction::{Arg, ArgView, Instruction, LineView};
use crate::program::Program;
use crate::table::NameTable;
use vstd::prelude::*;

verus! {

/// The label that a program line declares, if it declares one.
pub open spec fn declared_label(line: LineView) -> Option<Seq<char>> {
    if line.0 == Instruction::Label && line.1.len() > 0 {
        match line.1[0] {
            ArgView::Label(name) => Some(name),
            _ => None,
        }
    } else {
        None
    }
}

/// The labels of a program: each declared name, with the index of the line
/// that declares it. Where a name is declared more than once, the last
/// declaration counts.
pub open spec fn label_map(program: Seq<LineView>) -> Map<Seq<char>, usize>
    decreases program.len(),
{
    if program.len() == 0 {
        Map::empty()
    } else {
        let earlier = label_map(program.drop_last());
        match declared_label(program.last()) {
            Some(name) => earlier.insert(name, (program.len() - 1) as usize),
            None => earlier,
        }
    }
}

/// Where a jump to a label goes: to the index that the table holds for the
/// name, or nowhere, with [`ErrorKind::UndefinedLabel`], where the table does
/// not hold the name.
pub open spec fn jump_target(labels: Map<Seq<char>, usize>, name: Seq<char>) -> Result<
    usize,
    ErrorKind,
> {
    if labels.contains_key(name) {
        Ok(labels[name])
    } else {
        Err(ErrorKind::UndefinedLabel)
    }
}

/// The labels of a program are the names that its lines declare, and each
/// stands for the last line that declares it.
pub proof fn lemma_label_map(program: Seq<LineView>, name: Seq<char>)
    requires
        program.len() <= usize::MAX,
    ensures
        label_map(program).contains_key(name) <==> exists|i: int|
            0 <= i < program.len() && declared_label(#[trigger] program[i]) == Some(name),
        label_map(program).contains_key(name) ==> {
            let at = label_map(program)[name] as int;
            &&& 0 <= at < program.len()
            &&& declared_label(program[at]) == Some(name)
            &&& forall|j: int|
                at < j < program.len() ==> declared_label(#[trigger] program[j]) != Some(name)
        },
    decreases program.len(),
{
    if program.len() > 0 {
        let front = program.drop_last();
        let last = program.len() - 1;
        lemma_label_map(front, name);
        assert(forall|i: int| 0 <= i < front.len() ==> front[i] == program[i]);
        if declared_label(program.last()) == Some(name) {
            assert(declared_label(program[last]) == Some(name));
        } else {
            if label_map(front).contains_key(name) {
                let i = choose|i: int|
                    0 <= i < front.len() && declared_label(#[trigger] front[i]) == Some(name);
                assert(declared_label(program[i]) == Some(name));
                let at = label_map(program)[name] as int;
                assert forall|j: int| at < j < program.len() implies declared_label(
                    #[trigger] program[j],
                ) != Some(name) by {
                    if j < last {
                        assert(front[j] == program[j]);
                    }
                }
            }
            if exists|i: int|
                0 <= i < program.len() && declared_label(#[trigger] program[i]) == Some(name) {
                let i = choose|i: int|
                    0 <= i < program.len() && declared_label(#[trigger] program[i]) == Some(
                        name,
                    );
                assert(declared_label(front[i]) == Some(name));
            }
        }
    }
}

/// The table from label names to program indices.
///
/// It is built once, by [`resolve_labels`], and only read while the program
/// runs.
pub struct LabelTable {
    targets: NameTable<usize>,
}

impl LabelTable {
    /// The table as a map from label names to program indices.
    pub closed spec fn view(&self) -> Map<Seq<char>, usize> {
        self.targets@
    }

    /// The table without labels.
    pub fn new() -> (table: LabelTable)
        ensures
            table@ == Map::<Seq<char>, usize>::empty(),
    {
        LabelTable { targets: NameTable::new() }
    }

    /// Declares a label, in place of an earlier declaration of the name.
    pub fn declare(&mut self, name: &str, index: usize)
        ensures
            final(self)@ == old(self)@.insert(name@, index),
    {
        self.targets.insert(name, index);
    }

    /// Looks up the index that a label stands for.
    ///
    /// Fails with [`ErrorKind::UndefinedLabel`] where the name was never
    /// declared.
    pub fn target(&self, name: &str) -> (index: Result<usize, ErrorKind>)
        ensures
            index == jump_target(self@, name@),
    {
        match self.targets.get(name) {
            Some(index) => Ok(index),
            None => Err(ErrorKind::UndefinedLabel),
        }
    }
}

/// Builds the label table of a program, in one scan from its first line to
/// its last. A later declaration of a name overwrites an earlier one.
pub fn resolve_labels(program: &Program) -> (table: LabelTable)
    ensures
        table@ == label_map(program@),
{
    let n = program.len();
    let mut table = LabelTable::new();
    let mut i: usize = 0;
    assert(program@.take(0) =~= Seq::<LineView>::empty());
    while i < n
        invariant
            n == program@.len(),
            i <= n,
            table@ == label_map(program@.take(i as int)),
        decreases n - i,
    {
        let line = program.line(i);
        proof {
            assert(program@.take(i + 1).drop_last() =~= program@.take(i as int));
            assert(program@.take(i + 1).last() == program@[i as int]);
            assert(line.1.deep_view().len() == line.1@.len());
        }
        match line.0 {
            Instruction::Label => {
                if line.1.len() > 0 {
                    assert(line.1.deep_view()[0] == line.1@[0]@);
                    match &line.1[0] {
                        Arg::Label(name) => {
                            table.declare(name.as_str(), i);
                        },
                        _ => {},
                    }
                }
            },
            _ => {},
        }
        i += 1;
    }
    assert(program@.take(n as int) =~= program@);
    table
}

} // verus!
