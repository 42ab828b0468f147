//! The instruction tree and its mathematical model.
use vstd::prelude::*;

verus! {

/// One instruction of a parsed program.
#[derive(Debug)]
pub enum Command {
    /// `+`: add one to the current cell, wrapping at 256.
    IncData,
    /// `-`: subtract one from the current cell, wrapping at 0.
    DecData,
    /// `>`: move the cursor one cell to the right.
    IncPtr,
    /// `<`: move the cursor one cell to the left.
    DecPtr,
    /// `.`: emit the current cell.
    OutputByte,
    /// `,`: read a byte; not supported, execution stops here.
    AcceptByte,
    /// `[ ... ]`: run the body while the current cell is nonzero.
    Loop(Vec<Command>),
}

/// The model of a `Command`: the same tree, with sequences in place of vectors.
pub enum Instr {
    IncData,
    DecData,
    IncPtr,
    DecPtr,
    OutputByte,
    AcceptByte,
    Loop(Seq<Instr>),
}

impl View for Command {
    type V = Instr;

    open spec fn view(&self) -> Instr
        decreases self,
    {
        match self {
            Command::IncData => Instr::IncData,
            Command::DecData => Instr::DecData,
            Command::IncPtr => Instr::IncPtr,
            Command::DecPtr => Instr::DecPtr,
            Command::OutputByte => Instr::OutputByte,
            Command::AcceptByte => Instr::AcceptByte,
            Command::Loop(body) => Instr::Loop(views(body@)),
        }
    }
}

/// The model of each command of `s`, in order.
pub open spec fn views(s: Seq<Command>) -> Seq<Instr>
    decreases s,
{
    if s.len() == 0 {
        Seq::empty()
    } else {
        views(s.subrange(0, s.len() - 1)).push(s[s.len() - 1].view())
    }
}

pub proof fn lemma_views(s: Seq<Command>)
    ensures
        views(s).len() == s.len(),
        forall|i: int| 0 <= i < s.len() ==> #[trigger] views(s)[i] == s[i]@,
    decreases s.len(),
{
    if s.len() > 0 {
        let front = s.subrange(0, s.len() - 1);
        lemma_views(front);
        assert(views(s) == views(front).push(s[s.len() - 1]@));
        assert forall|i: int| 0 <= i < s.len() implies #[trigger] views(s)[i] == s[i]@ by {
            if i < s.len() - 1 {
                assert(front[i] == s[i]);
            }
        }
    }
}

pub proof fn lemma_views_push(s: Seq<Command>, c: Command)
    ensures
        views(s.push(c)) == views(s).push(c@),
{
    assert(s.push(c).subrange(0, s.len() as int) =~= s);
}

/// A parsed program: the top-level sequence of the instruction tree.
#[derive(Debug)]
pub struct BrainFuck(Vec<Command>);

impl View for BrainFuck {
    type V = Seq<Instr>;

    closed spec fn view(&self) -> Seq<Instr> {
        views(self.0@)
    }
}

impl BrainFuck {
    /// A program holding exactly `commands`.
    pub fn from_commands(commands: Vec<Command>) -> (r: BrainFuck)
        ensures
            r@ == views(commands@),
    {
        BrainFuck(commands)
    }

    /// The top-level commands.
    pub fn commands(&self) -> (r: &Vec<Command>)
        ensures
            views(r@) == self@,
    {
        &self.0
    }
}

} // verus!
