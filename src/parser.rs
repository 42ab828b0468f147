//! From source text to an instruction tree. Parsing is total: characters that
//! are not instructions are skipped, an unmatched `]` ends the body it stands
//! in (at the top level, the whole parse), and an unmatched `[` takes the rest
//! of the input as its body.
use vstd::prelude::*;
use vstd::std_specs::iter::IteratorSpec;
use crate::program::{views, lemma_views_push, BrainFuck, Command, Instr};

verus! {

broadcast use vstd::string::axiom_spec_iter, vstd::string::next_postcondition;

/// The six characters that stand for a single instruction.
pub open spec fn is_op(c: char) -> bool {
    c == '>' || c == '<' || c == '+' || c == '-' || c == '.' || c == ','
}

/// The instruction that an operator character stands for.
pub open spec fn instr_of(c: char) -> Instr {
    if c == '>' {
        Instr::IncPtr
    } else if c == '<' {
        Instr::DecPtr
    } else if c == '+' {
        Instr::IncData
    } else if c == '-' {
        Instr::DecData
    } else if c == '.' {
        Instr::OutputByte
    } else {
        Instr::AcceptByte
    }
}

/// Reads one body from the front of `s`: the instructions up to the first
/// unmatched `]` (which is consumed) or the end of the input, and what is left
/// of the input after it.
pub open spec fn parse_body(s: Seq<char>) -> (Seq<Instr>, Seq<char>)
    decreases s.len(),
{
    if s.len() == 0 {
        (Seq::empty(), s)
    } else {
        let c = s[0];
        let t = s.subrange(1, s.len() as int);
        if is_op(c) {
            let (b, r) = parse_body(t);
            (seq![instr_of(c)] + b, r)
        } else if c == '[' {
            let (inner, r1) = parse_body(t);
            // The rest is always shorter than `s` (see `lemma_rest_shorter`).
            if r1.len() < s.len() {
                let (b, r2) = parse_body(r1);
                (seq![Instr::Loop(inner)] + b, r2)
            } else {
                (seq![Instr::Loop(inner)], r1)
            }
        } else if c == ']' {
            (Seq::empty(), t)
        } else {
            parse_body(t)
        }
    }
}

/// The program that source text `s` parses to.
pub open spec fn parse_source(s: Seq<char>) -> Seq<Instr> {
    parse_body(s).0
}

/// Parsing a body consumes at least nothing: what is left is never longer
/// than the input.
pub proof fn lemma_rest_shorter(s: Seq<char>)
    ensures
        parse_body(s).1.len() <= s.len(),
    decreases s.len(),
{
    if s.len() > 0 {
        let t = s.subrange(1, s.len() as int);
        lemma_rest_shorter(t);
        if s[0] == '[' {
            lemma_rest_shorter(parse_body(t).1);
        }
    }
}

fn parse_command(c: char) -> (r: Command)
    requires
        is_op(c),
    ensures
        r@ == instr_of(c),
{
    match c {
        '>' => Command::IncPtr,
        '<' => Command::DecPtr,
        '+' => Command::IncData,
        '-' => Command::DecData,
        '.' => Command::OutputByte,
        _ => Command::AcceptByte,
    }
}

/// The characters of `source`, in order.
fn collect_chars(source: &str) -> (r: Vec<char>)
    ensures
        r@ == source@,
{
    let mut it = source.chars();
    let mut chars: Vec<char> = Vec::new();
    loop
        invariant_except_break
            chars@ + it.remaining() == source@,
        invariant
            it.decrease() is Some,
        ensures
            chars@ == source@,
        decreases it.decrease()->0,
    {
        let ghost rest = it.remaining();
        match it.next() {
            Some(c) => {
                assert(chars@.push(c) + it.remaining() =~= chars@ + rest);
                chars.push(c);
            },
            None => {
                assert(chars@ + rest =~= chars@);
                break ;
            },
        }
    }
    chars
}

/// Parses one body of `chars` from index `start` on; returns it with the index
/// of the first character after it.
fn parse_commands(chars: &Vec<char>, start: usize) -> (r: (Vec<Command>, usize))
    requires
        start <= chars.len(),
    ensures
        start <= r.1 <= chars.len(),
        (views(r.0@), chars@.subrange(r.1 as int, chars.len() as int)) == parse_body(
            chars@.subrange(start as int, chars.len() as int),
        ),
    decreases chars.len() - start,
{
    let ghost n = chars.len() as int;
    let ghost s0 = chars@.subrange(start as int, n);
    let mut program: Vec<Command> = Vec::new();
    let mut i: usize = start;
    while i < chars.len()
        invariant_except_break
            parse_body(s0) == (views(program@) + parse_body(chars@.subrange(i as int, n)).0,
                parse_body(chars@.subrange(i as int, n)).1),
        invariant
            start <= i <= n,
            n == chars.len(),
            s0 == chars@.subrange(start as int, n),
        ensures
            start <= i <= n,
            (views(program@), chars@.subrange(i as int, n)) == parse_body(s0),
        decreases n - i,
    {
        let ghost s = chars@.subrange(i as int, n);
        let c = chars[i];
        i = i + 1;
        assert(s[0] == c && chars@.subrange(i as int, n) =~= s.subrange(1, s.len() as int));
        if c == '>' || c == '<' || c == '+' || c == '-' || c == '.' || c == ',' {
            let cmd = parse_command(c);
            proof {
                lemma_views_push(program@, cmd);
                assert(views(program@) + parse_body(s).0 =~= views(program@.push(cmd))
                    + parse_body(chars@.subrange(i as int, n)).0);
            }
            program.push(cmd);
        } else if c == '[' {
            let (body, next) = parse_commands(chars, i);
            let cmd = Command::Loop(body);
            proof {
                lemma_rest_shorter(chars@.subrange(i as int, n));
                lemma_views_push(program@, cmd);
                assert(views(program@) + parse_body(s).0 =~= views(program@.push(cmd))
                    + parse_body(chars@.subrange(next as int, n)).0);
            }
            program.push(cmd);
            i = next;
        } else if c == ']' {
            assert(views(program@) + Seq::<Instr>::empty() =~= views(program@));
            break ;
        }
    }
    proof {
        if i == n {
            assert(views(program@) + Seq::<Instr>::empty() =~= views(program@));
        }
    }
    (program, i)
}

impl BrainFuck {
    /// Parses source text. Never fails: every string gives a program.
    pub fn parse(source: &str) -> (r: BrainFuck)
        ensures
            r@ == parse_source(source@),
    {
        let chars = collect_chars(source);
        let (commands, _) = parse_commands(&chars, 0);
        proof {
            assert(chars@.subrange(0, chars.len() as int) =~= source@);
        }
        BrainFuck::from_commands(commands)
    }
}

impl std::str::FromStr for BrainFuck {
    type Err = ();

    /// The same as `BrainFuck::parse`; never fails.
    fn from_str(s: &str) -> (r: Result<BrainFuck, ()>)
        ensures
            r matches Ok(bf) && bf@ == parse_source(s@),
    {
        Ok(BrainFuck::parse(s))
    }
}

} // verus!
