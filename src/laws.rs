//! Properties of runs that hold for every program.
use vstd::prelude::*;
use crate::exec::{run_from, run_loop, Status};
use crate::program::Instr;
use crate::tape::Tape;

verus! {

/// Whether an instruction is, or contains at any depth, an input instruction.
pub open spec fn reads_input(x: Instr) -> bool
    decreases x, 0int,
{
    match x {
        Instr::AcceptByte => true,
        Instr::Loop(b) => any_reads_input(b, 0),
        _ => false,
    }
}

/// Some instruction of `s` from index `i` on reads input.
pub open spec fn any_reads_input(s: Seq<Instr>, i: int) -> bool
    decreases s, s.len() - i,
{
    if 0 <= i < s.len() {
        reads_input(s[i]) || any_reads_input(s, i + 1)
    } else {
        false
    }
}

/// No instruction of `p` is, or contains, an input instruction.
pub open spec fn free_of_input(p: Seq<Instr>) -> bool {
    forall|j: int| 0 <= j < p.len() ==> !#[trigger] reads_input(p[j])
}

proof fn lemma_any_reads_input(s: Seq<Instr>, i: int, j: int)
    requires
        0 <= i <= j < s.len(),
        reads_input(s[j]),
    ensures
        any_reads_input(s, i),
    decreases j - i,
{
    if i < j {
        lemma_any_reads_input(s, i + 1, j);
    }
}

/// `p` holds neither loops nor input instructions.
pub open spec fn straight_line(p: Seq<Instr>) -> bool {
    forall|j: int| 0 <= j < p.len() ==> !(#[trigger] p[j] is Loop) && !(p[j] is AcceptByte)
}

/// A run that did not run out of fuel ends the same way with any larger fuel:
/// more fuel changes nothing of a run that stopped by itself.
pub proof fn lemma_more_fuel_same_outcome(
    p: Seq<Instr>,
    i: int,
    t: Tape,
    out: Seq<u8>,
    f: nat,
    g: nat,
)
    requires
        f <= g,
        run_from(p, i, t, out, f).status != Status::OutOfFuel,
    ensures
        run_from(p, i, t, out, g) == run_from(p, i, t, out, f),
    decreases f, 1int, p.len() - i,
{
    if 0 <= i < p.len() {
        match p[i] {
            Instr::IncPtr => lemma_more_fuel_same_outcome(p, i + 1, t.move_right(), out, f, g),
            Instr::DecPtr => lemma_more_fuel_same_outcome(p, i + 1, t.move_left(), out, f, g),
            Instr::IncData => lemma_more_fuel_same_outcome(p, i + 1, t.increment(), out, f, g),
            Instr::DecData => lemma_more_fuel_same_outcome(p, i + 1, t.decrement(), out, f, g),
            Instr::OutputByte => lemma_more_fuel_same_outcome(
                p,
                i + 1,
                t,
                out.push(t.current()),
                f,
                g,
            ),
            Instr::AcceptByte => {},
            Instr::Loop(body) => {
                lemma_loop_more_fuel_same_outcome(body, t, out, f, g);
                let r = run_loop(body, t, out, f);
                if r.status == Status::Finished {
                    lemma_more_fuel_same_outcome(p, i + 1, r.tape, r.out, f, g);
                }
            },
        }
    }
}

/// The same as `lemma_more_fuel_same_outcome`, for a single loop.
pub proof fn lemma_loop_more_fuel_same_outcome(
    body: Seq<Instr>,
    t: Tape,
    out: Seq<u8>,
    f: nat,
    g: nat,
)
    requires
        f <= g,
        run_loop(body, t, out, f).status != Status::OutOfFuel,
    ensures
        run_loop(body, t, out, g) == run_loop(body, t, out, f),
    decreases f, 0int, 0int,
{
    if t.current() != 0 {
        let r = run_from(body, 0, t, out, (f - 1) as nat);
        lemma_more_fuel_same_outcome(body, 0, t, out, (f - 1) as nat, (g - 1) as nat);
        if r.status == Status::Finished {
            lemma_loop_more_fuel_same_outcome(body, r.tape, r.out, (f - 1) as nat, (g - 1) as nat);
        }
    }
}

/// A program without input instructions never stops on one: it either
/// finishes or runs out of fuel in a loop.
pub proof fn lemma_no_input_never_unsupported(p: Seq<Instr>, i: int, t: Tape, out: Seq<u8>, f: nat)
    requires
        free_of_input(p),
    ensures
        run_from(p, i, t, out, f).status != Status::InputUnsupported,
    decreases f, 1int, p.len() - i,
{
    if 0 <= i < p.len() {
        assert(!reads_input(p[i]));
        match p[i] {
            Instr::IncPtr => lemma_no_input_never_unsupported(p, i + 1, t.move_right(), out, f),
            Instr::DecPtr => lemma_no_input_never_unsupported(p, i + 1, t.move_left(), out, f),
            Instr::IncData => lemma_no_input_never_unsupported(p, i + 1, t.increment(), out, f),
            Instr::DecData => lemma_no_input_never_unsupported(p, i + 1, t.decrement(), out, f),
            Instr::OutputByte => lemma_no_input_never_unsupported(
                p,
                i + 1,
                t,
                out.push(t.current()),
                f,
            ),
            Instr::AcceptByte => {},
            Instr::Loop(body) => {
                assert forall|j: int| 0 <= j < body.len() implies !#[trigger] reads_input(
                    body[j],
                ) by {
                    if reads_input(body[j]) {
                        lemma_any_reads_input(body, 0, j);
                    }
                }
                lemma_loop_no_input_never_unsupported(body, t, out, f);
                let r = run_loop(body, t, out, f);
                if r.status == Status::Finished {
                    lemma_no_input_never_unsupported(p, i + 1, r.tape, r.out, f);
                }
            },
        }
    }
}

/// The same as `lemma_no_input_never_unsupported`, for a single loop.
pub proof fn lemma_loop_no_input_never_unsupported(body: Seq<Instr>, t: Tape, out: Seq<u8>, f: nat)
    requires
        free_of_input(body),
    ensures
        run_loop(body, t, out, f).status != Status::InputUnsupported,
    decreases f, 0int, 0int,
{
    if t.current() != 0 && f > 0 {
        let r = run_from(body, 0, t, out, (f - 1) as nat);
        lemma_no_input_never_unsupported(body, 0, t, out, (f - 1) as nat);
        if r.status == Status::Finished {
            lemma_loop_no_input_never_unsupported(body, r.tape, r.out, (f - 1) as nat);
        }
    }
}

/// A program without loops or input instructions always finishes, whatever
/// the fuel.
pub proof fn lemma_straight_line_finishes(p: Seq<Instr>, i: int, t: Tape, out: Seq<u8>, f: nat)
    requires
        straight_line(p),
    ensures
        run_from(p, i, t, out, f).status == Status::Finished,
    decreases p.len() - i,
{
    if 0 <= i < p.len() {
        assert(!(p[i] is Loop) && !(p[i] is AcceptByte));
        match p[i] {
            Instr::IncPtr => lemma_straight_line_finishes(p, i + 1, t.move_right(), out, f),
            Instr::DecPtr => lemma_straight_line_finishes(p, i + 1, t.move_left(), out, f),
            Instr::IncData => lemma_straight_line_finishes(p, i + 1, t.increment(), out, f),
            Instr::DecData => lemma_straight_line_finishes(p, i + 1, t.decrement(), out, f),
            Instr::OutputByte => lemma_straight_line_finishes(
                p,
                i + 1,
                t,
                out.push(t.current()),
                f,
            ),
            _ => {},
        }
    }
}

proof fn lemma_prefix_refl(a: Seq<u8>)
    ensures
        a.is_prefix_of(a),
{
    assert(a =~= a.subrange(0, a.len() as int));
}

proof fn lemma_prefix_trans(a: Seq<u8>, b: Seq<u8>, c: Seq<u8>)
    requires
        a.is_prefix_of(b),
        b.is_prefix_of(c),
    ensures
        a.is_prefix_of(c),
{
    assert forall|k: int| 0 <= k < a.len() implies a[k] == c[k] by {
        assert(a[k] == b.subrange(0, a.len() as int)[k]);
        assert(b[k] == c.subrange(0, b.len() as int)[k]);
    }
    assert(a =~= c.subrange(0, a.len() as int));
}

proof fn lemma_push_extends(a: Seq<u8>, x: u8)
    ensures
        a.is_prefix_of(a.push(x)),
{
    assert(a =~= a.push(x).subrange(0, a.len() as int));
}

/// A run only appends to the output it started with.
pub proof fn lemma_output_extends(p: Seq<Instr>, i: int, t: Tape, out: Seq<u8>, f: nat)
    ensures
        out.is_prefix_of(run_from(p, i, t, out, f).out),
    decreases f, 1int, p.len() - i,
{
    if 0 <= i < p.len() {
        match p[i] {
            Instr::IncPtr => lemma_output_extends(p, i + 1, t.move_right(), out, f),
            Instr::DecPtr => lemma_output_extends(p, i + 1, t.move_left(), out, f),
            Instr::IncData => lemma_output_extends(p, i + 1, t.increment(), out, f),
            Instr::DecData => lemma_output_extends(p, i + 1, t.decrement(), out, f),
            Instr::OutputByte => {
                let o = out.push(t.current());
                lemma_output_extends(p, i + 1, t, o, f);
                lemma_push_extends(out, t.current());
                lemma_prefix_trans(out, o, run_from(p, i, t, out, f).out);
            },
            Instr::AcceptByte => lemma_prefix_refl(out),
            Instr::Loop(body) => {
                lemma_loop_output_extends(body, t, out, f);
                let r = run_loop(body, t, out, f);
                if r.status == Status::Finished {
                    lemma_output_extends(p, i + 1, r.tape, r.out, f);
                    lemma_prefix_trans(out, r.out, run_from(p, i, t, out, f).out);
                }
            },
        }
    } else {
        lemma_prefix_refl(out);
    }
}

/// The same as `lemma_output_extends`, for a single loop.
pub proof fn lemma_loop_output_extends(body: Seq<Instr>, t: Tape, out: Seq<u8>, f: nat)
    ensures
        out.is_prefix_of(run_loop(body, t, out, f).out),
    decreases f, 0int, 0int,
{
    if t.current() != 0 && f > 0 {
        let r = run_from(body, 0, t, out, (f - 1) as nat);
        lemma_output_extends(body, 0, t, out, (f - 1) as nat);
        if r.status == Status::Finished {
            lemma_loop_output_extends(body, r.tape, r.out, (f - 1) as nat);
            lemma_prefix_trans(out, r.out, run_loop(body, t, out, f).out);
        }
    } else {
        lemma_prefix_refl(out);
    }
}

/// What a run emits with some fuel is a prefix of what it emits with more:
/// more fuel only lets it go on further.
pub proof fn lemma_more_fuel_extends_output(
    p: Seq<Instr>,
    i: int,
    t: Tape,
    out: Seq<u8>,
    f: nat,
    g: nat,
)
    requires
        f <= g,
    ensures
        run_from(p, i, t, out, f).out.is_prefix_of(run_from(p, i, t, out, g).out),
    decreases f, 1int, p.len() - i,
{
    if 0 <= i < p.len() {
        match p[i] {
            Instr::IncPtr => lemma_more_fuel_extends_output(p, i + 1, t.move_right(), out, f, g),
            Instr::DecPtr => lemma_more_fuel_extends_output(p, i + 1, t.move_left(), out, f, g),
            Instr::IncData => lemma_more_fuel_extends_output(p, i + 1, t.increment(), out, f, g),
            Instr::DecData => lemma_more_fuel_extends_output(p, i + 1, t.decrement(), out, f, g),
            Instr::OutputByte => lemma_more_fuel_extends_output(
                p,
                i + 1,
                t,
                out.push(t.current()),
                f,
                g,
            ),
            Instr::AcceptByte => lemma_prefix_refl(out),
            Instr::Loop(body) => {
                lemma_loop_more_fuel_extends_output(body, t, out, f, g);
                let rf = run_loop(body, t, out, f);
                let rg = run_loop(body, t, out, g);
                if rf.status == Status::Finished {
                    lemma_loop_more_fuel_same_outcome(body, t, out, f, g);
                    lemma_more_fuel_extends_output(p, i + 1, rf.tape, rf.out, f, g);
                } else if rg.status == Status::Finished {
                    lemma_output_extends(p, i + 1, rg.tape, rg.out, g);
                    lemma_prefix_trans(rf.out, rg.out, run_from(p, i, t, out, g).out);
                }
            },
        }
    } else {
        lemma_prefix_refl(out);
    }
}

/// The same as `lemma_more_fuel_extends_output`, for a single loop.
pub proof fn lemma_loop_more_fuel_extends_output(
    body: Seq<Instr>,
    t: Tape,
    out: Seq<u8>,
    f: nat,
    g: nat,
)
    requires
        f <= g,
    ensures
        run_loop(body, t, out, f).out.is_prefix_of(run_loop(body, t, out, g).out),
    decreases f, 0int, 0int,
{
    if t.current() == 0 {
        lemma_prefix_refl(out);
    } else if f == 0 {
        lemma_loop_output_extends(body, t, out, g);
    } else {
        let r = run_from(body, 0, t, out, (f - 1) as nat);
        let rg = run_from(body, 0, t, out, (g - 1) as nat);
        lemma_more_fuel_extends_output(body, 0, t, out, (f - 1) as nat, (g - 1) as nat);
        if r.status == Status::Finished {
            lemma_more_fuel_same_outcome(body, 0, t, out, (f - 1) as nat, (g - 1) as nat);
            lemma_loop_more_fuel_extends_output(body, r.tape, r.out, (f - 1) as nat, (g - 1) as nat);
        } else if rg.status == Status::Finished {
            lemma_loop_output_extends(body, rg.tape, rg.out, (g - 1) as nat);
            lemma_prefix_trans(r.out, rg.out, run_loop(body, t, out, g).out);
        }
    }
}

} // verus!
