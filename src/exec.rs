//! Running a program. Execution is bounded by fuel: each loop may start at
//! most `fuel` iterations, and the body of an iteration runs with one unit
//! less. A program that needs more stops with `OutOfFuel`; one that reaches an
//! input instruction stops with `InputUnsupported`.
use vstd::prelude::*;
use crate::program::{views, lemma_views, BrainFuck, Command, Instr};
use crate::tape::{Machine, Tape};

verus! {

/// How a run ended.
#[derive(PartialEq, Eq, Structural, Clone, Copy, Debug)]
pub enum Status {
    /// Every instruction ran to completion.
    Finished,
    /// Execution stopped at a `,`, which is not supported.
    InputUnsupported,
    /// A loop needed more iterations than the fuel allowed.
    OutOfFuel,
}

/// The model of where a run stopped: its status, the tape, and all output
/// emitted so far.
pub struct Outcome {
    pub status: Status,
    pub tape: Tape,
    pub out: Seq<u8>,
}

/// Runs `p` from its `i`-th instruction on.
pub open spec fn run_from(p: Seq<Instr>, i: int, t: Tape, out: Seq<u8>, fuel: nat) -> Outcome
    decreases fuel, 1int, p.len() - i,
{
    if i < 0 || i >= p.len() {
        Outcome { status: Status::Finished, tape: t, out }
    } else {
        match p[i] {
            Instr::IncPtr => run_from(p, i + 1, t.move_right(), out, fuel),
            Instr::DecPtr => run_from(p, i + 1, t.move_left(), out, fuel),
            Instr::IncData => run_from(p, i + 1, t.increment(), out, fuel),
            Instr::DecData => run_from(p, i + 1, t.decrement(), out, fuel),
            Instr::OutputByte => run_from(p, i + 1, t, out.push(t.current()), fuel),
            Instr::AcceptByte => Outcome { status: Status::InputUnsupported, tape: t, out },
            Instr::Loop(body) => {
                let r = run_loop(body, t, out, fuel);
                if r.status == Status::Finished {
                    run_from(p, i + 1, r.tape, r.out, fuel)
                } else {
                    r
                }
            },
        }
    }
}

/// Runs a loop with body `body`: while the current cell is nonzero, one more
/// iteration, as long as fuel is left.
pub open spec fn run_loop(body: Seq<Instr>, t: Tape, out: Seq<u8>, fuel: nat) -> Outcome
    decreases fuel, 0int, 0int,
{
    if t.current() == 0 {
        Outcome { status: Status::Finished, tape: t, out }
    } else if fuel == 0 {
        Outcome { status: Status::OutOfFuel, tape: t, out }
    } else {
        let r = run_from(body, 0, t, out, (fuel - 1) as nat);
        if r.status == Status::Finished {
            run_loop(body, r.tape, r.out, (fuel - 1) as nat)
        } else {
            r
        }
    }
}

/// A whole run of `p` on a fresh machine with no output yet.
pub open spec fn run_program(p: Seq<Instr>, fuel: nat) -> Outcome {
    run_from(p, 0, Tape::fresh(), Seq::empty(), fuel)
}

fn exec_commands(commands: &Vec<Command>, machine: &mut Machine, output: &mut Vec<u8>, fuel: u64) -> (s: Status)
    requires
        old(machine).wf(),
    ensures
        final(machine).wf(),
        run_from(views(commands@), 0, old(machine)@, old(output)@, fuel as nat) == (Outcome {
            status: s,
            tape: final(machine)@,
            out: final(output)@,
        }),
    decreases fuel, 1int,
{
    let ghost p = views(commands@);
    proof {
        lemma_views(commands@);
    }
    let mut i: usize = 0;
    while i < commands.len()
        invariant
            machine.wf(),
            i <= commands.len(),
            p == views(commands@),
            p.len() == commands@.len(),
            forall|j: int| 0 <= j < commands@.len() ==> #[trigger] p[j] == commands@[j]@,
            run_from(p, 0, old(machine)@, old(output)@, fuel as nat) == run_from(
                p,
                i as int,
                machine@,
                output@,
                fuel as nat,
            ),
        decreases commands.len() - i,
    {
        assert(p[i as int] == commands@[i as int]@);
        match &commands[i] {
            Command::IncPtr => machine.inc_ptr(),
            Command::DecPtr => machine.dec_ptr(),
            Command::IncData => machine.inc_data(),
            Command::DecData => machine.dec_data(),
            Command::OutputByte => {
                let b = machine.get_data();
                output.push(b);
            },
            Command::AcceptByte => {
                return Status::InputUnsupported;
            },
            Command::Loop(body) => {
                let s = exec_loop(body, machine, output, fuel);
                if s != Status::Finished {
                    return s;
                }
            },
        }
        i = i + 1;
    }
    Status::Finished
}

fn exec_loop(body: &Vec<Command>, machine: &mut Machine, output: &mut Vec<u8>, fuel: u64) -> (s: Status)
    requires
        old(machine).wf(),
    ensures
        final(machine).wf(),
        run_loop(views(body@), old(machine)@, old(output)@, fuel as nat) == (Outcome {
            status: s,
            tape: final(machine)@,
            out: final(output)@,
        }),
    decreases fuel, 0int,
{
    let ghost b = views(body@);
    let mut n: u64 = fuel;
    while machine.get_data() != 0
        invariant
            machine.wf(),
            n <= fuel,
            b == views(body@),
            run_loop(b, old(machine)@, old(output)@, fuel as nat) == run_loop(
                b,
                machine@,
                output@,
                n as nat,
            ),
        decreases n,
    {
        let ghost t = machine@;
        let ghost out = output@;
        assert(t.current() != 0);
        if n == 0 {
            return Status::OutOfFuel;
        }
        n = n - 1;
        let s = exec_commands(body, machine, output, n);
        assert(run_loop(b, t, out, (n + 1) as nat) == {
            let r = run_from(b, 0, t, out, n as nat);
            if r.status == Status::Finished {
                run_loop(b, r.tape, r.out, n as nat)
            } else {
                r
            }
        });
        if s != Status::Finished {
            return s;
        }
    }
    Status::Finished
}

/// The result of a run: how it ended, what it emitted, and the machine as it
/// was left.
pub struct Execution {
    pub status: Status,
    pub output: Vec<u8>,
    pub machine: Machine,
}

impl BrainFuck {
    /// Runs the program on a fresh machine, with at most `fuel` iterations of
    /// each loop (see the module documentation).
    pub fn run(&self, fuel: u64) -> (r: Execution)
        ensures
            r.machine.wf(),
            run_program(self@, fuel as nat) == (Outcome {
                status: r.status,
                tape: r.machine@,
                out: r.output@,
            }),
    {
        let mut machine = Machine::new();
        let mut output: Vec<u8> = Vec::new();
        let status = exec_commands(self.commands(), &mut machine, &mut output, fuel);
        Execution { status, output, machine }
    }
}

} // verus!
