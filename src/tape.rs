//! The machine state: a byte tape that grows on demand at either edge, and a
//! cursor into it.
use std::collections::VecDeque;
use vstd::prelude::*;

verus! {

/// A cell value plus one, modulo 256.
pub open spec fn byte_inc(b: u8) -> u8 {
    ((b as int + 1) % 256) as u8
}

/// A cell value minus one, modulo 256.
pub open spec fn byte_dec(b: u8) -> u8 {
    ((b as int + 255) % 256) as u8
}

/// The model of a machine: the materialized cells, left edge first, and the
/// cursor's index among them.
pub struct Tape {
    pub cells: Seq<u8>,
    pub pos: nat,
}

impl Tape {
    /// The cursor refers to a materialized cell.
    pub open spec fn wf(self) -> bool {
        self.pos < self.cells.len()
    }

    /// A single zero cell under the cursor.
    pub open spec fn fresh() -> Tape {
        Tape { cells: seq![0u8], pos: 0 }
    }

    /// The value under the cursor.
    pub open spec fn current(self) -> u8 {
        self.cells[self.pos as int]
    }

    /// One cell to the right, with a zero cell added at the right edge if the
    /// cursor stood on it.
    pub open spec fn move_right(self) -> Tape {
        if self.pos + 1 >= self.cells.len() {
            Tape { cells: self.cells.push(0u8), pos: self.pos + 1 }
        } else {
            Tape { cells: self.cells, pos: self.pos + 1 }
        }
    }

    /// One cell to the left, with a zero cell added at the left edge if the
    /// cursor stood on it; the cursor's index then stays 0.
    pub open spec fn move_left(self) -> Tape {
        if self.pos == 0 {
            Tape { cells: seq![0u8] + self.cells, pos: 0 }
        } else {
            Tape { cells: self.cells, pos: (self.pos - 1) as nat }
        }
    }

    /// The current cell set to `b`.
    pub open spec fn store(self, b: u8) -> Tape {
        Tape { cells: self.cells.update(self.pos as int, b), pos: self.pos }
    }

    pub open spec fn increment(self) -> Tape {
        self.store(byte_inc(self.current()))
    }

    pub open spec fn decrement(self) -> Tape {
        self.store(byte_dec(self.current()))
    }

    /// `increment` applied `n` times.
    pub open spec fn increment_n(self, n: nat) -> Tape
        decreases n,
    {
        if n == 0 {
            self
        } else {
            self.increment().increment_n((n - 1) as nat)
        }
    }
}

/// Adding one to the current cell 256 times gives the tape back unchanged.
pub proof fn lemma_increment_wraps(t: Tape)
    requires
        t.wf(),
    ensures
        t.increment_n(256) == t,
{
    lemma_increment_n(t, 256);
    assert(t.increment_n(256).cells =~= t.cells);
}

proof fn lemma_increment_n(t: Tape, k: nat)
    requires
        t.wf(),
    ensures
        t.increment_n(k).cells == t.cells.update(t.pos as int, ((t.current() as int + k) % 256) as u8),
        t.increment_n(k).pos == t.pos,
    decreases k,
{
    if k == 0 {
        assert(t.cells.update(t.pos as int, ((t.current() as int) % 256) as u8) =~= t.cells);
    } else {
        let u = t.increment();
        lemma_increment_n(u, (k - 1) as nat);
        assert(((u.current() as int + (k - 1)) % 256) == ((t.current() as int + k) % 256)) by {
            assert(u.current() == ((t.current() as int + 1) % 256) as u8);
        }
        assert(u.cells.update(t.pos as int, ((t.current() as int + k) % 256) as u8)
            =~= t.cells.update(t.pos as int, ((t.current() as int + k) % 256) as u8));
    }
}

/// Subtracting one undoes adding one, and adding one undoes subtracting one.
pub proof fn lemma_decrement_inverts_increment(t: Tape)
    requires
        t.wf(),
    ensures
        t.increment().decrement() == t,
        t.decrement().increment() == t,
{
    assert(t.increment().decrement().cells =~= t.cells);
    assert(t.decrement().increment().cells =~= t.cells);
}

/// Moving right and then left returns the cursor to the same cell with the
/// same value; the only change a round trip can leave is one zero cell added
/// at the right edge.
pub proof fn lemma_right_then_left(t: Tape)
    requires
        t.wf(),
    ensures
        t.move_right().move_left().pos == t.pos,
        t.move_right().move_left().current() == t.current(),
        t.move_right().move_left().cells == t.cells || t.move_right().move_left().cells
            == t.cells.push(0u8),
        t.move_right().move_left().wf(),
{
}

/// The tape state of one run.
#[derive(Debug)]
pub struct Machine {
    ptr: usize,
    data: VecDeque<u8>,
}

/// Relies on `IndexMut` for `VecDeque`: writes `v` at index `i`, which is
/// below the length.
#[verifier::external_body]
fn deque_set(d: &mut VecDeque<u8>, i: usize, v: u8)
    requires
        i < old(d)@.len(),
    ensures
        final(d)@ == old(d)@.update(i as int, v),
{
    d[i] = v;
}

impl View for Machine {
    type V = Tape;

    closed spec fn view(&self) -> Tape {
        Tape { cells: self.data@, pos: self.ptr as nat }
    }
}

impl Machine {
    pub closed spec fn wf(&self) -> bool {
        self.ptr < self.data@.len()
    }

    /// A fresh machine: one zero cell under the cursor.
    pub fn new() -> (m: Machine)
        ensures
            m.wf(),
            m@ == Tape::fresh(),
    {
        let mut data: VecDeque<u8> = VecDeque::new();
        data.push_back(0);
        Machine { ptr: 0, data }
    }

    /// The cursor's index among the materialized cells.
    pub fn position(&self) -> (r: usize)
        ensures
            r == self@.pos,
    {
        self.ptr
    }

    /// `>`.
    pub fn inc_ptr(&mut self)
        requires
            old(self).wf(),
        ensures
            final(self).wf(),
            final(self)@ == old(self)@.move_right(),
    {
        let len = self.data.len();
        self.ptr = self.ptr + 1;
        if self.ptr == len {
            self.data.push_back(0);
        }
    }

    /// `<`.
    pub fn dec_ptr(&mut self)
        requires
            old(self).wf(),
        ensures
            final(self).wf(),
            final(self)@ == old(self)@.move_left(),
    {
        if self.ptr == 0 {
            self.data.push_front(0);
        } else {
            self.ptr = self.ptr - 1;
        }
    }

    /// The value under the cursor.
    pub fn get_data(&self) -> (r: u8)
        requires
            self.wf(),
        ensures
            r == self@.current(),
    {
        self.data[self.ptr]
    }

    /// `+`.
    pub fn inc_data(&mut self)
        requires
            old(self).wf(),
        ensures
            final(self).wf(),
            final(self)@ == old(self)@.increment(),
    {
        let v = self.data[self.ptr].wrapping_add(1);
        deque_set(&mut self.data, self.ptr, v);
    }

    /// `-`.
    pub fn dec_data(&mut self)
        requires
            old(self).wf(),
        ensures
            final(self).wf(),
            final(self)@ == old(self)@.decrement(),
    {
        let v = self.data[self.ptr].wrapping_sub(1);
        deque_set(&mut self.data, self.ptr, v);
    }
}

impl Default for Machine {
    fn default() -> (m: Machine)
        ensures
            m.wf(),
            m@ == Tape::fresh(),
    {
        Machine::new()
    }
}

} // verus!
