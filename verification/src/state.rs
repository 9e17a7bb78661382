//! The mutable execution record of one run: the grid, both word stacks,
//! the pointer and direction, the mode flags, the digit accumulator, the
//! reverse-mode I/O buffers, the unread host input and the emitted
//! output. Its view is the abstract state the semantics are stated over.

use vstd::prelude::*;

use crate::direction::Direction;
use crate::instruction::Instruction;
use crate::program::{is_start_location, Program};
use crate::semantics::StateModel;
use crate::stack::Stack;

verus! {

pub struct State {
    pub program: Program,
    pub data_stack: Stack<i32>,
    pub control_stack: Stack<i32>,
    pub location: (usize, usize),
    pub direction: Direction,
    pub reverse_mode: bool,
    pub string_mode: bool,
    pub multi_digit_accumulator: Vec<u8>,
    pub output_stack: Stack<char>,
    pub input_stack: Stack<char>,
    pub host_input: Stack<char>,
    pub emitted: Vec<char>,
}

impl View for State {
    type V = StateModel;

    open spec fn view(&self) -> StateModel {
        StateModel {
            grid: self.program@,
            data: self.data_stack@,
            control: self.control_stack@,
            x: self.location.0 as int,
            y: self.location.1 as int,
            dir: self.direction,
            reverse: self.reverse_mode,
            string: self.string_mode,
            acc: self.multi_digit_accumulator@,
            output: self.output_stack@,
            input: self.input_stack@,
            host_input: self.host_input@,
            emitted: self.emitted@,
        }
    }
}

impl State {
    /// A fresh run of the given program over the given host input bytes:
    /// empty stacks, forward mode, travelling east from the start
    /// location the grid names. The host input is stacked with its first
    /// character on top, to be consumed in order.
    pub fn new(program: Program, input: Vec<char>) -> (r: State)
        requires
            program.wf(),
        ensures
            r@.grid == program@,
            r@.data == Seq::<i32>::empty(),
            r@.control == Seq::<i32>::empty(),
            is_start_location(r@.grid, r@.x, r@.y),
            r@.dir == Direction::East,
            !r@.reverse,
            !r@.string,
            r@.acc == Seq::<u8>::empty(),
            r@.output == Seq::<char>::empty(),
            r@.input == Seq::<char>::empty(),
            r@.host_input == input@.reverse(),
            r@.emitted == Seq::<char>::empty(),
            r@.wf(),
    {
        let location = program.lookup();
        let n = input.len();
        let mut host: Stack<char> = Stack::new();
        let mut k: usize = n;
        while k > 0
            invariant
                n == input@.len(),
                k <= n,
                host@.len() == n - k,
                forall|t: int| 0 <= t < n - k ==> host@[t] == input@[n - 1 - t],
            decreases k,
        {
            k -= 1;
            host.push(input[k]);
        }
        proof {
            assert(host@ =~= input@.reverse());
        }
        State {
            program,
            data_stack: Stack::new(),
            control_stack: Stack::new(),
            location,
            direction: Direction::East,
            reverse_mode: false,
            string_mode: false,
            multi_digit_accumulator: Vec::new(),
            output_stack: Stack::new(),
            input_stack: Stack::new(),
            host_input: host,
            emitted: Vec::new(),
        }
    }

    /// The cell the pointer would move to in the current direction, one
    /// step onward with toroidal wrap.
    pub fn next(&self) -> (r: (usize, usize))
        requires
            self@.wf(),
        ensures
            (r.0 as int, r.1 as int) == self@.next_loc(),
    {
        let (x, y) = self.location;
        let rows = self.program.rows();
        let cols = self.program.cols();
        match self.direction {
            Direction::North => (x, if y == 0 { rows - 1 } else { y - 1 }),
            Direction::East => (if x + 1 == cols { 0 } else { x + 1 }, y),
            Direction::South => (x, if y + 1 == rows { 0 } else { y + 1 }),
            Direction::West => (if x == 0 { cols - 1 } else { x - 1 }, y),
        }
    }

    /// Whether the pointer stands on the halt glyph while reverse mode
    /// is on: the one dispatch that is a program error rather than a
    /// rule.
    pub fn at_reverse_halt(&self) -> (r: bool)
        requires
            self@.wf(),
        ensures
            r == self@.at_reverse_halt(),
    {
        if !self.reverse_mode {
            return false;
        }
        match self.program.instruction_at(self.location) {
            Some(ins) => ins.is_halt(),
            None => false,
        }
    }

    /// The instruction the engine dispatches on: the glyph under the
    /// pointer, replaced by its inverse under reverse mode.
    pub fn instr(&self) -> (r: Instruction)
        requires
            self@.wf(),
            !self@.at_reverse_halt(),
        ensures
            r@ == self@.effective(),
            r.wf(),
    {
        let ins = match self.program.instruction_at(self.location) {
            Some(ins) => ins,
            None => {
                proof {
                    assert(false);
                }
                Instruction::nop()
            },
        };
        if self.reverse_mode {
            ins.inv()
        } else {
            ins
        }
    }
}

} // verus!
