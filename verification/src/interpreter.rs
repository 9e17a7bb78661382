//! The run loop: steps a fresh state until the program halts, gets
//! stuck, meets the halt glyph in reverse mode, or exhausts the step
//! budget, and is proved to compute the iterated step function of the
//! semantics.

use vstd::prelude::*;

use crate::instruction::InstructionExecutionStatus;
use crate::program::{is_start_location, Program};
use crate::semantics::{step_effective, StateModel, StepOutcome};
use crate::state::State;

verus! {

/// How a run ended: the halt glyph fired, no rule matched, the halt
/// glyph was met under reverse mode, or the step budget ran out first.
#[derive(Clone, Copy, PartialEq, Eq, Structural, Debug)]
pub enum RunStatus {
    Halted,
    Stuck,
    ReverseHalt,
    OutOfSteps,
}

/// The state a fresh run starts from: the given grid and host input,
/// empty stacks and buffers, forward mode, travelling east from
/// `(x, y)`. The host input is stacked with the first character last,
/// so that it is consumed in order.
pub open spec fn initial_model(
    grid: Seq<Seq<u8>>,
    input: Seq<char>,
    x: int,
    y: int,
) -> StateModel {
    StateModel {
        grid: grid,
        data: Seq::empty(),
        control: Seq::empty(),
        x: x,
        y: y,
        dir: crate::direction::Direction::East,
        reverse: false,
        string: false,
        acc: Seq::empty(),
        output: Seq::empty(),
        input: Seq::empty(),
        host_input: input.reverse(),
        emitted: Seq::empty(),
    }
}

/// Iterated stepping with a fuel bound: the status a run from `m` ends
/// with inside `fuel` steps, and the state it ends in.
pub open spec fn run_model(m: StateModel, fuel: nat) -> (RunStatus, StateModel)
    decreases fuel,
{
    if fuel == 0 {
        (RunStatus::OutOfSteps, m)
    } else if m.at_reverse_halt() {
        (RunStatus::ReverseHalt, m)
    } else {
        match step_effective(m.effective(), m) {
            StepOutcome::Halted => (RunStatus::Halted, m),
            StepOutcome::Stuck => (RunStatus::Stuck, m),
            StepOutcome::Proceed { rule, next } => run_model(next, (fuel - 1) as nat),
        }
    }
}

/// Runs a program to completion over the given host input, within a
/// step budget. Returns the final state, whose emitted buffer holds
/// everything written to the host, together with how the run ended.
pub fn run(program: Program, input: Vec<char>, max_steps: u64) -> (r: (State, RunStatus))
    requires
        program.wf(),
    ensures
        exists|x: int, y: int|
            is_start_location(program@, x, y) && (r.1, r.0@) == run_model(
                initial_model(program@, input@, x, y),
                max_steps as nat,
            ),
        r.0@.wf(),
{
    let ghost g = program@;
    let ghost inp = input@;
    let mut state = State::new(program, input);
    let ghost init = state@;
    let ghost gx = init.x;
    let ghost gy = init.y;
    proof {
        assert(init == initial_model(g, inp, gx, gy));
    }
    let mut steps_left: u64 = max_steps;
    while steps_left > 0
        invariant
            state@.wf(),
            steps_left <= max_steps,
            g == program@,
            inp == input@,
            is_start_location(g, gx, gy),
            init == initial_model(g, inp, gx, gy),
            run_model(init, max_steps as nat) == run_model(state@, steps_left as nat),
        decreases steps_left,
    {
        if state.at_reverse_halt() {
            return (state, RunStatus::ReverseHalt);
        }
        let ins = state.instr();
        match ins.execute(&mut state) {
            InstructionExecutionStatus::Successful(_) => {
                steps_left -= 1;
            },
            InstructionExecutionStatus::Unsuccessful => {
                return (state, RunStatus::Stuck);
            },
            InstructionExecutionStatus::Halt => {
                return (state, RunStatus::Halted);
            },
        }
    }
    (state, RunStatus::OutOfSteps)
}

} // verus!
