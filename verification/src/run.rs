//! Running a program to its end on an input held in memory, within a
//! bound on the number of steps.

use vstd::prelude::*;
use crate::machine::{initial, next_action, next_state, Action, Machine, State, TAPE_LEN};
use crate::tree::{Ast, Program};

verus! {

/// How a bounded run ended.
#[derive(Clone, Copy, Debug, PartialEq, Eq)]
pub enum Status {
    /// The program ran to its end.
    Finished,
    /// The program asked for a byte when the input was used up. The run
    /// stops there, and counts as a success.
    EndOfInput,
    /// The program was still running when the steps were used up.
    OutOfFuel,
}

/// What a bounded run leaves behind.
#[derive(Debug)]
pub struct Outcome {
    /// The tape when the run stopped.
    pub tape: Vec<u8>,
    /// The bytes written, in order.
    pub output: Vec<u8>,
    pub status: Status,
}

/// The mathematical outcome of a run.
pub struct Run {
    pub tape: Seq<u8>,
    pub output: Seq<u8>,
    pub status: Status,
}

impl View for Outcome {
    type V = Run;

    open spec fn view(&self) -> Run {
        Run { tape: self.tape@, output: self.output@, status: self.status }
    }
}

/// The outcome of running on from state `s` with `input` still unread,
/// `output` already written and `fuel` steps allowed. Each step and each
/// byte read costs one unit of fuel; halting costs none.
pub open spec fn run_from(s: State, input: Seq<u8>, output: Seq<u8>, fuel: nat) -> Run
    decreases fuel,
{
    match next_action(s) {
        Action::Halt => Run { tape: s.tape, output: output, status: Status::Finished },
        Action::Read => if input.len() == 0 {
            Run { tape: s.tape, output: output, status: Status::EndOfInput }
        } else if fuel == 0 {
            Run { tape: s.tape, output: output, status: Status::OutOfFuel }
        } else {
            run_from(s.fed(input[0]), input.drop_first(), output, (fuel - 1) as nat)
        },
        Action::Write(byte) => if fuel == 0 {
            Run { tape: s.tape, output: output, status: Status::OutOfFuel }
        } else {
            run_from(next_state(s), input, output.push(byte), (fuel - 1) as nat)
        },
        Action::Continue => if fuel == 0 {
            Run { tape: s.tape, output: output, status: Status::OutOfFuel }
        } else {
            run_from(next_state(s), input, output, (fuel - 1) as nat)
        },
    }
}

/// The outcome of running `program` from its start on `input`.
pub open spec fn run_spec(program: Seq<Ast>, input: Seq<u8>, fuel: nat) -> Run {
    run_from(initial(program), input, Seq::empty(), fuel)
}

/// Runs `program` on a fresh tape, reading from `input` and collecting what
/// it writes, for at most `fuel` steps. The program is left unchanged, and
/// two runs on the same input and fuel end alike.
pub fn run(program: &Program, input: &[u8], fuel: u64) -> (out: Outcome)
    ensures
        out@ == run_spec(program@, input@, fuel as nat),
        out.tape@.len() == TAPE_LEN,
{
    let mut machine = Machine::new(program);
    let mut output: Vec<u8> = Vec::new();
    let mut pos: usize = 0;
    let mut left: u64 = fuel;
    let mut status = Status::OutOfFuel;
    let mut running: bool = true;
    assert(input@.skip(0) =~= input@);
    while running
        invariant
            machine@.wf(),
            pos <= input@.len(),
            running ==> status is OutOfFuel,
            running ==> run_spec(program@, input@, fuel as nat) == run_from(
                machine@,
                input@.skip(pos as int),
                output@,
                left as nat,
            ),
            !running ==> run_spec(program@, input@, fuel as nat) == (Run {
                tape: machine@.tape,
                output: output@,
                status: status,
            }),
        decreases left + (if running { 1int } else { 0int }),
    {
        match machine.peek() {
            Action::Halt => {
                status = Status::Finished;
                running = false;
            },
            Action::Read => {
                if pos >= input.len() {
                    status = Status::EndOfInput;
                    running = false;
                } else if left == 0 {
                    running = false;
                } else {
                    proof {
                        assert(input@.skip(pos as int).drop_first() =~= input@.skip(pos + 1));
                    }
                    machine.feed(input[pos]);
                    pos = pos + 1;
                    left = left - 1;
                }
            },
            _ => {
                if left == 0 {
                    running = false;
                } else {
                    match machine.step() {
                        Action::Write(byte) => {
                            output.push(byte);
                        },
                        _ => {},
                    }
                    left = left - 1;
                }
            },
        }
    }
    Outcome { tape: machine.into_tape(), output, status }
}

} // verus!
