//! The execution model: a resumable machine that runs a command tree on a
//! tape of 30,000 byte cells, one step at a time, and hands every read and
//! write to its driver.

use vstd::prelude::*;
use crate::command::Command;
use crate::tree::{lemma_nodes_view_index, nodes_view, Ast, Node, Program};

verus! {

/// The number of cells on the tape.
pub const TAPE_LEN: usize = 30000;

/// Where the pointer stands after a command: a move stops at either end of
/// the tape.
pub open spec fn pointer_after(cmd: Command, ptr: int) -> int {
    match cmd {
        Command::MoveRight => if ptr < TAPE_LEN - 1 {
            ptr + 1
        } else {
            ptr
        },
        Command::MoveLeft => if ptr > 0 {
            ptr - 1
        } else {
            ptr
        },
        _ => ptr,
    }
}

/// What the current cell holds after a command: counting wraps around
/// modulo 256.
pub open spec fn cell_after(cmd: Command, cell: u8) -> u8 {
    match cmd {
        Command::Inc => if cell == 255 {
            0u8
        } else {
            (cell + 1) as u8
        },
        Command::Dec => if cell == 0 {
            255u8
        } else {
            (cell - 1) as u8
        },
        _ => cell,
    }
}

/// A place in the command tree: a sequence of trees and how many of them
/// are done.
pub struct Frame {
    pub body: Seq<Ast>,
    pub pc: int,
}

/// The state of one execution: the tape, the pointer, and the stack of
/// places, outermost first. Every frame above the first is the body of a
/// loop that is being run.
pub struct State {
    pub tape: Seq<u8>,
    pub ptr: int,
    pub frames: Seq<Frame>,
}

/// What the driver has to do before the next step.
#[derive(Clone, Copy, Debug, PartialEq, Eq)]
pub enum Action {
    /// Nothing: the step was internal.
    Continue,
    /// Send this byte to the writer, and `supply` what came of it.
    Write(u8),
    /// Read one byte and `supply` what came of it; the machine waits until
    /// it is given a byte.
    Read,
    /// Nothing is left to run.
    Halt,
}

/// What came of the read or the write that the machine asked for.
#[derive(Clone, Copy, Debug, PartialEq, Eq)]
pub enum IoEvent {
    /// One byte was read.
    Byte(u8),
    /// The input is used up.
    EndOfInput,
    /// The reader failed.
    ReadFailed,
    /// The byte was written.
    Written,
    /// The writer failed.
    WriteFailed,
}

/// What the driver does after a read or a write.
#[derive(Clone, Copy, Debug, PartialEq, Eq)]
pub enum Verdict {
    /// Go on stepping.
    Proceed,
    /// Stop, and return the tape as it stands: a success.
    Finish,
    /// Stop, and return the error of the reader or the writer.
    Abort,
}

/// The rule for reads and writes. A byte read goes into the current cell.
/// At the end of the input the execution stops at once and succeeds with
/// the tape it has; no sentinel is stored. A failure of the reader or of
/// the writer stops the execution with that error.
pub open spec fn verdict_on(event: IoEvent) -> Verdict {
    match event {
        IoEvent::Byte(_) => Verdict::Proceed,
        IoEvent::Written => Verdict::Proceed,
        IoEvent::EndOfInput => Verdict::Finish,
        IoEvent::ReadFailed => Verdict::Abort,
        IoEvent::WriteFailed => Verdict::Abort,
    }
}

/// The state after an event was handed in: only a byte handed to a machine
/// that waits for one changes anything.
pub open spec fn state_on(s: State, event: IoEvent) -> State {
    match event {
        IoEvent::Byte(byte) => if next_action(s) is Read {
            s.fed(byte)
        } else {
            s
        },
        _ => s,
    }
}

impl State {
    /// The validity of a state: a full-length tape, the pointer on it, and
    /// at least one frame, each within its sequence.
    pub open spec fn wf(self) -> bool {
        &&& self.tape.len() == TAPE_LEN
        &&& 0 <= self.ptr < TAPE_LEN
        &&& self.frames.len() >= 1
        &&& forall|i: int|
            0 <= i < self.frames.len() ==> 0 <= (#[trigger] self.frames[i]).pc
                <= self.frames[i].body.len()
    }

    /// The innermost frame.
    pub open spec fn top(self) -> Frame {
        self.frames.last()
    }

    /// The cell under the pointer.
    pub open spec fn cell(self) -> u8 {
        self.tape[self.ptr]
    }

    /// Whether the innermost frame has run all of its sequence.
    pub open spec fn at_end(self) -> bool {
        self.top().pc >= self.top().body.len()
    }

    /// Whether the whole program has run.
    pub open spec fn halted(self) -> bool {
        self.frames.len() <= 1 && self.at_end()
    }

    /// The tree to run next, when the innermost frame is not at its end.
    pub open spec fn current(self) -> Ast {
        self.top().body[self.top().pc]
    }

    /// The stack with the innermost frame moved past its current tree.
    pub open spec fn advanced(self) -> Seq<Frame> {
        self.frames.update(
            self.frames.len() - 1,
            Frame { body: self.top().body, pc: self.top().pc + 1 },
        )
    }

    /// The stack with the innermost frame back at its start.
    pub open spec fn restarted(self) -> Seq<Frame> {
        self.frames.update(self.frames.len() - 1, Frame { body: self.top().body, pc: 0 })
    }

    /// The state after the byte `byte` was read into the current cell.
    pub open spec fn fed(self, byte: u8) -> State {
        State { tape: self.tape.update(self.ptr, byte), ptr: self.ptr, frames: self.advanced() }
    }
}

/// The state in which every execution of `program` starts: an all-zero
/// tape, the pointer on the first cell, nothing run yet.
pub open spec fn initial(program: Seq<Ast>) -> State {
    State {
        tape: Seq::new(TAPE_LEN as nat, |i: int| 0u8),
        ptr: 0,
        frames: seq![Frame { body: program, pc: 0 }],
    }
}

/// What the next step asks of the driver.
pub open spec fn next_action(s: State) -> Action {
    if s.halted() {
        Action::Halt
    } else if s.at_end() {
        Action::Continue
    } else {
        match s.current() {
            Ast::Loop(_) => Action::Continue,
            Ast::Op(c) => match c {
                Command::Write => Action::Write(s.cell()),
                Command::Read => Action::Read,
                _ => Action::Continue,
            },
        }
    }
}

/// The state after the next step.
///
/// A loop is tested before each round, the first too: with a zero cell the
/// machine moves past it, otherwise it enters the body, and at the end of
/// the body it tests again. A command acts on the cell and the pointer. A
/// read changes nothing: the machine waits for `fed`. A bracket command in
/// a tree has no effect; compilation never produces one.
pub open spec fn next_state(s: State) -> State {
    if s.halted() {
        s
    } else if s.at_end() {
        if s.cell() != 0 {
            State { tape: s.tape, ptr: s.ptr, frames: s.restarted() }
        } else {
            State { tape: s.tape, ptr: s.ptr, frames: s.frames.drop_last() }
        }
    } else {
        match s.current() {
            Ast::Loop(body) => if s.cell() != 0 {
                State {
                    tape: s.tape,
                    ptr: s.ptr,
                    frames: s.advanced().push(Frame { body: body, pc: 0 }),
                }
            } else {
                State { tape: s.tape, ptr: s.ptr, frames: s.advanced() }
            },
            Ast::Op(c) => match c {
                Command::Read => s,
                _ => State {
                    tape: s.tape.update(s.ptr, cell_after(c, s.cell())),
                    ptr: pointer_after(c, s.ptr),
                    frames: s.advanced(),
                },
            },
        }
    }
}

struct Cursor<'a> {
    body: &'a Vec<Node>,
    pc: usize,
}

spec fn frame_of(c: Cursor) -> Frame {
    Frame { body: nodes_view(c.body@), pc: c.pc as int }
}

spec fn frames_of(cs: Seq<Cursor>) -> Seq<Frame> {
    Seq::new(cs.len(), |i: int| frame_of(cs[i]))
}

/// One execution of a program. It borrows the command tree, which stays
/// unchanged and can be run again.
pub struct Machine<'a> {
    tape: Vec<u8>,
    ptr: usize,
    frames: Vec<Cursor<'a>>,
}

impl<'a> Machine<'a> {
    /// The state that the machine is in.
    pub closed spec fn view(&self) -> State {
        State { tape: self.tape@, ptr: self.ptr as int, frames: frames_of(self.frames@) }
    }

    proof fn lemma_bounds(&self)
        requires
            self@.wf(),
        ensures
            self.tape.len() == TAPE_LEN,
            self.ptr < TAPE_LEN,
            self.frames.len() >= 1,
            forall|i: int|
                0 <= i < self.frames.len() ==> (#[trigger] self.frames[i]).pc
                    <= self.frames[i].body.len(),
    {
        assert(self@.frames.len() == self.frames.len());
        assert forall|i: int| 0 <= i < self.frames.len() implies (#[trigger] self.frames[i]).pc
            <= self.frames[i].body.len() by {
            lemma_nodes_view_index(self.frames@[i].body@);
            assert(self@.frames[i] == frame_of(self.frames@[i]));
        }
    }

    /// A machine at the start of `program`.
    pub fn new(program: &'a Program) -> (m: Machine<'a>)
        ensures
            m@ == initial(program@),
            m@.wf(),
    {
        let mut tape: Vec<u8> = Vec::new();
        let mut i: usize = 0;
        while i < TAPE_LEN
            invariant
                i <= TAPE_LEN,
                tape@.len() == i,
                forall|j: int| 0 <= j < i ==> tape@[j] == 0u8,
            decreases TAPE_LEN - i,
        {
            tape.push(0u8);
            i = i + 1;
        }
        let mut frames: Vec<Cursor<'a>> = Vec::new();
        frames.push(Cursor { body: program.nodes(), pc: 0 });
        let m = Machine { tape, ptr: 0, frames };
        proof {
            assert(m@.tape =~= initial(program@).tape);
            assert(m@.frames =~= initial(program@).frames);
        }
        m
    }

    /// Whether the machine is in a valid state. Every machine that `new`
    /// made is, and stays so.
    pub fn is_valid(&self) -> (ok: bool)
        ensures
            ok == self@.wf(),
    {
        if self.tape.len() != TAPE_LEN || self.ptr >= TAPE_LEN || self.frames.len() == 0 {
            return false;
        }
        let mut i: usize = 0;
        while i < self.frames.len()
            invariant
                i <= self.frames.len(),
                self@.frames.len() == self.frames.len(),
                forall|j: int|
                    0 <= j < i ==> 0 <= (#[trigger] self@.frames[j]).pc
                        <= self@.frames[j].body.len(),
            decreases self.frames.len() - i,
        {
            proof {
                lemma_nodes_view_index(self.frames@[i as int].body@);
                assert(self@.frames[i as int] == frame_of(self.frames@[i as int]));
            }
            if self.frames[i].pc > self.frames[i].body.len() {
                return false;
            }
            i = i + 1;
        }
        true
    }

    /// The index of the current cell; it is always on the tape.
    pub fn pointer(&self) -> (p: usize)
        requires
            self@.wf(),
        ensures
            p == self@.ptr,
            p < TAPE_LEN,
    {
        self.ptr
    }

    /// The tape as it stands.
    pub fn tape(&self) -> (t: &Vec<u8>)
        ensures
            t@ == self@.tape,
    {
        &self.tape
    }

    /// Ends the execution and hands out the tape.
    pub fn into_tape(self) -> (t: Vec<u8>)
        ensures
            t@ == self@.tape,
    {
        self.tape
    }

    /// What the next step will ask of the driver; the machine stays as it
    /// is.
    pub fn peek(&self) -> (action: Action)
        requires
            self@.wf(),
        ensures
            action == next_action(self@),
    {
        proof {
            self.lemma_bounds();
        }
        let n: usize = self.frames.len();
        let body: &'a Vec<Node> = self.frames[n - 1].body;
        let pc: usize = self.frames[n - 1].pc;
        proof {
            lemma_nodes_view_index(body@);
        }
        if pc >= body.len() {
            if n == 1 {
                Action::Halt
            } else {
                Action::Continue
            }
        } else {
            match &body[pc] {
                Node::Loop(_) => Action::Continue,
                Node::Op(c) => match c {
                    Command::Write => Action::Write(self.tape[self.ptr]),
                    Command::Read => Action::Read,
                    _ => Action::Continue,
                },
            }
        }
    }

    /// Runs one step and says what the driver has to do. On `Write` the
    /// machine has already moved on; on `Read` and on `Halt` it has not
    /// moved.
    pub fn step(&mut self) -> (action: Action)
        requires
            old(self)@.wf(),
        ensures
            action == next_action(old(self)@),
            final(self)@ == next_state(old(self)@),
            final(self)@.wf(),
    {
        proof {
            self.lemma_bounds();
        }
        let ghost before = self@;
        let n: usize = self.frames.len();
        let body: &'a Vec<Node> = self.frames[n - 1].body;
        let pc: usize = self.frames[n - 1].pc;
        let p: usize = self.ptr;
        let cell: u8 = self.tape[p];
        proof {
            lemma_nodes_view_index(body@);
        }
        let action = if pc >= body.len() {
            if n == 1 {
                Action::Halt
            } else {
                if cell != 0 {
                    self.frames.set(n - 1, Cursor { body: body, pc: 0 });
                } else {
                    self.frames.pop();
                }
                Action::Continue
            }
        } else {
            match &body[pc] {
                Node::Loop(inner) => {
                    self.frames.set(n - 1, Cursor { body: body, pc: pc + 1 });
                    if cell != 0 {
                        self.frames.push(Cursor { body: inner, pc: 0 });
                    }
                    Action::Continue
                },
                Node::Op(c) => match c {
                    Command::Read => Action::Read,
                    Command::Write => {
                        self.frames.set(n - 1, Cursor { body: body, pc: pc + 1 });
                        Action::Write(cell)
                    },
                    Command::MoveRight => {
                        self.frames.set(n - 1, Cursor { body: body, pc: pc + 1 });
                        if p < TAPE_LEN - 1 {
                            self.ptr = p + 1;
                        }
                        Action::Continue
                    },
                    Command::MoveLeft => {
                        self.frames.set(n - 1, Cursor { body: body, pc: pc + 1 });
                        if p > 0 {
                            self.ptr = p - 1;
                        }
                        Action::Continue
                    },
                    Command::Inc => {
                        self.frames.set(n - 1, Cursor { body: body, pc: pc + 1 });
                        self.tape.set(p, cell.wrapping_add(1));
                        Action::Continue
                    },
                    Command::Dec => {
                        self.frames.set(n - 1, Cursor { body: body, pc: pc + 1 });
                        self.tape.set(p, cell.wrapping_sub(1));
                        Action::Continue
                    },
                    _ => {
                        self.frames.set(n - 1, Cursor { body: body, pc: pc + 1 });
                        Action::Continue
                    },
                },
            }
        };
        proof {
            assert(self@.tape =~= next_state(before).tape);
            assert(self@.frames =~= next_state(before).frames);
        }
        action
    }

    /// Takes the outcome of a read or a write and says how the driver goes
    /// on.
    pub fn supply(&mut self, event: IoEvent) -> (verdict: Verdict)
        requires
            old(self)@.wf(),
        ensures
            verdict == verdict_on(event),
            final(self)@ == state_on(old(self)@, event),
            final(self)@.wf(),
    {
        match event {
            IoEvent::Byte(byte) => {
                self.feed(byte);
                Verdict::Proceed
            },
            IoEvent::Written => Verdict::Proceed,
            IoEvent::EndOfInput => Verdict::Finish,
            IoEvent::ReadFailed => Verdict::Abort,
            IoEvent::WriteFailed => Verdict::Abort,
        }
    }

    /// Hands the machine a byte that was read. A machine that waits for
    /// one stores it in the current cell and moves on; any other machine
    /// refuses it and stays as it is.
    pub fn feed(&mut self, byte: u8) -> (accepted: bool)
        requires
            old(self)@.wf(),
        ensures
            accepted == (next_action(old(self)@) is Read),
            final(self)@ == if accepted {
                old(self)@.fed(byte)
            } else {
                old(self)@
            },
            final(self)@.wf(),
    {
        let ghost before = self@;
        match self.peek() {
            Action::Read => {
                let n: usize = self.frames.len();
                let body: &'a Vec<Node> = self.frames[n - 1].body;
                let pc: usize = self.frames[n - 1].pc;
                let p: usize = self.ptr;
                proof {
                    self.lemma_bounds();
                    lemma_nodes_view_index(body@);
                }
                self.frames.set(n - 1, Cursor { body: body, pc: pc + 1 });
                self.tape.set(p, byte);
                proof {
                    assert(self@.tape =~= before.fed(byte).tape);
                    assert(self@.frames =~= before.fed(byte).frames);
                }
                true
            },
            _ => false,
        }
    }
}

} // verus!
