//! The execution engine: tape, pointer, program counter and undo log.
use crate::instruction::{inverse_of, Instruction, Operation};
use vstd::prelude::*;

verus! {

/// Number of cells on the tape; the pointer ranges over all of them.
pub const TAPE_LEN: usize = 65536;

/// What a single step of the engine did.
#[derive(Debug, Clone, Copy, PartialEq, Eq, Structural)]
pub enum Step {
    /// An instruction ran and the program goes on.
    Continue,
    /// An output instruction ran and emitted this byte.
    Emit(u8),
    /// The program is over: the counter is past the last instruction, or it
    /// points at a halt instruction.
    Stop,
}

/// The mathematical state of an engine.
pub struct MachineView {
    /// The program, fixed for the run.
    pub instructions: Seq<Instruction>,
    /// Index of the next instruction to fetch.
    pub counter: nat,
    /// The cells, `TAPE_LEN` of them in an engine.
    pub tape: Seq<u8>,
    /// Index of the current cell.
    pub pointer: u16,
    /// The operations that rollback can still undo, oldest first.
    pub log: Seq<Operation>,
}

/// The tape and pointer after applying `op`, with both taken modulo their ranges.
pub open spec fn apply_op(tape: Seq<u8>, pointer: u16, op: Operation) -> (Seq<u8>, u16) {
    let p = pointer as int;
    match op {
        Operation::MoveLeft => (tape, ((p + 65535) % 65536) as u16),
        Operation::MoveRight => (tape, ((p + 1) % 65536) as u16),
        Operation::Increment => (tape.update(p, ((tape[p] + 1) % 256) as u8), pointer),
        Operation::Decrement => (tape.update(p, ((tape[p] + 255) % 256) as u8), pointer),
    }
}

impl MachineView {
    /// The state in which a run of `instructions` starts.
    pub open spec fn initial(instructions: Seq<Instruction>) -> MachineView {
        MachineView {
            instructions,
            counter: 0,
            tape: Seq::new(TAPE_LEN as nat, |i: int| 0u8),
            pointer: 0,
            log: Seq::empty(),
        }
    }

    /// The value of the cell under the pointer.
    pub open spec fn cell(self) -> u8 {
        self.tape[self.pointer as int]
    }

    /// Applies `op` to the tape and pointer, leaving the log as it is.
    pub open spec fn perform(self, op: Operation) -> MachineView {
        let (tape, pointer) = apply_op(self.tape, self.pointer, op);
        MachineView { tape, pointer, ..self }
    }

    /// Applies `op` and records it in the log.
    pub open spec fn perform_logged(self, op: Operation) -> MachineView {
        MachineView { log: self.log.push(op), ..self.perform(op) }
    }

    /// Undoes up to `n` logged operations, most recent first, stopping early when
    /// the log runs out. Nothing of the undoing is logged.
    pub open spec fn undo(self, n: nat) -> MachineView
        decreases n,
    {
        if n == 0 || self.log.len() == 0 {
            self
        } else {
            let last = self.log.last();
            MachineView { log: self.log.drop_last(), ..self.perform(inverse_of(last)) }.undo(
                (n - 1) as nat,
            )
        }
    }

    /// Whether the next step ends the program.
    pub open spec fn is_stopped(self) -> bool {
        self.counter >= self.instructions.len() || self.instructions[self.counter as int]
            == Instruction::Halt
    }

    /// One step of the fetch-execute loop: the next state and what the step did.
    pub open spec fn step(self) -> (MachineView, Step) {
        if self.is_stopped() {
            (self, Step::Stop)
        } else {
            let next = self.counter + 1;
            match self.instructions[self.counter as int] {
                Instruction::Output => (MachineView { counter: next, ..self }, Step::Emit(self.cell())),
                Instruction::Jump(t) => (MachineView { counter: t as nat, ..self }, Step::Continue),
                Instruction::JumpEquals(v, t) => (
                    MachineView {
                        counter: if self.cell() == v { t as nat } else { next },
                        ..self
                    },
                    Step::Continue,
                ),
                Instruction::JumpNotEquals(v, t) => (
                    MachineView {
                        counter: if self.cell() != v { t as nat } else { next },
                        ..self
                    },
                    Step::Continue,
                ),
                Instruction::Rollback(n) => (
                    MachineView { counter: next, ..self.undo(n as nat) },
                    Step::Continue,
                ),
                Instruction::MoveLeft => (
                    MachineView { counter: next, ..self.perform_logged(Operation::MoveLeft) },
                    Step::Continue,
                ),
                Instruction::MoveRight => (
                    MachineView { counter: next, ..self.perform_logged(Operation::MoveRight) },
                    Step::Continue,
                ),
                Instruction::Increment => (
                    MachineView { counter: next, ..self.perform_logged(Operation::Increment) },
                    Step::Continue,
                ),
                Instruction::Decrement => (
                    MachineView { counter: next, ..self.perform_logged(Operation::Decrement) },
                    Step::Continue,
                ),
                Instruction::Halt => (self, Step::Stop),
            }
        }
    }

    /// Runs at most `fuel` steps: the final state, the bytes emitted in order,
    /// and whether a step reported the end of the program.
    pub open spec fn run(self, fuel: nat) -> (MachineView, Seq<u8>, bool)
        decreases fuel,
    {
        if fuel == 0 {
            (self, Seq::empty(), false)
        } else {
            let (next, step) = self.step();
            match step {
                Step::Stop => (self, Seq::empty(), true),
                Step::Emit(b) => {
                    let (last, out, stopped) = next.run((fuel - 1) as nat);
                    (last, seq![b] + out, stopped)
                },
                Step::Continue => next.run((fuel - 1) as nat),
            }
        }
    }
}

/// Undoing changes only the tape, the pointer and the log.
pub proof fn lemma_undo_frame(s: MachineView, n: nat)
    ensures
        s.undo(n).instructions == s.instructions,
        s.undo(n).counter == s.counter,
    decreases n,
{
    if n > 0 && s.log.len() > 0 {
        let t = MachineView { log: s.log.drop_last(), ..s.perform(inverse_of(s.log.last())) };
        lemma_undo_frame(t, (n - 1) as nat);
    }
}

/// An engine running one program.
pub struct Program<'p> {
    instructions: &'p [Instruction],
    program_counter: usize,
    memory: [u8; 65536],
    program_log: Vec<Operation>,
    pointer: u16,
}

impl<'p> View for Program<'p> {
    type V = MachineView;

    closed spec fn view(&self) -> MachineView {
        MachineView {
            instructions: self.instructions@,
            counter: self.program_counter as nat,
            tape: self.memory@,
            pointer: self.pointer,
            log: self.program_log@,
        }
    }
}

impl<'p> Program<'p> {
    /// A fresh engine for `instructions`: counter and pointer at zero, every cell
    /// zero, the log empty.
    pub fn new(instructions: &'p [Instruction]) -> (r: Self)
        ensures
            r@ == MachineView::initial(instructions@),
    {
        let r = Self {
            instructions,
            program_counter: 0,
            memory: [0u8; 65536],
            program_log: Vec::new(),
            pointer: 0u16,
        };
        assert(r.memory@ =~= Seq::new(TAPE_LEN as nat, |i: int| 0u8));
        r
    }

    /// Runs one step of the fetch-execute loop.
    pub fn step(&mut self) -> (r: Step)
        ensures
            (final(self)@, r) == old(self)@.step(),
    {
        if self.program_counter >= self.instructions.len() {
            // past the last instruction: the program has run off its end
            return Step::Stop;
        }
        let instruction = self.instructions[self.program_counter];
        if let Some(operation) = Operation::from_instruction(instruction) {
            self.do_op(operation);
            self.program_counter += 1;
            return Step::Continue;
        }
        match instruction {
            Instruction::Output => {
                let value = self.memory[self.pointer as usize];
                self.program_counter += 1;
                Step::Emit(value)
            },
            Instruction::Jump(to) => {
                self.program_counter = to;
                Step::Continue
            },
            Instruction::JumpEquals(value, to) => {
                if self.memory[self.pointer as usize] == value {
                    self.program_counter = to;
                } else {
                    self.program_counter += 1;
                }
                Step::Continue
            },
            Instruction::JumpNotEquals(value, to) => {
                if self.memory[self.pointer as usize] != value {
                    self.program_counter = to;
                } else {
                    self.program_counter += 1;
                }
                Step::Continue
            },
            Instruction::Rollback(amt) => {
                proof {
                    lemma_undo_frame(self@, amt as nat);
                }
                self.rollback(amt);
                self.program_counter += 1;
                Step::Continue
            },
            Instruction::Halt => Step::Stop,
            // the invertible instructions were handled above
            _ => Step::Continue,
        }
    }

    /// Runs at most `max_steps` steps and returns the bytes emitted, in order,
    /// and whether the program ended within those steps.
    pub fn run(&mut self, max_steps: usize) -> (r: (Vec<u8>, bool))
        ensures
            ({
                let (last, out, stopped) = old(self)@.run(max_steps as nat);
                final(self)@ == last && r.0@ == out && r.1 == stopped
            }),
    {
        let mut out: Vec<u8> = Vec::new();
        let mut n: usize = 0;
        while n < max_steps
            invariant
                n <= max_steps,
                ({
                    let (last, all, stopped) = old(self)@.run(max_steps as nat);
                    let (last2, rest, stopped2) = self@.run((max_steps - n) as nat);
                    last == last2 && all == out@ + rest && stopped == stopped2
                }),
            decreases max_steps - n,
        {
            let ghost before = self@;
            let ghost before_out = out@;
            match self.step() {
                Step::Stop => {
                    assert(out@ + Seq::<u8>::empty() == out@);
                    return (out, true);
                },
                Step::Emit(b) => {
                    out.push(b);
                    assert(before_out + (seq![b] + self@.run((max_steps - n - 1) as nat).1) == out@
                        + self@.run((max_steps - n - 1) as nat).1);
                },
                Step::Continue => {},
            }
            n += 1;
        }
        assert(out@ + Seq::<u8>::empty() == out@);
        (out, false)
    }

    fn do_op(&mut self, op: Operation)
        ensures
            final(self)@ == old(self)@.perform_logged(op),
            final(self).instructions == old(self).instructions,
    {
        self.execute_op(op);
        self.program_log.push(op);
    }

    fn execute_op(&mut self, op: Operation)
        ensures
            final(self)@ == old(self)@.perform(op),
            final(self).instructions == old(self).instructions,
    {
        let ghost p = self.pointer as int;
        match op {
            Operation::MoveLeft => self.pointer = self.pointer.wrapping_sub(1),
            Operation::MoveRight => self.pointer = self.pointer.wrapping_add(1),
            Operation::Increment => {
                let i = self.pointer as usize;
                self.memory[i] = self.memory[i].wrapping_add(1);
            },
            Operation::Decrement => {
                let i = self.pointer as usize;
                self.memory[i] = self.memory[i].wrapping_sub(1);
            },
        };
        assert(self@.tape =~= old(self)@.perform(op).tape);
    }

    /// Undoes up to `amt` of the most recently logged operations, most recent
    /// first. Asking for more than the log holds undoes all of it; nothing else
    /// happens, and the undoing itself is not logged.
    pub fn rollback(&mut self, amt: usize)
        ensures
            final(self)@ == old(self)@.undo(amt as nat),
    {
        let mut i: usize = 0;
        while i < amt
            invariant
                i <= amt,
                self@.undo((amt - i) as nat) == old(self)@.undo(amt as nat),
            decreases amt - i,
        {
            if let Some(op) = self.program_log.pop() {
                self.execute_op(op.inverse());
            } else {
                return;
            }
            i += 1;
        }
    }
}

} // verus!
