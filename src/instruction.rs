//! The instruction set, and the invertible operations that the undo log records.
use vstd::prelude::*;

verus! {

/// One program step.
#[derive(Debug, Clone, Copy, PartialEq, Eq, Structural)]
#[non_exhaustive]
pub enum Instruction {
    MoveLeft,
    MoveRight,
    Increment,
    Decrement,
    Output,
    Jump(usize),
    JumpEquals(u8, usize),
    JumpNotEquals(u8, usize),
    Rollback(usize),
    Halt,
}

/// The instructions that change the tape or the pointer and can be undone.
#[derive(Debug, Clone, Copy, PartialEq, Eq, Structural)]
#[non_exhaustive]
pub enum Operation {
    MoveLeft,
    MoveRight,
    Increment,
    Decrement,
}

/// The operation that undoes `op`.
pub open spec fn inverse_of(op: Operation) -> Operation {
    match op {
        Operation::MoveLeft => Operation::MoveRight,
        Operation::MoveRight => Operation::MoveLeft,
        Operation::Increment => Operation::Decrement,
        Operation::Decrement => Operation::Increment,
    }
}

/// The operation that an instruction performs, if it is one of the invertible ones.
pub open spec fn operation_of(instruction: Instruction) -> Option<Operation> {
    match instruction {
        Instruction::MoveLeft => Some(Operation::MoveLeft),
        Instruction::MoveRight => Some(Operation::MoveRight),
        Instruction::Increment => Some(Operation::Increment),
        Instruction::Decrement => Some(Operation::Decrement),
        _ => None,
    }
}

impl Operation {
    pub fn inverse(&self) -> (r: Self)
        ensures
            r == inverse_of(*self),
    {
        match self {
            Self::MoveLeft => Self::MoveRight,
            Self::MoveRight => Self::MoveLeft,
            Self::Increment => Self::Decrement,
            Self::Decrement => Self::Increment,
        }
    }

    pub fn from_instruction(instruction: Instruction) -> (r: Option<Self>)
        ensures
            r == operation_of(instruction),
    {
        match instruction {
            Instruction::MoveLeft => Some(Self::MoveLeft),
            Instruction::MoveRight => Some(Self::MoveRight),
            Instruction::Increment => Some(Self::Increment),
            Instruction::Decrement => Some(Self::Decrement),
            Instruction::Output
            | Instruction::Jump(_)
            | Instruction::JumpEquals(_, _)
            | Instruction::JumpNotEquals(_, _)
            | Instruction::Rollback(_)
            | Instruction::Halt => None,
        }
    }
}

} // verus!
