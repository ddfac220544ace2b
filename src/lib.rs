//! A small virtual machine for a tape-and-pointer byte language, extended with
//! absolute jumps and a rollback instruction that undoes recent tape and pointer
//! changes through an undo log.
pub mod instruction;

pub use instruction::{Instruction, Operation};
pub mod machine;

pub use machine::{MachineView, Program, Step};
pub mod laws;
pub mod parser;
