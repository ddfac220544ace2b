use ouroborous::parser::parse_program;
use ouroborous::Instruction::{
    Decrement, Halt, Increment, Jump, JumpEquals, JumpNotEquals, MoveLeft, MoveRight, Output,
    Rollback,
};
use ouroborous::{Instruction, Operation, Program, Step};

fn output_of(instructions: &[Instruction]) -> Vec<u8> {
    let mut program = Program::new(instructions);
    let (out, stopped) = program.run(1_000_000);
    assert!(stopped);
    out
}

#[test]
fn operation_inverse_pairs() {
    assert_eq!(Operation::MoveLeft.inverse(), Operation::MoveRight);
    assert_eq!(Operation::MoveRight.inverse(), Operation::MoveLeft);
    assert_eq!(Operation::Increment.inverse(), Operation::Decrement);
    assert_eq!(Operation::Decrement.inverse(), Operation::Increment);
}

#[test]
fn operation_from_instruction() {
    assert_eq!(Operation::from_instruction(Instruction::MoveLeft), Some(Operation::MoveLeft));
    assert_eq!(Operation::from_instruction(Instruction::MoveRight), Some(Operation::MoveRight));
    assert_eq!(Operation::from_instruction(Instruction::Increment), Some(Operation::Increment));
    assert_eq!(Operation::from_instruction(Instruction::Decrement), Some(Operation::Decrement));
    assert_eq!(Operation::from_instruction(Instruction::Output), None);
    assert_eq!(Operation::from_instruction(Instruction::Jump(3)), None);
    assert_eq!(Operation::from_instruction(Instruction::JumpEquals(1, 3)), None);
    assert_eq!(Operation::from_instruction(Instruction::JumpNotEquals(1, 3)), None);
    assert_eq!(Operation::from_instruction(Instruction::Rollback(2)), None);
    assert_eq!(Operation::from_instruction(Instruction::Halt), None);
}

#[test]
fn rollback_after_outputs() {
    let mut instructions = vec![];
    for _ in 0..65 {
        instructions.push(Instruction::Increment);
    }
    for _ in 0..15 {
        instructions.push(Instruction::Output);
    }
    instructions.push(Instruction::Rollback(1));
    instructions.push(Instruction::Output);

    let mut expected = vec![65u8; 15];
    expected.push(64);
    assert_eq!(output_of(&instructions), expected);
}

#[test]
fn parsed_program_emits_five() {
    let (_, instructions) = parse_program("+++++.").unwrap();
    assert_eq!(output_of(&instructions), vec![5]);
}

#[test]
fn empty_program_stops_at_once() {
    let instructions: Vec<Instruction> = vec![];
    let mut program = Program::new(&instructions);
    assert_eq!(program.step(), Step::Stop);
    assert_eq!(program.run(10), (vec![], true));
}

#[test]
fn group_then_rollback_restores() {
    let instructions = vec![
        Increment, Increment, Output, MoveRight, Increment, MoveLeft, Decrement, Decrement,
        Decrement, MoveLeft, Increment, Rollback(8), Output, MoveRight, Output,
    ];
    assert_eq!(output_of(&instructions), vec![2, 2, 0]);
}

#[test]
fn rollback_beyond_log_undoes_all() {
    let instructions = vec![Increment, MoveRight, Increment, Rollback(100), Output, MoveRight, Output];
    assert_eq!(output_of(&instructions), vec![0, 0]);
    let partial = vec![Increment, MoveRight, Increment, Rollback(3), Output, MoveRight, Output];
    assert_eq!(output_of(&partial), vec![0, 0]);
}

#[test]
fn rollback_is_not_logged() {
    let instructions = vec![Increment, Increment, Rollback(1), Rollback(1), Output];
    assert_eq!(output_of(&instructions), vec![0]);
}

#[test]
fn program_rollback_method() {
    let instructions = vec![Increment, Increment, Increment, Output];
    let mut program = Program::new(&instructions);
    assert_eq!(program.step(), Step::Continue);
    assert_eq!(program.step(), Step::Continue);
    assert_eq!(program.step(), Step::Continue);
    program.rollback(2);
    assert_eq!(program.step(), Step::Emit(1));
    assert_eq!(program.step(), Step::Stop);
}

#[test]
fn cell_wraps_around() {
    assert_eq!(output_of(&[Decrement, Output]), vec![255]);
    let mut instructions = vec![Increment; 256];
    instructions.push(Output);
    assert_eq!(output_of(&instructions), vec![0]);
}

#[test]
fn pointer_wraps_around() {
    // left from 0 reaches the last cell; right from there comes back to 0
    assert_eq!(output_of(&[MoveLeft, Increment, MoveRight, Output, MoveLeft, Output]), vec![0, 1]);
    let mut instructions = vec![Increment];
    instructions.extend(vec![MoveRight; 65536]);
    instructions.push(Output);
    assert_eq!(output_of(&instructions), vec![1]);
}

#[test]
fn jump_if_equal_takes_target_only_on_match() {
    // cell is 0: jump taken, skips the increment
    assert_eq!(output_of(&[JumpEquals(0, 2), Increment, Output]), vec![0]);
    // cell is 0, compared with 1: falls through
    assert_eq!(output_of(&[JumpEquals(1, 2), Increment, Output]), vec![1]);
}

#[test]
fn jump_if_not_equal_is_the_complement() {
    assert_eq!(output_of(&[JumpNotEquals(0, 2), Increment, Output]), vec![1]);
    assert_eq!(output_of(&[JumpNotEquals(1, 2), Increment, Output]), vec![0]);
}

#[test]
fn counting_loop() {
    // prints 3, 2, 1 by counting down with a backward jump
    let instructions = vec![Increment, Increment, Increment, Output, Decrement, JumpNotEquals(0, 3)];
    assert_eq!(output_of(&instructions), vec![3, 2, 1]);
}

#[test]
fn jump_out_of_range_ends_quietly() {
    let instructions = vec![Jump(1000), Output];
    let mut program = Program::new(&instructions);
    assert_eq!(program.step(), Step::Continue);
    assert_eq!(program.step(), Step::Stop);
    assert_eq!(program.run(5), (vec![], true));
}

#[test]
fn halt_stops_and_stays() {
    let instructions = vec![Output, Halt, Output];
    let mut program = Program::new(&instructions);
    assert_eq!(program.run(10), (vec![0], true));
    assert_eq!(program.step(), Step::Stop);
}

#[test]
fn run_respects_its_step_budget() {
    let instructions = vec![Output, Jump(0)];
    let mut program = Program::new(&instructions);
    assert_eq!(program.run(5), (vec![0, 0, 0], false));
    assert_eq!(program.run(0), (vec![], false));
}
