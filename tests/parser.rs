use ouroborous::parser::{parse_program, ws};
use ouroborous::Instruction;

#[test]
fn empty() {
    let program = "";
    let (_, result) = parse_program(program).unwrap();

    assert!(result.is_empty());
}

#[test]
fn increment_one() {
    let program = "+";
    let (_, result) = parse_program(program).unwrap();

    assert_eq!(result, vec![Instruction::Increment]);
}

#[test]
fn increment_many() {
    let program = "+++++";
    let (_, result) = parse_program(program).unwrap();

    assert_eq!(result, vec![Instruction::Increment; 5]);
}

#[test]
fn jump_equals() {
    let program = "?69,420";
    let (_, result) = parse_program(program).unwrap();

    assert_eq!(result, vec![Instruction::JumpEquals(69, 420)])
}

#[test]
fn rollback() {
    let program = "🦖69";
    let (_, result) = parse_program(program).unwrap();

    assert_eq!(result, vec![Instruction::Rollback(69)])
}

#[test]
fn every_instruction_with_whitespace() {
    let program = " +\t-\n>\r\n< . 💥 ?1,2 !3,4 🦖5 ";
    let (rest, result) = parse_program(program).unwrap();

    assert_eq!(
        result,
        vec![
            Instruction::Increment,
            Instruction::Decrement,
            Instruction::MoveRight,
            Instruction::MoveLeft,
            Instruction::Output,
            Instruction::Halt,
            Instruction::JumpEquals(1, 2),
            Instruction::JumpNotEquals(3, 4),
            Instruction::Rollback(5),
        ]
    );
    assert_eq!(rest, " ");
}

#[test]
fn stops_at_unknown_text() {
    let (rest, result) = parse_program("++ x+").unwrap();

    assert_eq!(result, vec![Instruction::Increment; 2]);
    assert_eq!(rest, " x+");
}

#[test]
fn stops_at_non_ascii_text() {
    let (rest, result) = parse_program("+é+").unwrap();

    assert_eq!(result, vec![Instruction::Increment]);
    assert_eq!(rest, "é+");
}

#[test]
fn jump_value_must_fit_a_byte() {
    let (rest, result) = parse_program("+?256,1").unwrap();
    assert_eq!(result, vec![Instruction::Increment]);
    assert_eq!(rest, "?256,1");

    let (_, result) = parse_program("!255,007").unwrap();
    assert_eq!(result, vec![Instruction::JumpNotEquals(255, 7)]);
}

#[test]
fn jump_needs_both_operands() {
    let (rest, result) = parse_program("?5").unwrap();
    assert!(result.is_empty());
    assert_eq!(rest, "?5");

    let (rest, result) = parse_program("!5,").unwrap();
    assert!(result.is_empty());
    assert_eq!(rest, "!5,");
}

#[test]
fn rollback_count_must_fit() {
    let (rest, result) = parse_program("🦖99999999999999999999999").unwrap();
    assert!(result.is_empty());
    assert_eq!(rest, "🦖99999999999999999999999");

    let (_, result) = parse_program("🦖18446744073709551615").unwrap();
    assert_eq!(result, vec![Instruction::Rollback(18446744073709551615)]);
}

#[test]
fn rollback_needs_a_count() {
    let (rest, result) = parse_program("🦖 1").unwrap();
    assert!(result.is_empty());
    assert_eq!(rest, "🦖 1");
}

#[test]
fn ws_skips_whitespace_only() {
    assert_eq!(ws(b"  \t\r\n+ ", 0), 5);
    assert_eq!(ws(b"+ ", 0), 0);
    assert_eq!(ws(b"+ ", 1), 2);
    assert_eq!(ws(b"", 0), 0);
}
