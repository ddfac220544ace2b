//! Properties of the engine that hold across calls and over all states.
use crate::instruction::{inverse_of, operation_of, Instruction, Operation};
use crate::machine::{lemma_undo_frame, MachineView, Step, TAPE_LEN};
use vstd::prelude::*;

verus! {

/// An operation followed by its inverse leaves tape and pointer as they were.
pub proof fn lemma_inverse_cancels(s: MachineView, op: Operation)
    requires
        s.tape.len() == TAPE_LEN,
    ensures
        s.perform(op).perform(inverse_of(op)) == s,
        s.perform(op).tape.len() == TAPE_LEN,
{
    let p = s.pointer as int;
    let t = s.perform(op).perform(inverse_of(op));
    match op {
        Operation::Increment => {
            assert(((((s.tape[p] + 1) % 256) as u8) + 255) % 256 == s.tape[p]);
        },
        Operation::Decrement => {
            assert(((((s.tape[p] + 255) % 256) as u8) + 1) % 256 == s.tape[p]);
        },
        _ => {},
    }
    assert(t.tape =~= s.tape);
}

/// Undoing does not depend on the program counter.
proof fn lemma_undo_counter(s: MachineView, c: nat, n: nat)
    ensures
        (MachineView { counter: c, ..s }).undo(n) == (MachineView { counter: c, ..s.undo(n) }),
    decreases n,
{
    if n > 0 && s.log.len() > 0 {
        let t = MachineView { log: s.log.drop_last(), ..s.perform(inverse_of(s.log.last())) };
        lemma_undo_counter(t, c, (n - 1) as nat);
    }
}

/// Undoing keeps the tape's length.
proof fn lemma_undo_tape_len(s: MachineView, n: nat)
    requires
        s.tape.len() == TAPE_LEN,
    ensures
        s.undo(n).tape.len() == TAPE_LEN,
    decreases n,
{
    if n > 0 && s.log.len() > 0 {
        let op = inverse_of(s.log.last());
        lemma_inverse_cancels(s, op);
        let t = MachineView { log: s.log.drop_last(), ..s.perform(op) };
        lemma_undo_tape_len(t, (n - 1) as nat);
    }
}

/// The ops-then-rollback run from the `j`-th operation of the group onwards.
proof fn lemma_group_from(s: MachineView, base: MachineView, j: nat, k: nat)
    requires
        base.tape.len() == TAPE_LEN,
        s.tape.len() == TAPE_LEN,
        s.instructions == base.instructions,
        s.counter == base.counter + j,
        j <= k <= usize::MAX,
        base.counter + k < base.instructions.len(),
        forall|i: int|
            base.counter <= i < base.counter + k ==> (#[trigger] operation_of(
                base.instructions[i],
            )).is_some(),
        base.instructions[base.counter + k as int] == Instruction::Rollback(k as usize),
        s.undo(j) == (MachineView { counter: s.counter, ..base }),
    ensures
        s.run((k - j + 1) as nat) == (
            MachineView { counter: base.counter + k + 1, ..base },
            Seq::<u8>::empty(),
            false,
        ),
    decreases k - j,
{
    lemma_undo_frame(s, k);
    if j < k {
        let ins = s.instructions[s.counter as int];
        assert(operation_of(ins).is_some());
        let op = operation_of(ins).unwrap();
        let t = s.step().0;
        let logged = s.perform_logged(op);
        assert(t == MachineView { counter: s.counter + 1, ..logged });
        lemma_inverse_cancels(s, op);
        assert(logged.log.last() == op);
        assert(logged.log.drop_last() == s.log);
        let popped = MachineView { log: logged.log.drop_last(), ..logged.perform(inverse_of(op)) };
        assert(popped == s);
        lemma_undo_counter(s, s.counter + 1, j);
        assert(t.undo(j + 1) == (MachineView { counter: s.counter + 1, ..popped }).undo(j));
        lemma_group_from(t, base, j + 1, k);
        assert(s.step().1 == Step::Continue);
        assert(s.run((k - j + 1) as nat) == t.run((k - (j + 1) + 1) as nat));
    } else {
        let t = s.step().0;
        assert(t == MachineView { counter: base.counter + k + 1, ..base });
        assert(s.run(1) == t.run(0));
    }
}

/// An operation group followed by a rollback of its size: for every state whose
/// next `k` instructions all change the tape or the pointer and are followed by
/// `Rollback(k)`, running those `k + 1` instructions restores tape, pointer and
/// log, emits nothing, and moves the counter past the rollback.
pub proof fn law_group_inverse(s: MachineView, k: nat)
    requires
        s.tape.len() == TAPE_LEN,
        k <= usize::MAX,
        s.counter + k < s.instructions.len(),
        forall|i: int|
            s.counter <= i < s.counter + k ==> (#[trigger] operation_of(
                s.instructions[i],
            )).is_some(),
        s.instructions[s.counter + k as int] == Instruction::Rollback(k as usize),
    ensures
        s.run(k + 1) == (MachineView { counter: s.counter + k + 1, ..s }, Seq::<u8>::empty(), false),
{
    lemma_group_from(s, s, 0, k);
}

/// A rollback larger than the log undoes the whole log and nothing more: the
/// result is that of undoing exactly the logged operations, and the log ends empty.
pub proof fn law_partial_rollback(s: MachineView, n: nat)
    requires
        n >= s.log.len(),
    ensures
        s.undo(n) == s.undo(s.log.len()),
        s.undo(n).log.len() == 0,
    decreases s.log.len(),
{
    if s.log.len() > 0 {
        let t = MachineView { log: s.log.drop_last(), ..s.perform(inverse_of(s.log.last())) };
        law_partial_rollback(t, (n - 1) as nat);
        law_partial_rollback(t, (s.log.len() - 1) as nat);
    }
}

/// Cells and pointer wrap around: incrementing 255 gives 0, decrementing 0 gives
/// 255, moving left from 0 gives 65535 and moving right from 65535 gives 0.
pub proof fn law_wraparound(s: MachineView)
    requires
        s.tape.len() == TAPE_LEN,
    ensures
        s.cell() == 255 ==> s.perform(Operation::Increment).cell() == 0,
        s.cell() == 0 ==> s.perform(Operation::Decrement).cell() == 255,
        s.pointer == 0 ==> s.perform(Operation::MoveLeft).pointer == 65535,
        s.pointer == 65535 ==> s.perform(Operation::MoveRight).pointer == 0,
{
}

/// A conditional jump goes to its target exactly when its condition on the
/// current cell holds, and to the next instruction otherwise; the two
/// conditional jumps are each other's complement.
pub proof fn law_jump(s: MachineView, v: u8, t: usize)
    requires
        s.counter < s.instructions.len(),
    ensures
        s.instructions[s.counter as int] == Instruction::JumpEquals(v, t) ==> s.step() == (
            MachineView {
                counter: if s.cell() == v { t as nat } else { s.counter + 1 },
                ..s
            },
            Step::Continue,
        ),
        s.instructions[s.counter as int] == Instruction::JumpNotEquals(v, t) ==> s.step() == (
            MachineView {
                counter: if s.cell() == v { s.counter + 1 } else { t as nat },
                ..s
            },
            Step::Continue,
        ),
{
}

/// A counter at or past the end of the program ends it: the state stays as it
/// is, nothing is emitted, and the end is reported as soon as a step runs. A
/// jump past the end leads there in one step.
pub proof fn law_graceful_end(s: MachineView, fuel: nat)
    ensures
        s.counter >= s.instructions.len() ==> s.run(fuel) == (s, Seq::<u8>::empty(), fuel > 0),
        ({
            &&& s.counter < s.instructions.len()
            &&& s.instructions[s.counter as int] matches Instruction::Jump(t)
            &&& t >= s.instructions.len()
        }) ==> s.run(fuel + 2) == (
            MachineView { counter: s.instructions[s.counter as int]->Jump_0 as nat, ..s },
            Seq::<u8>::empty(),
            true,
        ),
{
    if s.counter < s.instructions.len() {
        if let Instruction::Jump(t) = s.instructions[s.counter as int] {
            if t >= s.instructions.len() {
                let next = s.step().0;
                assert(next.step() == (next, Step::Stop));
                assert(next.run((fuel + 1) as nat) == (next, Seq::<u8>::empty(), true));
            }
        }
    }
}

} // verus!
