//! The textual front end: turns source text into instructions.
//!
//! The grammar, over the UTF-8 bytes of the source: instructions follow each
//! other, each optionally preceded by whitespace (space, tab, carriage return,
//! line feed). `+ - > < .` are increment, decrement, move right, move left and
//! output; U+1F4A5 (collision) is halt; `?v,t` and `!v,t` are jump-if-equal and
//! jump-if-not-equal with a byte value `v` and a target `t`; U+1F996 (sauropod)
//! followed by a count is rollback. Numbers are runs of decimal digits whose value
//! fits their type. Parsing takes as many instructions as it can and hands back
//! the rest of the text, starting where the first unparsable instruction (with
//! the whitespace before it) begins.
use crate::instruction::Instruction;
use core::convert::Infallible;
use vstd::prelude::*;
use vstd::string::StringSliceAdditionalSpecFns;
use vstd::utf8::{
    is_char_boundary, length_of_first_scalar, pop_first_scalar, valid_first_scalar, valid_utf8,
};

verus! {

broadcast use vstd::utf8::encode_utf8_valid_utf8;

pub open spec fn is_space(b: u8) -> bool {
    b == 0x20 || b == 0x09 || b == 0x0a || b == 0x0d
}

pub open spec fn is_digit(b: u8) -> bool {
    0x30 <= b <= 0x39
}

/// The first index at or after `i` that does not hold whitespace.
pub open spec fn skip_spaces(s: Seq<u8>, i: int) -> int
    decreases s.len() - i,
{
    if 0 <= i < s.len() && is_space(s[i]) {
        skip_spaces(s, i + 1)
    } else {
        i
    }
}

/// The first index at or after `i` that does not hold a decimal digit.
pub open spec fn skip_digits(s: Seq<u8>, i: int) -> int
    decreases s.len() - i,
{
    if 0 <= i < s.len() && is_digit(s[i]) {
        skip_digits(s, i + 1)
    } else {
        i
    }
}

/// The value of a run of decimal digits.
pub open spec fn decimal_value(ds: Seq<u8>) -> nat
    decreases ds.len(),
{
    if ds.len() == 0 {
        0
    } else {
        decimal_value(ds.drop_last()) * 10 + (ds.last() - 0x30) as nat
    }
}

/// The number that starts at `i` (at least one digit, a value that fits in
/// `usize`) and the index just past it.
pub open spec fn number_at(s: Seq<u8>, i: int) -> Option<(nat, int)> {
    let e = skip_digits(s, i);
    let v = decimal_value(s.subrange(i, e));
    if i < e && v <= usize::MAX {
        Some((v, e))
    } else {
        None
    }
}

/// Whether the four bytes at `i` are `a b c d`.
pub open spec fn has_sign(s: Seq<u8>, i: int, a: u8, b: u8, c: u8, d: u8) -> bool {
    0 <= i && i + 4 <= s.len() && s[i] == a && s[i + 1] == b && s[i + 2] == c && s[i + 3] == d
}

/// The UTF-8 encoding of U+1F4A5 starts at `i`.
pub open spec fn halt_sign_at(s: Seq<u8>, i: int) -> bool {
    has_sign(s, i, 0xf0, 0x9f, 0x92, 0xa5)
}

/// The UTF-8 encoding of U+1F996 starts at `i`.
pub open spec fn rollback_sign_at(s: Seq<u8>, i: int) -> bool {
    has_sign(s, i, 0xf0, 0x9f, 0xa6, 0x96)
}

/// The operands `v,t` of a conditional jump, starting at `i`.
pub open spec fn jump_operands_at(s: Seq<u8>, i: int) -> Option<(u8, usize, int)> {
    match number_at(s, i) {
        Some((v, e)) => if v <= 255 && 0 <= e < s.len() && s[e] == 0x2c {
            match number_at(s, e + 1) {
                Some((t, e2)) => Some((v as u8, t as usize, e2)),
                None => None,
            }
        } else {
            None
        },
        None => None,
    }
}

/// The instruction written at `i` (with no whitespace before it) and the index
/// just past it.
pub open spec fn token_at(s: Seq<u8>, i: int) -> Option<(Instruction, int)> {
    if i < 0 || i >= s.len() {
        None
    } else if s[i] == 0x2b {
        Some((Instruction::Increment, i + 1))
    } else if s[i] == 0x2d {
        Some((Instruction::Decrement, i + 1))
    } else if s[i] == 0x3e {
        Some((Instruction::MoveRight, i + 1))
    } else if s[i] == 0x3c {
        Some((Instruction::MoveLeft, i + 1))
    } else if s[i] == 0x2e {
        Some((Instruction::Output, i + 1))
    } else if halt_sign_at(s, i) {
        Some((Instruction::Halt, i + 4))
    } else if s[i] == 0x3f {
        match jump_operands_at(s, i + 1) {
            Some((v, t, e)) => Some((Instruction::JumpEquals(v, t), e)),
            None => None,
        }
    } else if s[i] == 0x21 {
        match jump_operands_at(s, i + 1) {
            Some((v, t, e)) => Some((Instruction::JumpNotEquals(v, t), e)),
            None => None,
        }
    } else if rollback_sign_at(s, i) {
        match number_at(s, i + 4) {
            Some((n, e)) => Some((Instruction::Rollback(n as usize), e)),
            None => None,
        }
    } else {
        None
    }
}

/// The instructions parsed from index `i` on, and the index where parsing stopped.
pub open spec fn parse_from(s: Seq<u8>, i: int) -> (Seq<Instruction>, int)
    decreases s.len() - i,
{
    if 0 <= i <= s.len() {
        match token_at(s, skip_spaces(s, i)) {
            Some((ins, e)) => if i < e <= s.len() {
                let (rest, end) = parse_from(s, e);
                (seq![ins] + rest, end)
            } else {
                (Seq::empty(), i)
            },
            None => (Seq::empty(), i),
        }
    } else {
        (Seq::empty(), i)
    }
}

/// The index just past the whitespace that starts at `start`.
pub fn ws(input: &[u8], start: usize) -> (r: usize)
    requires
        start <= input@.len(),
    ensures
        r == skip_spaces(input@, start as int),
        start <= r <= input@.len(),
{
    let mut i = start;
    while i < input.len() && (input[i] == 0x20 || input[i] == 0x09 || input[i] == 0x0a || input[i]
        == 0x0d)
        invariant
            start <= i <= input@.len(),
            skip_spaces(input@, start as int) == skip_spaces(input@, i as int),
        decreases input@.len() - i,
    {
        i += 1;
    }
    i
}

/// The index just past the digits that start at `start`.
fn digits_end(input: &[u8], start: usize) -> (r: usize)
    requires
        start <= input@.len(),
    ensures
        r == skip_digits(input@, start as int),
        start <= r <= input@.len(),
        forall|k: int| start <= k < r ==> is_digit(#[trigger] input@[k]),
{
    let mut i = start;
    while i < input.len() && 0x30 <= input[i] && input[i] <= 0x39
        invariant
            start <= i <= input@.len(),
            skip_digits(input@, start as int) == skip_digits(input@, i as int),
            forall|k: int| start <= k < i ==> is_digit(#[trigger] input@[k]),
        decreases input@.len() - i,
    {
        i += 1;
    }
    i
}

/// A longer run of digits never has a smaller value.
proof fn lemma_decimal_monotone(s: Seq<u8>, a: int, b: int, c: int)
    requires
        0 <= a <= b <= c <= s.len(),
    ensures
        decimal_value(s.subrange(a, b)) <= decimal_value(s.subrange(a, c)),
    decreases c - b,
{
    if b < c {
        lemma_decimal_monotone(s, a, b, c - 1);
        assert(s.subrange(a, c).drop_last() =~= s.subrange(a, c - 1));
    }
}

/// The number that starts at `start`, and the index just past it.
fn number(input: &[u8], start: usize) -> (r: Option<(usize, usize)>)
    requires
        start <= input@.len(),
    ensures
        match number_at(input@, start as int) {
            Some((v, e)) => r matches Some((v2, e2)) && v2 == v && e2 == e,
            None => r.is_none(),
        },
        r matches Some((_, e)) ==> start < e <= input@.len(),
{
    let end = digits_end(input, start);
    if end == start {
        return None;
    }
    let mut value: usize = 0;
    let mut k = start;
    while k < end
        invariant
            start <= k <= end <= input@.len(),
            end == skip_digits(input@, start as int),
            forall|j: int| start <= j < end ==> is_digit(#[trigger] input@[j]),
            value == decimal_value(input@.subrange(start as int, k as int)),
        decreases end - k,
    {
        assert(is_digit(input@[k as int]));
        let d = (input[k] - 0x30) as usize;
        assert(input@.subrange(start as int, k + 1).drop_last() =~= input@.subrange(
            start as int,
            k as int,
        ));
        if value > (usize::MAX - d) / 10 {
            assert(value * 10 + d > usize::MAX) by (nonlinear_arith)
                requires
                    value > (usize::MAX - d) / 10,
                    d <= 9,
            ;
            proof {
                lemma_decimal_monotone(input@, start as int, k + 1, end as int);
            }
            return None;
        }
        assert(value * 10 + d <= usize::MAX) by (nonlinear_arith)
            requires
                value <= (usize::MAX - d) / 10,
                d <= 9,
        ;
        value = value * 10 + d;
        k += 1;
    }
    Some((value, end))
}

/// Whether the four bytes at `i` are `a b c d`.
fn sign_at(input: &[u8], i: usize, a: u8, b: u8, c: u8, d: u8) -> (r: bool)
    requires
        i <= input@.len(),
    ensures
        r == has_sign(input@, i as int, a, b, c, d),
{
    input.len() >= 4 && i <= input.len() - 4 && input[i] == a && input[i + 1] == b && input[i + 2]
        == c && input[i + 3] == d
}

/// The operands `v,t` of a conditional jump that start at `start`.
fn jump_operands(input: &[u8], start: usize) -> (r: Option<(u8, usize, usize)>)
    requires
        start <= input@.len(),
    ensures
        match jump_operands_at(input@, start as int) {
            Some((v, t, e)) => r matches Some((v2, t2, e2)) && v2 == v && t2 == t && e2 == e,
            None => r.is_none(),
        },
        r matches Some((_, _, e)) ==> start < e <= input@.len(),
{
    let (value, comma) = match number(input, start) {
        Some(n) => n,
        None => return None,
    };
    if value > 255 || comma >= input.len() || input[comma] != 0x2c {
        return None;
    }
    match number(input, comma + 1) {
        Some((target, end)) => Some((value as u8, target, end)),
        None => None,
    }
}

/// The instruction written at `i`, and the index just past it.
fn token(input: &[u8], i: usize) -> (r: Option<(Instruction, usize)>)
    requires
        i <= input@.len(),
    ensures
        match token_at(input@, i as int) {
            Some((ins, e)) => r matches Some((ins2, e2)) && ins2 == ins && e2 == e,
            None => r.is_none(),
        },
        r matches Some((_, e)) ==> i < e <= input@.len(),
{
    if i >= input.len() {
        return None;
    }
    let b = input[i];
    if b == 0x2b {
        Some((Instruction::Increment, i + 1))
    } else if b == 0x2d {
        Some((Instruction::Decrement, i + 1))
    } else if b == 0x3e {
        Some((Instruction::MoveRight, i + 1))
    } else if b == 0x3c {
        Some((Instruction::MoveLeft, i + 1))
    } else if b == 0x2e {
        Some((Instruction::Output, i + 1))
    } else if sign_at(input, i, 0xf0, 0x9f, 0x92, 0xa5) {
        Some((Instruction::Halt, i + 4))
    } else if b == 0x3f {
        match jump_operands(input, i + 1) {
            Some((v, t, e)) => Some((Instruction::JumpEquals(v, t), e)),
            None => None,
        }
    } else if b == 0x21 {
        match jump_operands(input, i + 1) {
            Some((v, t, e)) => Some((Instruction::JumpNotEquals(v, t), e)),
            None => None,
        }
    } else if sign_at(input, i, 0xf0, 0x9f, 0xa6, 0x96) {
        match number(input, i + 4) {
            Some((n, e)) => Some((Instruction::Rollback(n), e)),
            None => None,
        }
    } else {
        None
    }
}

/// Stepping over one whole character keeps the index on a character boundary.
proof fn lemma_boundary_advance(b: Seq<u8>, k: int, w: int)
    requires
        valid_utf8(b),
        is_char_boundary(b, k),
        0 <= k < b.len(),
        w == length_of_first_scalar(b.subrange(k, b.len() as int)),
        k + w <= b.len(),
    ensures
        is_char_boundary(b, k + w),
    decreases b.len(),
{
    let l = length_of_first_scalar(b);
    let p = pop_first_scalar(b);
    assert(valid_first_scalar(b) && valid_utf8(p));
    assert(1 <= l <= b.len());
    if k == 0 {
        assert(b.subrange(0, b.len() as int) =~= b);
        assert(is_char_boundary(p, 0));
    } else {
        assert(is_char_boundary(p, k - l));
        assert(k - l >= 0);
        assert(p.subrange(k - l, p.len() as int) =~= b.subrange(k, b.len() as int));
        lemma_boundary_advance(p, k - l, w);
    }
}

/// Stepping over one ASCII byte keeps the index on a character boundary.
proof fn lemma_boundary_ascii(b: Seq<u8>, k: int)
    requires
        valid_utf8(b),
        is_char_boundary(b, k),
        0 <= k < b.len(),
        b[k] <= 0x7f,
    ensures
        is_char_boundary(b, k + 1),
{
    assert(b.subrange(k, b.len() as int)[0] == b[k]);
    lemma_boundary_advance(b, k, 1);
}

/// Whitespace and digits are ASCII, so skipping them keeps a character boundary.
proof fn lemma_boundary_skip(b: Seq<u8>, i: int)
    requires
        valid_utf8(b),
        is_char_boundary(b, i),
        0 <= i <= b.len(),
    ensures
        is_char_boundary(b, skip_spaces(b, i)),
        is_char_boundary(b, skip_digits(b, i)),
        i <= skip_spaces(b, i) <= b.len(),
        i <= skip_digits(b, i) <= b.len(),
    decreases b.len() - i,
{
    if i < b.len() {
        if is_space(b[i]) || is_digit(b[i]) {
            lemma_boundary_ascii(b, i);
            lemma_boundary_skip(b, i + 1);
        }
    }
}

/// A number keeps a character boundary.
proof fn lemma_boundary_number(b: Seq<u8>, i: int)
    requires
        valid_utf8(b),
        is_char_boundary(b, i),
        0 <= i <= b.len(),
    ensures
        number_at(b, i) matches Some((_, e)) ==> is_char_boundary(b, e) && i < e <= b.len(),
{
    lemma_boundary_skip(b, i);
}

/// An instruction keeps a character boundary.
proof fn lemma_boundary_token(b: Seq<u8>, i: int)
    requires
        valid_utf8(b),
        is_char_boundary(b, i),
        0 <= i <= b.len(),
    ensures
        token_at(b, i) matches Some((_, e)) ==> is_char_boundary(b, e) && i < e <= b.len(),
{
    if i < b.len() {
        if b[i] <= 0x7f {
            lemma_boundary_ascii(b, i);
        }
        if halt_sign_at(b, i) || rollback_sign_at(b, i) {
            assert(b.subrange(i, b.len() as int)[0] == b[i]);
            lemma_boundary_advance(b, i, 4);
            lemma_boundary_number(b, i + 4);
        } else if b[i] == 0x3f || b[i] == 0x21 {
            lemma_boundary_number(b, i + 1);
            if let Some((v, e)) = number_at(b, i + 1) {
                if 0 <= e < b.len() && b[e] == 0x2c {
                    lemma_boundary_ascii(b, e);
                    lemma_boundary_number(b, e + 1);
                }
            }
        }
    }
}

/// Parsing `text` takes the longest run of instructions from its start and
/// hands back the text that follows them; it never fails.
pub fn parse_program(text: &str) -> (r: Result<(&str, Vec<Instruction>), Infallible>)
    ensures
        r matches Ok((rest, instructions)) && {
            let (parsed, end) = parse_from(text.spec_bytes(), 0);
            &&& instructions@ == parsed
            &&& rest.spec_bytes() == text.spec_bytes().subrange(end, text.spec_bytes().len() as int)
        },
{
    let input = text.as_bytes();
    let ghost b = input@;
    let mut instructions: Vec<Instruction> = Vec::new();
    let mut pos: usize = 0;
    proof {
        assert(valid_utf8(b));
        assert(is_char_boundary(b, 0));
    }
    loop
        invariant
            b == input@,
            b == text.spec_bytes(),
            valid_utf8(b),
            pos <= b.len(),
            is_char_boundary(b, pos as int),
            parse_from(b, 0) == (instructions@ + parse_from(b, pos as int).0, parse_from(
                b,
                pos as int,
            ).1),
        ensures
            pos <= b.len(),
            parse_from(b, 0) == (instructions@, pos as int),
        decreases b.len() - pos,
    {
        let start = ws(input, pos);
        proof {
            lemma_boundary_skip(b, pos as int);
            lemma_boundary_token(b, start as int);
        }
        match token(input, start) {
            Some((ins, end)) => {
                let ghost before = instructions@;
                instructions.push(ins);
                assert(before + (seq![ins] + parse_from(b, end as int).0) =~= instructions@
                    + parse_from(b, end as int).0);
                pos = end;
            },
            None => {
                assert(instructions@ + Seq::<Instruction>::empty() =~= instructions@);
                break ;
            },
        }
    }
    let (_, rest) = text.split_at(pos);
    Ok((rest, instructions))
}

} // verus!
