use vstd::prelude::*;

verus! {

/// First memory cell of an encoded payload program.
pub const PAYLOAD_BASE: usize = 100;

/// Cell value of a brainfuck command; other characters carry no code.
pub open spec fn symbol_code(c: char) -> Option<i32> {
    if c == '>' {
        Some(1)
    } else if c == '<' {
        Some(2)
    } else if c == '+' {
        Some(3)
    } else if c == '-' {
        Some(4)
    } else if c == '.' {
        Some(5)
    } else if c == ',' {
        Some(6)
    } else if c == '[' {
        Some(7)
    } else if c == ']' {
        Some(8)
    } else {
        None
    }
}

/// The codes of the commands of `s`, in order, other characters dropped.
pub open spec fn encoded(s: Seq<char>) -> Seq<i32>
    decreases s.len(),
{
    if s.len() == 0 {
        Seq::empty()
    } else {
        match symbol_code(s.last()) {
            Some(v) => encoded(s.drop_last()).push(v),
            None => encoded(s.drop_last()),
        }
    }
}

/// Cell value of one character, if it is a command.
pub fn command_code(c: char) -> (r: Option<i32>)
    ensures
        r == symbol_code(c),
{
    match c {
        '>' => Some(1),
        '<' => Some(2),
        '+' => Some(3),
        '-' => Some(4),
        '.' => Some(5),
        ',' => Some(6),
        '[' => Some(7),
        ']' => Some(8),
        _ => None,
    }
}

/// Encodes a brainfuck program as the cell values that the interpreter
/// written in machine code reads, one per command.
pub fn encode_program(text: &Vec<char>) -> (r: Vec<i32>)
    ensures
        r@ == encoded(text@),
{
    let mut r: Vec<i32> = Vec::new();
    let mut i: usize = 0;
    while i < text.len()
        invariant
            i <= text@.len(),
            r@ == encoded(text@.subrange(0, i as int)),
        decreases text@.len() - i,
    {
        assert(text@.subrange(0, i + 1).drop_last() =~= text@.subrange(0, i as int));
        if let Some(v) = command_code(text[i]) {
            r.push(v);
        }
        i += 1;
    }
    assert(text@.subrange(0, i as int) =~= text@);
    r
}

} // verus!
