use std::rc::Rc;
use regex::Regex;
use vstd::prelude::*;

use crate::inst::Inst;
use crate::machine::{Func, Global, MachineState, RoutineState, zeroed_memory};

verus! {

#[verifier::external_type_specification]
#[verifier::external_body]
pub struct ExRegex(regex::Regex);

#[verifier::external_type_specification]
#[verifier::external_body]
pub struct ExRegexError(regex::Error);

/// A source line: leading blanks, a three-letter opcode, blanks, and an
/// operand that is a decimal numeral or a routine name.
pub const LINE_PATTERN: &'static str = "[ \t]*(inc|dec|ind|ded|toz|frz|tod|frd|sez|pri|cal|may|nmy|def)[ \t]+(-?[0-9]+|[a-z_]+)";

/// Why a program text could not be turned into routine instances. `line` is
/// the index of the offending line.
#[derive(Clone, Copy, Debug, PartialEq, Eq, Structural)]
pub enum LoadError {
    /// The line pattern did not compile.
    BadPattern,
    /// An opcode that the machine does not know.
    UnknownOpcode { line: usize },
    /// An instruction before any `def`.
    NoCurrentRoutine { line: usize },
    /// An operand that is no decimal numeral within `i32`.
    BadOperand { line: usize },
    /// More call sites than an operand can number.
    TooManyCallSites { line: usize },
    /// A call names a routine that no `def` introduces.
    UndefinedRoutine { line: usize },
    /// No routine is named `main`.
    MissingMain,
}

pub open spec fn is_digit(c: char) -> bool {
    '0' <= c <= '9'
}

pub open spec fn all_digits(s: Seq<char>) -> bool {
    s.len() > 0 && forall|i: int| 0 <= i < s.len() ==> is_digit(#[trigger] s[i])
}

/// Value of a sequence of decimal digits.
pub open spec fn digits_value(s: Seq<char>) -> int
    decreases s.len(),
{
    if s.len() == 0 {
        0
    } else {
        digits_value(s.drop_last()) * 10 + (s.last() as int - '0' as int)
    }
}

/// The operand that a numeral denotes: optional minus sign, then digits,
/// within the range of `i32`.
pub open spec fn operand(s: Seq<char>) -> Option<i32> {
    let v = if s.len() > 0 && s[0] == '-' && all_digits(s.drop_first()) {
        Some(-digits_value(s.drop_first()))
    } else if all_digits(s) {
        Some(digits_value(s))
    } else {
        None::<int>
    };
    match v {
        Some(v) => if i32::MIN <= v <= i32::MAX {
            Some(v as i32)
        } else {
            None
        },
        None => None,
    }
}

/// The instruction that an opcode other than `cal` and `def` names.
pub open spec fn opcode(op: Seq<char>, v: i32) -> Option<Inst> {
    if op == seq!['i', 'n', 'c'] {
        Some(Inst::Increment(v))
    } else if op == seq!['d', 'e', 'c'] {
        Some(Inst::Decrement(v))
    } else if op == seq!['i', 'n', 'd'] {
        Some(Inst::IndirectIncrement(v))
    } else if op == seq!['d', 'e', 'd'] {
        Some(Inst::IndirectDecrement(v))
    } else if op == seq!['t', 'o', 'z'] {
        Some(Inst::ToZero(v))
    } else if op == seq!['f', 'r', 'z'] {
        Some(Inst::FromZero(v))
    } else if op == seq!['t', 'o', 'd'] {
        Some(Inst::ToZeroIndirect(v))
    } else if op == seq!['f', 'r', 'd'] {
        Some(Inst::FromZeroIndirect(v))
    } else if op == seq!['s', 'e', 'z'] {
        Some(Inst::SetZero(v))
    } else if op == seq!['p', 'r', 'i'] {
        Some(Inst::Print(v))
    } else if op == seq!['m', 'a', 'y'] {
        Some(Inst::SkipIfZero(v))
    } else if op == seq!['n', 'm', 'y'] {
        Some(Inst::SkipIfNonZero(v))
    } else {
        None
    }
}

pub open spec fn main_name() -> Seq<char> {
    seq!['m', 'a', 'i', 'n']
}

/// Routines defined so far (names and code), the routine that receives
/// instructions, and the call sites met so far (target name and line).
pub struct Assembly {
    pub names: Seq<Seq<char>>,
    pub codes: Seq<Seq<Inst>>,
    pub current: Option<int>,
    pub call_names: Seq<Seq<char>>,
    pub call_lines: Seq<int>,
}

/// First position of `name` in `names`.
pub open spec fn find_name(names: Seq<Seq<char>>, name: Seq<char>) -> Option<int>
    decreases names.len(),
{
    if names.len() == 0 {
        None
    } else {
        match find_name(names.drop_last(), name) {
            Some(k) => Some(k),
            None => if names.last() == name {
                Some(names.len() - 1)
            } else {
                None
            },
        }
    }
}

pub open spec fn append(a: Assembly, k: int, inst: Inst) -> Assembly {
    Assembly { codes: a.codes.update(k, a.codes[k].push(inst)), ..a }
}

/// One line's effect on the assembly; `None` is a line that holds no
/// instruction.
pub open spec fn assemble_line(a: Assembly, n: int, line: Option<(Seq<char>, Seq<char>)>) -> Result<
    Assembly,
    LoadError,
> {
    match line {
        None => Ok(a),
        Some((op, data)) => if op == seq!['d', 'e', 'f'] {
            match find_name(a.names, data) {
                Some(k) => Ok(Assembly { current: Some(k), ..a }),
                None => Ok(
                    Assembly {
                        names: a.names.push(data),
                        codes: a.codes.push(Seq::empty()),
                        current: Some(a.names.len() as int),
                        ..a
                    },
                ),
            }
        } else if op == seq!['c', 'a', 'l'] {
            match a.current {
                None => Err(LoadError::NoCurrentRoutine { line: n as usize }),
                Some(k) => if a.call_names.len() > i32::MAX {
                    Err(LoadError::TooManyCallSites { line: n as usize })
                } else {
                    Ok(
                        Assembly {
                            call_names: a.call_names.push(data),
                            call_lines: a.call_lines.push(n),
                            ..append(a, k, Inst::Call(a.call_names.len() as i32))
                        },
                    )
                },
            }
        } else if opcode(op, 0) is None {
            Err(LoadError::UnknownOpcode { line: n as usize })
        } else {
            match a.current {
                None => Err(LoadError::NoCurrentRoutine { line: n as usize }),
                Some(k) => match operand(data) {
                    Some(v) => Ok(append(a, k, opcode(op, v)->0)),
                    None => Err(LoadError::BadOperand { line: n as usize }),
                },
            }
        },
    }
}

pub open spec fn empty_assembly() -> Assembly {
    Assembly {
        names: Seq::empty(),
        codes: Seq::empty(),
        current: None,
        call_names: Seq::empty(),
        call_lines: Seq::empty(),
    }
}

/// The assembly after all lines, or the first line's error.
pub open spec fn assemble_lines(lines: Seq<Option<(Seq<char>, Seq<char>)>>) -> Result<
    Assembly,
    LoadError,
>
    decreases lines.len(),
{
    if lines.len() == 0 {
        Ok(empty_assembly())
    } else {
        match assemble_lines(lines.drop_last()) {
            Ok(a) => assemble_line(a, lines.len() - 1, lines.last()),
            Err(e) => Err(e),
        }
    }
}

/// Code of the instances of the first `n` call sites, each a copy of the
/// routine that it names.
pub open spec fn link_calls(a: Assembly, n: int) -> Result<Seq<Seq<Inst>>, LoadError>
    decreases n,
{
    if n <= 0 {
        Ok(Seq::empty())
    } else {
        match link_calls(a, n - 1) {
            Ok(codes) => match find_name(a.names, a.call_names[n - 1]) {
                Some(k) => Ok(codes.push(a.codes[k])),
                None => Err(LoadError::UndefinedRoutine { line: a.call_lines[n - 1] as usize }),
            },
            Err(e) => Err(e),
        }
    }
}

/// The instance table: one instance per call site, in order, then `main`.
pub open spec fn link(a: Assembly) -> Result<Seq<Seq<Inst>>, LoadError> {
    match link_calls(a, a.call_names.len() as int) {
        Ok(codes) => match find_name(a.names, main_name()) {
            Some(k) => Ok(codes.push(a.codes[k])),
            None => Err(LoadError::MissingMain),
        },
        Err(e) => Err(e),
    }
}

/// The code of each routine instance of a program, given the opcode and
/// operand text of each line.
pub open spec fn program_of(lines: Seq<Option<(Seq<char>, Seq<char>)>>) -> Result<
    Seq<Seq<Inst>>,
    LoadError,
> {
    match assemble_lines(lines) {
        Ok(a) => link(a),
        Err(e) => Err(e),
    }
}

pub open spec fn fields_view(lines: Seq<Option<(Vec<char>, Vec<char>)>>) -> Seq<
    Option<(Seq<char>, Seq<char>)>,
> {
    lines.map_values(|l: Option<(Vec<char>, Vec<char>)>| line_view(l))
}

pub open spec fn line_view(l: Option<(Vec<char>, Vec<char>)>) -> Option<(Seq<char>, Seq<char>)> {
    match l {
        Some((op, data)) => Some((op@, data@)),
        None => None,
    }
}

pub open spec fn fresh_instances(codes: Seq<Seq<Inst>>) -> Seq<RoutineState> {
    codes.map_values(|c: Seq<Inst>| RoutineState { code: c, pc: 0 })
}

/// Digits never lose value when more digits follow.
proof fn lemma_digits_prefix(s: Seq<char>, i: int)
    requires
        0 <= i <= s.len(),
        forall|j: int| 0 <= j < s.len() ==> is_digit(#[trigger] s[j]),
    ensures
        0 <= digits_value(s.subrange(0, i)) <= digits_value(s),
    decreases s.len(),
{
    if i < s.len() {
        lemma_digits_prefix(s.drop_last(), i);
        assert(s.drop_last().subrange(0, i) =~= s.subrange(0, i));
        lemma_digits_prefix(s.drop_last(), s.len() - 1);
        assert(s.drop_last().subrange(0, s.len() - 1) =~= s.drop_last());
        assert(is_digit(s[s.len() - 1]));
    } else {
        assert(s.subrange(0, i) =~= s);
        if s.len() > 0 {
            lemma_digits_prefix(s.drop_last(), s.len() - 1);
            assert(s.drop_last().subrange(0, s.len() - 1) =~= s.drop_last());
            assert(is_digit(s[s.len() - 1]));
        }
    }
}

proof fn lemma_find_bounds(names: Seq<Seq<char>>, name: Seq<char>)
    ensures
        find_name(names, name) matches Some(k) ==> 0 <= k < names.len() && names[k] == name,
    decreases names.len(),
{
    if names.len() > 0 {
        lemma_find_bounds(names.drop_last(), name);
    }
}

/// An error on a line ends the assembly with that error.
proof fn lemma_assemble_error_sticks(lines: Seq<Option<(Seq<char>, Seq<char>)>>, n: int)
    requires
        0 <= n <= lines.len(),
        assemble_lines(lines.subrange(0, n)) is Err,
    ensures
        assemble_lines(lines) == assemble_lines(lines.subrange(0, n)),
    decreases lines.len(),
{
    if n < lines.len() {
        assert(lines.drop_last().subrange(0, n) =~= lines.subrange(0, n));
        lemma_assemble_error_sticks(lines.drop_last(), n);
    } else {
        assert(lines.subrange(0, n) =~= lines);
    }
}

/// An undefined call target ends the linking with that error.
proof fn lemma_link_error_sticks(a: Assembly, n: int, m: int)
    requires
        0 <= n <= m,
        link_calls(a, n) is Err,
    ensures
        link_calls(a, m) == link_calls(a, n),
    decreases m,
{
    if n < m {
        lemma_link_error_sticks(a, n, m - 1);
    }
}

fn chars_eq(a: &Vec<char>, b: &Vec<char>) -> (r: bool)
    ensures
        r == (a@ == b@),
{
    if a.len() != b.len() {
        return false;
    }
    let mut i: usize = 0;
    while i < a.len()
        invariant
            a@.len() == b@.len(),
            i <= a@.len(),
            forall|j: int| 0 <= j < i ==> a@[j] == b@[j],
        decreases a@.len() - i,
    {
        if a[i] != b[i] {
            return false;
        }
        i += 1;
    }
    assert(a@ =~= b@);
    true
}

fn is_word(s: &Vec<char>, c0: char, c1: char, c2: char) -> (r: bool)
    ensures
        r == (s@ == seq![c0, c1, c2]),
{
    let r = s.len() == 3 && s[0] == c0 && s[1] == c1 && s[2] == c2;
    proof {
        if s@.len() == 3 && s@[0] == c0 && s@[1] == c1 && s@[2] == c2 {
            assert(s@ =~= seq![c0, c1, c2]);
        }
    }
    r
}

fn find_index(names: &Vec<Vec<char>>, name: &Vec<char>) -> (r: Option<usize>)
    ensures
        match find_name(names@.map_values(|v: Vec<char>| v@), name@) {
            Some(k) => r == Some(k as usize),
            None => r is None,
        },
        r matches Some(k) ==> k < names@.len() && find_name(names@.map_values(|v: Vec<char>| v@), name@)
            == Some(k as int),
{
    proof {
        lemma_find_bounds(names@.map_values(|v: Vec<char>| v@), name@);
    }
    let ghost all = names@.map_values(|v: Vec<char>| v@);
    let mut i: usize = 0;
    while i < names.len()
        invariant
            i <= names@.len(),
            all == names@.map_values(|v: Vec<char>| v@),
            find_name(all.subrange(0, i as int), name@) is None,
        decreases names@.len() - i,
    {
        assert(all.subrange(0, i + 1).drop_last() =~= all.subrange(0, i as int));
        if chars_eq(&names[i], name) {
            proof {
                lemma_find_prefix(all, name@, i as int + 1);
            }
            return Some(i);
        }
        i += 1;
    }
    assert(all.subrange(0, i as int) =~= all);
    None
}

/// A name found in a prefix is found at the same place in the whole.
proof fn lemma_find_prefix(names: Seq<Seq<char>>, name: Seq<char>, n: int)
    requires
        0 <= n <= names.len(),
        find_name(names.subrange(0, n), name) is Some,
    ensures
        find_name(names, name) == find_name(names.subrange(0, n), name),
    decreases names.len(),
{
    if n < names.len() {
        assert(names.drop_last().subrange(0, n) =~= names.subrange(0, n));
        lemma_find_prefix(names.drop_last(), name, n);
    } else {
        assert(names.subrange(0, n) =~= names);
    }
}

/// Reads an operand numeral; `None` when it is malformed or outside `i32`.
pub fn parse_operand(s: &Vec<char>) -> (r: Option<i32>)
    ensures
        r == operand(s@),
{
    let neg = s.len() > 0 && s[0] == '-';
    let start: usize = if neg { 1 } else { 0 };
    if start >= s.len() {
        proof {
            if neg {
                assert(!all_digits(s@.drop_first()));
            }
        }
        return None;
    }
    let ghost digits = s@.subrange(start as int, s@.len() as int);
    let mut acc: i64 = 0;
    let mut i: usize = start;
    while i < s.len()
        invariant
            neg == (s@.len() > 0 && s@[0] == '-'),
            start == (if neg { 1usize } else { 0usize }),
            start < s@.len(),
            start <= i <= s@.len(),
            digits == s@.subrange(start as int, s@.len() as int),
            forall|j: int| start <= j < i ==> is_digit(#[trigger] s@[j]),
            acc == digits_value(s@.subrange(start as int, i as int)),
            0 <= acc <= 0x8000_0000,
        decreases s@.len() - i,
    {
        let c = s[i];
        if !('0' <= c && c <= '9') {
            proof {
                assert(!is_digit(digits[i - start]));
                assert(s@.drop_first() =~= s@.subrange(1, s@.len() as int));
                if !neg {
                    assert(!is_digit(s@[i as int]));
                } else {
                    assert(i >= 1);
                    let k: int = i as int - 1;
                    assert(s@.drop_first()[k] == s@[i as int]);
                    assert(!is_digit(s@.drop_first()[k]));
                    assert(!is_digit(s@[0]));
                }
            }
            return None;
        }
        assert(s@.subrange(start as int, i + 1).drop_last() =~= s@.subrange(start as int, i as int));
        acc = acc * 10 + (c as u32 - '0' as u32) as i64;
        i += 1;
        if acc > 0x8000_0000 {
            proof {
                assert(s@.drop_first() =~= s@.subrange(1, s@.len() as int));
                if all_digits(digits) {
                    lemma_digits_prefix(digits, i - start);
                    assert(digits.subrange(0, i - start) =~= s@.subrange(start as int, i as int));
                }
                if !neg {
                    assert(digits =~= s@);
                } else {
                    assert(!is_digit(s@[0]));
                }
            }
            return None;
        }
    }
    proof {
        assert(s@.subrange(start as int, i as int) =~= digits);
        assert(s@.drop_first() =~= s@.subrange(1, s@.len() as int));
        if !neg {
            assert(digits =~= s@);
        } else {
            assert(!is_digit(s@[0]));
        }
        assert(all_digits(digits));
    }
    if neg {
        Some((-acc) as i32)
    } else if acc <= 0x7fff_ffff {
        Some(acc as i32)
    } else {
        None
    }
}

/// The instruction that an opcode other than `cal` and `def` names.
pub fn opcode_of(op: &Vec<char>, v: i32) -> (r: Option<Inst>)
    ensures
        r == opcode(op@, v),
{
    if is_word(op, 'i', 'n', 'c') {
        Some(Inst::Increment(v))
    } else if is_word(op, 'd', 'e', 'c') {
        Some(Inst::Decrement(v))
    } else if is_word(op, 'i', 'n', 'd') {
        Some(Inst::IndirectIncrement(v))
    } else if is_word(op, 'd', 'e', 'd') {
        Some(Inst::IndirectDecrement(v))
    } else if is_word(op, 't', 'o', 'z') {
        Some(Inst::ToZero(v))
    } else if is_word(op, 'f', 'r', 'z') {
        Some(Inst::FromZero(v))
    } else if is_word(op, 't', 'o', 'd') {
        Some(Inst::ToZeroIndirect(v))
    } else if is_word(op, 'f', 'r', 'd') {
        Some(Inst::FromZeroIndirect(v))
    } else if is_word(op, 's', 'e', 'z') {
        Some(Inst::SetZero(v))
    } else if is_word(op, 'p', 'r', 'i') {
        Some(Inst::Print(v))
    } else if is_word(op, 'm', 'a', 'y') {
        Some(Inst::SkipIfZero(v))
    } else if is_word(op, 'n', 'm', 'y') {
        Some(Inst::SkipIfNonZero(v))
    } else {
        None
    }
}

fn copy_chars(v: &Vec<char>) -> (r: Vec<char>)
    ensures
        r@ == v@,
{
    let mut r: Vec<char> = Vec::new();
    let mut i: usize = 0;
    while i < v.len()
        invariant
            i <= v@.len(),
            r@ == v@.subrange(0, i as int),
        decreases v@.len() - i,
    {
        r.push(v[i]);
        i += 1;
    }
    assert(r@ =~= v@);
    r
}

/// Relies on Rc::clone: a second handle on the same value.
#[verifier::external_body]
fn share_code(code: &Rc<Vec<Inst>>) -> (r: Rc<Vec<Inst>>)
    ensures
        r@ == code@,
{
    Rc::clone(code)
}

pub open spec fn assembly_of(
    names: Seq<Vec<char>>,
    codes: Seq<Vec<Inst>>,
    current: Option<usize>,
    call_names: Seq<Vec<char>>,
    call_lines: Seq<usize>,
) -> Assembly {
    Assembly {
        names: names.map_values(|v: Vec<char>| v@),
        codes: codes.map_values(|v: Vec<Inst>| v@),
        current: match current {
            Some(k) => Some(k as int),
            None => None,
        },
        call_names: call_names.map_values(|v: Vec<char>| v@),
        call_lines: call_lines.map_values(|l: usize| l as int),
    }
}

/// Turns the opcode and operand text of each line (`None` for a line without
/// an instruction) into routine instances: one per call site, in order of the
/// call sites, then one for `main`, all with their program counter at 0.
/// Instances of one routine share its code.
pub fn assemble(lines: &Vec<Option<(Vec<char>, Vec<char>)>>) -> (r: Result<Vec<Func>, LoadError>)
    ensures
        match program_of(fields_view(lines@)) {
            Ok(codes) => r is Ok && r->Ok_0@.map_values(|f: Func| f@) == fresh_instances(codes),
            Err(e) => r == Err::<Vec<Func>, LoadError>(e),
        },
{
    let ghost fv = fields_view(lines@);
    let mut names: Vec<Vec<char>> = Vec::new();
    let mut codes: Vec<Vec<Inst>> = Vec::new();
    let mut current: Option<usize> = None;
    let mut call_names: Vec<Vec<char>> = Vec::new();
    let mut call_lines: Vec<usize> = Vec::new();
    let mut i: usize = 0;
    assert(fv.subrange(0, 0) =~= Seq::<Option<(Seq<char>, Seq<char>)>>::empty());
    proof {
        let a = assembly_of(names@, codes@, current, call_names@, call_lines@);
        assert(a.names =~= empty_assembly().names);
        assert(a.codes =~= empty_assembly().codes);
        assert(a.call_names =~= empty_assembly().call_names);
        assert(a.call_lines =~= empty_assembly().call_lines);
    }
    while i < lines.len()
        invariant
            i <= lines@.len(),
            fv == fields_view(lines@),
            names@.len() == codes@.len(),
            call_names@.len() == call_lines@.len(),
            call_names@.len() <= 0x8000_0000,
            current matches Some(k) ==> k < names@.len(),
            assemble_lines(fv.subrange(0, i as int)) == Ok::<Assembly, LoadError>(
                assembly_of(names@, codes@, current, call_names@, call_lines@),
            ),
        decreases lines@.len() - i,
    {
        assert(fv.subrange(0, i + 1).drop_last() =~= fv.subrange(0, i as int));
        let ghost a0 = assembly_of(names@, codes@, current, call_names@, call_lines@);
        match &lines[i] {
            None => {},
            Some((op, data)) => {
                if is_word(op, 'd', 'e', 'f') {
                    match find_index(&names, data) {
                        Some(k) => {
                            current = Some(k);
                        },
                        None => {
                            names.push(copy_chars(data));
                            codes.push(Vec::new());
                            current = Some(names.len() - 1);
                        },
                    }
                } else if is_word(op, 'c', 'a', 'l') {
                    match current {
                        None => {
                            proof {
                                lemma_assemble_error_sticks(fv, i + 1);
                            }
                            return Err(LoadError::NoCurrentRoutine { line: i });
                        },
                        Some(k) => {
                            if call_names.len() > 0x7fff_ffff {
                                proof {
                                    lemma_assemble_error_sticks(fv, i + 1);
                                }
                                return Err(LoadError::TooManyCallSites { line: i });
                            }
                            let site = call_names.len() as i32;
                            codes[k].push(Inst::Call(site));
                            call_names.push(copy_chars(data));
                            call_lines.push(i);
                        },
                    }
                } else {
                    if opcode_of(op, 0).is_none() {
                        proof {
                            lemma_assemble_error_sticks(fv, i + 1);
                        }
                        return Err(LoadError::UnknownOpcode { line: i });
                    }
                    match current {
                        None => {
                            proof {
                                lemma_assemble_error_sticks(fv, i + 1);
                            }
                            return Err(LoadError::NoCurrentRoutine { line: i });
                        },
                        Some(k) => {
                            match parse_operand(data) {
                                None => {
                                    proof {
                                        lemma_assemble_error_sticks(fv, i + 1);
                                    }
                                    return Err(LoadError::BadOperand { line: i });
                                },
                                Some(v) => {
                                    assert(opcode(op@, v) is Some);
                                    match opcode_of(op, v) {
                                        Some(inst) => {
                                            codes[k].push(inst);
                                        },
                                        None => {},
                                    }
                                },
                            }
                        },
                    }
                }
            },
        }
        assert(assemble_line(a0, i as int, fv[i as int]) == Ok::<Assembly, LoadError>(
            assembly_of(names@, codes@, current, call_names@, call_lines@),
        )) by {
            let a1 = assembly_of(names@, codes@, current, call_names@, call_lines@);
            assert(a1.names =~= assemble_line(a0, i as int, fv[i as int])->Ok_0.names);
            assert(a1.codes =~= assemble_line(a0, i as int, fv[i as int])->Ok_0.codes);
            assert(a1.call_names =~= assemble_line(a0, i as int, fv[i as int])->Ok_0.call_names);
            assert(a1.call_lines =~= assemble_line(a0, i as int, fv[i as int])->Ok_0.call_lines);
        }
        i += 1;
    }
    assert(fv.subrange(0, i as int) =~= fv);
    let ghost a = assembly_of(names@, codes@, current, call_names@, call_lines@);
    link_instances(names, codes, &call_names, &call_lines, Ghost(a))
}

fn link_instances(
    names: Vec<Vec<char>>,
    codes: Vec<Vec<Inst>>,
    call_names: &Vec<Vec<char>>,
    call_lines: &Vec<usize>,
    Ghost(a): Ghost<Assembly>,
) -> (r: Result<Vec<Func>, LoadError>)
    requires
        names@.len() == codes@.len(),
        call_names@.len() == call_lines@.len(),
        a.names == names@.map_values(|v: Vec<char>| v@),
        a.codes == codes@.map_values(|v: Vec<Inst>| v@),
        a.call_names == call_names@.map_values(|v: Vec<char>| v@),
        a.call_lines == call_lines@.map_values(|l: usize| l as int),
    ensures
        match link(a) {
            Ok(cs) => r is Ok && r->Ok_0@.map_values(|f: Func| f@) == fresh_instances(cs),
            Err(e) => r == Err::<Vec<Func>, LoadError>(e),
        },
{
    let mut codes = codes;
    let mut shared: Vec<Rc<Vec<Inst>>> = Vec::new();
    let mut j: usize = 0;
    while j < codes.len()
        invariant
            j <= codes@.len(),
            codes@.len() == a.codes.len(),
            shared@.len() == j,
            forall|t: int| 0 <= t < j ==> #[trigger] shared@[t]@ == a.codes[t],
            forall|t: int| j <= t < codes@.len() ==> #[trigger] codes@[t]@ == a.codes[t],
        decreases codes@.len() - j,
    {
        let mut c: Vec<Inst> = Vec::new();
        std::mem::swap(&mut c, &mut codes[j]);
        shared.push(Rc::new(c));
        j += 1;
    }
    let mut funcs: Vec<Func> = Vec::new();
    let mut c: usize = 0;
    while c < call_names.len()
        invariant
            c <= call_names@.len(),
            call_names@.len() == call_lines@.len(),
            shared@.len() == a.codes.len(),
            names@.len() == a.codes.len(),
            a.names == names@.map_values(|v: Vec<char>| v@),
            a.call_names == call_names@.map_values(|v: Vec<char>| v@),
            a.call_lines == call_lines@.map_values(|l: usize| l as int),
            forall|t: int| 0 <= t < shared@.len() ==> #[trigger] shared@[t]@ == a.codes[t],
            link_calls(a, c as int) is Ok,
            funcs@.map_values(|f: Func| f@) == fresh_instances(link_calls(a, c as int)->Ok_0),
        decreases call_names@.len() - c,
    {
        let ghost prev = link_calls(a, c as int)->Ok_0;
        match find_index(&names, &call_names[c]) {
            Some(k) => {
                let f = Func::of_shared(share_code(&shared[k]));
                let ghost before = funcs@;
                funcs.push(f);
                proof {
                    assert(a.call_names[c as int] == call_names@[c as int]@);
                    assert(funcs@.map_values(|f: Func| f@) =~= before.map_values(|f: Func| f@).push(f@));
                    assert(fresh_instances(prev.push(a.codes[k as int])) =~= fresh_instances(prev).push(f@));
                    assert(link_calls(a, c + 1) == Ok::<Seq<Seq<Inst>>, LoadError>(prev.push(a.codes[k as int])));
                }
            },
            None => {
                proof {
                    lemma_link_error_sticks(a, c + 1, a.call_names.len() as int);
                }
                return Err(LoadError::UndefinedRoutine { line: call_lines[c] });
            },
        }
        c += 1;
    }
    let main = vec!['m', 'a', 'i', 'n'];
    assert(main@ =~= main_name());
    let ghost prev = link_calls(a, c as int)->Ok_0;
    assert(a.call_names.len() == c);
    match find_index(&names, &main) {
        Some(k) => {
            let f = Func::of_shared(share_code(&shared[k]));
            let ghost before = funcs@;
            funcs.push(f);
            proof {
                assert(funcs@.map_values(|f: Func| f@) =~= before.map_values(|f: Func| f@).push(f@));
                assert(fresh_instances(prev.push(a.codes[k as int])) =~= fresh_instances(prev).push(f@));
            }
            Ok(funcs)
        },
        None => Err(LoadError::MissingMain),
    }
}

/// `p` occurs in `t` as a contiguous run of characters.
pub open spec fn is_piece(p: Seq<char>, t: Seq<char>) -> bool {
    exists|i: int| 0 <= i && i + p.len() <= t.len() && #[trigger] t.subrange(i, i + p.len()) == p
}

/// The characters of each line.
pub open spec fn text_of(source: Seq<String>) -> Seq<Seq<char>> {
    source.map_values(|t: String| t@)
}

/// Whether `regex::Regex::new` accepts the pattern.
pub uninterp spec fn pattern_compiles(pattern: Seq<char>) -> bool;

/// Groups 1 and 2 of the leftmost match of `pattern` in `line`, if it matches.
pub uninterp spec fn captured_fields(pattern: Seq<char>, line: Seq<char>) -> Option<
    (Seq<char>, Seq<char>),
>;

pub open spec fn line_pattern() -> Seq<char> {
    LINE_PATTERN@
}

/// The fields that `LINE_PATTERN` captures in each line.
pub open spec fn captured_lines(text: Seq<Seq<char>>) -> Seq<Option<(Seq<char>, Seq<char>)>> {
    text.map_values(|t: Seq<char>| captured_fields(line_pattern(), t))
}

/// A compiled regular expression together with the pattern it was made from.
pub struct LineMatcher {
    re: Regex,
    pattern: Ghost<Seq<char>>,
}

impl LineMatcher {
    pub closed spec fn pattern(&self) -> Seq<char> {
        self.pattern@
    }
}

/// Relies on regex::Regex::new: compiles a pattern, and fails only on one
/// that it does not accept.
#[verifier::external_body]
fn compile_pattern(pattern: &str) -> (r: Result<LineMatcher, regex::Error>)
    ensures
        r is Ok <==> pattern_compiles(pattern@),
        r matches Ok(m) ==> m.pattern() == pattern@,
{
    Regex::new(pattern).map(|re| LineMatcher { re, pattern: Ghost(pattern@) })
}

/// Relies on regex::Regex::captures, with Captures::get and Match::as_str, for
/// the text of groups 1 and 2 of the leftmost match: each a piece of `line`.
#[verifier::external_body]
fn line_fields(m: &LineMatcher, line: &str) -> (r: Option<(Vec<char>, Vec<char>)>)
    ensures
        line_view(r) == captured_fields(m.pattern(), line@),
        r matches Some((op, data)) ==> is_piece(op@, line@) && is_piece(data@, line@),
{
    let caps = m.re.captures(line)?;
    let op = caps.get(1)?.as_str().chars().collect();
    let data = caps.get(2)?.as_str().chars().collect();
    Some((op, data))
}

/// Builds a machine from program text, one string per line: each line that
/// matches `LINE_PATTERN` yields its opcode and operand, the others are
/// ignored. The machine has zeroed memory, the instances that `assemble`
/// makes of those fields, and the `main` instance (the last one) as its root.
pub fn compile(source: &Vec<String>) -> (r: Result<Global, LoadError>)
    ensures
        !pattern_compiles(line_pattern()) ==> (r matches Err(e) && e == LoadError::BadPattern),
        pattern_compiles(line_pattern()) ==> match program_of(captured_lines(text_of(source@))) {
            Ok(codes) => (r matches Ok(g) && g.wf() && g@ == (MachineState {
                mem: zeroed_memory(),
                routines: fresh_instances(codes),
                stack: seq![codes.len() - 1],
            })),
            Err(e) => (r matches Err(e2) && e2 == e),
        },
{
    let m = match compile_pattern(LINE_PATTERN) {
        Ok(m) => m,
        Err(_) => {
            return Err(LoadError::BadPattern);
        },
    };
    let ghost text = text_of(source@);
    let mut lines: Vec<Option<(Vec<char>, Vec<char>)>> = Vec::new();
    let mut i: usize = 0;
    while i < source.len()
        invariant
            i <= source@.len(),
            text == text_of(source@),
            m.pattern() == line_pattern(),
            fields_view(lines@) == captured_lines(text).subrange(0, i as int),
        decreases source@.len() - i,
    {
        let ghost before = lines@;
        let line = source[i].as_str();
        let fields = line_fields(&m, line);
        lines.push(fields);
        assert(text[i as int] == line@);
        assert(captured_lines(text)[i as int] == line_view(fields));
        assert(lines@ == before.push(fields));
        assert(fields_view(lines@) =~= fields_view(before).push(line_view(fields)));
        i += 1;
        assert(fields_view(lines@) =~= captured_lines(text).subrange(0, i as int));
    }
    assert(captured_lines(text).subrange(0, i as int) =~= captured_lines(text));
    let ghost fv = fields_view(lines@);
    let funcs = match assemble(&lines) {
        Ok(funcs) => funcs,
        Err(e) => {
            return Err(e);
        },
    };
    assert(funcs@.len() == fresh_instances(program_of(fv)->Ok_0).len());
    let root = funcs.len() - 1;
    match Global::with_program(funcs, root) {
        Some(g) => Ok(g),
        None => Err(LoadError::MissingMain),
    }
}

} // verus!
