use stepvm::inst::Inst;
use stepvm::loader::{assemble, compile, opcode_of, parse_operand, LoadError};
use stepvm::payload::{command_code, encode_program, PAYLOAD_BASE};

fn lines(text: &str) -> Vec<String> {
    text.split('\n').map(|l| l.to_string()).collect()
}

fn chars(s: &str) -> Vec<char> {
    s.chars().collect()
}

fn fields(op: &str, data: &str) -> Option<(Vec<char>, Vec<char>)> {
    Some((chars(op), chars(data)))
}

#[test]
fn parses_operands() {
    assert_eq!(parse_operand(&chars("0")), Some(0));
    assert_eq!(parse_operand(&chars("42")), Some(42));
    assert_eq!(parse_operand(&chars("-17")), Some(-17));
    assert_eq!(parse_operand(&chars("2147483647")), Some(i32::MAX));
    assert_eq!(parse_operand(&chars("-2147483648")), Some(i32::MIN));
    assert_eq!(parse_operand(&chars("2147483648")), None);
    assert_eq!(parse_operand(&chars("99999999999999999999")), None);
    assert_eq!(parse_operand(&chars("")), None);
    assert_eq!(parse_operand(&chars("-")), None);
    assert_eq!(parse_operand(&chars("main")), None);
    assert_eq!(parse_operand(&chars("1a")), None);
}

#[test]
fn names_opcodes() {
    assert_eq!(opcode_of(&chars("inc"), 3), Some(Inst::Increment(3)));
    assert_eq!(opcode_of(&chars("ded"), 3), Some(Inst::IndirectDecrement(3)));
    assert_eq!(opcode_of(&chars("may"), 1), Some(Inst::SkipIfZero(1)));
    assert_eq!(opcode_of(&chars("nmy"), 1), Some(Inst::SkipIfNonZero(1)));
    assert_eq!(opcode_of(&chars("cal"), 1), None);
    assert_eq!(opcode_of(&chars("xyz"), 1), None);
}

#[test]
fn each_call_site_gets_its_own_instance() {
    let input = vec![
        fields("def", "main"),
        fields("cal", "f"),
        None,
        fields("cal", "f"),
        fields("def", "f"),
        fields("inc", "1"),
    ];
    let funcs = assemble(&input).unwrap();
    assert_eq!(funcs.len(), 3);
    assert_eq!(funcs[0].instruction(0), Some(Inst::Increment(1)));
    assert_eq!(funcs[1].instruction(0), Some(Inst::Increment(1)));
    assert_eq!(funcs[2].len(), 2);
    assert_eq!(funcs[2].instruction(0), Some(Inst::Call(0)));
    assert_eq!(funcs[2].instruction(1), Some(Inst::Call(1)));
}

#[test]
fn redefinition_appends_to_the_routine() {
    let input = vec![
        fields("def", "main"),
        fields("inc", "1"),
        fields("def", "g"),
        fields("def", "main"),
        fields("dec", "2"),
    ];
    let funcs = assemble(&input).unwrap();
    assert_eq!(funcs.len(), 1);
    assert_eq!(funcs[0].instruction(0), Some(Inst::Increment(1)));
    assert_eq!(funcs[0].instruction(1), Some(Inst::Decrement(2)));
}

fn assemble_error(input: Vec<Option<(Vec<char>, Vec<char>)>>) -> Option<LoadError> {
    assemble(&input).err()
}

#[test]
fn assemble_reports_each_error() {
    assert_eq!(assemble_error(vec![fields("inc", "1")]), Some(LoadError::NoCurrentRoutine { line: 0 }));
    assert_eq!(assemble_error(vec![None, fields("cal", "f")]), Some(LoadError::NoCurrentRoutine { line: 1 }));
    assert_eq!(
        assemble_error(vec![fields("def", "main"), fields("xyz", "1")]),
        Some(LoadError::UnknownOpcode { line: 1 })
    );
    assert_eq!(
        assemble_error(vec![fields("def", "main"), fields("inc", "abc")]),
        Some(LoadError::BadOperand { line: 1 })
    );
    assert_eq!(
        assemble_error(vec![fields("def", "main"), None, fields("cal", "nowhere")]),
        Some(LoadError::UndefinedRoutine { line: 2 })
    );
    assert_eq!(assemble_error(vec![fields("def", "f"), fields("inc", "1")]), Some(LoadError::MissingMain));
    assert_eq!(assemble_error(vec![]), Some(LoadError::MissingMain));
}

#[test]
fn compile_and_run_prints() {
    let src = lines("; greeting\ndef main\n  sez 72\n\tfrz 1\n  pri 1\n  sez 105\n  pri 0\n");
    let mut g = compile(&src).unwrap();
    assert_eq!(g.routine_count(), 1);
    let mut out = Vec::new();
    while g.is_running() {
        if let Some(c) = g.step().unwrap() {
            out.push(c);
        }
    }
    assert_eq!(out, vec!['H', 'i']);
    assert_eq!(g.memory()[1], 72);
}

#[test]
fn compile_runs_called_routines_one_step_at_a_time() {
    let src = lines("def main\ncal count\ncal count\ncal count\ndef count\ninc 1\ninc 2");
    let mut g = compile(&src).unwrap();
    assert_eq!(g.routine_count(), 4);
    while g.is_running() {
        g.step().unwrap();
    }
    assert_eq!(g.memory()[1], 3);
    assert_eq!(g.memory()[2], 0);
}

#[test]
fn compile_reads_negative_operands() {
    let src = lines("def main\nsez -7\nfrz 3");
    let mut g = compile(&src).unwrap();
    while g.is_running() {
        g.step().unwrap();
    }
    assert_eq!(g.memory()[3], -7);
}

#[test]
fn compile_reports_errors() {
    assert_eq!(compile(&lines("inc 5")).err(), Some(LoadError::NoCurrentRoutine { line: 0 }));
    assert_eq!(compile(&lines("def main\ninc foo")).err(), Some(LoadError::BadOperand { line: 1 }));
    assert_eq!(
        compile(&lines("def main\ninc 99999999999")).err(),
        Some(LoadError::BadOperand { line: 1 })
    );
    assert_eq!(compile(&lines("def main\n\ncal foo")).err(), Some(LoadError::UndefinedRoutine { line: 2 }));
    assert_eq!(compile(&lines("def foo\ninc 1")).err(), Some(LoadError::MissingMain));
}

#[test]
fn encodes_payload_commands() {
    assert_eq!(PAYLOAD_BASE, 100);
    assert_eq!(command_code('['), Some(7));
    assert_eq!(command_code('x'), None);
    assert_eq!(encode_program(&chars("\n+[>.]<-, x")), vec![3, 7, 1, 5, 8, 2, 4, 6]);
    assert_eq!(encode_program(&chars("")), Vec::<i32>::new());
}
