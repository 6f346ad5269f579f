use stepvm::inst::Inst;
use stepvm::machine::{Func, Global, VmError, MAX_CALL_DEPTH, MEMORY_SIZE};

fn machine(codes: Vec<Vec<Inst>>, root: usize) -> Global {
    let funcs = codes.into_iter().map(Func::new).collect();
    Global::with_program(funcs, root).unwrap()
}

fn run(g: &mut Global, limit: usize) -> Result<(Vec<char>, usize), VmError> {
    let mut out = Vec::new();
    let mut steps = 0;
    while g.is_running() && steps < limit {
        if let Some(c) = g.step()? {
            out.push(c);
        }
        steps += 1;
    }
    Ok((out, steps))
}

#[test]
fn fresh_machine_is_zeroed_and_halted() {
    let g = Global::default();
    assert_eq!(g.memory().len(), MEMORY_SIZE);
    assert!(g.memory().iter().all(|&v| v == 0));
    assert!(!g.is_running());
    assert_eq!(g.routine_count(), 0);
}

#[test]
fn with_program_rejects_missing_root() {
    assert!(Global::with_program(vec![Func::default()], 1).is_none());
    let g = Global::with_program(vec![Func::default()], 0).unwrap();
    assert_eq!(g.depth(), 1);
}

#[test]
fn func_push_appends_and_keeps_pc() {
    let mut f = Func::default();
    assert_eq!(f.len(), 0);
    f.push(Inst::Increment(3));
    f.push(Inst::Print(4));
    assert_eq!(f.len(), 2);
    assert_eq!(f.pc(), 0);
    assert_eq!(f.instruction(0), Some(Inst::Increment(3)));
    assert_eq!(f.instruction(1), Some(Inst::Print(4)));
    assert_eq!(f.instruction(2), None);
}

#[test]
fn func_push_on_shared_code_leaves_the_other_copy() {
    let mut a = Func::new(vec![Inst::Increment(1)]);
    let b = a.clone();
    a.push(Inst::Decrement(1));
    assert_eq!(a.len(), 2);
    assert_eq!(b.len(), 1);
}

#[test]
fn increment_then_decrement_round_trip() {
    let mut g = machine(vec![vec![Inst::Increment(7), Inst::Decrement(7)]], 0);
    g.store(7, 41);
    assert_eq!(g.step(), Ok(None));
    assert_eq!(g.memory()[7], 42);
    assert_eq!(g.step(), Ok(None));
    assert_eq!(g.memory()[7], 41);
}

#[test]
fn increment_wraps_at_the_top_of_i32() {
    let mut g = machine(vec![vec![Inst::Increment(7), Inst::Decrement(7)]], 0);
    g.store(7, i32::MAX);
    g.step().unwrap();
    assert_eq!(g.memory()[7], i32::MIN);
    g.step().unwrap();
    assert_eq!(g.memory()[7], i32::MAX);
}

#[test]
fn set_zero_then_from_zero_stores_literal() {
    let mut g = machine(vec![vec![Inst::SetZero(-9), Inst::FromZero(3)]], 0);
    run(&mut g, 10).unwrap();
    assert_eq!(g.memory()[3], -9);
    assert_eq!(g.memory()[0], -9);
}

#[test]
fn indirect_increment_follows_pointer() {
    let mut g = machine(vec![vec![Inst::IndirectIncrement(10), Inst::IndirectDecrement(11)]], 0);
    g.store(10, 20);
    g.store(11, 30);
    g.step().unwrap();
    assert_eq!(g.memory()[20], 1);
    assert_eq!(g.memory()[10], 20);
    g.step().unwrap();
    assert_eq!(g.memory()[30], -1);
    assert_eq!(g.memory()[11], 30);
}

#[test]
fn transfers_through_the_accumulator() {
    let mut g = machine(
        vec![vec![
            Inst::ToZero(5),
            Inst::FromZeroIndirect(6),
            Inst::ToZeroIndirect(7),
            Inst::FromZero(8),
        ]],
        0,
    );
    g.store(5, 77);
    g.store(6, 100);
    g.store(7, 200);
    g.store(200, 13);
    run(&mut g, 10).unwrap();
    assert_eq!(g.memory()[100], 77);
    assert_eq!(g.memory()[8], 13);
    assert_eq!(g.memory()[0], 13);
}

#[test]
fn two_call_sites_keep_their_own_counters() {
    let shared = vec![Inst::Increment(1), Inst::Increment(2)];
    let mut g = machine(
        vec![shared.clone(), shared, vec![Inst::Call(0), Inst::Call(0), Inst::Call(1)]],
        2,
    );
    g.step().unwrap();
    assert_eq!(g.pc_of(0), Some(1));
    assert_eq!(g.pc_of(1), Some(0));
    g.step().unwrap();
    assert_eq!(g.pc_of(0), Some(0));
    assert_eq!(g.pc_of(1), Some(0));
    g.step().unwrap();
    assert_eq!(g.pc_of(0), Some(0));
    assert_eq!(g.pc_of(1), Some(1));
    assert_eq!(g.memory()[1], 2);
    assert_eq!(g.memory()[2], 1);
    assert!(!g.is_running());
}

#[test]
fn called_routine_wraps_to_its_start() {
    let mut g = machine(
        vec![
            vec![Inst::Increment(1), Inst::Increment(2)],
            vec![Inst::Call(0), Inst::Call(0), Inst::Call(0)],
        ],
        1,
    );
    g.step().unwrap();
    g.step().unwrap();
    assert_eq!(g.pc_of(0), Some(0));
    g.step().unwrap();
    assert_eq!(g.pc_of(0), Some(1));
    assert_eq!(g.memory()[1], 2);
    assert_eq!(g.memory()[2], 1);
}

#[test]
fn root_halts_at_end_of_code() {
    let mut g = machine(vec![vec![Inst::Increment(1)]], 0);
    assert!(g.is_running());
    g.step().unwrap();
    assert!(!g.is_running());
    assert_eq!(g.memory()[1], 1);
    assert_eq!(g.step(), Ok(None));
    assert_eq!(g.memory()[1], 1);
}

#[test]
fn skip_if_zero_skips_exactly_one() {
    let mut g = machine(
        vec![vec![Inst::SkipIfZero(5), Inst::Call(9), Inst::Increment(2), Inst::Increment(3)]],
        0,
    );
    g.step().unwrap();
    assert_eq!(g.pc_of(0), Some(2));
    g.step().unwrap();
    assert_eq!(g.memory()[2], 1);
    assert_eq!(g.memory()[3], 0);
}

#[test]
fn skip_if_zero_does_not_skip_on_nonzero() {
    let mut g = machine(vec![vec![Inst::SkipIfZero(5), Inst::Increment(2)]], 0);
    g.store(5, 4);
    g.step().unwrap();
    assert_eq!(g.pc_of(0), Some(1));
    g.step().unwrap();
    assert_eq!(g.memory()[2], 1);
}

#[test]
fn skip_if_nonzero_skips_exactly_one() {
    let mut g = machine(vec![vec![Inst::SkipIfNonZero(5), Inst::Increment(2), Inst::Increment(3)]], 0);
    g.store(5, -1);
    run(&mut g, 10).unwrap();
    assert_eq!(g.memory()[2], 0);
    assert_eq!(g.memory()[3], 1);
}

#[test]
fn skip_at_end_of_root_halts() {
    let mut g = machine(vec![vec![Inst::Increment(1), Inst::SkipIfZero(5)]], 0);
    g.step().unwrap();
    g.step().unwrap();
    assert!(!g.is_running());
}

#[test]
fn prints_control_character_and_halts_after_three_steps() {
    let mut g = machine(vec![vec![Inst::SetZero(5), Inst::FromZero(1), Inst::Print(1)]], 0);
    let (out, steps) = run(&mut g, 100).unwrap();
    assert_eq!(out, vec!['\u{5}']);
    assert_eq!(steps, 3);
    assert!(!g.is_running());
}

#[test]
fn prints_letters() {
    let mut g = machine(vec![vec![Inst::SetZero(0x48), Inst::Print(0), Inst::SetZero(0x1F600), Inst::Print(0)]], 0);
    let (out, _) = run(&mut g, 100).unwrap();
    assert_eq!(out, vec!['H', '\u{1F600}']);
}

#[test]
fn call_to_empty_routine_changes_nothing_but_the_caller() {
    let mut g = machine(vec![vec![], vec![Inst::Call(0), Inst::Increment(4)]], 1);
    assert_eq!(g.step(), Ok(None));
    assert!(g.memory().iter().all(|&v| v == 0));
    assert_eq!(g.pc_of(1), Some(1));
    assert_eq!(g.pc_of(0), Some(0));
    assert!(g.is_running());
}

#[test]
fn single_call_to_empty_routine_halts_root() {
    let mut g = machine(vec![vec![], vec![Inst::Call(0)]], 1);
    assert_eq!(g.step(), Ok(None));
    assert!(g.memory().iter().all(|&v| v == 0));
    assert_eq!(g.pc_of(1), Some(1));
    assert!(!g.is_running());
}

#[test]
fn empty_root_is_a_no_op() {
    let mut g = machine(vec![vec![]], 0);
    assert_eq!(g.step(), Ok(None));
    assert!(g.is_running());
    assert_eq!(g.pc_of(0), Some(0));
}

#[test]
fn out_of_range_address_fails_without_writing() {
    let mut g = machine(vec![vec![Inst::Increment(MEMORY_SIZE as i32)]], 0);
    assert_eq!(g.step(), Err(VmError::InvalidAddress { address: MEMORY_SIZE as i32 }));
    assert!(g.memory().iter().all(|&v| v == 0));
    assert!(!g.is_running());
}

#[test]
fn negative_address_fails() {
    let mut g = machine(vec![vec![Inst::SetZero(3), Inst::FromZero(-1)]], 0);
    g.step().unwrap();
    assert_eq!(g.step(), Err(VmError::InvalidAddress { address: -1 }));
    assert_eq!(g.memory()[0], 3);
}

#[test]
fn out_of_range_pointer_fails() {
    let mut g = machine(vec![vec![Inst::ToZeroIndirect(3)]], 0);
    g.store(3, -5);
    assert_eq!(g.step(), Err(VmError::InvalidAddress { address: -5 }));
    assert_eq!(g.memory()[0], 0);
}

#[test]
fn invalid_address_inside_call_fails() {
    let mut g = machine(vec![vec![Inst::Decrement(70000)], vec![Inst::Call(0)]], 1);
    assert_eq!(g.step(), Err(VmError::InvalidAddress { address: 70000 }));
    assert!(!g.is_running());
}

#[test]
fn print_of_non_scalar_fails() {
    let mut g = machine(vec![vec![Inst::Print(1)]], 0);
    g.store(1, 0xD800);
    assert_eq!(g.step(), Err(VmError::InvalidPrintValue { value: 0xD800 }));
    let mut g = machine(vec![vec![Inst::Print(1)]], 0);
    g.store(1, -1);
    assert_eq!(g.step(), Err(VmError::InvalidPrintValue { value: -1 }));
}

#[test]
fn call_to_missing_routine_fails() {
    let mut g = machine(vec![vec![Inst::Call(5)]], 0);
    assert_eq!(g.step(), Err(VmError::InvalidRoutineIndex { index: 5 }));
    let mut g = machine(vec![vec![Inst::Call(-1)]], 0);
    assert_eq!(g.step(), Err(VmError::InvalidRoutineIndex { index: -1 }));
}

#[test]
fn reentering_finished_instance_fails() {
    let mut g = machine(vec![vec![Inst::Call(0)]], 0);
    assert_eq!(g.step(), Err(VmError::ProgramCounterOutOfRange { routine: 0 }));
    assert!(!g.is_running());
}

#[test]
fn call_chain_deeper_than_limit_fails() {
    let mut g = machine(vec![vec![Inst::Call(0); MAX_CALL_DEPTH + 10]], 0);
    assert_eq!(g.step(), Err(VmError::CallDepthExceeded { depth: MAX_CALL_DEPTH }));
    assert!(!g.is_running());
}

#[test]
fn store_outside_memory_is_refused() {
    let mut g = Global::default();
    assert!(!g.store(MEMORY_SIZE, 1));
    assert!(g.store(MEMORY_SIZE - 1, 1));
    assert_eq!(g.memory()[MEMORY_SIZE - 1], 1);
}
