use vstd::prelude::*;

use crate::inst::Inst;
use crate::machine::{
    in_range, instr_effect, lemma_step_frame, set_pc, skip_target, state_wf, step_spec, MachineState,
    VmError, MAX_CALL_DEPTH,
};

verus! {

/// Index of the routine instance on top of the call stack.
pub open spec fn top(s: MachineState) -> int {
    s.stack.last()
}

/// Program counter of the top instance.
pub open spec fn top_pc(s: MachineState) -> int {
    s.routines[top(s)].pc
}

/// The instruction `k` places after the top instance's program counter.
pub open spec fn upcoming(s: MachineState, k: int) -> Inst {
    s.routines[top(s)].code[top_pc(s) + k]
}

/// The machine is running and the top instance has at least `n`
/// instructions left before the end of its code.
pub open spec fn has_ahead(s: MachineState, n: int) -> bool {
    &&& state_wf(s)
    &&& s.stack.len() > 0
    &&& 0 <= top_pc(s)
    &&& top_pc(s) + n <= s.routines[top(s)].code.len()
}

/// Incrementing a valid cell and then decrementing it leaves memory as it was.
pub proof fn law_increment_then_decrement(s: MachineState, x: i32)
    requires
        has_ahead(s, 2),
        upcoming(s, 0) == Inst::Increment(x),
        upcoming(s, 1) == Inst::Decrement(x),
        in_range(s.mem, x),
    ensures
        step_spec(s).1 == Ok::<Option<u32>, VmError>(None),
        step_spec(step_spec(s).0).1 == Ok::<Option<u32>, VmError>(None),
        step_spec(step_spec(s).0).0.mem == s.mem,
{
    let s1 = step_spec(s).0;
    assert(s1.stack == s.stack);
    assert(top_pc(s1) == top_pc(s) + 1);
    assert(s1.mem[x as int] == s.mem[x as int].wrapping_add(1));
    assert(step_spec(s1).0.mem =~= s.mem);
}

/// Setting the accumulator to a literal and then copying it out stores the
/// literal in the target cell.
pub proof fn law_set_zero_then_from_zero(s: MachineState, k: i32, x: i32)
    requires
        has_ahead(s, 2),
        upcoming(s, 0) == Inst::SetZero(k),
        upcoming(s, 1) == Inst::FromZero(x),
        in_range(s.mem, x),
        x != 0,
    ensures
        step_spec(s).1 is Ok,
        step_spec(step_spec(s).0).1 is Ok,
        step_spec(step_spec(s).0).0.mem[x as int] == k,
{
    let s1 = step_spec(s).0;
    assert(s1.stack == s.stack);
    assert(top_pc(s1) == top_pc(s) + 1);
}

/// An indirect increment through cell `x` increments the cell that `x`
/// points to and leaves `x` itself, and every other cell, unchanged.
pub proof fn law_indirect_increment(s: MachineState, x: i32)
    requires
        has_ahead(s, 1),
        upcoming(s, 0) == Inst::IndirectIncrement(x),
        in_range(s.mem, x),
        in_range(s.mem, s.mem[x as int]),
        s.mem[x as int] != x,
    ensures
        step_spec(s).1 is Ok,
        step_spec(s).0.mem == s.mem.update(
            s.mem[x as int] as int,
            s.mem[s.mem[x as int] as int].wrapping_add(1),
        ),
        step_spec(s).0.mem[x as int] == s.mem[x as int],
{
}

/// A skip instruction moves the program counter past exactly one further
/// instruction when its condition holds, and past none otherwise; memory
/// is untouched.
pub proof fn law_skip_one(s: MachineState)
    requires
        has_ahead(s, 3),
        upcoming(s, 0) is SkipIfZero || upcoming(s, 0) is SkipIfNonZero,
        in_range(
            s.mem,
            match upcoming(s, 0) {
                Inst::SkipIfZero(x) => x,
                Inst::SkipIfNonZero(x) => x,
                _ => 0,
            },
        ),
    ensures
        ({
            let (t, r) = step_spec(s);
            let skipped = match upcoming(s, 0) {
                Inst::SkipIfZero(x) => s.mem[x as int] == 0,
                Inst::SkipIfNonZero(x) => s.mem[x as int] != 0,
                _ => false,
            };
            &&& r == Ok::<Option<u32>, VmError>(None)
            &&& t.mem == s.mem
            &&& t.stack == s.stack
            &&& top_pc(t) == top_pc(s) + if skipped { 2int } else { 1int }
        }),
{
}

/// An instance reached through a call whose step reaches the end of its code
/// starts over from its first instruction.
pub proof fn law_called_instance_wraps(s: MachineState)
    requires
        has_ahead(s, 1),
        s.stack.len() > 1,
        top_pc(s) + 1 == s.routines[top(s)].code.len(),
        !(upcoming(s, 0) is Call),
        instr_effect(s.mem, upcoming(s, 0)) is Ok,
    ensures
        step_spec(s).1 is Ok,
        step_spec(s).0.stack == s.stack,
        step_spec(s).0.routines[top(s)].pc == 0,
        step_spec(s).0.routines[top(s)].code == s.routines[top(s)].code,
{
}

/// The root instance, on reaching the end of its code, leaves the call stack
/// and so halts the machine.
pub proof fn law_root_halts(s: MachineState)
    requires
        has_ahead(s, 1),
        s.stack.len() == 1,
        top_pc(s) + 1 == s.routines[top(s)].code.len(),
        !(upcoming(s, 0) is Call),
        instr_effect(s.mem, upcoming(s, 0)) is Ok,
    ensures
        step_spec(s).1 is Ok,
        step_spec(s).0.stack.len() == 0,
{
}

/// The cell that an instruction names directly, for those that name one.
pub open spec fn direct_operand(inst: Inst) -> Option<i32> {
    match inst {
        Inst::Increment(x) => Some(x),
        Inst::Decrement(x) => Some(x),
        Inst::IndirectIncrement(x) => Some(x),
        Inst::IndirectDecrement(x) => Some(x),
        Inst::ToZero(x) => Some(x),
        Inst::FromZero(x) => Some(x),
        Inst::ToZeroIndirect(x) => Some(x),
        Inst::FromZeroIndirect(x) => Some(x),
        Inst::Print(x) => Some(x),
        Inst::SkipIfZero(x) => Some(x),
        Inst::SkipIfNonZero(x) => Some(x),
        _ => None,
    }
}

pub open spec fn is_indirect(inst: Inst) -> bool {
    inst is IndirectIncrement || inst is IndirectDecrement || inst is ToZeroIndirect
        || inst is FromZeroIndirect
}

/// The instruction other than `Call` that a step executes, following calls
/// from the top instance; `None` when the step stops before reaching one.
pub open spec fn reached(s: MachineState) -> Option<Inst>
    decreases MAX_CALL_DEPTH - s.stack.len(),
{
    if s.stack.len() == 0 || s.stack.len() > MAX_CALL_DEPTH {
        None
    } else {
        let cur = top(s);
        let r = s.routines[cur];
        if r.code.len() == 0 || r.pc >= r.code.len() {
            None
        } else {
            match r.code[r.pc] {
                Inst::Call(x) => if 0 <= x < s.routines.len() && s.stack.len() < MAX_CALL_DEPTH {
                    reached(
                        MachineState {
                            stack: s.stack.push(x as int),
                            ..set_pc(s, cur, r.pc + 1)
                        },
                    )
                } else {
                    None
                },
                inst => Some(inst),
            }
        }
    }
}

/// The out-of-range value that an instruction would use as an address, if any.
pub open spec fn bad_address(mem: Seq<i32>, inst: Inst) -> Option<i32> {
    match direct_operand(inst) {
        Some(x) => if !in_range(mem, x) {
            Some(x)
        } else if is_indirect(inst) && !in_range(mem, mem[x as int]) {
            Some(mem[x as int])
        } else {
            None
        },
        None => None,
    }
}

/// An instruction whose operand, or whose pointer cell's content, lies outside
/// memory fails with `InvalidAddress` for that value, halts the machine and
/// leaves memory unchanged, whether it belongs to the top instance or is
/// reached through a chain of calls.
pub proof fn law_invalid_address(s: MachineState)
    requires
        state_wf(s),
        reached(s) is Some,
        bad_address(s.mem, reached(s)->0) is Some,
    ensures
        ({
            let (t, r) = step_spec(s);
            &&& r == Err::<Option<u32>, VmError>(
                VmError::InvalidAddress { address: bad_address(s.mem, reached(s)->0)->0 },
            )
            &&& t.mem == s.mem
            &&& t.stack.len() == 0
        }),
    decreases MAX_CALL_DEPTH - s.stack.len(),
{
    lemma_step_frame(s);
    let cur = top(s);
    let r = s.routines[cur];
    if let Inst::Call(x) = r.code[r.pc] {
        let pushed = MachineState { stack: s.stack.push(x as int), ..set_pc(s, cur, r.pc + 1) };
        assert(state_wf(pushed)) by {
            assert forall|i: int| 0 <= i < pushed.stack.len() implies 0 <= #[trigger] pushed.stack[i]
                < pushed.routines.len() by {
                if i < s.stack.len() {
                    assert(pushed.stack[i] == s.stack[i]);
                }
            }
        }
        law_invalid_address(pushed);
    }
}

/// Program counter of an instance after it executed the instruction at `pc`
/// while reached through a call: past the instruction, and past the next one
/// when skipped, then back to 0 at the end of the code.
pub open spec fn called_next_pc(pc: int, len: int, skip: bool) -> int {
    if skip_target(pc, len, skip) >= len {
        0
    } else {
        skip_target(pc, len, skip)
    }
}

/// A call to instance `a` advances `a` by one instruction from its own program
/// counter, and leaves every instance other than `a` and the caller as it was:
/// instances that share code keep independent cursors and share only memory.
pub proof fn law_call_advances_only_callee(s: MachineState, a: i32)
    requires
        has_ahead(s, 1),
        upcoming(s, 0) == Inst::Call(a),
        0 <= a < s.routines.len(),
        a != top(s),
        s.stack.len() < MAX_CALL_DEPTH,
        0 <= s.routines[a as int].pc < s.routines[a as int].code.len(),
        !(s.routines[a as int].code[s.routines[a as int].pc] is Call),
        instr_effect(s.mem, s.routines[a as int].code[s.routines[a as int].pc]) is Ok,
    ensures
        ({
            let (t, r) = step_spec(s);
            let callee = s.routines[a as int];
            let (mem, skip, out) = instr_effect(s.mem, callee.code[callee.pc])->Ok_0;
            &&& r == Ok::<Option<u32>, VmError>(out)
            &&& t.mem == mem
            &&& t.routines.len() == s.routines.len()
            &&& t.routines[a as int].code == callee.code
            &&& t.routines[a as int].pc == called_next_pc(callee.pc, callee.code.len() as int, skip)
            &&& forall|j: int|
                0 <= j < s.routines.len() && j != a && j != top(s) ==> #[trigger] t.routines[j] == s.routines[j]
        }),
{
    let cur = top(s);
    let s1 = MachineState {
        routines: s.routines.update(cur, crate::machine::RoutineState { pc: top_pc(s) + 1, ..s.routines[cur] }),
        ..s
    };
    let pushed = MachineState { stack: s1.stack.push(a as int), ..s1 };
    let (s2, res) = step_spec(pushed);
    assert(pushed.stack.last() == a as int);
    assert(res is Ok);
    assert(s2.stack.drop_last() =~= s.stack);
}

/// A call to an instance without code emits nothing, leaves memory and the
/// callee as they were, and advances the caller by exactly one instruction.
pub proof fn law_call_to_empty_routine(s: MachineState, a: i32)
    requires
        has_ahead(s, 2),
        upcoming(s, 0) == Inst::Call(a),
        0 <= a < s.routines.len(),
        a != top(s),
        s.stack.len() < MAX_CALL_DEPTH,
        s.routines[a as int].code.len() == 0,
    ensures
        step_spec(s).1 == Ok::<Option<u32>, VmError>(None),
        step_spec(s).0.mem == s.mem,
        step_spec(s).0.stack == s.stack,
        step_spec(s).0.routines[a as int] == s.routines[a as int],
        top_pc(step_spec(s).0) == top_pc(s) + 1,
{
    let cur = top(s);
    let s1 = MachineState {
        routines: s.routines.update(cur, crate::machine::RoutineState { pc: top_pc(s) + 1, ..s.routines[cur] }),
        ..s
    };
    let pushed = MachineState { stack: s1.stack.push(a as int), ..s1 };
    assert(pushed.stack.last() == a as int);
    assert(step_spec(pushed).0.stack.drop_last() =~= s.stack);
}

} // verus!
