use std::rc::Rc;
use vstd::prelude::*;

use crate::inst::Inst;

verus! {

/// Number of memory cells of a machine.
pub const MEMORY_SIZE: usize = 65536;

/// Deepest chain of nested calls that one step may follow.
pub const MAX_CALL_DEPTH: usize = 1024;

/// Fatal conditions of a step. Each one halts the machine.
#[derive(Clone, Copy, Debug, PartialEq, Eq, Structural)]
pub enum VmError {
    /// An operand, or a value read as an address, lies outside memory.
    InvalidAddress { address: i32 },
    /// A printed cell holds no Unicode scalar value.
    InvalidPrintValue { value: i32 },
    /// A call names no routine instance.
    InvalidRoutineIndex { index: i32 },
    /// A call would nest deeper than `MAX_CALL_DEPTH`.
    CallDepthExceeded { depth: usize },
    /// A routine instance was re-entered while its program counter stood at
    /// the end of its code.
    ProgramCounterOutOfRange { routine: usize },
}

/// Abstract routine instance: its code and its program counter.
pub struct RoutineState {
    pub code: Seq<Inst>,
    pub pc: int,
}

/// Abstract machine: memory, routine-instance table and call stack (top last).
pub struct MachineState {
    pub mem: Seq<i32>,
    pub routines: Seq<RoutineState>,
    pub stack: Seq<int>,
}

pub open spec fn in_range(mem: Seq<i32>, a: i32) -> bool {
    0 <= a < mem.len()
}

/// The cell that a direct operand names.
pub open spec fn direct(mem: Seq<i32>, x: i32) -> Result<int, VmError> {
    if in_range(mem, x) {
        Ok(x as int)
    } else {
        Err(VmError::InvalidAddress { address: x })
    }
}

/// The cell whose address is held in the cell that the operand names.
pub open spec fn indirect(mem: Seq<i32>, x: i32) -> Result<int, VmError> {
    match direct(mem, x) {
        Ok(a) => direct(mem, mem[a]),
        Err(e) => Err(e),
    }
}

pub open spec fn is_scalar_value(v: int) -> bool {
    (0 <= v <= 0xD7FF) || (0xE000 <= v <= 0x10FFFF)
}

/// New memory with `mem[a] = v`, when `a` was resolved.
pub open spec fn write_cell(mem: Seq<i32>, a: Result<int, VmError>, v: i32) -> Result<
    (Seq<i32>, bool, Option<u32>),
    VmError,
> {
    match a {
        Ok(a) => Ok((mem.update(a, v), false, None)),
        Err(e) => Err(e),
    }
}

/// Effect of an instruction other than `Call` on memory: the new memory,
/// whether the next instruction is skipped, and the emitted scalar value.
pub open spec fn instr_effect(mem: Seq<i32>, inst: Inst) -> Result<
    (Seq<i32>, bool, Option<u32>),
    VmError,
> {
    match inst {
        Inst::Increment(x) => match direct(mem, x) {
            Ok(a) => write_cell(mem, Ok(a), mem[a].wrapping_add(1)),
            Err(e) => Err(e),
        },
        Inst::Decrement(x) => match direct(mem, x) {
            Ok(a) => write_cell(mem, Ok(a), mem[a].wrapping_sub(1)),
            Err(e) => Err(e),
        },
        Inst::IndirectIncrement(x) => match indirect(mem, x) {
            Ok(a) => write_cell(mem, Ok(a), mem[a].wrapping_add(1)),
            Err(e) => Err(e),
        },
        Inst::IndirectDecrement(x) => match indirect(mem, x) {
            Ok(a) => write_cell(mem, Ok(a), mem[a].wrapping_sub(1)),
            Err(e) => Err(e),
        },
        Inst::ToZero(x) => match direct(mem, x) {
            Ok(a) => write_cell(mem, Ok(0), mem[a]),
            Err(e) => Err(e),
        },
        Inst::FromZero(x) => write_cell(mem, direct(mem, x), mem[0]),
        Inst::ToZeroIndirect(x) => match indirect(mem, x) {
            Ok(a) => write_cell(mem, Ok(0), mem[a]),
            Err(e) => Err(e),
        },
        Inst::FromZeroIndirect(x) => write_cell(mem, indirect(mem, x), mem[0]),
        Inst::SetZero(k) => write_cell(mem, Ok(0), k),
        Inst::Print(x) => match direct(mem, x) {
            Ok(a) => if is_scalar_value(mem[a] as int) {
                Ok((mem, false, Some(mem[a] as u32)))
            } else {
                Err(VmError::InvalidPrintValue { value: mem[a] })
            },
            Err(e) => Err(e),
        },
        Inst::Call(_) => Ok((mem, false, None)),
        Inst::SkipIfZero(x) => match direct(mem, x) {
            Ok(a) => Ok((mem, mem[a] == 0, None)),
            Err(e) => Err(e),
        },
        Inst::SkipIfNonZero(x) => match direct(mem, x) {
            Ok(a) => Ok((mem, mem[a] != 0, None)),
            Err(e) => Err(e),
        },
    }
}

/// The machine after a fatal condition: nothing left on the call stack.
pub open spec fn halted(s: MachineState) -> MachineState {
    MachineState { stack: Seq::empty(), ..s }
}

pub open spec fn set_pc(s: MachineState, r: int, pc: int) -> MachineState {
    MachineState { routines: s.routines.update(r, RoutineState { pc, ..s.routines[r] }), ..s }
}

/// Program counter after the instruction at `pc` of a routine of `len`
/// instructions: past the next one when it is skipped, never past the end.
pub open spec fn skip_target(pc: int, len: int, skip: bool) -> int {
    if skip && pc + 1 < len {
        pc + 2
    } else {
        pc + 1
    }
}

/// Boundary handling of routine `r` after it executed an instruction: a called
/// instance wraps to 0, the root instance leaves the stack.
pub open spec fn boundary(s: MachineState, r: int) -> MachineState {
    if s.routines[r].pc >= s.routines[r].code.len() {
        if s.stack.len() > 1 {
            set_pc(s, r, 0)
        } else {
            MachineState { stack: s.stack.drop_last(), ..s }
        }
    } else {
        s
    }
}

/// One step of the machine: the new state and what the step emitted.
pub open spec fn step_spec(s: MachineState) -> (MachineState, Result<Option<u32>, VmError>)
    decreases MAX_CALL_DEPTH - s.stack.len(),
{
    if s.stack.len() == 0 || s.stack.len() > MAX_CALL_DEPTH {
        (s, Ok(None))
    } else {
        let cur = s.stack.last();
        let r = s.routines[cur];
        if r.code.len() == 0 {
            (s, Ok(None))
        } else if r.pc >= r.code.len() {
            (halted(s), Err(VmError::ProgramCounterOutOfRange { routine: cur as usize }))
        } else {
            let inst = r.code[r.pc];
            let s1 = set_pc(s, cur, r.pc + 1);
            match inst {
                Inst::Call(x) => if !(0 <= x < s.routines.len()) {
                    (halted(s1), Err(VmError::InvalidRoutineIndex { index: x }))
                } else if s.stack.len() >= MAX_CALL_DEPTH {
                    (halted(s1), Err(VmError::CallDepthExceeded { depth: s.stack.len() as usize }))
                } else {
                    let (s2, res) = step_spec(MachineState { stack: s1.stack.push(x as int), ..s1 });
                    match res {
                        Ok(out) => (boundary(MachineState { stack: s2.stack.drop_last(), ..s2 }, cur), Ok(out)),
                        Err(e) => (s2, Err(e)),
                    }
                },
                _ => match instr_effect(s1.mem, inst) {
                    Ok((mem, skip, out)) => (
                        boundary(
                            set_pc(MachineState { mem, ..s1 }, cur, skip_target(r.pc, r.code.len() as int, skip)),
                            cur,
                        ),
                        Ok(out),
                    ),
                    Err(e) => (halted(s1), Err(e)),
                },
            }
        }
    }
}

pub open spec fn state_wf(s: MachineState) -> bool {
    &&& s.mem.len() == MEMORY_SIZE
    &&& s.stack.len() <= MAX_CALL_DEPTH
    &&& forall|i: int| 0 <= i < s.stack.len() ==> 0 <= #[trigger] s.stack[i] < s.routines.len()
}

/// A step keeps the routine table's code and the machine's well-formedness;
/// a failed step halts the machine with memory untouched, and a successful
/// step of a called instance leaves the call stack as it was.
pub proof fn lemma_step_frame(s: MachineState)
    requires
        state_wf(s),
    ensures
        ({
            let (t, r) = step_spec(s);
            &&& state_wf(t)
            &&& t.routines.len() == s.routines.len()
            &&& forall|i: int| 0 <= i < s.routines.len() ==> #[trigger] t.routines[i].code == s.routines[i].code
            &&& r is Err ==> t.stack.len() == 0 && t.mem == s.mem
            &&& r is Ok && s.stack.len() > 1 ==> t.stack == s.stack
            &&& r is Ok && s.stack.len() <= 1 ==> t.stack == s.stack || t.stack.len() == 0
        }),
    decreases MAX_CALL_DEPTH - s.stack.len(),
{
    if s.stack.len() == 0 || s.stack.len() > MAX_CALL_DEPTH {
    } else {
        let cur = s.stack.last();
        let r = s.routines[cur];
        if r.code.len() == 0 {
        } else if r.pc >= r.code.len() {
        } else {
            let inst = r.code[r.pc];
            let s1 = set_pc(s, cur, r.pc + 1);
            match inst {
                Inst::Call(x) => {
                    if 0 <= x < s.routines.len() && s.stack.len() < MAX_CALL_DEPTH {
                        let pushed = MachineState { stack: s1.stack.push(x as int), ..s1 };
                        assert(state_wf(pushed)) by {
                            assert forall|i: int| 0 <= i < pushed.stack.len() implies 0 <= #[trigger] pushed.stack[i] < pushed.routines.len() by {
                                if i < s.stack.len() {
                                    assert(pushed.stack[i] == s.stack[i]);
                                }
                            }
                        }
                        lemma_step_frame(pushed);
                        let (s2, res) = step_spec(pushed);
                        if res is Ok {
                            assert(s2.stack.drop_last() =~= s.stack);
                        }
                    }
                },
                _ => {},
            }
        }
    }
}

/// The scalar values behind an emitted character.
pub open spec fn outcome(r: Result<Option<char>, VmError>) -> Result<Option<u32>, VmError> {
    match r {
        Ok(Some(c)) => Ok(Some(c as u32)),
        Ok(None) => Ok(None),
        Err(e) => Err(e),
    }
}

/// Relies on char::from_u32: `Some` exactly for Unicode scalar values, holding that value.
#[verifier::external_body]
fn scalar_char(v: u32) -> (r: Option<char>)
    ensures
        r is Some <==> is_scalar_value(v as int),
        r matches Some(c) ==> c as u32 == v,
{
    char::from_u32(v)
}

fn resolve_direct(mem: &Vec<i32>, x: i32) -> (r: Result<usize, VmError>)
    ensures
        match r {
            Ok(a) => direct(mem@, x) == Ok::<int, VmError>(a as int),
            Err(e) => direct(mem@, x) == Err::<int, VmError>(e),
        },
{
    if 0 <= x && (x as usize) < mem.len() {
        Ok(x as usize)
    } else {
        Err(VmError::InvalidAddress { address: x })
    }
}

fn resolve_indirect(mem: &Vec<i32>, x: i32) -> (r: Result<usize, VmError>)
    ensures
        match r {
            Ok(a) => indirect(mem@, x) == Ok::<int, VmError>(a as int),
            Err(e) => indirect(mem@, x) == Err::<int, VmError>(e),
        },
{
    let p = resolve_direct(mem, x)?;
    resolve_direct(mem, mem[p])
}

/// Applies an instruction other than `Call` to memory. On failure memory is
/// left as it was.
fn execute(mem: &mut Vec<i32>, inst: Inst) -> (r: Result<(bool, Option<char>), VmError>)
    requires
        old(mem)@.len() > 0,
        !(inst is Call),
    ensures
        match instr_effect(old(mem)@, inst) {
            Ok((m, skip, out)) => {
                &&& final(mem)@ == m
                &&& r is Ok
                &&& r->Ok_0.0 == skip
                &&& outcome(Ok(r->Ok_0.1)) == Ok::<Option<u32>, VmError>(out)
            },
            Err(e) => final(mem)@ == old(mem)@ && r == Err::<(bool, Option<char>), VmError>(e),
        },
{
    match inst {
        Inst::Increment(x) => {
            let a = resolve_direct(mem, x)?;
            let v = mem[a].wrapping_add(1);
            mem.set(a, v);
        },
        Inst::Decrement(x) => {
            let a = resolve_direct(mem, x)?;
            let v = mem[a].wrapping_sub(1);
            mem.set(a, v);
        },
        Inst::IndirectIncrement(x) => {
            let a = resolve_indirect(mem, x)?;
            let v = mem[a].wrapping_add(1);
            mem.set(a, v);
        },
        Inst::IndirectDecrement(x) => {
            let a = resolve_indirect(mem, x)?;
            let v = mem[a].wrapping_sub(1);
            mem.set(a, v);
        },
        Inst::ToZero(x) => {
            let a = resolve_direct(mem, x)?;
            let v = mem[a];
            mem.set(0, v);
        },
        Inst::FromZero(x) => {
            let a = resolve_direct(mem, x)?;
            let v = mem[0];
            mem.set(a, v);
        },
        Inst::ToZeroIndirect(x) => {
            let a = resolve_indirect(mem, x)?;
            let v = mem[a];
            mem.set(0, v);
        },
        Inst::FromZeroIndirect(x) => {
            let a = resolve_indirect(mem, x)?;
            let v = mem[0];
            mem.set(a, v);
        },
        Inst::SetZero(k) => {
            mem.set(0, k);
        },
        Inst::Print(x) => {
            let a = resolve_direct(mem, x)?;
            let v = mem[a];
            if v < 0 {
                return Err(VmError::InvalidPrintValue { value: v });
            }
            match scalar_char(v as u32) {
                Some(c) => {
                    return Ok((false, Some(c)));
                },
                None => {
                    return Err(VmError::InvalidPrintValue { value: v });
                },
            }
        },
        Inst::Call(_) => {},
        Inst::SkipIfZero(x) => {
            let a = resolve_direct(mem, x)?;
            return Ok((mem[a] == 0, None));
        },
        Inst::SkipIfNonZero(x) => {
            let a = resolve_direct(mem, x)?;
            return Ok((mem[a] != 0, None));
        },
    }
    Ok((false, None))
}

/// A routine instance: code shared among instances, and a private program counter.
#[derive(Clone, Debug)]
pub struct Func {
    code: Rc<Vec<Inst>>,
    pc: usize,
}

impl View for Func {
    type V = RoutineState;

    closed spec fn view(&self) -> RoutineState {
        RoutineState { code: self.code@, pc: self.pc as int }
    }
}

impl Default for Func {
    fn default() -> (r: Func)
        ensures
            r@ == (RoutineState { code: Seq::empty(), pc: 0 }),
    {
        Func { code: Rc::new(Vec::new()), pc: 0 }
    }
}

impl Func {
    /// An instance of `code` with its program counter at 0.
    pub fn new(code: Vec<Inst>) -> (r: Func)
        ensures
            r@ == (RoutineState { code: code@, pc: 0 }),
    {
        Func { code: Rc::new(code), pc: 0 }
    }

    /// Appends an instruction to the code, copying the code first when
    /// another instance shares it.
    pub fn push(&mut self, inst: Inst)
        ensures
            final(self)@ == (RoutineState { code: old(self)@.code.push(inst), pc: old(self)@.pc }),
    {
        let ghost old_code = self.code@;
        let mut code = Rc::new(Vec::new());
        std::mem::swap(&mut code, &mut self.code);
        assert(code@ == old_code);
        let mut v: Vec<Inst> = match Rc::try_unwrap(code) {
            Ok(v) => v,
            Err(shared) => {
                let src: &Vec<Inst> = &*shared;
                let mut copy: Vec<Inst> = Vec::new();
                let mut i: usize = 0;
                while i < src.len()
                    invariant
                        i <= src@.len(),
                        copy@ == src@.subrange(0, i as int),
                    decreases src@.len() - i,
                {
                    copy.push(src[i]);
                    i += 1;
                }
                assert(copy@ =~= src@);
                copy
            },
        };
        v.push(inst);
        self.code = Rc::new(v);
    }

    /// An instance of shared code with its program counter at 0.
    pub(crate) fn of_shared(code: Rc<Vec<Inst>>) -> (r: Func)
        ensures
            r@ == (RoutineState { code: code@, pc: 0 }),
    {
        Func { code, pc: 0 }
    }

    /// Number of instructions.
    pub fn len(&self) -> (r: usize)
        ensures
            r == self@.code.len(),
    {
        self.code.len()
    }

    /// Current program counter.
    pub fn pc(&self) -> (r: usize)
        ensures
            r == self@.pc,
    {
        self.pc
    }

    /// The instruction at `i`, if there is one.
    pub fn instruction(&self, i: usize) -> (r: Option<Inst>)
        ensures
            r == (if i < self@.code.len() { Some(self@.code[i as int]) } else { None::<Inst> }),
    {
        if i < self.code.len() {
            Some(self.code[i])
        } else {
            None
        }
    }
}

/// The machine: memory, the routine-instance table and the call stack.
#[derive(Debug)]
pub struct Global {
    mem: Vec<i32>,
    funcs: Vec<Func>,
    func_stack: Vec<usize>,
}

impl View for Global {
    type V = MachineState;

    closed spec fn view(&self) -> MachineState {
        MachineState {
            mem: self.mem@,
            routines: self.funcs@.map_values(|f: Func| f@),
            stack: self.func_stack@.map_values(|i: usize| i as int),
        }
    }
}

pub open spec fn zeroed_memory() -> Seq<i32> {
    Seq::new(MEMORY_SIZE as nat, |i: int| 0i32)
}

fn zeroed_cells() -> (r: Vec<i32>)
    ensures
        r@ == zeroed_memory(),
{
    let mut mem: Vec<i32> = Vec::new();
    let mut i: usize = 0;
    while i < MEMORY_SIZE
        invariant
            i <= MEMORY_SIZE,
            mem@ == Seq::new(i as nat, |j: int| 0i32),
        decreases MEMORY_SIZE - i,
    {
        mem.push(0);
        i += 1;
        assert(mem@ =~= Seq::new(i as nat, |j: int| 0i32));
    }
    mem
}

impl Default for Global {
    /// A machine with zeroed memory, no routines and an empty call stack.
    fn default() -> (r: Global)
        ensures
            r.wf(),
            r@ == (MachineState {
                mem: zeroed_memory(),
                routines: Seq::empty(),
                stack: Seq::empty(),
            }),
    {
        let r = Global { mem: zeroed_cells(), funcs: Vec::new(), func_stack: Vec::new() };
        assert(r@.routines =~= Seq::empty());
        assert(r@.stack =~= Seq::empty());
        r
    }
}

impl Global {
    pub open spec fn wf(&self) -> bool {
        state_wf(self@)
    }

    /// A machine with zeroed memory, the given routine instances, and
    /// instance `root` as the sole call-stack entry; `None` when `root` names
    /// no instance.
    pub fn with_program(funcs: Vec<Func>, root: usize) -> (r: Option<Global>)
        ensures
            r is Some <==> root < funcs@.len(),
            r matches Some(g) ==> g.wf() && g@ == (MachineState {
                mem: zeroed_memory(),
                routines: funcs@.map_values(|f: Func| f@),
                stack: seq![root as int],
            }),
    {
        if root >= funcs.len() {
            return None;
        }
        let mut stack: Vec<usize> = Vec::new();
        stack.push(root);
        let g = Global { mem: zeroed_cells(), funcs, func_stack: stack };
        assert(g@.stack =~= seq![root as int]);
        Some(g)
    }

    /// Memory, cell by cell.
    pub fn memory(&self) -> (r: &Vec<i32>)
        ensures
            r@ == self@.mem,
    {
        &self.mem
    }

    /// Writes `value` into cell `address`; `false`, and nothing written, when
    /// the address lies outside memory.
    pub fn store(&mut self, address: usize, value: i32) -> (r: bool)
        requires
            old(self).wf(),
        ensures
            final(self).wf(),
            r == (address < MEMORY_SIZE),
            final(self)@ == (MachineState {
                mem: if r { old(self)@.mem.update(address as int, value) } else { old(self)@.mem },
                ..old(self)@
            }),
    {
        if address < self.mem.len() {
            self.mem.set(address, value);
            true
        } else {
            false
        }
    }

    /// Whether the call stack is non-empty.
    pub fn is_running(&self) -> (r: bool)
        ensures
            r == (self@.stack.len() > 0),
    {
        self.func_stack.len() > 0
    }

    /// Number of call-stack entries.
    pub fn depth(&self) -> (r: usize)
        ensures
            r == self@.stack.len(),
    {
        self.func_stack.len()
    }

    /// Number of routine instances.
    pub fn routine_count(&self) -> (r: usize)
        ensures
            r == self@.routines.len(),
    {
        self.funcs.len()
    }

    /// Program counter of routine instance `routine`, if it exists.
    pub fn pc_of(&self, routine: usize) -> (r: Option<usize>)
        ensures
            r == (if routine < self@.routines.len() {
                Some(self@.routines[routine as int].pc as usize)
            } else {
                None::<usize>
            }),
    {
        if routine < self.funcs.len() {
            Some(self.funcs[routine].pc)
        } else {
            None
        }
    }

    /// Executes one instruction of the instance on top of the call stack,
    /// following calls one instruction deep into each callee, and returns the
    /// character that a `Print` emitted. Does nothing on a halted machine or
    /// when the top instance has no code. A fatal condition empties the call
    /// stack and leaves memory as the step found it.
    pub fn step(&mut self) -> (r: Result<Option<char>, VmError>)
        requires
            old(self).wf(),
        ensures
            final(self).wf(),
            step_spec(old(self)@) == (final(self)@, outcome(r)),
        decreases MAX_CALL_DEPTH - old(self)@.stack.len(),
    {
        let depth = self.func_stack.len();
        if depth == 0 {
            return Ok(None);
        }
        let cur = self.func_stack[depth - 1];
        assert(self@.stack[depth - 1] == cur as int);
        let len = self.funcs[cur].code.len();
        if len == 0 {
            return Ok(None);
        }
        let pc = self.funcs[cur].pc;
        if pc >= len {
            self.func_stack.clear();
            assert(self@.stack =~= Seq::empty());
            return Err(VmError::ProgramCounterOutOfRange { routine: cur });
        }
        let inst = self.funcs[cur].code[pc];
        let ghost s0 = self@;
        self.funcs[cur].pc = pc + 1;
        assert(self@.routines =~= set_pc(s0, cur as int, pc + 1).routines);
        let out: Option<char>;
        match inst {
            Inst::Call(x) => {
                if x < 0 || x as usize >= self.funcs.len() {
                    self.func_stack.clear();
                    assert(self@.stack =~= Seq::empty());
                    return Err(VmError::InvalidRoutineIndex { index: x });
                }
                if depth >= MAX_CALL_DEPTH {
                    self.func_stack.clear();
                    assert(self@.stack =~= Seq::empty());
                    return Err(VmError::CallDepthExceeded { depth });
                }
                self.func_stack.push(x as usize);
                assert(self@.stack =~= s0.stack.push(x as int));
                match self.step() {
                    Ok(o) => {
                        out = o;
                    },
                    Err(e) => {
                        return Err(e);
                    },
                }
                let ghost s2 = self@;
                proof {
                    lemma_step_frame(MachineState { stack: s0.stack.push(x as int), ..set_pc(s0, cur as int, pc + 1) });
                }
                self.func_stack.pop();
                assert(self@.stack =~= s2.stack.drop_last());
            },
            _ => {
                match execute(&mut self.mem, inst) {
                    Ok((skip, o)) => {
                        if skip && pc + 1 < len {
                            let ghost s_before = self@;
                            self.funcs[cur].pc = pc + 2;
                            assert(self@.routines =~= set_pc(s_before, cur as int, pc + 2).routines);
                        }
                        out = o;
                        let ghost tgt = skip_target(pc as int, len as int, skip);
                        assert(self@.routines =~= set_pc(self@, cur as int, tgt).routines);
                    },
                    Err(e) => {
                        self.func_stack.clear();
                        assert(self@.stack =~= Seq::empty());
                        return Err(e);
                    },
                }
            },
        }
        let ghost s3 = self@;
        if self.funcs[cur].pc >= self.funcs[cur].code.len() {
            if self.func_stack.len() > 1 {
                self.funcs[cur].pc = 0;
                assert(self@.routines =~= set_pc(s3, cur as int, 0).routines);
            } else {
                self.func_stack.pop();
                assert(self@.stack =~= s3.stack.drop_last());
            }
        }
        Ok(out)
    }
}

} // verus!
