use vstd::prelude::*;

verus! {

/// One instruction of the machine. Each carries a single integer operand whose
/// meaning (literal, direct address, address of a cell holding an address, or
/// routine-instance index) depends on the opcode.
#[derive(Clone, Copy, Debug, PartialEq, Eq, Structural)]
pub enum Inst {
    /// `memory[x] += 1`
    Increment(i32),
    /// `memory[x] -= 1`
    Decrement(i32),
    /// `memory[memory[x]] += 1`
    IndirectIncrement(i32),
    /// `memory[memory[x]] -= 1`
    IndirectDecrement(i32),
    /// `memory[0] = memory[x]`
    ToZero(i32),
    /// `memory[x] = memory[0]`
    FromZero(i32),
    /// `memory[0] = memory[memory[x]]`
    ToZeroIndirect(i32),
    /// `memory[memory[x]] = memory[0]`
    FromZeroIndirect(i32),
    /// `memory[0] = x`
    SetZero(i32),
    /// Emit `memory[x]` as a Unicode scalar value.
    Print(i32),
    /// Advance routine instance `x` by one instruction.
    Call(i32),
    /// Skip the next instruction when `memory[x] == 0`.
    SkipIfZero(i32),
    /// Skip the next instruction when `memory[x] != 0`.
    SkipIfNonZero(i32),
}

} // verus!
