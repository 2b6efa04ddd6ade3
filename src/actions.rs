//! The target-independent vocabulary of micro-operations.
use vstd::prelude::*;

verus! {

/// Operand width in bits.
pub type Bits = u8;

/// A generic, target-independent micro-operation. Every operation produces
/// exactly one output; operations are pure, so equal tags on equal inputs give
/// equal outputs.
#[derive(Copy, Clone, Debug, PartialEq, Eq, Structural)]
pub enum Generic {
    Store { input: Bits, mem_size: Bits },
    Load { out: Bits, mem_size: Bits },
    OverflowSigned,
    OverflowUnsigned,
    AddWithCarry(Bits),
    Add(Bits),
    AddWithCarryOverflowS(Bits),
    AddWithCarryOverflowU(Bits),
    AddOverflowS(Bits),
    AddOverflowU(Bits),
    AddFp(Bits),
    And(Bits),
    PackedAnd(Bits),
    ShiftLOverflow(Bits),
    /// Arithmetic shift right.
    ShiftArithR(Bits),
    ShiftArithRUnderflowS(Bits),
    /// Logical shift right.
    ShiftLogicalR(Bits),
    ShiftLogicalRUnderflowU(Bits),
    DivFp(Bits),
    MaxFp(Bits),
    MinFp(Bits),
    MulFp(Bits),
    SMul(Bits),
    UMul(Bits),
    Or(Bits),
    PackedOr(Bits),
    Xor(Bits),
    PackedXor(Bits),
    ShiftL(Bits),
    SqrtFp(Bits),
    SubWithCarry(Bits),
    Sub(Bits),
    SubWithCarryOverflowS(Bits),
    SubWithCarryOverflowU(Bits),
    SubOverflowS(Bits),
    SubOverflowU(Bits),
    SubFp(Bits),
    Move(Bits),
    IsZero,
    IsNonZero,
    LtZero,
    Clear,
    /// Result of a multiply, truncated.
    MulTrunc(Bits),
    Undefined(Bits),
}

} // verus!
