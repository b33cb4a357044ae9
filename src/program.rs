//! The decoded instruction set.

use crate::abi::Reg;
use crate::operation::{
    signed, spec_div, spec_divu, spec_mulh, spec_mulhsu, spec_mulhu, spec_rem, spec_remu, wrap32,
};
use vstd::prelude::*;

verus! {

/// An operand that is either a register or an immediate value.
#[derive(Clone, Copy, Debug, PartialEq, Eq, Structural)]
pub enum RegImm {
    Reg(Reg),
    Imm(u32),
}

/// A two-operand register operation.
#[derive(Clone, Copy, Debug, PartialEq, Eq, Structural)]
pub enum BinOp {
    Add,
    Sub,
    Mul,
    MulUpperSignedSigned,
    MulUpperUnsignedUnsigned,
    MulUpperSignedUnsigned,
    DivUnsigned,
    DivSigned,
    RemUnsigned,
    RemSigned,
    And,
    Or,
    Xor,
    ShiftLogicalLeft,
    ShiftLogicalRight,
    ShiftArithmeticRight,
    SetLessThanUnsigned,
    SetLessThanSigned,
    SetGreaterThanUnsigned,
    SetGreaterThanSigned,
    CmovIfZero,
    CmovIfNotZero,
}

/// The condition of a conditional branch.
#[derive(Clone, Copy, Debug, PartialEq, Eq, Structural)]
pub enum Condition {
    Eq,
    NotEq,
    LessUnsigned,
    LessSigned,
    LessOrEqualUnsigned,
    LessOrEqualSigned,
    GreaterUnsigned,
    GreaterSigned,
    GreaterOrEqualUnsigned,
    GreaterOrEqualSigned,
}

/// The width and signedness of a load.
#[derive(Clone, Copy, Debug, PartialEq, Eq, Structural)]
pub enum LoadKind {
    U8,
    I8,
    U16,
    I16,
    U32,
}

/// The width of a store.
#[derive(Clone, Copy, Debug, PartialEq, Eq, Structural)]
pub enum StoreKind {
    U8,
    U16,
    U32,
}

/// One decoded guest instruction.
#[derive(Clone, Copy, Debug, PartialEq, Eq, Structural)]
#[allow(inconsistent_fields)]
pub enum Instruction {
    /// Fails with a trap.
    Trap,
    /// Ends a straight-line block and enters the next one.
    Fallthrough,
    /// Calls the host with the given number.
    Ecalli { imm: u32 },
    /// `dst = op(lhs, rhs)`.
    Op { op: BinOp, dst: Reg, lhs: RegImm, rhs: RegImm },
    /// `dst = imm`.
    LoadImm { dst: Reg, imm: u32 },
    /// `dst = src`.
    MoveReg { dst: Reg, src: Reg },
    /// `dst = memory[base + offset]`.
    Load { kind: LoadKind, dst: Reg, base: Option<Reg>, offset: u32 },
    /// `memory[base + offset] = src`.
    Store { kind: StoreKind, src: RegImm, base: Option<Reg>, offset: u32 },
    /// Jumps to the basic block `target` if the condition holds, else enters the next block.
    Branch { cond: Condition, lhs: Reg, rhs: RegImm, target: u32 },
    /// Jumps to the basic block `target`.
    Jump { target: u32 },
    /// Jumps to the code address `base + offset`.
    JumpIndirect { base: Reg, offset: u32 },
    /// Writes the return address into `ra` and jumps to the basic block `target`.
    Call { ra: Reg, target: u32 },
    /// Writes the return address into `ra` and jumps to the code address `base + offset`.
    CallIndirect { ra: Reg, base: Reg, offset: u32 },
}

impl Instruction {
    /// Whether the instruction transfers control (ends its basic block), fails
    /// unconditionally, or calls the host.
    pub open spec fn is_control(self) -> bool {
        match self {
            Instruction::Op { .. } | Instruction::LoadImm { .. } | Instruction::MoveReg { .. }
            | Instruction::Load { .. } | Instruction::Store { .. } => false,
            _ => true,
        }
    }
}

pub open spec fn bool_to_u32(b: bool) -> u32 {
    if b {
        1
    } else {
        0
    }
}

/// What a register operation computes from its two operand values.
pub open spec fn spec_binop(op: BinOp, a: u32, b: u32) -> u32 {
    match op {
        BinOp::Add => wrap32(a + b),
        BinOp::Sub => wrap32(a - b),
        BinOp::Mul => wrap32(a * b),
        BinOp::MulUpperSignedSigned => spec_mulh(a, b),
        BinOp::MulUpperUnsignedUnsigned => spec_mulhu(a, b),
        BinOp::MulUpperSignedUnsigned => spec_mulhsu(a, b),
        BinOp::DivUnsigned => spec_divu(a, b),
        BinOp::DivSigned => spec_div(a, b),
        BinOp::RemUnsigned => spec_remu(a, b),
        BinOp::RemSigned => spec_rem(a, b),
        BinOp::And => a & b,
        BinOp::Or => a | b,
        BinOp::Xor => a ^ b,
        BinOp::ShiftLogicalLeft => a << (b % 32),
        BinOp::ShiftLogicalRight => a >> (b % 32),
        BinOp::ShiftArithmeticRight => ((a as i32) >> (b % 32)) as u32,
        BinOp::SetLessThanUnsigned => bool_to_u32(a < b),
        BinOp::SetLessThanSigned => bool_to_u32(signed(a) < signed(b)),
        BinOp::SetGreaterThanUnsigned => bool_to_u32(a > b),
        BinOp::SetGreaterThanSigned => bool_to_u32(signed(a) > signed(b)),
        BinOp::CmovIfZero => if b == 0 {
            a
        } else {
            0
        },
        BinOp::CmovIfNotZero => if b != 0 {
            a
        } else {
            0
        },
    }
}

/// Whether a branch with this condition is taken on the two operand values.
pub open spec fn spec_condition(cond: Condition, a: u32, b: u32) -> bool {
    match cond {
        Condition::Eq => a == b,
        Condition::NotEq => a != b,
        Condition::LessUnsigned => a < b,
        Condition::LessSigned => signed(a) < signed(b),
        Condition::LessOrEqualUnsigned => a <= b,
        Condition::LessOrEqualSigned => signed(a) <= signed(b),
        Condition::GreaterUnsigned => a > b,
        Condition::GreaterSigned => signed(a) > signed(b),
        Condition::GreaterOrEqualUnsigned => a >= b,
        Condition::GreaterOrEqualSigned => signed(a) >= signed(b),
    }
}

/// Signed less-than on register values.
fn less_signed(a: u32, b: u32) -> (r: bool)
    ensures
        r == (signed(a) < signed(b)),
{
    let a_negative = a >= 0x8000_0000;
    let b_negative = b >= 0x8000_0000;
    if a_negative != b_negative {
        a_negative
    } else {
        a < b
    }
}

impl BinOp {
    /// Computes the operation on two operand values.
    pub fn evaluate(self, a: u32, b: u32) -> (r: u32)
        ensures
            r == spec_binop(self, a, b),
    {
        match self {
            BinOp::Add => crate::operation::wrapping_add(a, b),
            BinOp::Sub => {
                proof {
                    vstd::arithmetic::div_mod::lemma_fundamental_div_mod(a - b, 0x1_0000_0000);
                }
                a.wrapping_sub(b)
            },
            BinOp::Mul => a.wrapping_mul(b),
            BinOp::MulUpperSignedSigned => crate::operation::mulh(a, b),
            BinOp::MulUpperUnsignedUnsigned => crate::operation::mulhu(a, b),
            BinOp::MulUpperSignedUnsigned => crate::operation::mulhsu(a, b),
            BinOp::DivUnsigned => crate::operation::divu(a, b),
            BinOp::DivSigned => crate::operation::div(a, b),
            BinOp::RemUnsigned => crate::operation::remu(a, b),
            BinOp::RemSigned => crate::operation::rem(a, b),
            BinOp::And => a & b,
            BinOp::Or => a | b,
            BinOp::Xor => a ^ b,
            BinOp::ShiftLogicalLeft => a.wrapping_shl(b),
            BinOp::ShiftLogicalRight => a.wrapping_shr(b),
            BinOp::ShiftArithmeticRight => (a as i32).wrapping_shr(b) as u32,
            BinOp::SetLessThanUnsigned => if a < b {
                1
            } else {
                0
            },
            BinOp::SetLessThanSigned => if less_signed(a, b) {
                1
            } else {
                0
            },
            BinOp::SetGreaterThanUnsigned => if a > b {
                1
            } else {
                0
            },
            BinOp::SetGreaterThanSigned => if less_signed(b, a) {
                1
            } else {
                0
            },
            BinOp::CmovIfZero => if b == 0 {
                a
            } else {
                0
            },
            BinOp::CmovIfNotZero => if b != 0 {
                a
            } else {
                0
            },
        }
    }
}

impl Condition {
    /// Decides whether a branch with this condition is taken.
    pub fn holds(self, a: u32, b: u32) -> (r: bool)
        ensures
            r == spec_condition(self, a, b),
    {
        match self {
            Condition::Eq => a == b,
            Condition::NotEq => a != b,
            Condition::LessUnsigned => a < b,
            Condition::LessSigned => less_signed(a, b),
            Condition::LessOrEqualUnsigned => a <= b,
            Condition::LessOrEqualSigned => !less_signed(b, a),
            Condition::GreaterUnsigned => a > b,
            Condition::GreaterSigned => less_signed(b, a),
            Condition::GreaterOrEqualUnsigned => a >= b,
            Condition::GreaterOrEqualSigned => !less_signed(a, b),
        }
    }
}

} // verus!
