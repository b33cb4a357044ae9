use polkavm::operation::{div, divu, mulh, mulhsu, mulhu, rem, remu, wrapping_add};
use polkavm::program::{BinOp, Condition};

const MINUS_ONE: u32 = 0xffff_ffff;
const INT_MIN: u32 = 0x8000_0000;

fn neg(x: i32) -> u32 {
    x as u32
}

#[test]
fn unsigned_division_by_zero() {
    assert_eq!(divu(7, 0), u32::MAX);
    assert_eq!(divu(0, 0), u32::MAX);
    assert_eq!(remu(7, 0), 7);
    assert_eq!(remu(0, 0), 0);
}

#[test]
fn unsigned_division() {
    assert_eq!(divu(7, 2), 3);
    assert_eq!(remu(7, 2), 1);
    assert_eq!(divu(u32::MAX, 1), u32::MAX);
    assert_eq!(remu(u32::MAX, 0x10), 0xf);
}

#[test]
fn signed_division_by_zero() {
    assert_eq!(div(5, 0), MINUS_ONE);
    assert_eq!(div(neg(-5), 0), MINUS_ONE);
    assert_eq!(rem(5, 0), 5);
    assert_eq!(rem(neg(-5), 0), neg(-5));
}

#[test]
fn signed_division_overflow() {
    assert_eq!(div(INT_MIN, MINUS_ONE), INT_MIN);
    assert_eq!(rem(INT_MIN, MINUS_ONE), 0);
}

#[test]
fn signed_division_rounds_toward_zero() {
    assert_eq!(div(neg(-7), 2), neg(-3));
    assert_eq!(div(7, neg(-2)), neg(-3));
    assert_eq!(div(neg(-7), neg(-2)), 3);
    assert_eq!(div(7, 2), 3);
    assert_eq!(div(INT_MIN, 2), neg(-0x4000_0000));
    assert_eq!(div(INT_MIN, 1), INT_MIN);
}

#[test]
fn signed_remainder_takes_sign_of_dividend() {
    assert_eq!(rem(neg(-7), 2), neg(-1));
    assert_eq!(rem(7, neg(-2)), 1);
    assert_eq!(rem(neg(-7), neg(-2)), neg(-1));
    assert_eq!(rem(INT_MIN, 3), neg(-2));
}

#[test]
fn upper_multiplication() {
    assert_eq!(mulhu(0xffff_ffff, 0xffff_ffff), 0xffff_fffe);
    assert_eq!(mulhu(0x10000, 0x10000), 1);
    assert_eq!(mulh(MINUS_ONE, MINUS_ONE), 0);
    assert_eq!(mulh(INT_MIN, INT_MIN), 0x4000_0000);
    assert_eq!(mulh(neg(-2), 3), MINUS_ONE);
    assert_eq!(mulhsu(MINUS_ONE, 0xffff_ffff), MINUS_ONE);
    assert_eq!(mulhsu(2, INT_MIN), 1);
    assert_eq!(mulhsu(INT_MIN, 0xffff_ffff), neg(-0x8000_0000));
}

#[test]
fn wrapping_addition() {
    assert_eq!(wrapping_add(0xffff_ffff, 2), 1);
    assert_eq!(wrapping_add(3, 4), 7);
}

#[test]
fn register_operations() {
    assert_eq!(BinOp::Add.evaluate(0xffff_ffff, 2), 1);
    assert_eq!(BinOp::Sub.evaluate(0, 1), 0xffff_ffff);
    assert_eq!(BinOp::Mul.evaluate(0x10000, 0x10000), 0);
    assert_eq!(BinOp::Mul.evaluate(0xffff_ffff, 3), 0xffff_fffd);
    assert_eq!(BinOp::DivSigned.evaluate(INT_MIN, MINUS_ONE), INT_MIN);
    assert_eq!(BinOp::RemUnsigned.evaluate(9, 0), 9);
    assert_eq!(BinOp::And.evaluate(0b1100, 0b1010), 0b1000);
    assert_eq!(BinOp::Or.evaluate(0b1100, 0b1010), 0b1110);
    assert_eq!(BinOp::Xor.evaluate(0b1100, 0b1010), 0b0110);
    assert_eq!(BinOp::MulUpperUnsignedUnsigned.evaluate(0xffff_ffff, 2), 1);
    assert_eq!(BinOp::MulUpperSignedSigned.evaluate(MINUS_ONE, 2), MINUS_ONE);
    assert_eq!(BinOp::MulUpperSignedUnsigned.evaluate(MINUS_ONE, 2), MINUS_ONE);
}

#[test]
fn shifts_use_low_five_bits() {
    assert_eq!(BinOp::ShiftLogicalLeft.evaluate(1, 33), 2);
    assert_eq!(BinOp::ShiftLogicalLeft.evaluate(0x8000_0001, 1), 2);
    assert_eq!(BinOp::ShiftLogicalRight.evaluate(0x8000_0000, 4), 0x0800_0000);
    assert_eq!(BinOp::ShiftLogicalRight.evaluate(0x8000_0000, 36), 0x0800_0000);
    assert_eq!(BinOp::ShiftArithmeticRight.evaluate(0x8000_0000, 4), 0xf800_0000);
    assert_eq!(BinOp::ShiftArithmeticRight.evaluate(0x4000_0000, 4), 0x0400_0000);
    assert_eq!(BinOp::ShiftArithmeticRight.evaluate(0xffff_fff0, 32), 0xffff_fff0);
}

#[test]
fn comparisons_and_conditional_moves() {
    assert_eq!(BinOp::SetLessThanSigned.evaluate(MINUS_ONE, 0), 1);
    assert_eq!(BinOp::SetLessThanUnsigned.evaluate(MINUS_ONE, 0), 0);
    assert_eq!(BinOp::SetGreaterThanSigned.evaluate(1, MINUS_ONE), 1);
    assert_eq!(BinOp::SetGreaterThanUnsigned.evaluate(1, MINUS_ONE), 0);
    assert_eq!(BinOp::SetLessThanSigned.evaluate(3, 3), 0);
    assert_eq!(BinOp::CmovIfZero.evaluate(5, 0), 5);
    assert_eq!(BinOp::CmovIfZero.evaluate(5, 1), 0);
    assert_eq!(BinOp::CmovIfNotZero.evaluate(5, 1), 5);
    assert_eq!(BinOp::CmovIfNotZero.evaluate(5, 0), 0);
}

#[test]
fn branch_conditions() {
    assert!(Condition::Eq.holds(4, 4));
    assert!(!Condition::NotEq.holds(4, 4));
    assert!(Condition::LessSigned.holds(MINUS_ONE, 0));
    assert!(!Condition::LessUnsigned.holds(MINUS_ONE, 0));
    assert!(Condition::LessOrEqualUnsigned.holds(3, 3));
    assert!(Condition::LessOrEqualSigned.holds(INT_MIN, MINUS_ONE));
    assert!(Condition::GreaterSigned.holds(0, INT_MIN));
    assert!(Condition::GreaterUnsigned.holds(INT_MIN, 0));
    assert!(!Condition::GreaterOrEqualSigned.holds(INT_MIN, 0));
    assert!(Condition::GreaterOrEqualUnsigned.holds(INT_MIN, 0));
}
