//! The arithmetic of the guest's register operations, on 32-bit patterns.

use vstd::arithmetic::div_mod::{
    lemma_fundamental_div_mod, lemma_fundamental_div_mod_converse_div,
};
use vstd::prelude::*;

verus! {

/// 2 to the 32nd power: the number of distinct register values.
pub open spec fn modulus() -> int {
    0x1_0000_0000
}

/// The register value whose mathematical value is `x` modulo 2^32.
pub open spec fn wrap32(x: int) -> u32 {
    (x % modulus()) as u32
}

/// The two's-complement reading of a register value.
pub open spec fn signed(x: u32) -> int {
    if x < 0x8000_0000 {
        x as int
    } else {
        x - modulus()
    }
}

pub open spec fn abs(x: int) -> int {
    if x < 0 {
        -x
    } else {
        x
    }
}

/// Integer division rounding toward zero.
pub open spec fn trunc_div(x: int, y: int) -> int {
    if (x < 0) == (y < 0) {
        abs(x) / abs(y)
    } else {
        -(abs(x) / abs(y))
    }
}

/// The remainder of `trunc_div`: it takes the sign of the dividend.
pub open spec fn trunc_rem(x: int, y: int) -> int {
    if x < 0 {
        -(abs(x) % abs(y))
    } else {
        abs(x) % abs(y)
    }
}

/// Unsigned division; division by zero gives all ones.
pub open spec fn spec_divu(lhs: u32, rhs: u32) -> u32 {
    if rhs == 0 {
        u32::MAX
    } else {
        lhs / rhs
    }
}

/// Unsigned remainder; the remainder by zero is the dividend.
pub open spec fn spec_remu(lhs: u32, rhs: u32) -> u32 {
    if rhs == 0 {
        lhs
    } else {
        lhs % rhs
    }
}

/// Signed division: by zero it gives -1, and the one overflowing case,
/// the smallest value divided by -1, gives the smallest value.
pub open spec fn spec_div(lhs: u32, rhs: u32) -> u32 {
    if rhs == 0 {
        u32::MAX
    } else if lhs == 0x8000_0000 && rhs == u32::MAX {
        0x8000_0000
    } else {
        wrap32(trunc_div(signed(lhs), signed(rhs)))
    }
}

/// Signed remainder: by zero it is the dividend, and in the overflowing case it is zero.
pub open spec fn spec_rem(lhs: u32, rhs: u32) -> u32 {
    if rhs == 0 {
        lhs
    } else if lhs == 0x8000_0000 && rhs == u32::MAX {
        0
    } else {
        wrap32(trunc_rem(signed(lhs), signed(rhs)))
    }
}

/// The upper 32 bits of the 64-bit product, both operands unsigned.
pub open spec fn spec_mulhu(lhs: u32, rhs: u32) -> u32 {
    wrap32((lhs * rhs) / modulus())
}

/// The upper 32 bits of the 64-bit product, both operands signed.
pub open spec fn spec_mulh(lhs: u32, rhs: u32) -> u32 {
    wrap32((signed(lhs) * signed(rhs)) / modulus())
}

/// The upper 32 bits of the 64-bit product, the left operand signed and the right one unsigned.
pub open spec fn spec_mulhsu(lhs: u32, rhs: u32) -> u32 {
    wrap32((signed(lhs) * rhs) / modulus())
}

/// A value in register range is its own wrap.
pub proof fn lemma_wrap32_in_range(x: int)
    requires
        0 <= x < modulus(),
    ensures
        wrap32(x) == x,
{
    vstd::arithmetic::div_mod::lemma_small_mod(x as nat, modulus() as nat);
}

/// A negative value down to -2^32 wraps to itself plus 2^32.
pub proof fn lemma_wrap32_negative(x: int)
    requires
        -modulus() <= x < 0,
    ensures
        wrap32(x) == x + modulus(),
{
    lemma_fundamental_div_mod_converse_div(x, modulus(), -1, x + modulus());
    lemma_fundamental_div_mod(x, modulus());
}

/// The magnitude of the signed reading of `x`.
fn magnitude(x: u32) -> (r: u32)
    ensures
        r as int == abs(signed(x)),
{
    if x >= 0x8000_0000 {
        (0x1_0000_0000u64 - x as u64) as u32
    } else {
        x
    }
}

/// Two's-complement negation.
fn negate(x: u32) -> (r: u32)
    ensures
        r == wrap32(-(x as int)),
{
    if x == 0 {
        0
    } else {
        proof {
            lemma_fundamental_div_mod_converse_div(-(x as int), modulus(), -1, modulus() - x);
            lemma_fundamental_div_mod(-(x as int), modulus());
        }
        (0x1_0000_0000u64 - x as u64) as u32
    }
}

/// Addition modulo 2^32.
pub fn wrapping_add(lhs: u32, rhs: u32) -> (r: u32)
    ensures
        r == wrap32(lhs + rhs),
{
    proof {
        lemma_fundamental_div_mod(lhs + rhs, modulus());
    }
    lhs.wrapping_add(rhs)
}

pub fn divu(lhs: u32, rhs: u32) -> (r: u32)
    ensures
        r == spec_divu(lhs, rhs),
{
    if rhs == 0 {
        u32::MAX
    } else {
        lhs / rhs
    }
}

pub fn remu(lhs: u32, rhs: u32) -> (r: u32)
    ensures
        r == spec_remu(lhs, rhs),
{
    if rhs == 0 {
        lhs
    } else {
        lhs % rhs
    }
}

pub fn div(lhs: u32, rhs: u32) -> (r: u32)
    ensures
        r == spec_div(lhs, rhs),
{
    if rhs == 0 {
        u32::MAX
    } else if lhs == 0x8000_0000 && rhs == u32::MAX {
        lhs
    } else {
        let quotient = magnitude(lhs) / magnitude(rhs);
        if (lhs >= 0x8000_0000) != (rhs >= 0x8000_0000) {
            negate(quotient)
        } else {
            proof {
                assert(quotient < 0x8000_0000) by (nonlinear_arith)
                    requires
                        quotient == abs(signed(lhs)) / abs(signed(rhs)),
                        abs(signed(lhs)) <= 0x8000_0000,
                        abs(signed(rhs)) >= 1,
                        abs(signed(lhs)) == 0x8000_0000 ==> abs(signed(rhs)) >= 2,
                ;
            }
            quotient
        }
    }
}

pub fn rem(lhs: u32, rhs: u32) -> (r: u32)
    ensures
        r == spec_rem(lhs, rhs),
{
    if rhs == 0 {
        lhs
    } else if lhs == 0x8000_0000 && rhs == u32::MAX {
        0
    } else {
        let remainder = magnitude(lhs) % magnitude(rhs);
        if lhs >= 0x8000_0000 {
            negate(remainder)
        } else {
            remainder
        }
    }
}

/// The floor of `p / 2^32`, as a register value.
fn upper_half(p: i128) -> (r: u32)
    requires
        -0x1_0000_0000_0000_0000 <= p < 0x1_0000_0000_0000_0000,
    ensures
        r == wrap32(p as int / modulus()),
{
    let biased: u128 = (p + 0x1_0000_0000_0000_0000i128) as u128;
    let q: u128 = biased / 0x1_0000_0000;
    proof {
        let pi = p as int;
        lemma_fundamental_div_mod(pi, modulus());
        lemma_fundamental_div_mod_converse_div(
            biased as int,
            modulus(),
            pi / modulus() + modulus(),
            pi % modulus(),
        );
        lemma_fundamental_div_mod(q as int, modulus());
        lemma_fundamental_div_mod_converse_div(
            pi / modulus(),
            modulus(),
            q as int / modulus() - 1,
            q as int % modulus(),
        );
        lemma_fundamental_div_mod(pi / modulus(), modulus());
    }
    (q % 0x1_0000_0000) as u32
}

fn signed_wide(x: u32) -> (r: i128)
    ensures
        r == signed(x),
{
    if x >= 0x8000_0000 {
        x as i128 - 0x1_0000_0000
    } else {
        x as i128
    }
}

pub fn mulhu(lhs: u32, rhs: u32) -> (r: u32)
    ensures
        r == spec_mulhu(lhs, rhs),
{
    proof {
        assert(0 <= lhs * rhs < 0x1_0000_0000_0000_0000) by (nonlinear_arith)
            requires
                lhs < 0x1_0000_0000,
                rhs < 0x1_0000_0000,
        ;
    }
    upper_half(lhs as i128 * rhs as i128)
}

pub fn mulh(lhs: u32, rhs: u32) -> (r: u32)
    ensures
        r == spec_mulh(lhs, rhs),
{
    let a = signed_wide(lhs);
    let b = signed_wide(rhs);
    proof {
        assert(-0x1_0000_0000_0000_0000 <= a * b < 0x1_0000_0000_0000_0000) by (nonlinear_arith)
            requires
                -0x8000_0000 <= a < 0x8000_0000,
                -0x8000_0000 <= b < 0x8000_0000,
        ;
    }
    upper_half(a * b)
}

pub fn mulhsu(lhs: u32, rhs: u32) -> (r: u32)
    ensures
        r == spec_mulhsu(lhs, rhs),
{
    let a = signed_wide(lhs);
    proof {
        assert(-0x1_0000_0000_0000_0000 <= a * rhs < 0x1_0000_0000_0000_0000) by (nonlinear_arith)
            requires
                -0x8000_0000 <= a < 0x8000_0000,
                0 <= rhs < 0x1_0000_0000,
        ;
    }
    upper_half(a * rhs as i128)
}

} // verus!
