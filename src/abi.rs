//! Constants of the guest ABI and the guest's register set.

use vstd::prelude::*;

verus! {

/// The code address which, when a dynamic jump targets it, returns control to the host.
pub const VM_ADDR_RETURN_TO_HOST: u32 = 0xffff0000;

/// Code addresses visible to the guest are jump table indices scaled by this value.
pub const VM_CODE_ADDRESS_ALIGNMENT: u32 = 4;

/// Memory regions start at multiples of this value.
pub const VM_PAGE_SIZE: u32 = 0x1000;

/// The address at which a guest's data conventionally starts.
pub const VM_ADDR_USER_MEMORY: u32 = 0x00010000;

/// The number of guest registers.
pub const REG_COUNT: usize = 13;

/// A guest register.
#[derive(Clone, Copy, Debug, PartialEq, Eq, Structural)]
pub enum Reg {
    RA,
    SP,
    T0,
    T1,
    T2,
    S0,
    S1,
    A0,
    A1,
    A2,
    A3,
    A4,
    A5,
}

impl Reg {
    /// The position of the register in the register file.
    pub open spec fn spec_index(self) -> nat {
        match self {
            Reg::RA => 0,
            Reg::SP => 1,
            Reg::T0 => 2,
            Reg::T1 => 3,
            Reg::T2 => 4,
            Reg::S0 => 5,
            Reg::S1 => 6,
            Reg::A0 => 7,
            Reg::A1 => 8,
            Reg::A2 => 9,
            Reg::A3 => 10,
            Reg::A4 => 11,
            Reg::A5 => 12,
        }
    }

    /// The position of the register in the register file.
    pub fn index(self) -> (r: usize)
        ensures
            r == self.spec_index(),
            r < REG_COUNT,
    {
        match self {
            Reg::RA => 0,
            Reg::SP => 1,
            Reg::T0 => 2,
            Reg::T1 => 3,
            Reg::T2 => 4,
            Reg::S0 => 5,
            Reg::S1 => 6,
            Reg::A0 => 7,
            Reg::A1 => 8,
            Reg::A2 => 9,
            Reg::A3 => 10,
            Reg::A4 => 11,
            Reg::A5 => 12,
        }
    }
}

} // verus!
