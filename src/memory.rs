//! The guest's address space: three regions, their bounds and their contents.

use crate::abi::{VM_ADDR_RETURN_TO_HOST, VM_PAGE_SIZE};
use crate::operation::{lemma_wrap32_negative, wrap32};
use crate::program::{LoadKind, StoreKind};
use vstd::prelude::*;

verus! {

/// One of the three memory regions.
#[derive(Clone, Copy, Debug, PartialEq, Eq, Structural)]
pub enum Region {
    ReadOnly,
    Heap,
    Stack,
}

/// Where the three regions lie in the 32-bit address space.
#[derive(Clone, Copy, Debug, PartialEq, Eq, Structural)]
pub struct MemoryConfig {
    pub ro_data_address: u32,
    pub ro_data_size: u32,
    pub heap_address: u32,
    pub heap_size: u32,
    pub stack_address: u32,
    pub stack_size: u32,
}

impl MemoryConfig {
    pub open spec fn start(self, r: Region) -> int {
        match r {
            Region::ReadOnly => self.ro_data_address as int,
            Region::Heap => self.heap_address as int,
            Region::Stack => self.stack_address as int,
        }
    }

    pub open spec fn size(self, r: Region) -> int {
        match r {
            Region::ReadOnly => self.ro_data_size as int,
            Region::Heap => self.heap_size as int,
            Region::Stack => self.stack_size as int,
        }
    }

    pub open spec fn end(self, r: Region) -> int {
        self.start(r) + self.size(r)
    }

    /// The half-open range of region `r` contains `address`.
    pub open spec fn contains(self, r: Region, address: int) -> bool {
        self.start(r) <= address < self.end(r)
    }

    /// The `length` bytes from `address` lie in region `r`, and `address` itself does.
    pub open spec fn within(self, r: Region, address: int, length: int) -> bool {
        self.contains(r, address) && address + length <= self.end(r)
    }

    /// The bytes `[address, address + length)` lie in one region.
    pub open spec fn readable(self, address: int, length: int) -> bool {
        ||| self.within(Region::ReadOnly, address, length)
        ||| self.within(Region::Heap, address, length)
        ||| self.within(Region::Stack, address, length)
    }

    /// The bytes `[address, address + length)` lie in the heap or in the stack.
    pub open spec fn writable(self, address: int, length: int) -> bool {
        ||| self.within(Region::Heap, address, length)
        ||| self.within(Region::Stack, address, length)
    }

    /// The region that contains `address`, if any.
    pub open spec fn region_of(self, address: int) -> Option<Region> {
        if self.contains(Region::ReadOnly, address) {
            Some(Region::ReadOnly)
        } else if self.contains(Region::Heap, address) {
            Some(Region::Heap)
        } else if self.contains(Region::Stack, address) {
            Some(Region::Stack)
        } else {
            None
        }
    }

    pub open spec fn region_is_valid(self, r: Region) -> bool {
        &&& self.end(r) <= 0x1_0000_0000
        &&& self.start(r) % (VM_PAGE_SIZE as int) == 0
        &&& !self.contains(r, VM_ADDR_RETURN_TO_HOST as int)
    }

    pub open spec fn disjoint(self, a: Region, b: Region) -> bool {
        self.end(a) <= self.start(b) || self.end(b) <= self.start(a)
    }

    /// Each region is page aligned, ends within the address space and leaves out
    /// the return-to-host address, and no two regions overlap.
    pub open spec fn is_valid(self) -> bool {
        &&& self.region_is_valid(Region::ReadOnly)
        &&& self.region_is_valid(Region::Heap)
        &&& self.region_is_valid(Region::Stack)
        &&& self.disjoint(Region::ReadOnly, Region::Heap)
        &&& self.disjoint(Region::ReadOnly, Region::Stack)
        &&& self.disjoint(Region::Heap, Region::Stack)
    }

    pub fn region_start(&self, r: Region) -> (s: u32)
        ensures
            s == self.start(r),
    {
        match r {
            Region::ReadOnly => self.ro_data_address,
            Region::Heap => self.heap_address,
            Region::Stack => self.stack_address,
        }
    }

    pub fn region_size(&self, r: Region) -> (s: u32)
        ensures
            s == self.size(r),
    {
        match r {
            Region::ReadOnly => self.ro_data_size,
            Region::Heap => self.heap_size,
            Region::Stack => self.stack_size,
        }
    }

    fn check_region(&self, r: Region) -> (ok: bool)
        ensures
            ok == self.region_is_valid(r),
    {
        let start = self.region_start(r) as u64;
        let end = start + self.region_size(r) as u64;
        let return_to_host = VM_ADDR_RETURN_TO_HOST as u64;
        end <= 0x1_0000_0000 && start % (VM_PAGE_SIZE as u64) == 0 && !(start <= return_to_host
            && return_to_host < end)
    }

    fn check_disjoint(&self, a: Region, b: Region) -> (ok: bool)
        ensures
            ok == self.disjoint(a, b),
    {
        let a_start = self.region_start(a) as u64;
        let b_start = self.region_start(b) as u64;
        a_start + self.region_size(a) as u64 <= b_start || b_start + self.region_size(b) as u64
            <= a_start
    }

    /// Checks that the layout is valid.
    pub fn check(&self) -> (ok: bool)
        ensures
            ok == self.is_valid(),
    {
        self.check_region(Region::ReadOnly) && self.check_region(Region::Heap)
            && self.check_region(Region::Stack) && self.check_disjoint(
            Region::ReadOnly,
            Region::Heap,
        ) && self.check_disjoint(Region::ReadOnly, Region::Stack) && self.check_disjoint(
            Region::Heap,
            Region::Stack,
        )
    }

    /// The region whose half-open range contains `address`, looked up in a fixed order.
    pub fn find_region(&self, address: u32) -> (r: Option<Region>)
        ensures
            r == self.region_of(address as int),
    {
        let a = address as u64;
        if self.ro_data_address as u64 <= a && a < self.ro_data_address as u64
            + self.ro_data_size as u64 {
            Some(Region::ReadOnly)
        } else if self.heap_address as u64 <= a && a < self.heap_address as u64
            + self.heap_size as u64 {
            Some(Region::Heap)
        } else if self.stack_address as u64 <= a && a < self.stack_address as u64
            + self.stack_size as u64 {
            Some(Region::Stack)
        } else {
            None
        }
    }
}

/// The contents of the three regions together with their layout.
pub struct MemoryView {
    pub config: MemoryConfig,
    pub ro_data: Seq<u8>,
    pub heap: Seq<u8>,
    pub stack: Seq<u8>,
}

impl MemoryView {
    /// Each buffer is as long as its region.
    pub open spec fn wf(self) -> bool {
        &&& self.config.is_valid()
        &&& self.ro_data.len() == self.config.ro_data_size
        &&& self.heap.len() == self.config.heap_size
        &&& self.stack.len() == self.config.stack_size
    }

    pub open spec fn buffer(self, r: Region) -> Seq<u8> {
        match r {
            Region::ReadOnly => self.ro_data,
            Region::Heap => self.heap,
            Region::Stack => self.stack,
        }
    }

    /// The `length` bytes at `address`, in the region that contains `address`.
    pub open spec fn read(self, address: int, length: int) -> Seq<u8> {
        match self.config.region_of(address) {
            Some(r) => {
                let offset = address - self.config.start(r);
                self.buffer(r).subrange(offset, offset + length)
            },
            None => Seq::empty(),
        }
    }

    /// The memory after `bytes` are written at `address`, in the region that contains it.
    pub open spec fn write(self, address: int, bytes: Seq<u8>) -> MemoryView {
        match self.config.region_of(address) {
            Some(Region::Heap) => MemoryView {
                heap: splice(self.heap, address - self.config.start(Region::Heap), bytes),
                ..self
            },
            Some(Region::Stack) => MemoryView {
                stack: splice(self.stack, address - self.config.start(Region::Stack), bytes),
                ..self
            },
            _ => self,
        }
    }
}

/// `s` with the elements from `at` on replaced by `bytes`.
pub open spec fn splice(s: Seq<u8>, at: int, bytes: Seq<u8>) -> Seq<u8> {
    s.subrange(0, at) + bytes + s.subrange(at + bytes.len(), s.len() as int)
}

/// In a valid layout an address lies in at most one region, so a range that lies
/// in some region lies in the one that `region_of` finds.
pub proof fn lemma_region_of_within(config: MemoryConfig, r: Region, address: int, length: int)
    requires
        config.is_valid(),
        config.within(r, address, length),
    ensures
        config.region_of(address) == Some(r),
{
}

/// Writing bytes and reading the same range back gives those bytes.
pub proof fn lemma_write_then_read(m: MemoryView, address: int, bytes: Seq<u8>)
    requires
        m.wf(),
        m.config.writable(address, bytes.len() as int),
    ensures
        m.write(address, bytes).wf(),
        m.write(address, bytes).read(address, bytes.len() as int) == bytes,
{
    let n = bytes.len() as int;
    if m.config.within(Region::Heap, address, n) {
        lemma_region_of_within(m.config, Region::Heap, address, n);
        let at = address - m.config.start(Region::Heap);
        assert(m.write(address, bytes).heap.subrange(at, at + n) =~= bytes);
    } else {
        lemma_region_of_within(m.config, Region::Stack, address, n);
        let at = address - m.config.start(Region::Stack);
        assert(m.write(address, bytes).stack.subrange(at, at + n) =~= bytes);
    }
}

/// How many bytes a load of this kind reads.
pub open spec fn load_width(kind: LoadKind) -> nat {
    match kind {
        LoadKind::U8 | LoadKind::I8 => 1,
        LoadKind::U16 | LoadKind::I16 => 2,
        LoadKind::U32 => 4,
    }
}

/// How many bytes a store of this kind writes.
pub open spec fn store_width(kind: StoreKind) -> nat {
    match kind {
        StoreKind::U8 => 1,
        StoreKind::U16 => 2,
        StoreKind::U32 => 4,
    }
}

/// The little-endian value of two bytes.
pub open spec fn le16(b: Seq<u8>) -> int {
    b[0] + 256 * b[1]
}

/// The little-endian value of four bytes.
pub open spec fn le32(b: Seq<u8>) -> int {
    b[0] + 256 * b[1] + 0x1_0000 * b[2] + 0x100_0000 * b[3]
}

/// The register value that a load of this kind makes of the bytes it read: unsigned
/// kinds zero-extend, signed kinds sign-extend to 32 bits.
pub open spec fn load_value(kind: LoadKind, b: Seq<u8>) -> u32 {
    match kind {
        LoadKind::U8 => b[0] as u32,
        LoadKind::I8 => if b[0] < 0x80 {
            b[0] as u32
        } else {
            wrap32(b[0] - 0x100)
        },
        LoadKind::U16 => le16(b) as u32,
        LoadKind::I16 => if le16(b) < 0x8000 {
            le16(b) as u32
        } else {
            wrap32(le16(b) - 0x1_0000)
        },
        LoadKind::U32 => le32(b) as u32,
    }
}

/// The little-endian bytes that a store of this kind writes for `value`: its low
/// 8, 16 or 32 bits.
pub open spec fn store_bytes(kind: StoreKind, value: u32) -> Seq<u8> {
    match kind {
        StoreKind::U8 => seq![(value % 0x100) as u8],
        StoreKind::U16 => seq![(value % 0x100) as u8, ((value / 0x100) % 0x100) as u8],
        StoreKind::U32 => seq![
            (value % 0x100) as u8,
            ((value / 0x100) % 0x100) as u8,
            ((value / 0x1_0000) % 0x100) as u8,
            ((value / 0x100_0000) % 0x100) as u8,
        ],
    }
}

/// The load that reads back, zero-extended, what a store of this kind wrote.
pub open spec fn unsigned_load_of(kind: StoreKind) -> LoadKind {
    match kind {
        StoreKind::U8 => LoadKind::U8,
        StoreKind::U16 => LoadKind::U16,
        StoreKind::U32 => LoadKind::U32,
    }
}

/// The part of `value` that a store of this kind keeps.
pub open spec fn truncate_to(kind: StoreKind, value: u32) -> u32 {
    match kind {
        StoreKind::U8 => value % 0x100,
        StoreKind::U16 => value % 0x1_0000,
        StoreKind::U32 => value,
    }
}

/// Storing a value and then loading the same address with the same width gives
/// back the stored value, cut to that width.
pub proof fn lemma_store_load_round_trip(m: MemoryView, address: int, kind: StoreKind, value: u32)
    requires
        m.wf(),
        m.config.writable(address, store_width(kind) as int),
    ensures
        load_value(
            unsigned_load_of(kind),
            m.write(address, store_bytes(kind, value)).read(address, store_width(kind) as int),
        ) == truncate_to(kind, value),
{
    lemma_write_then_read(m, address, store_bytes(kind, value));
    lemma_decode_encode(kind, value);
}

/// Decoding the bytes of a store gives back the part of the value that it keeps.
pub proof fn lemma_decode_encode(kind: StoreKind, value: u32)
    ensures
        load_value(unsigned_load_of(kind), store_bytes(kind, value)) == truncate_to(kind, value),
{
    let b = store_bytes(kind, value);
    match kind {
        StoreKind::U8 => {},
        StoreKind::U16 => {
            assert(le16(b) == value % 0x1_0000) by (nonlinear_arith)
                requires
                    b[0] == value % 0x100,
                    b[1] == (value / 0x100) % 0x100,
            ;
        },
        StoreKind::U32 => {
            assert(le32(b) == value) by (nonlinear_arith)
                requires
                    b[0] == value % 0x100,
                    b[1] == (value / 0x100) % 0x100,
                    b[2] == (value / 0x1_0000) % 0x100,
                    b[3] == (value / 0x100_0000) % 0x100,
                    value < 0x1_0000_0000,
            ;
        },
    }
}

/// The bytes that a store of this kind writes for `value`.
pub fn encode(kind: StoreKind, value: u32) -> (r: Vec<u8>)
    ensures
        r@ == store_bytes(kind, value),
{
    let b0 = (value % 0x100) as u8;
    let b1 = ((value / 0x100) % 0x100) as u8;
    let b2 = ((value / 0x1_0000) % 0x100) as u8;
    let b3 = ((value / 0x100_0000) % 0x100) as u8;
    let r = match kind {
        StoreKind::U8 => vec![b0],
        StoreKind::U16 => vec![b0, b1],
        StoreKind::U32 => vec![b0, b1, b2, b3],
    };
    proof {
        assert(r@ =~= store_bytes(kind, value));
    }
    r
}

/// The register value that a load of this kind makes of the bytes it read.
pub fn decode(kind: LoadKind, b: &[u8]) -> (r: u32)
    requires
        b@.len() == load_width(kind),
    ensures
        r == load_value(kind, b@),
{
    match kind {
        LoadKind::U8 => b[0] as u32,
        LoadKind::I8 => {
            if b[0] < 0x80 {
                b[0] as u32
            } else {
                proof {
                    lemma_wrap32_negative(b@[0] - 0x100);
                }
                b[0] as u32 + 0xffff_ff00
            }
        },
        LoadKind::U16 => b[0] as u32 + 0x100 * (b[1] as u32),
        LoadKind::I16 => {
            let v = b[0] as u32 + 0x100 * (b[1] as u32);
            if v < 0x8000 {
                v
            } else {
                proof {
                    lemma_wrap32_negative(le16(b@) - 0x1_0000);
                }
                v + 0xffff_0000
            }
        },
        LoadKind::U32 => b[0] as u32 + 0x100 * (b[1] as u32) + 0x1_0000 * (b[2] as u32)
            + 0x100_0000 * (b[3] as u32),
    }
}

} // verus!
