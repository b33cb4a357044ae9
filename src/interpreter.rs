//! The interpreter: modules, instances, the access handle that host calls get,
//! and the dispatch of each instruction.

use crate::abi::{Reg, REG_COUNT, VM_ADDR_RETURN_TO_HOST, VM_CODE_ADDRESS_ALIGNMENT};
use crate::memory::{
    decode, encode, lemma_region_of_within, load_value, load_width, store_bytes, store_width,
    MemoryConfig, MemoryView, Region,
};
use crate::operation::{wrap32, wrapping_add};
use crate::program::{spec_binop, spec_condition, BinOp, Condition, Instruction, LoadKind, RegImm, StoreKind};
use vstd::prelude::*;

verus! {

/// The two kinds of gas metering. The interpreter charges both in the same way.
#[derive(Clone, Copy, Debug, PartialEq, Eq, Structural)]
pub enum GasMeteringKind {
    Sync,
    Async,
}

/// Why a module could not be built.
#[derive(Clone, Copy, Debug, PartialEq, Eq, Structural)]
pub enum ModuleError {
    /// The memory regions overlap, are not page aligned, leave the address space
    /// or hold the return-to-host address.
    InvalidMemoryConfig,
    /// The read-only data is longer than its region.
    RoDataTooLarge,
    /// The initial read-write data is longer than the heap.
    RwDataTooLarge,
    /// There are not as many gas costs as basic blocks.
    GasCostCountMismatch,
    /// There are too many instructions, basic blocks or jump table entries to be addressed.
    TooLarge,
    /// An export names a basic block that does not exist.
    InvalidExport,
    /// The jump table names a basic block that does not exist.
    InvalidJumpTableEntry,
    /// A branch, jump or call names a basic block that does not exist.
    InvalidBranchTarget,
}

/// The most jump table entries whose code addresses fit in 32 bits.
pub const MAX_JUMP_TABLE_ENTRIES: usize = 0x4000_0000;

/// What a module holds, as mathematical values.
pub struct ModuleView {
    pub instructions: Seq<Instruction>,
    pub ro_data: Seq<u8>,
    pub rw_data: Seq<u8>,
    pub gas_cost_for_basic_block: Seq<u32>,
    pub memory_config: MemoryConfig,
    pub gas_metering: Option<GasMeteringKind>,
    pub exports: Seq<u32>,
    pub instruction_by_basic_block: Seq<u32>,
    pub basic_block_by_jump_table_index: Seq<Option<u32>>,
    pub jump_table_index_by_basic_block: Seq<Option<u32>>,
}

/// A static control transfer names an existing basic block.
pub open spec fn targets_ok(instruction: Instruction, block_count: nat) -> bool {
    match instruction {
        Instruction::Branch { target, .. } => target < block_count,
        Instruction::Jump { target } => target < block_count,
        Instruction::Call { target, .. } => target < block_count,
        _ => true,
    }
}

impl ModuleView {
    pub open spec fn block_count(self) -> nat {
        self.instruction_by_basic_block.len()
    }

    /// The invariant of every module.
    pub open spec fn wf(self) -> bool {
        &&& self.memory_config.is_valid()
        &&& self.ro_data.len() == self.memory_config.ro_data_size
        &&& self.rw_data.len() <= self.memory_config.heap_size
        &&& self.instructions.len() < u32::MAX
        &&& self.block_count() < u32::MAX
        &&& self.gas_cost_for_basic_block.len() == self.block_count()
        &&& self.jump_table_index_by_basic_block.len() == self.block_count()
        &&& self.basic_block_by_jump_table_index.len() <= MAX_JUMP_TABLE_ENTRIES
        &&& forall|i: int| 0 <= i < self.exports.len() ==> self.exports[i] < self.block_count()
        &&& forall|j: int|
            0 <= j < self.basic_block_by_jump_table_index.len()
                && self.basic_block_by_jump_table_index[j] is Some
                ==> self.basic_block_by_jump_table_index[j].unwrap() < self.block_count()
        &&& forall|b: int|
            0 <= b < self.block_count() && self.jump_table_index_by_basic_block[b] is Some
                ==> self.jump_table_index_by_basic_block[b].unwrap()
                < self.basic_block_by_jump_table_index.len()
                && self.basic_block_by_jump_table_index[self.jump_table_index_by_basic_block[b].unwrap() as int]
                == Some(b as u32)
        &&& forall|i: int|
            0 <= i < self.instructions.len() ==> targets_ok(self.instructions[i], self.block_count())
    }
}

/// A program ready to be interpreted: its decoded code, its data, its memory
/// layout, the gas cost of each basic block and the tables that map basic
/// blocks, instructions and code addresses to each other.
pub struct InterpretedModule {
    instructions: Vec<Instruction>,
    ro_data: Vec<u8>,
    rw_data: Vec<u8>,
    gas_cost_for_basic_block: Vec<u32>,
    memory_config: MemoryConfig,
    gas_metering: Option<GasMeteringKind>,
    exports: Vec<u32>,
    instruction_by_basic_block: Vec<u32>,
    basic_block_by_jump_table_index: Vec<Option<u32>>,
    jump_table_index_by_basic_block: Vec<Option<u32>>,
}

impl View for InterpretedModule {
    type V = ModuleView;

    closed spec fn view(&self) -> ModuleView {
        ModuleView {
            instructions: self.instructions@,
            ro_data: self.ro_data@,
            rw_data: self.rw_data@,
            gas_cost_for_basic_block: self.gas_cost_for_basic_block@,
            memory_config: self.memory_config,
            gas_metering: self.gas_metering,
            exports: self.exports@,
            instruction_by_basic_block: self.instruction_by_basic_block@,
            basic_block_by_jump_table_index: self.basic_block_by_jump_table_index@,
            jump_table_index_by_basic_block: self.jump_table_index_by_basic_block@,
        }
    }
}

/// Why the parts given to `InterpretedModule::new` do not make a module, if they do not.
pub open spec fn module_error_of(
    memory_config: MemoryConfig,
    ro_data: Seq<u8>,
    rw_data: Seq<u8>,
    gas_cost_for_basic_block: Seq<u32>,
    instructions: Seq<Instruction>,
    instruction_by_basic_block: Seq<u32>,
    basic_block_by_jump_table_index: Seq<Option<u32>>,
    exports: Seq<u32>,
) -> Option<ModuleError> {
    let block_count = instruction_by_basic_block.len();
    if !memory_config.is_valid() {
        Some(ModuleError::InvalidMemoryConfig)
    } else if ro_data.len() > memory_config.ro_data_size {
        Some(ModuleError::RoDataTooLarge)
    } else if rw_data.len() > memory_config.heap_size {
        Some(ModuleError::RwDataTooLarge)
    } else if instructions.len() >= u32::MAX || block_count >= u32::MAX
        || basic_block_by_jump_table_index.len() > MAX_JUMP_TABLE_ENTRIES {
        Some(ModuleError::TooLarge)
    } else if gas_cost_for_basic_block.len() != block_count {
        Some(ModuleError::GasCostCountMismatch)
    } else if exists|i: int| 0 <= i < exports.len() && exports[i] >= block_count {
        Some(ModuleError::InvalidExport)
    } else if exists|j: int|
        0 <= j < basic_block_by_jump_table_index.len()
            && basic_block_by_jump_table_index[j] is Some
            && basic_block_by_jump_table_index[j].unwrap() >= block_count {
        Some(ModuleError::InvalidJumpTableEntry)
    } else if exists|i: int| 0 <= i < instructions.len() && !targets_ok(instructions[i], block_count) {
        Some(ModuleError::InvalidBranchTarget)
    } else {
        None
    }
}

/// `jump_table_index_by_basic_block` undoes `basic_block_by_jump_table_index`
/// wherever a basic block has a code address.
pub open spec fn is_jump_table_inverse(inverse: Seq<Option<u32>>, table: Seq<Option<u32>>) -> bool {
    &&& forall|b: int|
        0 <= b < inverse.len() && inverse[b] is Some ==> inverse[b].unwrap() < table.len()
            && table[inverse[b].unwrap() as int] == Some(b as u32)
    &&& forall|j: int|
        0 <= j < table.len() && table[j] is Some && table[j].unwrap() < inverse.len()
            ==> inverse[table[j].unwrap() as int] is Some
}

/// `v` followed by zeros up to length `n`.
pub open spec fn zero_padded(v: Seq<u8>, n: nat) -> Seq<u8> {
    v + Seq::new((n - v.len()) as nat, |i: int| 0u8)
}

/// Appends zeros to `v` until it is `n` bytes long.
fn pad_with_zeros(v: &mut Vec<u8>, n: usize)
    requires
        old(v).len() <= n,
    ensures
        final(v)@ == zero_padded(old(v)@, n as nat),
{
    let ghost start = v@;
    while v.len() < n
        invariant
            start.len() <= v.len() <= n,
            v@ == zero_padded(start, v.len() as nat),
        decreases n - v.len(),
    {
        v.push(0);
        assert(v@ =~= zero_padded(start, v.len() as nat));
    }
}

impl InterpretedModule {
    #[verifier::type_invariant]
    closed spec fn inv(self) -> bool {
        self@.wf()
    }

    /// Builds a module from its parts, after checking that they fit together.
    /// The read-only data is padded with zeros to the size of its region, and
    /// the code address of each basic block is found from the jump table.
    pub fn new(
        memory_config: MemoryConfig,
        ro_data: Vec<u8>,
        rw_data: Vec<u8>,
        gas_metering: Option<GasMeteringKind>,
        gas_cost_for_basic_block: Vec<u32>,
        instructions: Vec<Instruction>,
        instruction_by_basic_block: Vec<u32>,
        basic_block_by_jump_table_index: Vec<Option<u32>>,
        exports: Vec<u32>,
    ) -> (r: Result<Self, ModuleError>)
        ensures
            match module_error_of(
                memory_config,
                ro_data@,
                rw_data@,
                gas_cost_for_basic_block@,
                instructions@,
                instruction_by_basic_block@,
                basic_block_by_jump_table_index@,
                exports@,
            ) {
                Some(e) => r == Err::<Self, ModuleError>(e),
                None => r is Ok && {
                    let m = r.unwrap()@;
                    &&& m.instructions == instructions@
                    &&& m.ro_data == zero_padded(ro_data@, memory_config.ro_data_size as nat)
                    &&& m.rw_data == rw_data@
                    &&& m.gas_cost_for_basic_block == gas_cost_for_basic_block@
                    &&& m.memory_config == memory_config
                    &&& m.gas_metering == gas_metering
                    &&& m.exports == exports@
                    &&& m.instruction_by_basic_block == instruction_by_basic_block@
                    &&& m.basic_block_by_jump_table_index == basic_block_by_jump_table_index@
                    &&& is_jump_table_inverse(
                        m.jump_table_index_by_basic_block,
                        basic_block_by_jump_table_index@,
                    )
                    &&& m.wf()
                },
            },
    {
        let block_count = instruction_by_basic_block.len();
        if !memory_config.check() {
            return Err(ModuleError::InvalidMemoryConfig);
        }
        if ro_data.len() > memory_config.ro_data_size as usize {
            return Err(ModuleError::RoDataTooLarge);
        }
        if rw_data.len() > memory_config.heap_size as usize {
            return Err(ModuleError::RwDataTooLarge);
        }
        if instructions.len() >= u32::MAX as usize || block_count >= u32::MAX as usize
            || basic_block_by_jump_table_index.len() > MAX_JUMP_TABLE_ENTRIES {
            return Err(ModuleError::TooLarge);
        }
        if gas_cost_for_basic_block.len() != block_count {
            return Err(ModuleError::GasCostCountMismatch);
        }
        let mut i: usize = 0;
        while i < exports.len()
            invariant
                i <= exports.len(),
                block_count == instruction_by_basic_block.len(),
                memory_config.is_valid(),
                ro_data.len() <= memory_config.ro_data_size,
                rw_data.len() <= memory_config.heap_size,
                instructions.len() < u32::MAX,
                block_count < u32::MAX,
                basic_block_by_jump_table_index.len() <= MAX_JUMP_TABLE_ENTRIES,
                gas_cost_for_basic_block.len() == block_count,
                forall|k: int| 0 <= k < i ==> exports@[k] < block_count,
            decreases exports.len() - i,
        {
            if exports[i] as usize >= block_count {
                assert(exports@[i as int] >= block_count);
                return Err(ModuleError::InvalidExport);
            }
            i += 1;
        }
        let mut j: usize = 0;
        while j < basic_block_by_jump_table_index.len()
            invariant
                j <= basic_block_by_jump_table_index.len(),
                block_count == instruction_by_basic_block.len(),
                memory_config.is_valid(),
                ro_data.len() <= memory_config.ro_data_size,
                rw_data.len() <= memory_config.heap_size,
                instructions.len() < u32::MAX,
                block_count < u32::MAX,
                basic_block_by_jump_table_index.len() <= MAX_JUMP_TABLE_ENTRIES,
                gas_cost_for_basic_block.len() == block_count,
                forall|k: int| 0 <= k < exports.len() ==> exports@[k] < block_count,
                forall|k: int|
                    0 <= k < j && basic_block_by_jump_table_index@[k] is Some
                        ==> basic_block_by_jump_table_index@[k].unwrap() < block_count,
            decreases basic_block_by_jump_table_index.len() - j,
        {
            if let Some(b) = basic_block_by_jump_table_index[j] {
                if b as usize >= block_count {
                    assert(basic_block_by_jump_table_index@[j as int] is Some);
                    return Err(ModuleError::InvalidJumpTableEntry);
                }
            }
            j += 1;
        }
        let mut i: usize = 0;
        while i < instructions.len()
            invariant
                i <= instructions.len(),
                block_count == instruction_by_basic_block.len(),
                memory_config.is_valid(),
                ro_data.len() <= memory_config.ro_data_size,
                rw_data.len() <= memory_config.heap_size,
                instructions.len() < u32::MAX,
                block_count < u32::MAX,
                basic_block_by_jump_table_index.len() <= MAX_JUMP_TABLE_ENTRIES,
                gas_cost_for_basic_block.len() == block_count,
                forall|k: int| 0 <= k < exports.len() ==> exports@[k] < block_count,
                forall|k: int|
                    0 <= k < basic_block_by_jump_table_index.len()
                        && basic_block_by_jump_table_index@[k] is Some
                        ==> basic_block_by_jump_table_index@[k].unwrap() < block_count,
                forall|k: int| 0 <= k < i ==> targets_ok(instructions@[k], block_count as nat),
            decreases instructions.len() - i,
        {
            let ok = match instructions[i] {
                Instruction::Branch { target, .. } => (target as usize) < block_count,
                Instruction::Jump { target } => (target as usize) < block_count,
                Instruction::Call { target, .. } => (target as usize) < block_count,
                _ => true,
            };
            if !ok {
                assert(!targets_ok(instructions@[i as int], block_count as nat));
                return Err(ModuleError::InvalidBranchTarget);
            }
            i += 1;
        }
        let mut jump_table_index_by_basic_block: Vec<Option<u32>> = Vec::new();
        while jump_table_index_by_basic_block.len() < block_count
            invariant
                jump_table_index_by_basic_block.len() <= block_count,
                block_count == instruction_by_basic_block.len(),
                memory_config.is_valid(),
                ro_data.len() <= memory_config.ro_data_size,
                rw_data.len() <= memory_config.heap_size,
                instructions.len() < u32::MAX,
                block_count < u32::MAX,
                basic_block_by_jump_table_index.len() <= MAX_JUMP_TABLE_ENTRIES,
                gas_cost_for_basic_block.len() == block_count,
                forall|k: int| 0 <= k < exports.len() ==> exports@[k] < block_count,
                forall|k: int|
                    0 <= k < basic_block_by_jump_table_index.len()
                        && basic_block_by_jump_table_index@[k] is Some
                        ==> basic_block_by_jump_table_index@[k].unwrap() < block_count,
                forall|k: int| 0 <= k < instructions.len() ==> targets_ok(instructions@[k], block_count as nat),
                forall|b: int|
                    0 <= b < jump_table_index_by_basic_block.len()
                        ==> jump_table_index_by_basic_block@[b] is None,
            decreases block_count - jump_table_index_by_basic_block.len(),
        {
            jump_table_index_by_basic_block.push(None);
        }
        let mut j: usize = 0;
        while j < basic_block_by_jump_table_index.len()
            invariant
                j <= basic_block_by_jump_table_index.len() <= MAX_JUMP_TABLE_ENTRIES,
                block_count == instruction_by_basic_block.len(),
                memory_config.is_valid(),
                ro_data.len() <= memory_config.ro_data_size,
                rw_data.len() <= memory_config.heap_size,
                instructions.len() < u32::MAX,
                block_count < u32::MAX,
                basic_block_by_jump_table_index.len() <= MAX_JUMP_TABLE_ENTRIES,
                gas_cost_for_basic_block.len() == block_count,
                forall|k: int| 0 <= k < exports.len() ==> exports@[k] < block_count,
                forall|k: int| 0 <= k < instructions.len() ==> targets_ok(instructions@[k], block_count as nat),
                jump_table_index_by_basic_block.len() == block_count,
                forall|k: int|
                    0 <= k < basic_block_by_jump_table_index.len()
                        && basic_block_by_jump_table_index@[k] is Some
                        ==> basic_block_by_jump_table_index@[k].unwrap() < block_count,
                forall|b: int|
                    0 <= b < block_count && jump_table_index_by_basic_block@[b] is Some
                        ==> jump_table_index_by_basic_block@[b].unwrap() < j
                        && basic_block_by_jump_table_index@[jump_table_index_by_basic_block@[b].unwrap() as int]
                        == Some(b as u32),
                forall|k: int|
                    0 <= k < j && basic_block_by_jump_table_index@[k] is Some
                        ==> jump_table_index_by_basic_block@[basic_block_by_jump_table_index@[k].unwrap() as int] is Some,
            decreases basic_block_by_jump_table_index.len() - j,
        {
            if let Some(b) = basic_block_by_jump_table_index[j] {
                jump_table_index_by_basic_block.set(b as usize, Some(j as u32));
            }
            j += 1;
        }
        let mut ro_data = ro_data;
        pad_with_zeros(&mut ro_data, memory_config.ro_data_size as usize);
        Ok(InterpretedModule {
            instructions,
            ro_data,
            rw_data,
            gas_cost_for_basic_block,
            memory_config,
            gas_metering,
            exports,
            instruction_by_basic_block,
            basic_block_by_jump_table_index,
            jump_table_index_by_basic_block,
        })
    }
}

/// The gas of an instance as mathematical values: what is left, and the
/// accounts of the current call that explain it.
pub struct GasView {
    /// What is left; `None` when the module has no gas metering.
    pub remaining: Option<i64>,
    /// What was left when the current call began.
    pub budget: int,
    /// The sum of the costs of the basic blocks entered since then.
    pub debited: int,
    /// The sum of what host calls consumed since then.
    pub consumed: int,
    /// Whether a subtraction since then fell below the range of `i64` and was clamped.
    pub saturated: bool,
}

impl GasView {
    /// What is left equals the budget minus the block debits minus what host
    /// calls consumed, unless a subtraction was clamped.
    pub open spec fn balanced(self) -> bool {
        self.remaining is Some && !self.saturated ==> self.remaining.unwrap() == self.budget
            - self.debited - self.consumed
    }
}

/// The gas counter of an instance.
pub struct GasMeter {
    remaining: Option<i64>,
    budget: Ghost<int>,
    debited: Ghost<int>,
    consumed: Ghost<int>,
    saturated: Ghost<bool>,
}

impl View for GasMeter {
    type V = GasView;

    closed spec fn view(&self) -> GasView {
        GasView {
            remaining: self.remaining,
            budget: self.budget@,
            debited: self.debited@,
            consumed: self.consumed@,
            saturated: self.saturated@,
        }
    }
}

impl GasMeter {
    #[verifier::type_invariant]
    closed spec fn inv(self) -> bool {
        self@.balanced()
    }

    /// A counter for a module without gas metering.
    fn unmetered() -> (r: GasMeter)
        ensures
            r@ == (GasView { remaining: None, budget: 0, debited: 0, consumed: 0, saturated: false }),
    {
        GasMeter {
            remaining: None,
            budget: Ghost(0),
            debited: Ghost(0),
            consumed: Ghost(0),
            saturated: Ghost(false),
        }
    }

    /// A counter that starts a call with `gas`.
    fn with_budget(gas: i64) -> (r: GasMeter)
        ensures
            r@ == (GasView { remaining: Some(gas), budget: gas as int, debited: 0, consumed: 0, saturated: false }),
    {
        GasMeter {
            remaining: Some(gas),
            budget: Ghost(gas as int),
            debited: Ghost(0),
            consumed: Ghost(0),
            saturated: Ghost(false),
        }
    }

    /// The same counter, with its accounts opened anew for a call that goes on
    /// with what is left.
    fn carried_over(&self) -> (r: GasMeter)
        ensures
            r@ == match self@.remaining {
                Some(g) => GasView { remaining: Some(g), budget: g as int, debited: 0, consumed: 0, saturated: false },
                None => GasView { remaining: None, budget: 0, debited: 0, consumed: 0, saturated: false },
            },
    {
        match self.remaining {
            Some(g) => GasMeter::with_budget(g),
            None => GasMeter::unmetered(),
        }
    }

    fn remaining(&self) -> (r: Option<i64>)
        ensures
            r == self@.remaining,
    {
        self.remaining
    }

    /// The counter after entering a basic block that costs `cost`. Below the
    /// range of `i64` the count stays at its least value.
    fn debit(&self, cost: u32) -> (r: GasMeter)
        ensures
            match self@.remaining {
                None => r@.remaining is None,
                Some(g) => if g - cost >= i64::MIN {
                    r@ == (GasView { remaining: Some((g - cost) as i64), debited: self@.debited + cost, ..self@ })
                } else {
                    r@ == (GasView { remaining: Some(i64::MIN), saturated: true, ..self@ })
                },
            },
    {
        proof {
            use_type_invariant(self);
        }
        match self.remaining {
            None => GasMeter::unmetered(),
            Some(g) => {
                if g >= i64::MIN + cost as i64 {
                    GasMeter {
                        remaining: Some(g - cost as i64),
                        budget: self.budget,
                        debited: Ghost(self.debited@ + cost),
                        consumed: self.consumed,
                        saturated: self.saturated,
                    }
                } else {
                    GasMeter {
                        remaining: Some(i64::MIN),
                        budget: self.budget,
                        debited: self.debited,
                        consumed: self.consumed,
                        saturated: Ghost(true),
                    }
                }
            },
        }
    }

    /// The counter after a host call consumed `gas`. Below the range of `i64`
    /// the count becomes -1.
    fn consume(&self, gas: u64) -> (r: GasMeter)
        ensures
            match self@.remaining {
                None => r@.remaining is None,
                Some(g) => if g - gas >= i64::MIN {
                    r@ == (GasView { remaining: Some((g - gas) as i64), consumed: self@.consumed + gas, ..self@ })
                } else {
                    r@ == (GasView { remaining: Some(-1i64), saturated: true, ..self@ })
                },
            },
    {
        proof {
            use_type_invariant(self);
        }
        match self.remaining {
            None => GasMeter::unmetered(),
            Some(g) => match g.checked_sub_unsigned(gas) {
                Some(left) => GasMeter {
                    remaining: Some(left),
                    budget: self.budget,
                    debited: self.debited,
                    consumed: Ghost(self.consumed@ + gas),
                    saturated: self.saturated,
                },
                None => GasMeter {
                    remaining: Some(-1),
                    budget: self.budget,
                    debited: self.debited,
                    consumed: self.consumed,
                    saturated: Ghost(true),
                },
            },
        }
    }
}

/// A read or a write through the access handle that left the memory regions.
#[derive(Clone, Copy, Debug, PartialEq, Eq)]
pub struct MemoryAccessError {
    pub address: u32,
    pub length: u64,
    pub error: &'static str,
}

/// The guest state that an access handle exposes, as mathematical values.
pub struct AccessView {
    pub memory: MemoryView,
    pub regs: Seq<u32>,
    pub gas: GasView,
    pub program_counter: u32,
}

/// The guest-visible state of an instance: its registers, its memory and its
/// gas. A host call gets it as its access handle.
pub struct InterpretedAccess {
    config: MemoryConfig,
    ro_data: Vec<u8>,
    heap: Vec<u8>,
    stack: Vec<u8>,
    regs: [u32; REG_COUNT],
    gas: GasMeter,
    program_counter: u32,
}

impl View for InterpretedAccess {
    type V = AccessView;

    closed spec fn view(&self) -> AccessView {
        AccessView {
            memory: MemoryView {
                config: self.config,
                ro_data: self.ro_data@,
                heap: self.heap@,
                stack: self.stack@,
            },
            regs: self.regs@,
            gas: self.gas@,
            program_counter: self.program_counter,
        }
    }
}

impl InterpretedAccess {
    #[verifier::type_invariant]
    closed spec fn inv(self) -> bool {
        &&& self@.memory.wf()
        &&& self@.regs.len() == REG_COUNT
    }

    /// The guest state of a new instance of `module`.
    fn fresh(module: &InterpretedModule) -> (r: InterpretedAccess)
        ensures
            r@ == fresh_access(module@),
            r@.memory.config == module@.memory_config,
            r@.memory.ro_data == module@.ro_data,
            r@.memory.heap == zero_padded(module@.rw_data, module@.memory_config.heap_size as nat),
            r@.memory.stack == zero_padded(Seq::empty(), module@.memory_config.stack_size as nat),
            r@.regs == Seq::new(REG_COUNT as nat, |i: int| 0u32),
            r@.gas.remaining == if module@.gas_metering is Some { Some(0i64) } else { None },
    {
        proof {
            use_type_invariant(module);
        }
        let config = module.memory_config;
        let ro_data = copy_bytes(&module.ro_data);
        let heap = fresh_heap(&module.rw_data, config.heap_size);
        let stack = fresh_stack(config.stack_size);
        let gas = if module.gas_metering.is_some() {
            GasMeter::with_budget(0)
        } else {
            GasMeter::unmetered()
        };
        let access = InterpretedAccess {
            config,
            ro_data,
            heap,
            stack,
            regs: [0; REG_COUNT],
            gas,
            program_counter: 0,
        };
        proof {
            assert(access@.regs =~= Seq::new(REG_COUNT as nat, |i: int| 0u32));
        }
        access
    }

    pub fn get_reg(&self, reg: Reg) -> (r: u32)
        ensures
            r == self@.regs[reg.spec_index() as int],
    {
        self.regs[reg.index()]
    }

    pub fn set_reg(&mut self, reg: Reg, value: u32)
        ensures
            final(self)@ == (AccessView { regs: old(self)@.regs.update(reg.spec_index() as int, value), ..old(self)@ }),
    {
        proof {
            use_type_invariant(&*self);
        }
        self.regs[reg.index()] = value;
    }

    /// Copies the bytes at `address` into `buffer`, if all of them lie in one region.
    pub fn read_memory_into_slice(&self, address: u32, buffer: &mut [u8]) -> (r: Result<(), MemoryAccessError>)
        ensures
            r is Ok <==> self@.memory.config.readable(address as int, old(buffer)@.len() as int),
            r is Ok ==> final(buffer)@ == self@.memory.read(address as int, old(buffer)@.len() as int),
            r is Err ==> final(buffer)@ == old(buffer)@,
            r matches Err(e) ==> e.address == address && e.length == old(buffer)@.len(),
    {
        let length = buffer.len();
        if length > u32::MAX as usize {
            proof {
                use_type_invariant(self);
            }
            return Err(MemoryAccessError { address, length: length as u64, error: "out of range read" });
        }
        match self.get_memory_slice(address, length as u32) {
            None => Err(MemoryAccessError { address, length: length as u64, error: "out of range read" }),
            Some(slice) => {
                let mut i: usize = 0;
                while i < length
                    invariant
                        i <= length == buffer@.len() == slice@.len(),
                        forall|k: int| 0 <= k < i ==> buffer@[k] == slice@[k],
                    decreases length - i,
                {
                    buffer[i] = slice[i];
                    i += 1;
                }
                assert(buffer@ =~= slice@);
                Ok(())
            },
        }
    }

    /// Writes `data` at `address`, if all of it lies in the heap or in the stack.
    pub fn write_memory(&mut self, address: u32, data: &[u8]) -> (r: Result<(), MemoryAccessError>)
        ensures
            r is Ok <==> old(self)@.memory.config.writable(address as int, data@.len() as int),
            r is Ok ==> final(self)@ == (AccessView { memory: old(self)@.memory.write(address as int, data@), ..old(self)@ }),
            r is Err ==> final(self)@ == old(self)@,
            r matches Err(e) ==> e.address == address && e.length == data@.len(),
    {
        if self.write_memory_bytes(address, data) {
            Ok(())
        } else {
            Err(MemoryAccessError { address, length: data.len() as u64, error: "out of range write" })
        }
    }

    pub fn program_counter(&self) -> (r: Option<u32>)
        ensures
            r == Some(self@.program_counter),
    {
        Some(self.program_counter)
    }

    /// The interpreter runs no native code, so there is no native program counter.
    pub fn native_program_counter(&self) -> (r: Option<u64>)
        ensures
            r is None,
    {
        None
    }

    /// The gas left, where the module meters gas; a negative count reads as zero.
    pub fn gas_remaining(&self) -> (r: Option<u64>)
        ensures
            match self@.gas.remaining {
                None => r is None,
                Some(g) => r == Some(if g < 0 { 0u64 } else { g as u64 }),
            },
    {
        match self.gas.remaining() {
            None => None,
            Some(g) => if g < 0 {
                Some(0)
            } else {
                Some(g as u64)
            },
        }
    }

    /// Takes `gas` from the gas left, where the module meters gas. A result
    /// below the range of `i64` becomes -1.
    pub fn consume_gas(&mut self, gas: u64)
        ensures
            final(self)@ == (AccessView { gas: final(self)@.gas, ..old(self)@ }),
            match old(self)@.gas.remaining {
                None => final(self)@.gas.remaining is None,
                Some(g) => if g - gas >= i64::MIN {
                    final(self)@.gas == (GasView { remaining: Some((g - gas) as i64), consumed: old(self)@.gas.consumed + gas, ..old(self)@.gas })
                } else {
                    final(self)@.gas == (GasView { remaining: Some(-1i64), saturated: true, ..old(self)@.gas })
                },
            },
    {
        proof {
            use_type_invariant(&*self);
        }
        self.gas = self.gas.consume(gas);
    }

    /// The `length` bytes at `address`, if all of them lie in one region.
    fn get_memory_slice(&self, address: u32, length: u32) -> (r: Option<&[u8]>)
        ensures
            r is Some <==> self@.memory.config.readable(address as int, length as int),
            r matches Some(s) ==> s@ == self@.memory.read(address as int, length as int)
                && s@.len() == length,
    {
        proof {
            use_type_invariant(self);
        }
        let config = &self.config;
        match config.find_region(address) {
            None => None,
            Some(region) => {
                let offset = (address - config.region_start(region)) as usize;
                let size = config.region_size(region) as usize;
                if offset as u64 + length as u64 > size as u64 {
                    return None;
                }
                proof {
                    lemma_region_of_within(self.config, region, address as int, length as int);
                }
                let memory = match region {
                    Region::ReadOnly => self.ro_data.as_slice(),
                    Region::Heap => self.heap.as_slice(),
                    Region::Stack => self.stack.as_slice(),
                };
                Some(&memory[offset..offset + length as usize])
            },
        }
    }

    /// Writes `data` at `address` and returns true, if all of it lies in the heap
    /// or in the stack; else changes nothing and returns false.
    fn write_memory_bytes(&mut self, address: u32, data: &[u8]) -> (ok: bool)
        ensures
            ok <==> old(self)@.memory.config.writable(address as int, data@.len() as int),
            ok ==> final(self)@ == (AccessView { memory: old(self)@.memory.write(address as int, data@), ..old(self)@ }),
            !ok ==> final(self)@ == old(self)@,
    {
        proof {
            use_type_invariant(&*self);
        }
        let length = data.len();
        let region = match self.config.find_region(address) {
            None => return false,
            Some(Region::ReadOnly) => {
                proof {
                    if self.config.writable(address as int, length as int) {
                        if self.config.within(Region::Heap, address as int, length as int) {
                            lemma_region_of_within(self.config, Region::Heap, address as int, length as int);
                        } else {
                            lemma_region_of_within(self.config, Region::Stack, address as int, length as int);
                        }
                    }
                }
                return false;
            },
            Some(region) => region,
        };
        let offset = (address - self.config.region_start(region)) as usize;
        let size = self.config.region_size(region) as usize;
        if length > size || offset > size - length {
            return false;
        }
        proof {
            lemma_region_of_within(self.config, region, address as int, length as int);
        }
        let ghost before = self@;
        let mut i: usize = 0;
        while i < length
            invariant
                i <= length == data@.len(),
                offset + length <= size,
                region == Region::Heap || region == Region::Stack,
                size == before.memory.config.size(region),
                before.memory.config.region_of(address as int) == Some(region),
                offset == address - before.memory.config.start(region),
                self@ == (AccessView { memory: MemoryView { heap: self@.memory.heap, stack: self@.memory.stack, ..before.memory }, ..before }),
                before.memory.buffer(region).len() == size,
                self@.memory.buffer(region) =~= crate::memory::splice(before.memory.buffer(region), offset as int, data@.subrange(0, i as int)),
                region == Region::Heap ==> self@.memory.stack == before.memory.stack,
                region == Region::Stack ==> self@.memory.heap == before.memory.heap,
            decreases length - i,
        {
            proof {
                use_type_invariant(&*self);
            }
            match region {
                Region::Heap => self.heap[offset + i] = data[i],
                _ => self.stack[offset + i] = data[i],
            }
            i += 1;
            assert(data@.subrange(0, i as int) =~= data@.subrange(0, i - 1) + seq![data@[i - 1]]);
        }
        assert(data@.subrange(0, length as int) =~= data@);
        assert(self@.memory =~= before.memory.write(address as int, data@));
        true
    }
}

/// A guest operation failed. It carries nothing beyond its kind.
#[derive(Clone, Copy, Debug, PartialEq, Eq, Structural)]
pub struct Trap;

/// How a call, a run or a step can fail.
#[derive(Clone, Copy, Debug, PartialEq, Eq, Structural)]
pub enum ExecutionError {
    /// The guest did something illegal, or a host hook refused it.
    Trap(Trap),
    /// The gas budget ran out.
    OutOfGas,
}

/// An amount of gas that fits in the signed gas counter.
#[derive(Clone, Copy, Debug, PartialEq, Eq)]
pub struct Gas {
    amount: u64,
}

impl Gas {
    #[verifier::type_invariant]
    closed spec fn inv(self) -> bool {
        self.amount <= i64::MAX
    }

    pub closed spec fn spec_get(self) -> u64 {
        self.amount
    }

    /// The amount `amount`, if it fits in `i64`.
    pub fn new(amount: u64) -> (r: Option<Gas>)
        ensures
            r is Some <==> amount <= i64::MAX,
            r matches Some(g) ==> g.spec_get() == amount,
    {
        if amount <= i64::MAX as u64 {
            Some(Gas { amount })
        } else {
            None
        }
    }

    pub fn get(&self) -> (r: u64)
        ensures
            r == self.spec_get(),
            r <= i64::MAX,
    {
        proof {
            use_type_invariant(self);
        }
        self.amount
    }
}

/// How a call starts and ends.
#[derive(Clone, Copy, Debug, PartialEq, Eq)]
pub struct ExecutionConfig {
    /// The registers on entry.
    pub initial_regs: [u32; REG_COUNT],
    /// The gas budget of the call; without one, a metered call goes on with
    /// what the previous call left.
    pub gas: Option<Gas>,
    /// Whether memory is reset once the call ends.
    pub reset_memory_after_execution: bool,
}

/// The host's handler of `ecalli`. It may read and change the guest's
/// registers, memory and gas through the access handle; an error traps.
pub trait OnHostcall {
    fn on_hostcall(&mut self, imm: u32, access: &mut InterpretedAccess) -> Result<(), Trap>;
}

/// An observer of register writes; an error traps.
pub trait OnSetReg {
    fn on_set_reg(&mut self, reg: Reg, value: u32) -> Result<(), Trap>;
}

/// An observer of successful stores, told the address and the bytes written;
/// an error traps.
pub trait OnStore {
    fn on_store(&mut self, address: u32, bytes: &[u8]) -> Result<(), Trap>;
}

/// Stands in for a hook that is not installed.
#[derive(Clone, Copy, Debug, PartialEq, Eq, Structural)]
pub struct NoHook;

impl OnHostcall for NoHook {
    fn on_hostcall(&mut self, _imm: u32, _access: &mut InterpretedAccess) -> Result<(), Trap> {
        Err(Trap)
    }
}

impl OnSetReg for NoHook {
    fn on_set_reg(&mut self, _reg: Reg, _value: u32) -> Result<(), Trap> {
        Ok(())
    }
}

impl OnStore for NoHook {
    fn on_store(&mut self, _address: u32, _bytes: &[u8]) -> Result<(), Trap> {
        Ok(())
    }
}

/// The hooks of one run: each is optional.
pub struct InterpreterContext<H, R, S> {
    pub on_hostcall: Option<H>,
    pub on_set_reg: Option<R>,
    pub on_store: Option<S>,
}

impl<H: OnHostcall, R: OnSetReg, S: OnStore> InterpreterContext<H, R, S> {
    /// A context without hooks.
    pub fn new() -> (r: Self)
        ensures
            r.on_hostcall is None,
            r.on_set_reg is None,
            r.on_store is None,
    {
        InterpreterContext { on_hostcall: None, on_set_reg: None, on_store: None }
    }

    pub fn set_on_hostcall(&mut self, on_hostcall: H)
        ensures
            final(self).on_hostcall == Some(on_hostcall),
            final(self).on_set_reg == old(self).on_set_reg,
            final(self).on_store == old(self).on_store,
    {
        self.on_hostcall = Some(on_hostcall);
    }

    pub fn set_on_set_reg(&mut self, on_set_reg: R)
        ensures
            final(self).on_hostcall == old(self).on_hostcall,
            final(self).on_set_reg == Some(on_set_reg),
            final(self).on_store == old(self).on_store,
    {
        self.on_set_reg = Some(on_set_reg);
    }

    pub fn set_on_store(&mut self, on_store: S)
        ensures
            final(self).on_hostcall == old(self).on_hostcall,
            final(self).on_set_reg == old(self).on_set_reg,
            final(self).on_store == Some(on_store),
    {
        self.on_store = Some(on_store);
    }
}

/// An instance as mathematical values.
pub struct InstanceView {
    pub module: ModuleView,
    pub access: AccessView,
    pub nth_instruction: u32,
    pub nth_basic_block: u32,
    pub return_to_host: bool,
    pub cycle_counter: u64,
    pub in_new_execution: bool,
}

impl InstanceView {
    pub open spec fn block_count(self) -> nat {
        self.module.block_count()
    }

    pub open spec fn reg(self, r: Reg) -> u32 {
        self.access.regs[r.spec_index() as int]
    }

    pub open spec fn operand(self, x: RegImm) -> u32 {
        match x {
            RegImm::Reg(r) => self.reg(r),
            RegImm::Imm(v) => v,
        }
    }

    /// `base + offset`, wrapping; without a base register, `offset`.
    pub open spec fn address(self, base: Option<Reg>, offset: u32) -> int {
        match base {
            Some(r) => wrap32(self.reg(r) + offset) as int,
            None => offset as int,
        }
    }

    pub open spec fn with_reg(self, r: Reg, v: u32) -> InstanceView {
        InstanceView {
            access: AccessView { regs: self.access.regs.update(r.spec_index() as int, v), ..self.access },
            ..self
        }
    }

    pub open spec fn with_memory(self, m: MemoryView) -> InstanceView {
        InstanceView { access: AccessView { memory: m, ..self.access }, ..self }
    }

    pub open spec fn with_gas(self, g: GasView) -> InstanceView {
        InstanceView { access: AccessView { gas: g, ..self.access }, ..self }
    }

    pub open spec fn next_instruction(self) -> InstanceView {
        InstanceView { nth_instruction: (self.nth_instruction + 1) as u32, ..self }
    }

    /// The instance positioned at the first instruction of basic block `b`.
    pub open spec fn at_block(self, b: u32) -> InstanceView {
        InstanceView {
            nth_basic_block: b,
            nth_instruction: self.module.instruction_by_basic_block[b as int],
            ..self
        }
    }

    /// The instance positioned at the next instruction, in the next basic block.
    pub open spec fn at_next_block(self) -> InstanceView {
        InstanceView {
            nth_basic_block: (self.nth_basic_block + 1) as u32,
            nth_instruction: (self.nth_instruction + 1) as u32,
            ..self
        }
    }

    /// The code address of the block after the current one, where the
    /// jump table gives it one.
    pub open spec fn return_address(self) -> Option<u32> {
        let next = self.nth_basic_block + 1;
        if next < self.block_count() && self.module.jump_table_index_by_basic_block[next] is Some {
            Some((self.module.jump_table_index_by_basic_block[next].unwrap() * VM_CODE_ADDRESS_ALIGNMENT) as u32)
        } else {
            None
        }
    }
}

/// The result of a step that succeeded.
pub open spec fn success() -> Result<(), ExecutionError> {
    Ok(())
}

/// The result is a trap.
pub open spec fn trapped(r: Result<(), ExecutionError>) -> bool {
    r == Err::<(), ExecutionError>(ExecutionError::Trap(Trap))
}

/// What the hooks answered during one instruction, and the guest state that
/// the host-call handler left. Only the answers of installed hooks count: an
/// observer that is not installed accepts.
pub struct HookAnswers {
    /// The register observer's answer to the instruction's register write.
    pub set_reg: Result<(), Trap>,
    /// The store observer's answer to the instruction's store.
    pub store: Result<(), Trap>,
    /// The host-call handler's answer.
    pub hostcall: Result<(), Trap>,
    /// The guest state when the host-call handler returned.
    pub host_access: AccessView,
}

/// The answer that counts for a hook: the given one where the hook is installed, else acceptance.
pub open spec fn answer_of(installed: bool, answer: Result<(), Trap>) -> Result<(), Trap> {
    if installed {
        answer
    } else {
        Ok(())
    }
}

/// An instruction that writes `v` to `dst`, from `pre` to `post` with result
/// `r`, where the register observer answered `answer`: the register is written
/// either way; on acceptance the program counter moves to the next
/// instruction, and on refusal the instruction traps.
pub open spec fn writes_reg(pre: InstanceView, post: InstanceView, r: Result<(), ExecutionError>, dst: Reg, v: u32, answer: Result<(), Trap>) -> bool {
    match answer {
        Ok(()) => r is Ok && post == pre.with_reg(dst, v).next_instruction(),
        Err(_) => trapped(r) && post == pre.with_reg(dst, v),
    }
}

/// The guest state of a new instance of a module: its memory freshly
/// initialised, its registers zero, and no gas.
pub open spec fn fresh_access(module: ModuleView) -> AccessView {
    AccessView {
        memory: MemoryView {
            config: module.memory_config,
            ro_data: module.ro_data,
            heap: zero_padded(module.rw_data, module.memory_config.heap_size as nat),
            stack: zero_padded(Seq::empty(), module.memory_config.stack_size as nat),
        },
        regs: Seq::new(REG_COUNT as nat, |i: int| 0u32),
        gas: GasView {
            remaining: if module.gas_metering is Some { Some(0i64) } else { None },
            budget: 0,
            debited: 0,
            consumed: 0,
            saturated: false,
        },
        program_counter: 0,
    }
}

/// A host call from `pre` to `post` with result `r`, where the handler
/// answered `answer` and left the guest state `host_access`. A guest state of
/// another memory layout is replaced by a fresh one and the call traps; else a
/// refusal traps, and an acceptance moves to the next instruction and fails
/// exactly when the gas has run out.
pub open spec fn finishes_hostcall(pre: InstanceView, post: InstanceView, r: Result<(), ExecutionError>, answer: Result<(), Trap>, host_access: AccessView) -> bool {
    let after = InstanceView { access: host_access, ..pre };
    if host_access.memory.config != pre.access.memory.config {
        trapped(r) && post == (InstanceView { access: fresh_access(pre.module), ..pre })
    } else {
        match answer {
            Err(_) => trapped(r) && post == after,
            Ok(()) => {
                &&& post == after.next_instruction()
                &&& r is Ok <==> !(host_access.gas.remaining matches Some(g) && g < 0)
                &&& r is Err ==> r == Err::<(), ExecutionError>(ExecutionError::OutOfGas)
            },
        }
    }
}

/// Entering the basic block that `mid` is positioned at: its cost is taken from
/// the gas, where there is gas, and running out of it fails. Gives the state
/// after that and the result.
pub open spec fn block_entry(mid: InstanceView) -> (InstanceView, Result<(), ExecutionError>) {
    match mid.access.gas.remaining {
        None => (mid, Ok(())),
        Some(g) => {
            let cost = mid.module.gas_cost_for_basic_block[mid.nth_basic_block as int];
            let debited = if g - cost >= i64::MIN {
                GasView { remaining: Some((g - cost) as i64), debited: mid.access.gas.debited + cost, ..mid.access.gas }
            } else {
                GasView { remaining: Some(i64::MIN), saturated: true, ..mid.access.gas }
            };
            (mid.with_gas(debited), if g - cost >= 0 { Ok(()) } else { Err(ExecutionError::OutOfGas) })
        },
    }
}

/// `post` and `r` are the state and result of entering the block that `mid` is positioned at.
pub open spec fn enters_block(mid: InstanceView, post: InstanceView, r: Result<(), ExecutionError>) -> bool {
    (post, r) == block_entry(mid)
}

/// Entering the block after the current one, at the next instruction; where
/// the module has no such block, the instruction traps.
pub open spec fn enters_next_block(pre: InstanceView, post: InstanceView, r: Result<(), ExecutionError>) -> bool {
    if pre.nth_basic_block + 1 < pre.block_count() {
        enters_block(pre.at_next_block(), post, r)
    } else {
        trapped(r) && post == pre
    }
}

/// A dynamic jump to `target`, from `pre` with the return address, if any, already written.
pub open spec fn jumps_dynamically(pre: InstanceView, post: InstanceView, r: Result<(), ExecutionError>, target: u32) -> bool {
    let j = target / VM_CODE_ADDRESS_ALIGNMENT;
    let table = pre.module.basic_block_by_jump_table_index;
    if target == VM_ADDR_RETURN_TO_HOST {
        r is Ok && post == (InstanceView { return_to_host: true, ..pre })
    } else if target == 0 || target % VM_CODE_ADDRESS_ALIGNMENT != 0 || j >= table.len() || table[j as int] is None {
        trapped(r) && post == pre
    } else {
        enters_block(pre.at_block(table[j as int].unwrap()), post, r)
    }
}

/// What executing `instruction` does to an instance: from `pre` to `post`
/// with result `r`, where `hostcall`, `observed_regs` and `observed_stores`
/// tell which hooks are installed and `answers` what they answered.
pub open spec fn executes(
    pre: InstanceView,
    instruction: Instruction,
    post: InstanceView,
    r: Result<(), ExecutionError>,
    hostcall: bool,
    observed_regs: bool,
    observed_stores: bool,
    answers: HookAnswers,
) -> bool {
    let reg_answer = answer_of(observed_regs, answers.set_reg);
    match instruction {
        Instruction::Trap => trapped(r) && post == pre,
        Instruction::Fallthrough => enters_next_block(pre, post, r),
        Instruction::Ecalli { .. } => if !hostcall {
            trapped(r) && post == pre
        } else {
            finishes_hostcall(pre, post, r, answers.hostcall, answers.host_access)
        },
        Instruction::Op { op, dst, lhs, rhs } => writes_reg(
            pre,
            post,
            r,
            dst,
            spec_binop(op, pre.operand(lhs), pre.operand(rhs)),
            reg_answer,
        ),
        Instruction::LoadImm { dst, imm } => writes_reg(pre, post, r, dst, imm, reg_answer),
        Instruction::MoveReg { dst, src } => writes_reg(pre, post, r, dst, pre.reg(src), reg_answer),
        Instruction::Load { kind, dst, base, offset } => {
            let address = pre.address(base, offset);
            if pre.access.memory.config.readable(address, load_width(kind) as int) {
                writes_reg(
                    pre,
                    post,
                    r,
                    dst,
                    load_value(kind, pre.access.memory.read(address, load_width(kind) as int)),
                    reg_answer,
                )
            } else {
                trapped(r) && post == pre
            }
        },
        Instruction::Store { kind, src, base, offset } => {
            let address = pre.address(base, offset);
            if pre.access.memory.config.writable(address, store_width(kind) as int) {
                let written = pre.with_memory(
                    pre.access.memory.write(address, store_bytes(kind, pre.operand(src))),
                );
                match answer_of(observed_stores, answers.store) {
                    Ok(()) => r is Ok && post == written.next_instruction(),
                    Err(_) => trapped(r) && post == written,
                }
            } else {
                trapped(r) && post == pre
            }
        },
        Instruction::Branch { cond, lhs, rhs, target } => if spec_condition(
            cond,
            pre.reg(lhs),
            pre.operand(rhs),
        ) {
            enters_block(pre.at_block(target), post, r)
        } else {
            enters_next_block(pre, post, r)
        },
        Instruction::Jump { target } => enters_block(pre.at_block(target), post, r),
        Instruction::JumpIndirect { base, offset } => jumps_dynamically(
            pre,
            post,
            r,
            wrap32(pre.reg(base) + offset),
        ),
        Instruction::Call { ra, target } => match pre.return_address() {
            None => trapped(r) && post == pre,
            Some(ret) => {
                let linked = pre.with_reg(ra, ret);
                match reg_answer {
                    Ok(()) => enters_block(linked.at_block(target), post, r),
                    Err(_) => trapped(r) && post == linked,
                }
            },
        },
        Instruction::CallIndirect { ra, base, offset } => match pre.return_address() {
            None => trapped(r) && post == pre,
            Some(ret) => {
                let linked = pre.with_reg(ra, ret);
                match reg_answer {
                    Ok(()) => jumps_dynamically(linked, post, r, wrap32(pre.reg(base) + offset)),
                    Err(_) => trapped(r) && post == linked,
                }
            },
        },
    }
}

/// One fetch and execution from `s`: the fetch is counted, and a program
/// counter past the end of the code, or a counter that cannot count further, traps.
pub open spec fn fetches_and_executes(
    s: InstanceView,
    post: InstanceView,
    r: Result<(), ExecutionError>,
    hostcall: bool,
    observed_regs: bool,
    observed_stores: bool,
    answers: HookAnswers,
) -> bool {
    if s.cycle_counter == u64::MAX {
        trapped(r) && post == s
    } else {
        let counted = InstanceView { cycle_counter: (s.cycle_counter + 1) as u64, ..s };
        if s.nth_instruction >= s.module.instructions.len() {
            trapped(r) && post == counted
        } else {
            executes(
                counted,
                s.module.instructions[s.nth_instruction as int],
                post,
                r,
                hostcall,
                observed_regs,
                observed_stores,
                answers,
            )
        }
    }
}

/// One step: on the first step of a call the entry block is charged first.
#[verifier::opaque]
pub open spec fn steps(
    pre: InstanceView,
    post: InstanceView,
    r: Result<(), ExecutionError>,
    hostcall: bool,
    observed_regs: bool,
    observed_stores: bool,
    answers: HookAnswers,
) -> bool {
    if pre.in_new_execution {
        let entry = block_entry(InstanceView { in_new_execution: false, ..pre });
        if entry.1 is Err {
            post == entry.0 && r == entry.1
        } else {
            fetches_and_executes(entry.0, post, r, hostcall, observed_regs, observed_stores, answers)
        }
    } else {
        fetches_and_executes(pre, post, r, hostcall, observed_regs, observed_stores, answers)
    }
}

/// `trace` is a run so far in which the hooks answered `answers`: from its
/// first state, each state follows from the one before by a step that
/// succeeds without returning to the host.
pub open spec fn runs_through(
    trace: Seq<InstanceView>,
    answers: Seq<HookAnswers>,
    hostcall: bool,
    observed_regs: bool,
    observed_stores: bool,
) -> bool {
    &&& trace.len() >= 1
    &&& answers.len() == trace.len() - 1
    &&& forall|i: int|
        0 <= i < trace.len() - 1 ==> #[trigger] steps(trace[i], trace[i + 1], success(), hostcall, observed_regs, observed_stores, answers[i])
            && !trace[i + 1].return_to_host
}

/// `trace` is a run in which the hooks answered `answers`: all steps but the
/// last succeed without returning to the host, and the last one ends with `r`
/// and, when it succeeds, returns to the host.
pub open spec fn is_run(
    trace: Seq<InstanceView>,
    answers: Seq<HookAnswers>,
    r: Result<(), ExecutionError>,
    hostcall: bool,
    observed_regs: bool,
    observed_stores: bool,
) -> bool {
    &&& trace.len() >= 2
    &&& answers.len() == trace.len() - 1
    &&& runs_through(trace.drop_last(), answers.drop_last(), hostcall, observed_regs, observed_stores)
    &&& steps(trace[trace.len() - 2], trace[trace.len() - 1], r, hostcall, observed_regs, observed_stores, answers[trace.len() - 2])
    &&& r is Ok ==> trace[trace.len() - 1].return_to_host
}

/// Answers of hooks that all accept, with the guest state `access` as the one a
/// host-call handler left.
pub open spec fn accepting(access: AccessView) -> HookAnswers {
    HookAnswers { set_reg: Ok(()), store: Ok(()), hostcall: Ok(()), host_access: access }
}

/// A step keeps the module and the memory layout.
#[verifier::rlimit(50)]
pub proof fn lemma_step_keeps_layout(
    pre: InstanceView,
    post: InstanceView,
    r: Result<(), ExecutionError>,
    hostcall: bool,
    observed_regs: bool,
    observed_stores: bool,
    answers: HookAnswers,
)
    requires
        pre.wf(),
        steps(pre, post, r, hostcall, observed_regs, observed_stores, answers),
    ensures
        post.module == pre.module,
        post.access.memory.config == pre.access.memory.config,
{
    reveal(steps);
    let s = if pre.in_new_execution {
        block_entry(InstanceView { in_new_execution: false, ..pre }).0
    } else {
        pre
    };
    if pre.in_new_execution && block_entry(InstanceView { in_new_execution: false, ..pre }).1 is Err {
    } else if s.cycle_counter != u64::MAX && s.nth_instruction < s.module.instructions.len() {
        let counted = InstanceView { cycle_counter: (s.cycle_counter + 1) as u64, ..s };
        let instruction = s.module.instructions[s.nth_instruction as int];
        match instruction {
            Instruction::Store { kind, src, base, offset } => {
                let address = counted.address(base, offset);
                if counted.access.memory.config.writable(address, store_width(kind) as int) {
                    crate::memory::lemma_write_then_read(
                        counted.access.memory,
                        address,
                        store_bytes(kind, counted.operand(src)),
                    );
                }
            },
            _ => {},
        }
    }
}

/// The instance after its memory is reset: the heap holds the initial
/// read-write data followed by zeros, and the stack holds zeros.
pub open spec fn memory_reset(s: InstanceView) -> InstanceView {
    InstanceView {
        access: AccessView {
            memory: MemoryView {
                heap: zero_padded(s.module.rw_data, s.module.memory_config.heap_size as nat),
                stack: zero_padded(Seq::empty(), s.module.memory_config.stack_size as nat),
                ..s.access.memory
            },
            ..s.access
        },
        ..s
    }
}

/// The gas at the start of a call with `config`.
pub open spec fn gas_for_call(pre: InstanceView, config: ExecutionConfig) -> GasView {
    if pre.module.gas_metering is None {
        GasView { remaining: None, budget: 0, debited: 0, consumed: 0, saturated: false }
    } else {
        match config.gas {
            Some(g) => GasView { remaining: Some(g.spec_get() as i64), budget: g.spec_get() as int, debited: 0, consumed: 0, saturated: false },
            None => match pre.access.gas.remaining {
                Some(g) => GasView { remaining: Some(g), budget: g as int, debited: 0, consumed: 0, saturated: false },
                None => GasView { remaining: None, budget: 0, debited: 0, consumed: 0, saturated: false },
            },
        }
    }
}

/// The instance positioned at the entry of export `export_index`, with the
/// registers and gas of `config`.
pub open spec fn prepared(pre: InstanceView, export_index: int, config: ExecutionConfig) -> InstanceView {
    let block = pre.module.exports[export_index];
    InstanceView {
        access: AccessView { regs: config.initial_regs@, gas: gas_for_call(pre, config), ..pre.access },
        nth_basic_block: block,
        nth_instruction: pre.module.instruction_by_basic_block[block as int],
        return_to_host: false,
        in_new_execution: true,
        ..pre
    }
}

/// Both contexts have the same hooks installed.
pub open spec fn same_hooks<H, R, S>(a: InterpreterContext<H, R, S>, b: InterpreterContext<H, R, S>) -> bool {
    &&& a.on_hostcall is Some <==> b.on_hostcall is Some
    &&& a.on_set_reg is Some <==> b.on_set_reg is Some
    &&& a.on_store is Some <==> b.on_store is Some
}

/// A copy of `v`.
fn copy_bytes(v: &Vec<u8>) -> (r: Vec<u8>)
    ensures
        r@ == v@,
{
    let mut r: Vec<u8> = Vec::new();
    let mut i: usize = 0;
    while i < v.len()
        invariant
            i <= v.len(),
            r@ == v@.subrange(0, i as int),
        decreases v.len() - i,
    {
        r.push(v[i]);
        i += 1;
        assert(r@ =~= v@.subrange(0, i as int));
    }
    assert(r@ =~= v@);
    r
}

/// A fresh heap: the initial read-write data followed by zeros.
fn fresh_heap(rw_data: &Vec<u8>, heap_size: u32) -> (r: Vec<u8>)
    requires
        rw_data@.len() <= heap_size,
    ensures
        r@ == zero_padded(rw_data@, heap_size as nat),
{
    let mut heap = copy_bytes(rw_data);
    pad_with_zeros(&mut heap, heap_size as usize);
    heap
}

/// A fresh stack: all zeros.
fn fresh_stack(stack_size: u32) -> (r: Vec<u8>)
    ensures
        r@ == zero_padded(Seq::empty(), stack_size as nat),
{
    let mut stack: Vec<u8> = Vec::new();
    pad_with_zeros(&mut stack, stack_size as usize);
    stack
}

/// An instance of a module: the state of one guest, run by the interpreter.
pub struct InterpretedInstance {
    module: InterpretedModule,
    access: InterpretedAccess,
    nth_instruction: u32,
    nth_basic_block: u32,
    return_to_host: bool,
    cycle_counter: u64,
    in_new_execution: bool,
}

impl View for InterpretedInstance {
    type V = InstanceView;

    closed spec fn view(&self) -> InstanceView {
        InstanceView {
            module: self.module@,
            access: self.access@,
            nth_instruction: self.nth_instruction,
            nth_basic_block: self.nth_basic_block,
            return_to_host: self.return_to_host,
            cycle_counter: self.cycle_counter,
            in_new_execution: self.in_new_execution,
        }
    }
}

impl InstanceView {
    /// The invariant of an instance between operations.
    pub open spec fn wf(self) -> bool {
        &&& self.module.wf()
        &&& self.access.memory.wf()
        &&& self.access.regs.len() == REG_COUNT
        &&& self.access.gas.balanced()
        &&& self.access.memory.config == self.module.memory_config
        &&& self.nth_basic_block <= self.block_count()
        &&& self.in_new_execution ==> self.nth_basic_block < self.block_count()
    }
}

impl InterpretedInstance {
    pub closed spec fn wf(&self) -> bool {
        &&& self@.access.memory.config == self@.module.memory_config
        &&& self.nth_basic_block <= self@.block_count()
        &&& self.in_new_execution ==> self.nth_basic_block < self@.block_count()
    }

    /// A new instance of `module`, its memory freshly initialised, its
    /// registers zero, and no call prepared.
    pub fn new(module: InterpretedModule) -> (r: Self)
        ensures
            r.wf(),
            r@.wf(),
            r@.module == module@,
            r@.access.memory.ro_data == module@.ro_data,
            r@.access.memory.heap == zero_padded(module@.rw_data, module@.memory_config.heap_size as nat),
            r@.access.memory.stack == zero_padded(Seq::empty(), module@.memory_config.stack_size as nat),
            r@.access.regs == Seq::new(REG_COUNT as nat, |i: int| 0u32),
            r@.access.gas.remaining == if module@.gas_metering is Some { Some(0i64) } else { None },
            r@.return_to_host,
            r@.cycle_counter == 0,
            !r@.in_new_execution,
    {
        let access = InterpretedAccess::fresh(&module);
        let r = InterpretedInstance {
            module,
            access,
            nth_instruction: VM_ADDR_RETURN_TO_HOST,
            nth_basic_block: 0,
            return_to_host: true,
            cycle_counter: 0,
            in_new_execution: false,
        };
        proof {
            use_type_invariant(&r.module);
            use_type_invariant(&r.access);
            use_type_invariant(&r.access.gas);
        }
        r
    }

    /// Read access to the guest state: registers, memory and gas.
    pub fn access(&self) -> (r: &InterpretedAccess)
        ensures
            r@ == self@.access,
    {
        &self.access
    }

    /// The index of the instruction to execute next.
    pub fn program_counter(&self) -> (r: u32)
        ensures
            r == self@.nth_instruction,
    {
        self.nth_instruction
    }

    /// The index of the current basic block.
    pub fn basic_block(&self) -> (r: u32)
        ensures
            r == self@.nth_basic_block,
    {
        self.nth_basic_block
    }

    /// How many instructions were fetched since the instance was made.
    pub fn cycle_counter(&self) -> (r: u64)
        ensures
            r == self@.cycle_counter,
    {
        self.cycle_counter
    }

    /// Restores the heap to the initial read-write data followed by zeros, and
    /// the stack to zeros.
    pub fn reset_memory(&mut self)
        requires
            old(self).wf(),
        ensures
            final(self).wf(),
            final(self)@ == memory_reset(old(self)@),
    {
        proof {
            use_type_invariant(&self.module);
            use_type_invariant(&self.access);
            use_type_invariant(&self.access.gas);
        }
        let heap = fresh_heap(&self.module.rw_data, self.module.memory_config.heap_size);
        let stack = fresh_stack(self.module.memory_config.stack_size);
        self.access.heap = heap;
        self.access.stack = stack;
    }

    /// Positions the instance at the entry of export `export_index` with the
    /// configured registers and gas, so that the next run starts there.
    pub fn prepare_for_call(&mut self, export_index: usize, config: &ExecutionConfig)
        requires
            old(self).wf(),
            export_index < old(self)@.module.exports.len(),
        ensures
            final(self).wf(),
            final(self)@ == prepared(old(self)@, export_index as int, *config),
    {
        proof {
            use_type_invariant(&self.module);
            use_type_invariant(&self.access);
            use_type_invariant(&self.access.gas);
        }
        let nth_basic_block = self.module.exports[export_index];
        let nth_instruction = self.module.instruction_by_basic_block[nth_basic_block as usize];
        self.return_to_host = false;
        self.access.regs = config.initial_regs;
        self.nth_instruction = nth_instruction;
        self.nth_basic_block = nth_basic_block;
        if self.module.gas_metering.is_some() {
            if let Some(gas) = config.gas {
                self.access.gas = GasMeter::with_budget(gas.get() as i64);
            } else {
                self.access.gas = self.access.gas.carried_over();
            }
        } else {
            self.access.gas = GasMeter::unmetered();
        }
        self.in_new_execution = true;
    }

    /// Charges the cost of the basic block just entered, where there is gas;
    /// running out of it fails.
    fn on_start_new_basic_block(&mut self) -> (r: Result<(), ExecutionError>)
        requires
            old(self).wf(),
            old(self).nth_basic_block < old(self)@.block_count(),
        ensures
            final(self).wf(),
            enters_block(old(self)@, final(self)@, r),
    {
        proof {
            use_type_invariant(&self.module);
            use_type_invariant(&self.access);
        }
        match self.access.gas.remaining() {
            None => Ok(()),
            Some(_) => {
                let cost = self.module.gas_cost_for_basic_block[self.nth_basic_block as usize];
                self.access.gas = self.access.gas.debit(cost);
                match self.access.gas.remaining() {
                    Some(g) => if g < 0 {
                        Err(ExecutionError::OutOfGas)
                    } else {
                        Ok(())
                    },
                    None => Ok(()),
                }
            },
        }
    }

    fn get(&self, x: RegImm) -> (r: u32)
        ensures
            r == self@.operand(x),
    {
        match x {
            RegImm::Reg(reg) => self.access.get_reg(reg),
            RegImm::Imm(value) => value,
        }
    }

    /// Writes a register and asks the observer, if any; gives its answer.
    fn set<H: OnHostcall, R: OnSetReg, S: OnStore>(
        &mut self,
        ctx: &mut InterpreterContext<H, R, S>,
        dst: Reg,
        value: u32,
    ) -> (answer: Result<(), Trap>)
        requires
            old(self).wf(),
        ensures
            final(self).wf(),
            same_hooks(*old(ctx), *final(ctx)),
            final(self)@ == old(self)@.with_reg(dst, value),
            old(ctx).on_set_reg is None ==> answer is Ok,
    {
        self.access.set_reg(dst, value);
        match &mut ctx.on_set_reg {
            Some(on_set_reg) => on_set_reg.on_set_reg(dst, value),
            None => Ok(()),
        }
    }

    /// Ends an instruction whose hook answered `answer`: on acceptance the
    /// program counter moves to the next instruction; a refusal traps.
    fn advance_if_accepted(&mut self, answer: Result<(), Trap>) -> (r: Result<(), ExecutionError>)
        requires
            old(self).wf(),
            old(self).nth_instruction < old(self)@.module.instructions.len(),
        ensures
            final(self).wf(),
            match answer {
                Ok(()) => r is Ok && final(self)@ == old(self)@.next_instruction(),
                Err(_) => trapped(r) && final(self)@ == old(self)@,
            },
    {
        proof {
            use_type_invariant(&self.module);
        }
        match answer {
            Ok(()) => {
                self.nth_instruction += 1;
                Ok(())
            },
            Err(_) => Err(ExecutionError::Trap(Trap)),
        }
    }

    /// Writes `value` to `dst` and ends the instruction by the observer's answer.
    fn write_and_advance<H: OnHostcall, R: OnSetReg, S: OnStore>(
        &mut self,
        ctx: &mut InterpreterContext<H, R, S>,
        dst: Reg,
        value: u32,
    ) -> (r: Result<(), ExecutionError>)
        requires
            old(self).wf(),
            old(self).nth_instruction < old(self)@.module.instructions.len(),
        ensures
            final(self).wf(),
            same_hooks(*old(ctx), *final(ctx)),
            exists|answer: Result<(), Trap>|
                (old(ctx).on_set_reg is None ==> answer is Ok)
                    && #[trigger] writes_reg(old(self)@, final(self)@, r, dst, value, answer),
    {
        let answer = self.set(ctx, dst, value);
        let r = self.advance_if_accepted(answer);
        proof {
            assert(writes_reg(old(self)@, self@, r, dst, value, answer));
        }
        r
    }

    fn set3<H: OnHostcall, R: OnSetReg, S: OnStore>(
        &mut self,
        ctx: &mut InterpreterContext<H, R, S>,
        op: BinOp,
        dst: Reg,
        lhs: RegImm,
        rhs: RegImm,
    ) -> (r: Result<(), ExecutionError>)
        requires
            old(self).wf(),
            old(self).nth_instruction < old(self)@.module.instructions.len(),
        ensures
            final(self).wf(),
            same_hooks(*old(ctx), *final(ctx)),
            exists|answers: HookAnswers|
                #[trigger] executes(
                    old(self)@,
                    Instruction::Op { op, dst, lhs, rhs },
                    final(self)@,
                    r,
                    old(ctx).on_hostcall is Some,
                    old(ctx).on_set_reg is Some,
                    old(ctx).on_store is Some,
                    answers,
                ),
    {
        let ghost pre = self@;
        let value = op.evaluate(self.get(lhs), self.get(rhs));
        let r = self.write_and_advance(ctx, dst, value);
        proof {
            let answer = choose|answer: Result<(), Trap>|
                (old(ctx).on_set_reg is None ==> answer is Ok)
                    && #[trigger] writes_reg(pre, self@, r, dst, value, answer);
            let answers = HookAnswers { set_reg: answer, ..accepting(pre.access) };
            assert(executes(pre, Instruction::Op { op, dst, lhs, rhs }, self@, r, old(ctx).on_hostcall is Some, old(ctx).on_set_reg is Some, old(ctx).on_store is Some, answers));
        }
        r
    }

    fn load_imm<H: OnHostcall, R: OnSetReg, S: OnStore>(
        &mut self,
        ctx: &mut InterpreterContext<H, R, S>,
        dst: Reg,
        imm: u32,
    ) -> (r: Result<(), ExecutionError>)
        requires
            old(self).wf(),
            old(self).nth_instruction < old(self)@.module.instructions.len(),
        ensures
            final(self).wf(),
            same_hooks(*old(ctx), *final(ctx)),
            exists|answers: HookAnswers|
                #[trigger] executes(
                    old(self)@,
                    Instruction::LoadImm { dst, imm },
                    final(self)@,
                    r,
                    old(ctx).on_hostcall is Some,
                    old(ctx).on_set_reg is Some,
                    old(ctx).on_store is Some,
                    answers,
                ),
    {
        let ghost pre = self@;
        let r = self.write_and_advance(ctx, dst, imm);
        proof {
            let answer = choose|answer: Result<(), Trap>|
                (old(ctx).on_set_reg is None ==> answer is Ok)
                    && #[trigger] writes_reg(pre, self@, r, dst, imm, answer);
            let answers = HookAnswers { set_reg: answer, ..accepting(pre.access) };
            assert(executes(pre, Instruction::LoadImm { dst, imm }, self@, r, old(ctx).on_hostcall is Some, old(ctx).on_set_reg is Some, old(ctx).on_store is Some, answers));
        }
        r
    }

    fn move_reg<H: OnHostcall, R: OnSetReg, S: OnStore>(
        &mut self,
        ctx: &mut InterpreterContext<H, R, S>,
        dst: Reg,
        src: Reg,
    ) -> (r: Result<(), ExecutionError>)
        requires
            old(self).wf(),
            old(self).nth_instruction < old(self)@.module.instructions.len(),
        ensures
            final(self).wf(),
            same_hooks(*old(ctx), *final(ctx)),
            exists|answers: HookAnswers|
                #[trigger] executes(
                    old(self)@,
                    Instruction::MoveReg { dst, src },
                    final(self)@,
                    r,
                    old(ctx).on_hostcall is Some,
                    old(ctx).on_set_reg is Some,
                    old(ctx).on_store is Some,
                    answers,
                ),
    {
        let ghost pre = self@;
        let value = self.access.get_reg(src);
        let r = self.write_and_advance(ctx, dst, value);
        proof {
            let answer = choose|answer: Result<(), Trap>|
                (old(ctx).on_set_reg is None ==> answer is Ok)
                    && #[trigger] writes_reg(pre, self@, r, dst, value, answer);
            let answers = HookAnswers { set_reg: answer, ..accepting(pre.access) };
            assert(executes(pre, Instruction::MoveReg { dst, src }, self@, r, old(ctx).on_hostcall is Some, old(ctx).on_set_reg is Some, old(ctx).on_store is Some, answers));
        }
        r
    }

    fn effective_address(&self, base: Option<Reg>, offset: u32) -> (r: u32)
        ensures
            r == self@.address(base, offset),
    {
        match base {
            Some(base) => wrapping_add(self.access.get_reg(base), offset),
            None => offset,
        }
    }

    fn load<H: OnHostcall, R: OnSetReg, S: OnStore>(
        &mut self,
        ctx: &mut InterpreterContext<H, R, S>,
        kind: LoadKind,
        dst: Reg,
        base: Option<Reg>,
        offset: u32,
    ) -> (r: Result<(), ExecutionError>)
        requires
            old(self).wf(),
            old(self).nth_instruction < old(self)@.module.instructions.len(),
        ensures
            final(self).wf(),
            same_hooks(*old(ctx), *final(ctx)),
            exists|answers: HookAnswers|
                #[trigger] executes(
                    old(self)@,
                    Instruction::Load { kind, dst, base, offset },
                    final(self)@,
                    r,
                    old(ctx).on_hostcall is Some,
                    old(ctx).on_set_reg is Some,
                    old(ctx).on_store is Some,
                    answers,
                ),
    {
        let ghost pre = self@;
        let address = self.effective_address(base, offset);
        let length: u32 = match kind {
            LoadKind::U8 | LoadKind::I8 => 1,
            LoadKind::U16 | LoadKind::I16 => 2,
            LoadKind::U32 => 4,
        };
        let value = match self.access.get_memory_slice(address, length) {
            None => {
                proof {
                    assert(executes(pre, Instruction::Load { kind, dst, base, offset }, self@, Err(ExecutionError::Trap(Trap)), old(ctx).on_hostcall is Some, old(ctx).on_set_reg is Some, old(ctx).on_store is Some, accepting(pre.access)));
                }
                return Err(ExecutionError::Trap(Trap));
            },
            Some(slice) => decode(kind, slice),
        };
        let r = self.write_and_advance(ctx, dst, value);
        proof {
            let answer = choose|answer: Result<(), Trap>|
                (old(ctx).on_set_reg is None ==> answer is Ok)
                    && #[trigger] writes_reg(pre, self@, r, dst, value, answer);
            let answers = HookAnswers { set_reg: answer, ..accepting(pre.access) };
            assert(executes(pre, Instruction::Load { kind, dst, base, offset }, self@, r, old(ctx).on_hostcall is Some, old(ctx).on_set_reg is Some, old(ctx).on_store is Some, answers));
        }
        r
    }

    fn store<H: OnHostcall, R: OnSetReg, S: OnStore>(
        &mut self,
        ctx: &mut InterpreterContext<H, R, S>,
        kind: StoreKind,
        src: RegImm,
        base: Option<Reg>,
        offset: u32,
    ) -> (r: Result<(), ExecutionError>)
        requires
            old(self).wf(),
            old(self).nth_instruction < old(self)@.module.instructions.len(),
        ensures
            final(self).wf(),
            same_hooks(*old(ctx), *final(ctx)),
            exists|answers: HookAnswers|
                #[trigger] executes(
                    old(self)@,
                    Instruction::Store { kind, src, base, offset },
                    final(self)@,
                    r,
                    old(ctx).on_hostcall is Some,
                    old(ctx).on_set_reg is Some,
                    old(ctx).on_store is Some,
                    answers,
                ),
    {
        let ghost pre = self@;
        let address = self.effective_address(base, offset);
        let value = self.get(src);
        let bytes = encode(kind, value);
        if !self.access.write_memory_bytes(address, bytes.as_slice()) {
            proof {
                assert(executes(pre, Instruction::Store { kind, src, base, offset }, self@, Err(ExecutionError::Trap(Trap)), old(ctx).on_hostcall is Some, old(ctx).on_set_reg is Some, old(ctx).on_store is Some, accepting(pre.access)));
            }
            return Err(ExecutionError::Trap(Trap));
        }
        let answer = match &mut ctx.on_store {
            Some(on_store) => on_store.on_store(address, bytes.as_slice()),
            None => Ok(()),
        };
        let r = self.advance_if_accepted(answer);
        proof {
            let answers = HookAnswers { store: answer, ..accepting(pre.access) };
            assert(executes(pre, Instruction::Store { kind, src, base, offset }, self@, r, old(ctx).on_hostcall is Some, old(ctx).on_set_reg is Some, old(ctx).on_store is Some, answers));
        }
        r
    }

    /// Moves to the first instruction of basic block `target` and enters it.
    fn jump_to_block(&mut self, target: u32) -> (r: Result<(), ExecutionError>)
        requires
            old(self).wf(),
            target < old(self)@.block_count(),
        ensures
            final(self).wf(),
            enters_block(old(self)@.at_block(target), final(self)@, r),
    {
        proof {
            use_type_invariant(&self.module);
        }
        self.nth_instruction = self.module.instruction_by_basic_block[target as usize];
        self.nth_basic_block = target;
        self.on_start_new_basic_block()
    }

    /// Moves to the next instruction, which starts the next basic block, and enters it.
    fn enter_next_block(&mut self) -> (r: Result<(), ExecutionError>)
        requires
            old(self).wf(),
            old(self).nth_instruction < old(self)@.module.instructions.len(),
        ensures
            final(self).wf(),
            enters_next_block(old(self)@, final(self)@, r),
    {
        proof {
            use_type_invariant(&self.module);
        }
        if self.nth_basic_block as usize + 1 >= self.module.instruction_by_basic_block.len() {
            return Err(ExecutionError::Trap(Trap));
        }
        self.nth_instruction += 1;
        self.nth_basic_block += 1;
        self.on_start_new_basic_block()
    }

    fn branch(&mut self, cond: Condition, lhs: Reg, rhs: RegImm, target: u32) -> (r: Result<(), ExecutionError>)
        requires
            old(self).wf(),
            old(self).nth_instruction < old(self)@.module.instructions.len(),
            target < old(self)@.block_count(),
        ensures
            final(self).wf(),
            executes(old(self)@, Instruction::Branch { cond, lhs, rhs, target }, final(self)@, r, false, false, false, accepting(old(self)@.access)),
    {
        let a = self.access.get_reg(lhs);
        let b = self.get(rhs);
        if cond.holds(a, b) {
            self.jump_to_block(target)
        } else {
            self.enter_next_block()
        }
    }

    /// The code address of the basic block after the current one.
    fn get_return_address(&self) -> (r: Option<u32>)
        requires
            self.wf(),
        ensures
            r == self@.return_address(),
    {
        proof {
            use_type_invariant(&self.module);
        }
        let next = self.nth_basic_block as usize + 1;
        if next < self.module.instruction_by_basic_block.len() {
            match self.module.jump_table_index_by_basic_block[next] {
                Some(index) => Some(index * VM_CODE_ADDRESS_ALIGNMENT),
                None => None,
            }
        } else {
            None
        }
    }

    /// A jump to the code address `target`: the return-to-host address ends
    /// the run; zero, a misaligned address or one without a jump table entry
    /// traps; else the basic block that the jump table gives is entered.
    fn jump_to_address(&mut self, target: u32) -> (r: Result<(), ExecutionError>)
        requires
            old(self).wf(),
        ensures
            final(self).wf(),
            jumps_dynamically(old(self)@, final(self)@, r, target),
    {
        proof {
            use_type_invariant(&self.module);
        }
        if target == VM_ADDR_RETURN_TO_HOST {
            self.return_to_host = true;
            return Ok(());
        }
        if target == 0 {
            return Err(ExecutionError::Trap(Trap));
        }
        if target % VM_CODE_ADDRESS_ALIGNMENT != 0 {
            return Err(ExecutionError::Trap(Trap));
        }
        let index = (target / VM_CODE_ADDRESS_ALIGNMENT) as usize;
        if index >= self.module.basic_block_by_jump_table_index.len() {
            return Err(ExecutionError::Trap(Trap));
        }
        match self.module.basic_block_by_jump_table_index[index] {
            None => Err(ExecutionError::Trap(Trap)),
            Some(nth_basic_block) => self.jump_to_block(nth_basic_block),
        }
    }

    /// Ends a static call whose return-address write the observer answered
    /// with `answer`: on acceptance basic block `target` is entered; a refusal traps.
    fn finish_call(&mut self, answer: Result<(), Trap>, target: u32) -> (r: Result<(), ExecutionError>)
        requires
            old(self).wf(),
            target < old(self)@.block_count(),
        ensures
            final(self).wf(),
            match answer {
                Ok(()) => enters_block(old(self)@.at_block(target), final(self)@, r),
                Err(_) => trapped(r) && final(self)@ == old(self)@,
            },
    {
        match answer {
            Ok(()) => self.jump_to_block(target),
            Err(_) => Err(ExecutionError::Trap(Trap)),
        }
    }

    /// Ends an indirect call whose return-address write the observer answered
    /// with `answer`: on acceptance the jump to `target` follows; a refusal traps.
    fn finish_indirect_call(&mut self, answer: Result<(), Trap>, target: u32) -> (r: Result<(), ExecutionError>)
        requires
            old(self).wf(),
        ensures
            final(self).wf(),
            match answer {
                Ok(()) => jumps_dynamically(old(self)@, final(self)@, r, target),
                Err(_) => trapped(r) && final(self)@ == old(self)@,
            },
    {
        match answer {
            Ok(()) => self.jump_to_address(target),
            Err(_) => Err(ExecutionError::Trap(Trap)),
        }
    }

    /// Ends a host call that the handler answered with `answer`, the guest
    /// state being what the handler left: on acceptance the program counter
    /// moves to the next instruction and the call fails exactly when the gas
    /// has run out; a refusal traps.
    fn finish_hostcall(&mut self, answer: Result<(), Trap>) -> (r: Result<(), ExecutionError>)
        requires
            old(self).wf(),
            old(self).nth_instruction < old(self)@.module.instructions.len(),
        ensures
            final(self).wf(),
            match answer {
                Err(_) => trapped(r) && final(self)@ == old(self)@,
                Ok(()) => {
                    &&& final(self)@ == old(self)@.next_instruction()
                    &&& r is Ok <==> !(old(self)@.access.gas.remaining matches Some(g) && g < 0)
                    &&& r is Err ==> r == Err::<(), ExecutionError>(ExecutionError::OutOfGas)
                },
            },
    {
        proof {
            use_type_invariant(&self.module);
        }
        match answer {
            Err(_) => Err(ExecutionError::Trap(Trap)),
            Ok(()) => {
                self.nth_instruction += 1;
                self.check_gas()
            },
        }
    }

    fn jump_indirect(&mut self, base: Reg, offset: u32) -> (r: Result<(), ExecutionError>)
        requires
            old(self).wf(),
        ensures
            final(self).wf(),
            executes(old(self)@, Instruction::JumpIndirect { base, offset }, final(self)@, r, false, false, false, accepting(old(self)@.access)),
    {
        let target = wrapping_add(self.access.get_reg(base), offset);
        self.jump_to_address(target)
    }

    /// Calls the host; the host call's access handle is the guest state.
    fn ecalli<H: OnHostcall, R: OnSetReg, S: OnStore>(
        &mut self,
        ctx: &mut InterpreterContext<H, R, S>,
        imm: u32,
    ) -> (r: Result<(), ExecutionError>)
        requires
            old(self).wf(),
            old(self).nth_instruction < old(self)@.module.instructions.len(),
        ensures
            final(self).wf(),
            same_hooks(*old(ctx), *final(ctx)),
            exists|answers: HookAnswers|
                #[trigger] executes(
                    old(self)@,
                    Instruction::Ecalli { imm },
                    final(self)@,
                    r,
                    old(ctx).on_hostcall is Some,
                    old(ctx).on_set_reg is Some,
                    old(ctx).on_store is Some,
                    answers,
                ),
    {
        let ghost pre = self@;
        proof {
            use_type_invariant(&self.module);
            use_type_invariant(&self.access);
        }
        match &mut ctx.on_hostcall {
            None => {
                proof {
                    assert(executes(pre, Instruction::Ecalli { imm }, self@, Err(ExecutionError::Trap(Trap)), old(ctx).on_hostcall is Some, old(ctx).on_set_reg is Some, old(ctx).on_store is Some, accepting(pre.access)));
                }
                Err(ExecutionError::Trap(Trap))
            },
            Some(on_hostcall) => {
                self.access.program_counter = self.nth_instruction;
                let answer = on_hostcall.on_hostcall(imm, &mut self.access);
                proof {
                    use_type_invariant(&self.access);
                }
                let ghost answers = HookAnswers { hostcall: answer, ..accepting(self@.access) };
                if self.access.config != self.module.memory_config {
                    // The handler swapped in the state of an instance of another
                    // module; this instance starts over from fresh state.
                    self.access = InterpretedAccess::fresh(&self.module);
                    proof {
                        assert(self@.access == fresh_access(pre.module));
                        assert(executes(pre, Instruction::Ecalli { imm }, self@, Err(ExecutionError::Trap(Trap)), old(ctx).on_hostcall is Some, old(ctx).on_set_reg is Some, old(ctx).on_store is Some, answers));
                    }
                    return Err(ExecutionError::Trap(Trap));
                }
                let r = self.finish_hostcall(answer);
                proof {
                    assert(executes(pre, Instruction::Ecalli { imm }, self@, r, old(ctx).on_hostcall is Some, old(ctx).on_set_reg is Some, old(ctx).on_store is Some, answers));
                }
                r
            },
        }
    }

    fn jump(&mut self, target: u32) -> (r: Result<(), ExecutionError>)
        requires
            old(self).wf(),
            target < old(self)@.block_count(),
        ensures
            final(self).wf(),
            executes(old(self)@, Instruction::Jump { target }, final(self)@, r, false, false, false, accepting(old(self)@.access)),
    {
        self.jump_to_block(target)
    }

    fn static_call<H: OnHostcall, R: OnSetReg, S: OnStore>(
        &mut self,
        ctx: &mut InterpreterContext<H, R, S>,
        ra: Reg,
        target: u32,
    ) -> (r: Result<(), ExecutionError>)
        requires
            old(self).wf(),
            target < old(self)@.block_count(),
        ensures
            final(self).wf(),
            same_hooks(*old(ctx), *final(ctx)),
            exists|answers: HookAnswers|
                #[trigger] executes(
                    old(self)@,
                    Instruction::Call { ra, target },
                    final(self)@,
                    r,
                    old(ctx).on_hostcall is Some,
                    old(ctx).on_set_reg is Some,
                    old(ctx).on_store is Some,
                    answers,
                ),
    {
        let ghost pre = self@;
        let return_address = match self.get_return_address() {
            Some(address) => address,
            None => {
                proof {
                    assert(executes(pre, Instruction::Call { ra, target }, self@, Err(ExecutionError::Trap(Trap)), old(ctx).on_hostcall is Some, old(ctx).on_set_reg is Some, old(ctx).on_store is Some, accepting(pre.access)));
                }
                return Err(ExecutionError::Trap(Trap));
            },
        };
        let answer = self.set(ctx, ra, return_address);
        let r = self.finish_call(answer, target);
        proof {
            let answers = HookAnswers { set_reg: answer, ..accepting(pre.access) };
            assert(executes(pre, Instruction::Call { ra, target }, self@, r, old(ctx).on_hostcall is Some, old(ctx).on_set_reg is Some, old(ctx).on_store is Some, answers));
        }
        r
    }

    fn call_indirect<H: OnHostcall, R: OnSetReg, S: OnStore>(
        &mut self,
        ctx: &mut InterpreterContext<H, R, S>,
        ra: Reg,
        base: Reg,
        offset: u32,
    ) -> (r: Result<(), ExecutionError>)
        requires
            old(self).wf(),
        ensures
            final(self).wf(),
            same_hooks(*old(ctx), *final(ctx)),
            exists|answers: HookAnswers|
                #[trigger] executes(
                    old(self)@,
                    Instruction::CallIndirect { ra, base, offset },
                    final(self)@,
                    r,
                    old(ctx).on_hostcall is Some,
                    old(ctx).on_set_reg is Some,
                    old(ctx).on_store is Some,
                    answers,
                ),
    {
        let ghost pre = self@;
        let return_address = match self.get_return_address() {
            Some(address) => address,
            None => {
                proof {
                    assert(executes(pre, Instruction::CallIndirect { ra, base, offset }, self@, Err(ExecutionError::Trap(Trap)), old(ctx).on_hostcall is Some, old(ctx).on_set_reg is Some, old(ctx).on_store is Some, accepting(pre.access)));
                }
                return Err(ExecutionError::Trap(Trap));
            },
        };
        let target = wrapping_add(self.access.get_reg(base), offset);
        let answer = self.set(ctx, ra, return_address);
        let r = self.finish_indirect_call(answer, target);
        proof {
            let answers = HookAnswers { set_reg: answer, ..accepting(pre.access) };
            assert(executes(pre, Instruction::CallIndirect { ra, base, offset }, self@, r, old(ctx).on_hostcall is Some, old(ctx).on_set_reg is Some, old(ctx).on_store is Some, answers));
        }
        r
    }

    /// Executes one instruction of the module: the one at the program counter.
    fn dispatch<H: OnHostcall, R: OnSetReg, S: OnStore>(
        &mut self,
        ctx: &mut InterpreterContext<H, R, S>,
        instruction: Instruction,
    ) -> (r: Result<(), ExecutionError>)
        requires
            old(self).wf(),
            old(self).nth_instruction < old(self)@.module.instructions.len(),
            instruction == old(self)@.module.instructions[old(self).nth_instruction as int],
        ensures
            final(self).wf(),
            same_hooks(*old(ctx), *final(ctx)),
            exists|answers: HookAnswers|
                #[trigger] executes(
                    old(self)@,
                    instruction,
                    final(self)@,
                    r,
                    old(ctx).on_hostcall is Some,
                    old(ctx).on_set_reg is Some,
                    old(ctx).on_store is Some,
                    answers,
                ),
    {
        let ghost pre = self@;
        proof {
            use_type_invariant(&self.module);
            assert(targets_ok(instruction, self@.block_count()));
        }
        let r = match instruction {
            Instruction::Trap => Err(ExecutionError::Trap(Trap)),
            Instruction::Fallthrough => self.enter_next_block(),
            Instruction::Ecalli { imm } => self.ecalli(ctx, imm),
            Instruction::Op { op, dst, lhs, rhs } => self.set3(ctx, op, dst, lhs, rhs),
            Instruction::LoadImm { dst, imm } => self.load_imm(ctx, dst, imm),
            Instruction::MoveReg { dst, src } => self.move_reg(ctx, dst, src),
            Instruction::Load { kind, dst, base, offset } => self.load(ctx, kind, dst, base, offset),
            Instruction::Store { kind, src, base, offset } => self.store(ctx, kind, src, base, offset),
            Instruction::Branch { cond, lhs, rhs, target } => self.branch(cond, lhs, rhs, target),
            Instruction::Jump { target } => self.jump(target),
            Instruction::JumpIndirect { base, offset } => self.jump_indirect(base, offset),
            Instruction::Call { ra, target } => self.static_call(ctx, ra, target),
            Instruction::CallIndirect { ra, base, offset } => self.call_indirect(ctx, ra, base, offset),
        };
        proof {
            match instruction {
                Instruction::Trap | Instruction::Fallthrough | Instruction::Branch { .. }
                | Instruction::Jump { .. } | Instruction::JumpIndirect { .. } => {
                    assert(executes(pre, instruction, self@, r, old(ctx).on_hostcall is Some, old(ctx).on_set_reg is Some, old(ctx).on_store is Some, accepting(pre.access)));
                },
                _ => {},
            }
        }
        r
    }

    /// Executes one step: the charge for the entry block on the first step of
    /// a call, then the instruction at the program counter.
    pub fn step_once<H: OnHostcall, R: OnSetReg, S: OnStore>(
        &mut self,
        ctx: &mut InterpreterContext<H, R, S>,
    ) -> (r: Result<(), ExecutionError>)
        requires
            old(self).wf(),
        ensures
            final(self).wf(),
            final(self)@.wf(),
            same_hooks(*old(ctx), *final(ctx)),
            exists|answers: HookAnswers|
                #[trigger] steps(
                    old(self)@,
                    final(self)@,
                    r,
                    old(ctx).on_hostcall is Some,
                    old(ctx).on_set_reg is Some,
                    old(ctx).on_store is Some,
                    answers,
                ),
            final(self)@.module == old(self)@.module,
            final(self)@.access.memory.heap.len() == old(self)@.access.memory.heap.len(),
            final(self)@.access.memory.stack.len() == old(self)@.access.memory.stack.len(),
            r is Ok ==> final(self)@.cycle_counter == old(self)@.cycle_counter + 1,
    {
        proof {
            use_type_invariant(&self.module);
            use_type_invariant(&self.access);
            use_type_invariant(&self.access.gas);
        }
        let ghost pre = self@;
        let ghost hooks = *ctx;
        let ghost none_answered = accepting(pre.access);
        proof {
            reveal(steps);
        }
        if self.in_new_execution {
            self.in_new_execution = false;
            let entered = self.on_start_new_basic_block();
            if entered.is_err() {
                proof {
                    use_type_invariant(&self.module);
                    use_type_invariant(&self.access);
                    use_type_invariant(&self.access.gas);
                    assert(steps(pre, self@, entered, hooks.on_hostcall is Some, hooks.on_set_reg is Some, hooks.on_store is Some, none_answered));
                    lemma_step_keeps_layout(pre, self@, entered, hooks.on_hostcall is Some, hooks.on_set_reg is Some, hooks.on_store is Some, none_answered);
                }
                return entered;
            }
        }
        if self.cycle_counter == u64::MAX {
            proof {
                use_type_invariant(&self.access);
                use_type_invariant(&self.access.gas);
                assert(steps(pre, self@, Err(ExecutionError::Trap(Trap)), hooks.on_hostcall is Some, hooks.on_set_reg is Some, hooks.on_store is Some, none_answered));
            }
            return Err(ExecutionError::Trap(Trap));
        }
        self.cycle_counter += 1;
        if self.nth_instruction as usize >= self.module.instructions.len() {
            proof {
                use_type_invariant(&self.access);
                use_type_invariant(&self.access.gas);
                assert(steps(pre, self@, Err(ExecutionError::Trap(Trap)), hooks.on_hostcall is Some, hooks.on_set_reg is Some, hooks.on_store is Some, none_answered));
            }
            return Err(ExecutionError::Trap(Trap));
        }
        let instruction = self.module.instructions[self.nth_instruction as usize];
        let ghost counted = self@;
        let r = self.dispatch(ctx, instruction);
        proof {
            use_type_invariant(&self.module);
            use_type_invariant(&self.access);
            use_type_invariant(&self.access.gas);
            let answers = choose|answers: HookAnswers|
                #[trigger] executes(counted, instruction, self@, r, hooks.on_hostcall is Some, hooks.on_set_reg is Some, hooks.on_store is Some, answers);
            assert(steps(pre, self@, r, hooks.on_hostcall is Some, hooks.on_set_reg is Some, hooks.on_store is Some, answers));
            lemma_step_keeps_layout(pre, self@, r, hooks.on_hostcall is Some, hooks.on_set_reg is Some, hooks.on_store is Some, answers);
        }
        r
    }

    /// Runs from the current state until the guest returns to the host, or
    /// until a step fails.
    pub fn run<H: OnHostcall, R: OnSetReg, S: OnStore>(
        &mut self,
        ctx: &mut InterpreterContext<H, R, S>,
    ) -> (r: Result<(), ExecutionError>)
        requires
            old(self).wf(),
        ensures
            final(self).wf(),
            final(self)@.wf(),
            same_hooks(*old(ctx), *final(ctx)),
            exists|trace: Seq<InstanceView>, answers: Seq<HookAnswers>|
                #[trigger] is_run(
                    trace,
                    answers,
                    r,
                    old(ctx).on_hostcall is Some,
                    old(ctx).on_set_reg is Some,
                    old(ctx).on_store is Some,
                ) && trace[0] == old(self)@ && trace.last() == final(self)@,
            final(self)@.module == old(self)@.module,
            final(self)@.access.memory.heap.len() == old(self)@.access.memory.heap.len(),
            final(self)@.access.memory.stack.len() == old(self)@.access.memory.stack.len(),
            r is Ok ==> final(self)@.return_to_host,
    {
        let ghost pre = self@;
        let ghost hooks = *ctx;
        let ghost mut trace: Seq<InstanceView> = seq![self@];
        let ghost mut answers: Seq<HookAnswers> = seq![];
        loop
            invariant
                pre == old(self)@,
                hooks == *old(ctx),
                self.wf(),
                self@.module == pre.module,
                self@.access.memory.heap.len() == pre.access.memory.heap.len(),
                self@.access.memory.stack.len() == pre.access.memory.stack.len(),
                same_hooks(hooks, *ctx),
                runs_through(trace, answers, hooks.on_hostcall is Some, hooks.on_set_reg is Some, hooks.on_store is Some),
                trace[0] == pre,
                trace.last() == self@,
            decreases u64::MAX - self@.cycle_counter,
        {
            let ghost before = self@;
            let ghost hooks_before = *ctx;
            let result = self.step_once(ctx);
            let failed = match result {
                Ok(()) => false,
                Err(_) => true,
            };
            let ghost previous = trace;
            let ghost previous_answers = answers;
            proof {
                assert(same_hooks(hooks, hooks_before));
                let answer = choose|answer: HookAnswers|
                    #[trigger] steps(before, self@, result, hooks.on_hostcall is Some, hooks.on_set_reg is Some, hooks.on_store is Some, answer);
                trace = trace.push(self@);
                answers = answers.push(answer);
                assert forall|i: int| 0 <= i < previous.len() - 1 implies #[trigger] steps(
                    trace[i],
                    trace[i + 1],
                    success(),
                    hooks.on_hostcall is Some,
                    hooks.on_set_reg is Some,
                    hooks.on_store is Some,
                    answers[i],
                ) && !trace[i + 1].return_to_host by {
                    assert(trace[i] == previous[i] && trace[i + 1] == previous[i + 1]);
                    assert(answers[i] == previous_answers[i]);
                    assert(steps(previous[i], previous[i + 1], success(), hooks.on_hostcall is Some, hooks.on_set_reg is Some, hooks.on_store is Some, previous_answers[i]));
                }
                assert(trace[trace.len() - 2] == before);
                assert(answers[trace.len() - 2] == answer);
            }
            if failed || self.return_to_host {
                proof {
                    assert(trace.len() >= 2);
                    assert(trace[trace.len() - 1] == self@);
                    assert(steps(
                        trace[trace.len() - 2],
                        trace[trace.len() - 1],
                        result,
                        hooks.on_hostcall is Some,
                        hooks.on_set_reg is Some,
                        hooks.on_store is Some,
                        answers[trace.len() - 2],
                    ));
                    assert(result is Ok ==> self.return_to_host);
                    assert(trace.drop_last() =~= previous);
                    assert(answers.drop_last() =~= previous_answers);
                    assert(is_run(trace, answers, result, hooks.on_hostcall is Some, hooks.on_set_reg is Some, hooks.on_store is Some));
                    assert(trace[0] == pre && trace.last() == self@);
                }
                return result;
            }
            proof {
                assert(result == success()) by {
                    match result {
                        Ok(u) => {
                            assert(u == ());
                        },
                        Err(_) => {},
                    }
                }
                assert(trace[trace.len() - 1] == self@);
                assert forall|i: int| 0 <= i < trace.len() - 1 implies #[trigger] steps(
                    trace[i],
                    trace[i + 1],
                    success(),
                    hooks.on_hostcall is Some,
                    hooks.on_set_reg is Some,
                    hooks.on_store is Some,
                    answers[i],
                ) && !trace[i + 1].return_to_host by {
                    if i < previous.len() - 1 {
                        assert(trace[i] == previous[i] && trace[i + 1] == previous[i + 1]);
                        assert(answers[i] == previous_answers[i]);
                    }
                }
            }
        }
    }

    /// Calls export `export_index` with `on_hostcall` as the host-call handler:
    /// prepares the call, runs it, and resets memory afterwards if `config` asks for it.
    pub fn call<H: OnHostcall>(&mut self, export_index: usize, on_hostcall: H, config: &ExecutionConfig) -> (r: Result<(), ExecutionError>)
        requires
            old(self).wf(),
            export_index < old(self)@.module.exports.len(),
        ensures
            final(self).wf(),
            final(self)@.wf(),
            final(self)@.module == old(self)@.module,
            final(self)@.access.memory.heap.len() == old(self)@.access.memory.heap.len(),
            final(self)@.access.memory.stack.len() == old(self)@.access.memory.stack.len(),
            exists|trace: Seq<InstanceView>, answers: Seq<HookAnswers>|
                #[trigger] is_run(trace, answers, r, true, false, false) && trace[0] == prepared(old(self)@, export_index as int, *config)
                    && final(self)@ == if config.reset_memory_after_execution {
                    memory_reset(trace.last())
                } else {
                    trace.last()
                },
    {
        proof {
            use_type_invariant(&self.module);
            use_type_invariant(&self.access);
        }
        let mut ctx: InterpreterContext<H, NoHook, NoHook> = InterpreterContext::new();
        ctx.set_on_hostcall(on_hostcall);
        self.prepare_for_call(export_index, config);
        let result = self.run(&mut ctx);
        if config.reset_memory_after_execution {
            self.reset_memory();
        }
        proof {
            use_type_invariant(&self.module);
            use_type_invariant(&self.access);
            use_type_invariant(&self.access.gas);
        }
        result
    }

    /// Fails when the gas has run out.
    fn check_gas(&self) -> (r: Result<(), ExecutionError>)
        ensures
            r is Ok <==> !(self@.access.gas.remaining matches Some(g) && g < 0),
            r is Err ==> r == Err::<(), ExecutionError>(ExecutionError::OutOfGas),
    {
        match self.access.gas.remaining() {
            Some(g) => if g < 0 {
                Err(ExecutionError::OutOfGas)
            } else {
                Ok(())
            },
            None => Ok(()),
        }
    }
}

} // verus!
