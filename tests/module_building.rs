use polkavm::abi::{Reg, REG_COUNT, VM_ADDR_RETURN_TO_HOST};
use polkavm::interpreter::{
    ExecutionConfig, Gas, InterpretedInstance, InterpretedModule, ModuleError, NoHook,
};
use polkavm::memory::MemoryConfig;
use polkavm::program::{Instruction, RegImm};

fn layout() -> MemoryConfig {
    MemoryConfig {
        ro_data_address: 0x20000,
        ro_data_size: 0x1000,
        heap_address: 0x10000,
        heap_size: 0x1000,
        stack_address: 0xfffe_0000,
        stack_size: 0x1000,
    }
}

fn ret() -> Instruction {
    Instruction::JumpIndirect { base: Reg::RA, offset: 0 }
}

struct Parts {
    memory: MemoryConfig,
    ro_data: Vec<u8>,
    rw_data: Vec<u8>,
    costs: Vec<u32>,
    code: Vec<Instruction>,
    blocks: Vec<u32>,
    table: Vec<Option<u32>>,
    exports: Vec<u32>,
}

fn parts() -> Parts {
    Parts {
        memory: layout(),
        ro_data: vec![1, 2, 3],
        rw_data: vec![4, 5],
        costs: vec![0, 0],
        code: vec![Instruction::Jump { target: 1 }, ret()],
        blocks: vec![0, 1],
        table: vec![None, Some(1)],
        exports: vec![0, 1],
    }
}

fn build(p: Parts) -> Result<InterpretedModule, ModuleError> {
    InterpretedModule::new(p.memory, p.ro_data, p.rw_data, None, p.costs, p.code, p.blocks, p.table, p.exports)
}

#[test]
fn valid_parts_make_a_module() {
    assert!(build(parts()).is_ok());
}

#[test]
fn invalid_memory_config_is_refused() {
    let mut p = parts();
    p.memory.heap_address = 0x20000;
    assert_eq!(build(p).err(), Some(ModuleError::InvalidMemoryConfig));
}

#[test]
fn oversized_ro_data_is_refused() {
    let mut p = parts();
    p.ro_data = vec![0; 0x1001];
    assert_eq!(build(p).err(), Some(ModuleError::RoDataTooLarge));
}

#[test]
fn oversized_rw_data_is_refused() {
    let mut p = parts();
    p.rw_data = vec![0; 0x1001];
    assert_eq!(build(p).err(), Some(ModuleError::RwDataTooLarge));
}

#[test]
fn gas_cost_count_must_match_blocks() {
    let mut p = parts();
    p.costs = vec![0];
    assert_eq!(build(p).err(), Some(ModuleError::GasCostCountMismatch));
}

#[test]
fn export_to_missing_block_is_refused() {
    let mut p = parts();
    p.exports = vec![0, 2];
    assert_eq!(build(p).err(), Some(ModuleError::InvalidExport));
}

#[test]
fn jump_table_entry_to_missing_block_is_refused() {
    let mut p = parts();
    p.table = vec![None, Some(1), Some(2)];
    assert_eq!(build(p).err(), Some(ModuleError::InvalidJumpTableEntry));
}

#[test]
fn branch_to_missing_block_is_refused() {
    let mut p = parts();
    p.code = vec![Instruction::Jump { target: 5 }, ret()];
    assert_eq!(build(p).err(), Some(ModuleError::InvalidBranchTarget));
    let mut p = parts();
    p.code = vec![
        Instruction::Branch { cond: polkavm::program::Condition::Eq, lhs: Reg::A0, rhs: RegImm::Imm(0), target: 2 },
        ret(),
    ];
    assert_eq!(build(p).err(), Some(ModuleError::InvalidBranchTarget));
}

#[test]
fn read_only_data_is_padded_to_its_region() {
    let module = build(parts()).unwrap();
    let instance = InterpretedInstance::new(module);
    let mut buffer = [0xeeu8; 5];
    instance.access().read_memory_into_slice(0x20000, &mut buffer).unwrap();
    assert_eq!(buffer, [1, 2, 3, 0, 0]);
    let mut tail = [0xeeu8; 2];
    instance.access().read_memory_into_slice(0x20ffe, &mut tail).unwrap();
    assert_eq!(tail, [0, 0]);
}

#[test]
fn second_export_runs_its_own_block() {
    let mut instance = InterpretedInstance::new(build(parts()).unwrap());
    let mut initial_regs = [0u32; REG_COUNT];
    initial_regs[Reg::RA.index()] = VM_ADDR_RETURN_TO_HOST;
    let config = ExecutionConfig { initial_regs, gas: None, reset_memory_after_execution: false };
    assert_eq!(instance.call(1, NoHook, &config), Ok(()));
    assert_eq!(instance.cycle_counter(), 1);
    assert_eq!(instance.call(0, NoHook, &config), Ok(()));
    assert_eq!(instance.cycle_counter(), 3);
}

#[test]
fn gas_amounts_must_fit_the_counter() {
    assert!(Gas::new(i64::MAX as u64).is_some());
    assert_eq!(Gas::new(5).unwrap().get(), 5);
    assert!(Gas::new(i64::MAX as u64 + 1).is_none());
}
