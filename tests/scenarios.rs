use polkavm::abi::{Reg, REG_COUNT, VM_ADDR_RETURN_TO_HOST, VM_ADDR_USER_MEMORY};
use polkavm::interpreter::{
    ExecutionConfig, ExecutionError, Gas, GasMeteringKind, InterpretedAccess, InterpretedInstance,
    InterpretedModule, InterpreterContext, NoHook, OnHostcall, OnSetReg, OnStore, Trap,
};
use polkavm::memory::MemoryConfig;
use polkavm::program::{BinOp, Instruction, RegImm, StoreKind};

const HEAP: u32 = VM_ADDR_USER_MEMORY;
const RO: u32 = 0x20000;
const STACK: u32 = 0xfffe_0000;

fn memory_config() -> MemoryConfig {
    MemoryConfig {
        ro_data_address: RO,
        ro_data_size: 0x1000,
        heap_address: HEAP,
        heap_size: 0x1000,
        stack_address: STACK,
        stack_size: 0x1000,
    }
}

fn ret() -> Instruction {
    Instruction::JumpIndirect { base: Reg::RA, offset: 0 }
}

fn module(
    code: Vec<Instruction>,
    blocks: Vec<u32>,
    costs: Vec<u32>,
    gas_metering: Option<GasMeteringKind>,
) -> InterpretedModule {
    InterpretedModule::new(
        memory_config(),
        vec![1, 2, 3, 4],
        vec![9, 8, 7],
        gas_metering,
        costs,
        code,
        blocks,
        vec![None],
        vec![0],
    )
    .unwrap()
}

fn config(a0: u32, a1: u32, gas: Option<u64>) -> ExecutionConfig {
    let mut initial_regs = [0u32; REG_COUNT];
    initial_regs[Reg::RA.index()] = VM_ADDR_RETURN_TO_HOST;
    initial_regs[Reg::A0.index()] = a0;
    initial_regs[Reg::A1.index()] = a1;
    ExecutionConfig {
        initial_regs,
        gas: gas.map(|g| Gas::new(g).unwrap()),
        reset_memory_after_execution: false,
    }
}

fn read_u32(access: &InterpretedAccess, address: u32) -> Option<u32> {
    let mut buffer = [0u8; 4];
    access.read_memory_into_slice(address, &mut buffer).ok()?;
    Some(u32::from_le_bytes(buffer))
}

struct ReturnsHundred {
    seen: Option<u32>,
}

impl OnHostcall for ReturnsHundred {
    fn on_hostcall(&mut self, imm: u32, access: &mut InterpretedAccess) -> Result<(), Trap> {
        assert_eq!(imm, 0);
        self.seen = read_u32(access, VM_ADDR_USER_MEMORY);
        assert_eq!(self.seen, Some(0x12345678));
        access.set_reg(Reg::A0, 100);
        Ok(())
    }
}

struct Refuses;

impl OnHostcall for Refuses {
    fn on_hostcall(&mut self, _imm: u32, _access: &mut InterpretedAccess) -> Result<(), Trap> {
        Err(Trap)
    }
}

struct ConsumesGas {
    amount: u64,
}

impl OnHostcall for ConsumesGas {
    fn on_hostcall(&mut self, _imm: u32, access: &mut InterpretedAccess) -> Result<(), Trap> {
        assert_eq!(access.gas_remaining(), Some(2));
        access.consume_gas(self.amount);
        access.set_reg(Reg::A0, 666);
        Ok(())
    }
}

fn round_trip_module() -> InterpretedModule {
    module(
        vec![
            Instruction::Store {
                kind: StoreKind::U32,
                src: RegImm::Imm(0x12345678),
                base: None,
                offset: VM_ADDR_USER_MEMORY,
            },
            Instruction::Op {
                op: BinOp::Add,
                dst: Reg::S0,
                lhs: RegImm::Reg(Reg::A0),
                rhs: RegImm::Reg(Reg::A1),
            },
            Instruction::Ecalli { imm: 0 },
            Instruction::Op {
                op: BinOp::Add,
                dst: Reg::A0,
                lhs: RegImm::Reg(Reg::A0),
                rhs: RegImm::Reg(Reg::S0),
            },
            ret(),
        ],
        vec![0],
        vec![0],
        None,
    )
}

#[test]
fn hostcall_round_trip() {
    let mut instance = InterpretedInstance::new(round_trip_module());
    let mut handler = ReturnsHundred { seen: None };
    let mut ctx: InterpreterContext<&mut ReturnsHundred, NoHook, NoHook> = InterpreterContext::new();
    ctx.set_on_hostcall(&mut handler);
    instance.prepare_for_call(0, &config(1, 10, None));
    assert_eq!(instance.run(&mut ctx), Ok(()));
    assert_eq!(instance.access().get_reg(Reg::A0), 111);
    assert_eq!(instance.access().get_reg(Reg::S0), 11);
    assert_eq!(handler.seen, Some(0x12345678));
}

#[test]
fn hostcall_round_trip_through_call() {
    let mut instance = InterpretedInstance::new(round_trip_module());
    let result = instance.call(0, ReturnsHundred { seen: None }, &config(1, 10, None));
    assert_eq!(result, Ok(()));
    assert_eq!(instance.access().get_reg(Reg::A0), 111);
}

#[test]
fn hostcall_handler_error_traps() {
    let mut instance = InterpretedInstance::new(round_trip_module());
    assert_eq!(instance.call(0, Refuses, &config(1, 10, None)), Err(ExecutionError::Trap(Trap)));
    let result = instance.call(0, ReturnsHundred { seen: None }, &config(1, 10, None));
    assert_eq!(result, Ok(()));
    assert_eq!(instance.access().get_reg(Reg::A0), 111);
}

#[test]
fn ecalli_without_handler_traps() {
    let mut instance = InterpretedInstance::new(round_trip_module());
    let mut ctx: InterpreterContext<NoHook, NoHook, NoHook> = InterpreterContext::new();
    instance.prepare_for_call(0, &config(1, 10, None));
    assert_eq!(instance.run(&mut ctx), Err(ExecutionError::Trap(Trap)));
    assert_eq!(instance.access().get_reg(Reg::S0), 11);
}

fn two_block_module() -> InterpretedModule {
    module(
        vec![
            Instruction::Op {
                op: BinOp::Add,
                dst: Reg::A0,
                lhs: RegImm::Reg(Reg::A0),
                rhs: RegImm::Imm(666),
            },
            Instruction::Fallthrough,
            ret(),
        ],
        vec![0, 2],
        vec![2, 1],
        Some(GasMeteringKind::Sync),
    )
}

#[test]
fn gas_exhaustion_at_entry() {
    let mut instance = InterpretedInstance::new(two_block_module());
    let result = instance.call(0, NoHook, &config(0, 0, Some(1)));
    assert_eq!(result, Err(ExecutionError::OutOfGas));
    assert_eq!(instance.access().gas_remaining(), Some(0));
    assert_eq!(instance.access().get_reg(Reg::A0), 0);
}

#[test]
fn gas_survival_and_residual() {
    let mut instance = InterpretedInstance::new(two_block_module());
    assert_eq!(instance.call(0, NoHook, &config(0, 0, Some(4))), Ok(()));
    assert_eq!(instance.access().gas_remaining(), Some(1));
    assert_eq!(instance.access().get_reg(Reg::A0), 666);
    assert_eq!(instance.call(0, NoHook, &config(0, 0, None)), Err(ExecutionError::OutOfGas));
    assert_eq!(instance.access().gas_remaining(), Some(0));
}

#[test]
fn gas_async_metering_charges_alike() {
    let code = vec![
        Instruction::Op { op: BinOp::Add, dst: Reg::A0, lhs: RegImm::Reg(Reg::A0), rhs: RegImm::Imm(666) },
        Instruction::Fallthrough,
        ret(),
    ];
    let mut instance = InterpretedInstance::new(module(code, vec![0, 2], vec![2, 1], Some(GasMeteringKind::Async)));
    assert_eq!(instance.call(0, NoHook, &config(0, 0, Some(3))), Ok(()));
    assert_eq!(instance.access().gas_remaining(), Some(0));
    assert_eq!(instance.call(0, NoHook, &config(0, 0, Some(2))), Err(ExecutionError::OutOfGas));
}

#[test]
fn instance_is_reusable_after_running_out_of_gas() {
    let mut instance = InterpretedInstance::new(two_block_module());
    assert_eq!(instance.call(0, NoHook, &config(0, 0, Some(2))), Err(ExecutionError::OutOfGas));
    instance.reset_memory();
    assert_eq!(instance.call(0, NoHook, &config(0, 0, Some(4))), Ok(()));
    assert_eq!(instance.access().gas_remaining(), Some(1));
    assert_eq!(instance.access().get_reg(Reg::A0), 666);
}

#[test]
fn new_metered_instance_has_no_gas() {
    let mut instance = InterpretedInstance::new(two_block_module());
    assert_eq!(instance.access().gas_remaining(), Some(0));
    assert_eq!(instance.call(0, NoHook, &config(0, 0, None)), Err(ExecutionError::OutOfGas));
    assert_eq!(instance.access().gas_remaining(), Some(0));
}

#[test]
fn unmetered_instance_reports_no_gas() {
    let mut instance = InterpretedInstance::new(round_trip_module());
    assert_eq!(instance.access().gas_remaining(), None);
    instance.call(0, ReturnsHundred { seen: None }, &config(1, 10, Some(5))).unwrap();
    assert_eq!(instance.access().gas_remaining(), None);
}

fn consume_module() -> InterpretedModule {
    module(vec![Instruction::Ecalli { imm: 0 }, ret()], vec![0], vec![1], Some(GasMeteringKind::Sync))
}

#[test]
fn hostcall_consumes_one() {
    let mut instance = InterpretedInstance::new(consume_module());
    assert_eq!(instance.call(0, ConsumesGas { amount: 1 }, &config(0, 0, Some(3))), Ok(()));
    assert_eq!(instance.access().gas_remaining(), Some(1));
    assert_eq!(instance.access().get_reg(Reg::A0), 666);
}

#[test]
fn hostcall_consumes_two() {
    let mut instance = InterpretedInstance::new(consume_module());
    assert_eq!(instance.call(0, ConsumesGas { amount: 2 }, &config(0, 0, Some(3))), Ok(()));
    assert_eq!(instance.access().gas_remaining(), Some(0));
}

#[test]
fn hostcall_consumes_three() {
    let mut instance = InterpretedInstance::new(consume_module());
    assert_eq!(
        instance.call(0, ConsumesGas { amount: 3 }, &config(0, 0, Some(3))),
        Err(ExecutionError::OutOfGas)
    );
    assert_eq!(instance.access().gas_remaining(), Some(0));
}

#[test]
fn hostcall_consumes_more_than_the_counter_holds() {
    let mut instance = InterpretedInstance::new(consume_module());
    assert_eq!(
        instance.call(0, ConsumesGas { amount: u64::MAX }, &config(0, 0, Some(3))),
        Err(ExecutionError::OutOfGas)
    );
    assert_eq!(instance.access().gas_remaining(), Some(0));
}

fn heap_and_stack(instance: &InterpretedInstance) -> (Vec<u8>, Vec<u8>) {
    let mut heap = vec![0u8; 0x1000];
    let mut stack = vec![0u8; 0x1000];
    instance.access().read_memory_into_slice(HEAP, &mut heap).unwrap();
    instance.access().read_memory_into_slice(STACK, &mut stack).unwrap();
    (heap, stack)
}

#[test]
fn out_of_range_store_traps() {
    for address in [0u32, 0x1000, RO, RO + 0xffc, HEAP + 0xffd, STACK + 0xffe, 0xffff_fffe, VM_ADDR_RETURN_TO_HOST] {
        let code = vec![
            Instruction::Store { kind: StoreKind::U32, src: RegImm::Imm(0xdeadbeef), base: None, offset: address },
            ret(),
        ];
        let mut instance = InterpretedInstance::new(module(code, vec![0], vec![0], None));
        let before = heap_and_stack(&instance);
        assert_eq!(instance.call(0, NoHook, &config(0, 0, None)), Err(ExecutionError::Trap(Trap)));
        assert_eq!(heap_and_stack(&instance), before);
    }
}

#[test]
fn dynamic_jump_to_sentinel_returns() {
    let code = vec![
        Instruction::LoadImm { dst: Reg::T0, imm: VM_ADDR_RETURN_TO_HOST },
        Instruction::JumpIndirect { base: Reg::T0, offset: 0 },
    ];
    let mut instance = InterpretedInstance::new(module(code, vec![0], vec![0], None));
    let mut regs = config(0, 0, None);
    regs.initial_regs[Reg::RA.index()] = 0;
    assert_eq!(instance.call(0, NoHook, &regs), Ok(()));
    assert_eq!(instance.access().get_reg(Reg::T0), VM_ADDR_RETURN_TO_HOST);
}

struct Recorder {
    log: Vec<(u32, Vec<u8>)>,
}

impl OnStore for &mut Recorder {
    fn on_store(&mut self, address: u32, bytes: &[u8]) -> Result<(), Trap> {
        self.log.push((address, bytes.to_vec()));
        Ok(())
    }
}

impl OnSetReg for &mut Recorder {
    fn on_set_reg(&mut self, reg: Reg, value: u32) -> Result<(), Trap> {
        self.log.push((reg.index() as u32, value.to_le_bytes().to_vec()));
        Ok(())
    }
}

impl OnHostcall for &mut ReturnsHundred {
    fn on_hostcall(&mut self, imm: u32, access: &mut InterpretedAccess) -> Result<(), Trap> {
        (**self).on_hostcall(imm, access)
    }
}

struct RefusesWrites;

impl OnSetReg for RefusesWrites {
    fn on_set_reg(&mut self, _reg: Reg, _value: u32) -> Result<(), Trap> {
        Err(Trap)
    }
}

impl OnStore for RefusesWrites {
    fn on_store(&mut self, _address: u32, _bytes: &[u8]) -> Result<(), Trap> {
        Err(Trap)
    }
}

#[test]
fn observers_see_stores_and_register_writes() {
    let code = vec![
        Instruction::Store { kind: StoreKind::U16, src: RegImm::Imm(0xabcd), base: None, offset: HEAP + 8 },
        Instruction::LoadImm { dst: Reg::A2, imm: 7 },
        ret(),
    ];
    let mut instance = InterpretedInstance::new(module(code, vec![0], vec![0], None));
    let mut stores = Recorder { log: Vec::new() };
    let mut writes = Recorder { log: Vec::new() };
    let mut ctx: InterpreterContext<NoHook, &mut Recorder, &mut Recorder> = InterpreterContext::new();
    ctx.set_on_store(&mut stores);
    ctx.set_on_set_reg(&mut writes);
    instance.prepare_for_call(0, &config(0, 0, None));
    assert_eq!(instance.run(&mut ctx), Ok(()));
    drop(ctx);
    assert_eq!(stores.log, vec![(HEAP + 8, vec![0xcd, 0xab])]);
    assert_eq!(writes.log, vec![(Reg::A2.index() as u32, vec![7, 0, 0, 0])]);
}

#[test]
fn store_observer_error_traps_after_the_write() {
    let code = vec![
        Instruction::Store { kind: StoreKind::U8, src: RegImm::Imm(0x1ff), base: None, offset: HEAP + 3 },
        ret(),
    ];
    let mut instance = InterpretedInstance::new(module(code, vec![0], vec![0], None));
    let mut ctx: InterpreterContext<NoHook, NoHook, RefusesWrites> = InterpreterContext::new();
    ctx.set_on_store(RefusesWrites);
    instance.prepare_for_call(0, &config(0, 0, None));
    assert_eq!(instance.run(&mut ctx), Err(ExecutionError::Trap(Trap)));
    assert_eq!(read_u32(instance.access(), HEAP), Some(0xff07_0809));
}

#[test]
fn register_observer_error_traps_after_the_write() {
    let code = vec![Instruction::LoadImm { dst: Reg::A3, imm: 5 }, ret()];
    let mut instance = InterpretedInstance::new(module(code, vec![0], vec![0], None));
    let mut ctx: InterpreterContext<NoHook, RefusesWrites, NoHook> = InterpreterContext::new();
    ctx.set_on_set_reg(RefusesWrites);
    instance.prepare_for_call(0, &config(0, 0, None));
    assert_eq!(instance.run(&mut ctx), Err(ExecutionError::Trap(Trap)));
    assert_eq!(instance.access().get_reg(Reg::A3), 5);
}

#[test]
fn reset_memory_restores_initial_contents() {
    let code = vec![
        Instruction::Store { kind: StoreKind::U32, src: RegImm::Imm(0xffff_ffff), base: None, offset: HEAP },
        Instruction::Store { kind: StoreKind::U32, src: RegImm::Imm(0x0102_0304), base: None, offset: STACK + 16 },
        ret(),
    ];
    let mut instance = InterpretedInstance::new(module(code, vec![0], vec![0], None));
    let fresh = heap_and_stack(&instance);
    assert_eq!(&fresh.0[..4], &[9, 8, 7, 0]);
    instance.call(0, NoHook, &config(0, 0, None)).unwrap();
    assert_eq!(read_u32(instance.access(), HEAP), Some(0xffff_ffff));
    assert_eq!(read_u32(instance.access(), STACK + 16), Some(0x0102_0304));
    instance.reset_memory();
    assert_eq!(heap_and_stack(&instance), fresh);
    let mut reset_after = config(0, 0, None);
    reset_after.reset_memory_after_execution = true;
    instance.call(0, NoHook, &reset_after).unwrap();
    assert_eq!(heap_and_stack(&instance), fresh);
}

#[test]
fn explicit_trap_and_running_off_the_code() {
    let mut instance = InterpretedInstance::new(module(vec![Instruction::Trap], vec![0], vec![0], None));
    assert_eq!(instance.call(0, NoHook, &config(0, 0, None)), Err(ExecutionError::Trap(Trap)));
    let code = vec![Instruction::LoadImm { dst: Reg::A0, imm: 1 }];
    let mut instance = InterpretedInstance::new(module(code, vec![0], vec![0], None));
    assert_eq!(instance.call(0, NoHook, &config(0, 0, None)), Err(ExecutionError::Trap(Trap)));
    assert_eq!(instance.access().get_reg(Reg::A0), 1);
}

#[test]
fn run_without_prepared_call_traps() {
    let mut instance = InterpretedInstance::new(module(vec![ret()], vec![0], vec![0], None));
    let mut ctx: InterpreterContext<NoHook, NoHook, NoHook> = InterpreterContext::new();
    assert_eq!(instance.run(&mut ctx), Err(ExecutionError::Trap(Trap)));
}
