//! Properties of execution that relate instructions, steps and calls.

use crate::abi::{Reg, VM_ADDR_RETURN_TO_HOST, VM_CODE_ADDRESS_ALIGNMENT};
use crate::interpreter::{
    answer_of, block_entry, executes, trapped, ExecutionError, HookAnswers, InstanceView,
};
use crate::memory::{
    lemma_store_load_round_trip, lemma_write_then_read, load_width, store_bytes, store_width,
    truncate_to, unsigned_load_of,
};
use crate::operation::wrap32;
use crate::program::{spec_binop, spec_condition, BinOp, Instruction, LoadKind, RegImm, StoreKind};
use vstd::prelude::*;

verus! {

/// After an instruction that does not transfer control succeeds, the program
/// counter has advanced by one, and the basic block is the same.
pub proof fn lemma_straight_line_advances(
    pre: InstanceView,
    instruction: Instruction,
    post: InstanceView,
    r: Result<(), ExecutionError>,
    hostcall: bool,
    observed_regs: bool,
    observed_stores: bool,
    answers: HookAnswers,
)
    requires
        pre.wf(),
        pre.nth_instruction < pre.module.instructions.len(),
        executes(pre, instruction, post, r, hostcall, observed_regs, observed_stores, answers),
        !instruction.is_control(),
        r is Ok,
    ensures
        post.nth_instruction == pre.nth_instruction + 1,
        post.nth_basic_block == pre.nth_basic_block,
{
}

/// A register operation whose write the observer, if any, accepts succeeds
/// and moves to the next instruction with the result in its destination.
pub proof fn lemma_register_op_succeeds(
    pre: InstanceView,
    op: BinOp,
    dst: Reg,
    lhs: RegImm,
    rhs: RegImm,
    post: InstanceView,
    r: Result<(), ExecutionError>,
    hostcall: bool,
    observed_regs: bool,
    observed_stores: bool,
    answers: HookAnswers,
)
    requires
        executes(pre, Instruction::Op { op, dst, lhs, rhs }, post, r, hostcall, observed_regs, observed_stores, answers),
        answer_of(observed_regs, answers.set_reg) is Ok,
    ensures
        r is Ok,
        post == pre.with_reg(dst, spec_binop(op, pre.operand(lhs), pre.operand(rhs))).next_instruction(),
{
}

/// A static jump, a static call whose return-address write is accepted, or a
/// taken branch to basic block `target` leaves the program counter at the
/// first instruction of `target`, whether or not the gas for `target` suffices.
pub proof fn lemma_static_transfer_lands_on_block_start(
    pre: InstanceView,
    instruction: Instruction,
    post: InstanceView,
    r: Result<(), ExecutionError>,
    hostcall: bool,
    observed_regs: bool,
    observed_stores: bool,
    answers: HookAnswers,
    target: u32,
)
    requires
        executes(pre, instruction, post, r, hostcall, observed_regs, observed_stores, answers),
        match instruction {
            Instruction::Jump { target: t } => t == target,
            Instruction::Call { target: t, .. } => t == target && pre.return_address() is Some
                && answer_of(observed_regs, answers.set_reg) is Ok,
            Instruction::Branch { cond, lhs, rhs, target: t } => t == target && spec_condition(
                cond,
                pre.reg(lhs),
                pre.operand(rhs),
            ),
            _ => false,
        },
    ensures
        post.nth_basic_block == target,
        post.nth_instruction == pre.module.instruction_by_basic_block[target as int],
{
}

/// A dynamic jump, or an indirect call whose return-address write is accepted,
/// to an aligned, nonzero code address other than the return-to-host address,
/// which the jump table maps to a basic block, moves to that basic block.
pub proof fn lemma_dynamic_jump_destination(
    pre: InstanceView,
    instruction: Instruction,
    base: Reg,
    offset: u32,
    post: InstanceView,
    r: Result<(), ExecutionError>,
    hostcall: bool,
    observed_regs: bool,
    observed_stores: bool,
    answers: HookAnswers,
)
    requires
        executes(pre, instruction, post, r, hostcall, observed_regs, observed_stores, answers),
        instruction == (Instruction::JumpIndirect { base, offset }) || (instruction matches Instruction::CallIndirect { base: b, offset: o, .. }
            && b == base && o == offset && pre.return_address() is Some
            && answer_of(observed_regs, answers.set_reg) is Ok),
        ({
            let t = wrap32(pre.reg(base) + offset);
            let j = t / VM_CODE_ADDRESS_ALIGNMENT;
            &&& t != VM_ADDR_RETURN_TO_HOST
            &&& t != 0
            &&& t % VM_CODE_ADDRESS_ALIGNMENT == 0
            &&& j < pre.module.basic_block_by_jump_table_index.len()
            &&& pre.module.basic_block_by_jump_table_index[j as int] is Some
        }),
    ensures
        ({
            let t = wrap32(pre.reg(base) + offset);
            let b = pre.module.basic_block_by_jump_table_index[(t / VM_CODE_ADDRESS_ALIGNMENT) as int].unwrap();
            &&& post.nth_basic_block == b
            &&& post.nth_instruction == pre.module.instruction_by_basic_block[b as int]
        }),
{
}

/// A load whose register write the observer, if any, accepts succeeds exactly
/// when the bytes it reads lie in one region; otherwise it traps and changes
/// nothing, registers included, whatever the observer would answer.
pub proof fn lemma_load_succeeds_iff_readable(
    pre: InstanceView,
    kind: LoadKind,
    dst: Reg,
    base: Option<Reg>,
    offset: u32,
    post: InstanceView,
    r: Result<(), ExecutionError>,
    hostcall: bool,
    observed_regs: bool,
    observed_stores: bool,
    answers: HookAnswers,
)
    requires
        executes(pre, Instruction::Load { kind, dst, base, offset }, post, r, hostcall, observed_regs, observed_stores, answers),
    ensures
        !pre.access.memory.config.readable(pre.address(base, offset), load_width(kind) as int) ==> trapped(r)
            && post == pre && post.access.regs == pre.access.regs,
        answer_of(observed_regs, answers.set_reg) is Ok ==> (r is Ok <==> pre.access.memory.config.readable(
            pre.address(base, offset),
            load_width(kind) as int,
        )),
{
}

/// A store whose observer, if any, accepts succeeds exactly when the bytes it
/// writes lie in the heap or in the stack; otherwise it traps and changes
/// nothing, memory included, whatever the observer would answer.
pub proof fn lemma_store_succeeds_iff_writable(
    pre: InstanceView,
    kind: StoreKind,
    src: RegImm,
    base: Option<Reg>,
    offset: u32,
    post: InstanceView,
    r: Result<(), ExecutionError>,
    hostcall: bool,
    observed_regs: bool,
    observed_stores: bool,
    answers: HookAnswers,
)
    requires
        executes(pre, Instruction::Store { kind, src, base, offset }, post, r, hostcall, observed_regs, observed_stores, answers),
    ensures
        !pre.access.memory.config.writable(pre.address(base, offset), store_width(kind) as int) ==> trapped(r)
            && post == pre && post.access.memory == pre.access.memory,
        answer_of(observed_stores, answers.store) is Ok ==> (r is Ok <==> pre.access.memory.config.writable(
            pre.address(base, offset),
            store_width(kind) as int,
        )),
{
}

/// A host call whose handler keeps the memory layout ends with the guest
/// state that the handler left. If the handler accepts, the program counter
/// moves to the next instruction and the call fails, with `OutOfGas`, exactly
/// when the gas that the handler left is negative; if it refuses, the call traps
/// where it stands.
pub proof fn lemma_hostcall_outcome(
    pre: InstanceView,
    imm: u32,
    post: InstanceView,
    r: Result<(), ExecutionError>,
    observed_regs: bool,
    observed_stores: bool,
    answers: HookAnswers,
)
    requires
        pre.wf(),
        pre.nth_instruction < pre.module.instructions.len(),
        executes(pre, Instruction::Ecalli { imm }, post, r, true, observed_regs, observed_stores, answers),
        answers.host_access.memory.config == pre.access.memory.config,
    ensures
        post.access == answers.host_access,
        post.nth_basic_block == pre.nth_basic_block,
        answers.hostcall is Ok ==> post.nth_instruction == pre.nth_instruction + 1
            && (r is Ok <==> !(answers.host_access.gas.remaining matches Some(g) && g < 0))
            && (r is Err ==> r == Err::<(), ExecutionError>(ExecutionError::OutOfGas)),
        answers.hostcall is Err ==> trapped(r) && post.nth_instruction == pre.nth_instruction,
{
}

/// A store followed by an unsigned load of the same width from the same address
/// succeeds, where the load's observer accepts, and reads back the stored
/// value, cut to that width.
pub proof fn lemma_store_then_load(
    s0: InstanceView,
    kind: StoreKind,
    src: RegImm,
    store_base: Option<Reg>,
    store_offset: u32,
    s1: InstanceView,
    r1: Result<(), ExecutionError>,
    dst: Reg,
    load_base: Option<Reg>,
    load_offset: u32,
    s2: InstanceView,
    r2: Result<(), ExecutionError>,
    hostcall: bool,
    observed_regs: bool,
    observed_stores: bool,
    store_answers: HookAnswers,
    load_answers: HookAnswers,
)
    requires
        s0.wf(),
        executes(s0, Instruction::Store { kind, src, base: store_base, offset: store_offset }, s1, r1, hostcall, observed_regs, observed_stores, store_answers),
        r1 is Ok,
        executes(
            s1,
            Instruction::Load { kind: unsigned_load_of(kind), dst, base: load_base, offset: load_offset },
            s2,
            r2,
            hostcall,
            observed_regs,
            observed_stores,
            load_answers,
        ),
        answer_of(observed_regs, load_answers.set_reg) is Ok,
        s1.address(load_base, load_offset) == s0.address(store_base, store_offset),
    ensures
        r2 is Ok,
        s2.reg(dst) == truncate_to(kind, s0.operand(src)),
{
    let address = s0.address(store_base, store_offset);
    let bytes = store_bytes(kind, s0.operand(src));
    lemma_write_then_read(s0.access.memory, address, bytes);
    lemma_store_load_round_trip(s0.access.memory, address, kind, s0.operand(src));
    assert(s1.access.memory.config.readable(address, load_width(unsigned_load_of(kind)) as int));
}

/// Entering a basic block with metered gas debits exactly its cost, unless the
/// count would leave the range of `i64`, and keeps the gas accounts balanced.
pub proof fn lemma_block_entry_debits_cost(mid: InstanceView)
    requires
        mid.wf(),
        mid.access.gas.remaining is Some,
        mid.access.gas.remaining.unwrap() - mid.module.gas_cost_for_basic_block[mid.nth_basic_block as int] >= i64::MIN,
    ensures
        block_entry(mid).0.access.gas.debited == mid.access.gas.debited
            + mid.module.gas_cost_for_basic_block[mid.nth_basic_block as int],
        block_entry(mid).0.access.gas.consumed == mid.access.gas.consumed,
        block_entry(mid).0.access.gas.budget == mid.access.gas.budget,
        block_entry(mid).0.access.gas.balanced(),
{
}

/// Between operations, where gas is metered and no subtraction was clamped,
/// the gas left is the budget that the call started with, minus the sum of
/// the costs of the basic blocks entered, minus what host calls consumed.
pub proof fn lemma_gas_accounts_balance(s: InstanceView)
    requires
        s.wf(),
        s.access.gas.remaining is Some,
        !s.access.gas.saturated,
    ensures
        s.access.gas.remaining.unwrap() == s.access.gas.budget - s.access.gas.debited
            - s.access.gas.consumed,
{
}

} // verus!
