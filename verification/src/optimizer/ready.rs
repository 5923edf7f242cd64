//! Whether a lowered program can be optimized.

use crate::ir::{instrs_view, stmts_view, LoweredStmt, RuntimeInstr, RuntimeOperand, RuntimeProgram};
use crate::optimizer::inline::MAX_INLINE_EXPANSION;
use crate::optimizer::pipeline::{is_optimizable, optimizable, program_is};
use crate::optimizer::probes::MAX_GROUP_PROBES;
use crate::optimizer::slots::{instr_below, list_below, operand_below, slots_below};
use crate::optimizer::targets::{code_room, code_target, runtime_code_target};
use vstd::prelude::*;

verus! {

/// Whether the operand is an immediate value or a slot below the bound.
fn operand_is_below(operand: &RuntimeOperand, bound: usize) -> (below: bool)
    ensures
        below == operand_below(*operand, bound as int),
{
    match operand {
        RuntimeOperand::Slot(slot) => *slot < bound,
        _ => true,
    }
}

/// Whether the slots of a list are below the bound.
fn list_is_below(slots: &Vec<usize>, bound: usize) -> (below: bool)
    ensures
        below == list_below(slots@, bound as int),
{
    for i in 0..slots.len()
        invariant
            forall|j: int| 0 <= j < i ==> #[trigger] slots@[j] < bound,
    {
        if slots[i] >= bound {
            return false;
        }
    }
    true
}

/// Whether the slots of an instruction are below the bound.
fn instr_is_below(instr: &RuntimeInstr, bound: usize) -> (below: bool)
    ensures
        below == instr_below(instr@, bound as int),
{
    match instr {
        RuntimeInstr::LoadSeed { dst, input, .. } => {
            *dst < bound
                && (match input {
                Some(operand) => operand_is_below(operand, bound),
                None => true,
            })
        },
        RuntimeInstr::Mov { dst, src } => {
            *dst < bound && operand_is_below(src, bound)
        },
        RuntimeInstr::BinOp { dst, lhs, rhs, .. } => {
            *dst < bound
                && operand_is_below(lhs, bound)
                && operand_is_below(rhs, bound)
        },
        RuntimeInstr::BinOpInPlace { dst, rhs, .. } => {
            *dst < bound && operand_is_below(rhs, bound)
        },
        RuntimeInstr::FloatBinOp { dst, lhs, rhs, .. } => {
            *dst < bound
                && operand_is_below(lhs, bound)
                && operand_is_below(rhs, bound)
        },
        RuntimeInstr::Cmp { dst, lhs, rhs, .. } => {
            *dst < bound
                && operand_is_below(lhs, bound)
                && operand_is_below(rhs, bound)
        },
        RuntimeInstr::NormalizeInt { dst, .. } => {
            *dst < bound
        },
        RuntimeInstr::JumpIfZero { cond_slot, .. } => {
            *cond_slot < bound
        },
        RuntimeInstr::JumpIfCmpFalse { lhs, rhs, .. } => {
            operand_is_below(lhs, bound) && operand_is_below(rhs, bound)
        },
        RuntimeInstr::CompareSwap { left, right, .. } => {
            *left < bound && *right < bound
        },
        RuntimeInstr::RadixSortFixedInt { slots, .. } => {
            list_is_below(slots, bound)
        },
        RuntimeInstr::LoadIndex { dst, base_slots, index } => {
            *dst < bound
                && list_is_below(base_slots, bound)
                && operand_is_below(index, bound)
        },
        RuntimeInstr::LoadIndexUnchecked { dst, base_slots, index } => {
            *dst < bound
                && list_is_below(base_slots, bound)
                && operand_is_below(index, bound)
        },
        RuntimeInstr::StoreIndex { base_slots, index, src } => {
            list_is_below(base_slots, bound)
                && operand_is_below(index, bound)
                && operand_is_below(src, bound)
        },
        RuntimeInstr::StoreIndexUnchecked { base_slots, index, src } => {
            list_is_below(base_slots, bound)
                && operand_is_below(index, bound)
                && operand_is_below(src, bound)
        },
        RuntimeInstr::HeapLoadInt { dst, ptr, index, .. } => {
            *dst < bound
                && operand_is_below(ptr, bound)
                && operand_is_below(index, bound)
        },
        RuntimeInstr::HeapStoreInt { ptr, index, src, .. } => {
            operand_is_below(ptr, bound)
                && operand_is_below(index, bound)
                && operand_is_below(src, bound)
        },
        RuntimeInstr::HeapCopy { dst_ptr, src_ptr, bytes } => {
            operand_is_below(dst_ptr, bound)
                && operand_is_below(src_ptr, bound)
                && operand_is_below(bytes, bound)
        },
        RuntimeInstr::BloomSplitBlockInsert { filter_slots, hash } => {
            list_is_below(filter_slots, bound) && operand_is_below(hash, bound)
        },
        RuntimeInstr::BloomSplitBlockCheck { dst, filter_slots, hash } => {
            *dst < bound
                && list_is_below(filter_slots, bound)
                && operand_is_below(hash, bound)
        },
        RuntimeInstr::BloomClassic4Check { dst, lanes_checked, filter_slots, hash } => {
            *dst < bound
                && *lanes_checked < bound
                && list_is_below(filter_slots, bound)
                && operand_is_below(hash, bound)
        },
        RuntimeInstr::HashCtrlGroupProbe { dst_mask, ctrl_slots, group_start, fingerprint } => {
            *dst_mask < bound
                && list_is_below(ctrl_slots, bound)
                && operand_is_below(group_start, bound)
                && operand_is_below(fingerprint, bound)
        },
        RuntimeInstr::JoinSelectAdaptive { dst, build_rows, probe_rows } => {
            *dst < bound
                && operand_is_below(build_rows, bound)
                && operand_is_below(probe_rows, bound)
        },
        RuntimeInstr::Alloc { dst, size } => {
            *dst < bound && operand_is_below(size, bound)
        },
        RuntimeInstr::Free { ptr, size } => {
            operand_is_below(ptr, bound) && operand_is_below(size, bound)
        },
        RuntimeInstr::FileOpen { dst, path_ptr, .. } => {
            *dst < bound && operand_is_below(path_ptr, bound)
        },
        RuntimeInstr::FileWrite { dst, fd, ptr, len } => {
            *dst < bound
                && operand_is_below(fd, bound)
                && operand_is_below(ptr, bound)
                && operand_is_below(len, bound)
        },
        RuntimeInstr::FileRead { dst, fd, ptr, len } => {
            *dst < bound
                && operand_is_below(fd, bound)
                && operand_is_below(ptr, bound)
                && operand_is_below(len, bound)
        },
        RuntimeInstr::FileClose { fd } => {
            operand_is_below(fd, bound)
        },
        RuntimeInstr::ThreadSpawn { handle_dst, return_slot, .. } => {
            *handle_dst < bound
                && (match return_slot {
                Some(slot) => *slot < bound,
                None => true,
            })
        },
        RuntimeInstr::ThreadJoin { dst, handle } => {
            *dst < bound && operand_is_below(handle, bound)
        },
        RuntimeInstr::ChannelCreate { dst, capacity, .. } => {
            *dst < bound && operand_is_below(capacity, bound)
        },
        RuntimeInstr::ChannelSend { handle, value } => {
            operand_is_below(handle, bound) && operand_is_below(value, bound)
        },
        RuntimeInstr::ChannelRecv { dst, handle } => {
            *dst < bound && operand_is_below(handle, bound)
        },
        RuntimeInstr::ChannelClose { handle, .. } => {
            operand_is_below(handle, bound)
        },
        RuntimeInstr::ChannelDestroy { handle } => {
            operand_is_below(handle, bound)
        },
        RuntimeInstr::PrintInt { value, .. } => {
            operand_is_below(value, bound)
        },
        RuntimeInstr::Exit { code } => {
            operand_is_below(code, bound)
        },
        _ => true,
    }
}

/// Whether a runtime program can be optimized: it mentions only its own slots
/// and can be given more, and its targets leave room for what inlining adds.
pub fn is_program_ready(program: &RuntimeProgram) -> (ready: bool)
    ensures
        ready == is_optimizable()(program@),
{
    let ghost all = instrs_view(program.instrs@);
    let instrs = &program.instrs;
    let count: usize = instrs.len();
    if program.slots > usize::MAX - MAX_GROUP_PROBES as usize {
        return false;
    }
    if count >= usize::MAX - MAX_INLINE_EXPANSION {
        return false;
    }
    for i in 0..count
        invariant
            *instrs == program.instrs,
            all == instrs_view(program.instrs@),
            count == instrs@.len(),
            forall|j: int| 0 <= j < i ==> #[trigger] instr_below(all[j], program.slots as int),
            forall|j: int|
                0 <= j < i ==> ((#[trigger] code_target(all[j])) matches Some(target) ==> target
                    + MAX_INLINE_EXPANSION <= usize::MAX),
    {
        assert(all[i as int] == instrs@[i as int]@);
        if !instr_is_below(&instrs[i], program.slots) {
            assert(!slots_below(all, program.slots as int));
            return false;
        }
        if let Some(target) = runtime_code_target(&instrs[i]) {
            if target > usize::MAX - MAX_INLINE_EXPANSION {
                assert(code_target(all[i as int]) == Some(target));
                assert(!code_room(all, MAX_INLINE_EXPANSION as int));
                return false;
            }
        }
    }
    true
}

/// Whether every runtime program of the statements can be optimized.
pub fn is_ready(stmts: &Vec<LoweredStmt>) -> (ready: bool)
    ensures
        ready == optimizable(stmts_view(stmts@)),
{
    let ghost all = stmts_view(stmts@);
    for i in 0..stmts.len()
        invariant
            all == stmts_view(stmts@),
            forall|j: int| 0 <= j < i ==> program_is(#[trigger] all[j], is_optimizable()),
    {
        assert(all[i as int] == stmts@[i as int]@);
        if let LoweredStmt::RuntimeGeneric { program } = &stmts[i] {
            if !is_program_ready(program) {
                assert(!program_is(all[i as int], is_optimizable()));
                return false;
            }
        }
    }
    true
}

} // verus!
