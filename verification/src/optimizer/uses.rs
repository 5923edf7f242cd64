//! Which slots an instruction reads, writes and mentions.

use crate::ir::{InstrView, RuntimeInstr, RuntimeOperand};
use vstd::prelude::*;

verus! {

/// The operand is the given slot.
pub open spec fn operand_reads(operand: RuntimeOperand, slot: usize) -> bool {
    operand == RuntimeOperand::Slot(slot)
}

/// The operand is present and is the given slot.
pub open spec fn optional_operand_reads(operand: Option<RuntimeOperand>, slot: usize) -> bool {
    operand == Some(RuntimeOperand::Slot(slot))
}

/// Executing the instruction may depend on what the slot holds.
pub open spec fn reads(instr: InstrView, slot: usize) -> bool {
    match instr {
        InstrView::LoadSeed { input, .. } => {
            optional_operand_reads(input, slot)
        },
        InstrView::Mov { src, .. } => {
            operand_reads(src, slot)
        },
        InstrView::BinOp { lhs, rhs, .. }
        | InstrView::FloatBinOp { lhs, rhs, .. }
        | InstrView::Cmp { lhs, rhs, .. }
        | InstrView::JumpIfCmpFalse { lhs, rhs, .. } => {
            operand_reads(lhs, slot) || operand_reads(rhs, slot)
        },
        InstrView::BinOpInPlace { dst, rhs, .. } => {
            dst == slot || operand_reads(rhs, slot)
        },
        InstrView::NormalizeInt { dst, .. } => {
            dst == slot
        },
        InstrView::JumpIfZero { cond_slot, .. } => {
            cond_slot == slot
        },
        InstrView::CompareSwap { left, right, .. } => {
            left == slot || right == slot
        },
        InstrView::RadixSortFixedInt { slots, .. } => {
            slots.contains(slot)
        },
        InstrView::LoadIndex { base_slots, index, .. }
        | InstrView::LoadIndexUnchecked { base_slots, index, .. } => {
            base_slots.contains(slot) || operand_reads(index, slot)
        },
        InstrView::StoreIndex { base_slots, index, src }
        | InstrView::StoreIndexUnchecked { base_slots, index, src } => {
            base_slots.contains(slot) || operand_reads(index, slot) || operand_reads(src, slot)
        },
        InstrView::HeapLoadInt { ptr, index, .. } => {
            operand_reads(ptr, slot) || operand_reads(index, slot)
        },
        InstrView::HeapStoreInt { ptr, index, src, .. } => {
            operand_reads(ptr, slot) || operand_reads(index, slot) || operand_reads(src, slot)
        },
        InstrView::HeapCopy { dst_ptr, src_ptr, bytes } => {
            operand_reads(dst_ptr, slot)
                || operand_reads(src_ptr, slot)
                || operand_reads(bytes, slot)
        },
        InstrView::BloomSplitBlockInsert { filter_slots, hash }
        | InstrView::BloomSplitBlockCheck { filter_slots, hash, .. }
        | InstrView::BloomClassic4Check { filter_slots, hash, .. } => {
            filter_slots.contains(slot) || operand_reads(hash, slot)
        },
        InstrView::HashCtrlGroupProbe { ctrl_slots, group_start, fingerprint, .. } => {
            ctrl_slots.contains(slot)
                || operand_reads(group_start, slot)
                || operand_reads(fingerprint, slot)
        },
        InstrView::JoinSelectAdaptive { build_rows, probe_rows, .. } => {
            operand_reads(build_rows, slot) || operand_reads(probe_rows, slot)
        },
        InstrView::Alloc { size, .. } => {
            operand_reads(size, slot)
        },
        InstrView::Free { ptr, size } => {
            operand_reads(ptr, slot) || operand_reads(size, slot)
        },
        InstrView::FileOpen { path_ptr, .. } => {
            operand_reads(path_ptr, slot)
        },
        InstrView::FileWrite { fd, ptr, len, .. }
        | InstrView::FileRead { fd, ptr, len, .. } => {
            operand_reads(fd, slot) || operand_reads(ptr, slot) || operand_reads(len, slot)
        },
        InstrView::FileClose { fd } => {
            operand_reads(fd, slot)
        },
        InstrView::ThreadSpawn { return_slot, .. } => {
            return_slot == Some(slot)
        },
        InstrView::ThreadJoin { handle, .. }
        | InstrView::ChannelRecv { handle, .. }
        | InstrView::ChannelClose { handle, .. }
        | InstrView::ChannelDestroy { handle } => {
            operand_reads(handle, slot)
        },
        InstrView::ChannelCreate { capacity, .. } => {
            operand_reads(capacity, slot)
        },
        InstrView::ChannelSend { handle, value } => {
            operand_reads(handle, slot) || operand_reads(value, slot)
        },
        InstrView::PrintInt { value, .. } => {
            operand_reads(value, slot)
        },
        InstrView::Exit { code } => {
            operand_reads(code, slot)
        },
        _ => false,
    }
}

/// Executing the instruction may change what the slot holds.
pub open spec fn writes(instr: InstrView, slot: usize) -> bool {
    match instr {
        InstrView::LoadSeed { dst, .. }
        | InstrView::Mov { dst, .. }
        | InstrView::BinOp { dst, .. }
        | InstrView::BinOpInPlace { dst, .. }
        | InstrView::FloatBinOp { dst, .. }
        | InstrView::Cmp { dst, .. }
        | InstrView::NormalizeInt { dst, .. }
        | InstrView::LoadIndex { dst, .. }
        | InstrView::LoadIndexUnchecked { dst, .. }
        | InstrView::HeapLoadInt { dst, .. }
        | InstrView::BloomSplitBlockCheck { dst, .. }
        | InstrView::JoinSelectAdaptive { dst, .. }
        | InstrView::Alloc { dst, .. }
        | InstrView::FileOpen { dst, .. }
        | InstrView::FileWrite { dst, .. }
        | InstrView::FileRead { dst, .. }
        | InstrView::ThreadJoin { dst, .. }
        | InstrView::ChannelCreate { dst, .. }
        | InstrView::ChannelRecv { dst, .. } => {
            dst == slot
        },
        InstrView::CompareSwap { left, right, .. } => {
            left == slot || right == slot
        },
        InstrView::RadixSortFixedInt { slots, .. } => {
            slots.contains(slot)
        },
        InstrView::StoreIndex { base_slots, .. }
        | InstrView::StoreIndexUnchecked { base_slots, .. } => {
            base_slots.contains(slot)
        },
        InstrView::BloomSplitBlockInsert { filter_slots, .. } => {
            filter_slots.contains(slot)
        },
        InstrView::BloomClassic4Check { dst, lanes_checked, .. } => {
            dst == slot || lanes_checked == slot
        },
        InstrView::HashCtrlGroupProbe { dst_mask, .. } => {
            dst_mask == slot
        },
        InstrView::ThreadSpawn { handle_dst, .. } => {
            handle_dst == slot
        },
        _ => false,
    }
}

/// The slot occurs somewhere in the instruction.
pub open spec fn mentions(instr: InstrView, slot: usize) -> bool {
    match instr {
        InstrView::LoadSeed { dst, input, .. } => {
            dst == slot || optional_operand_reads(input, slot)
        },
        InstrView::Mov { dst, src } => {
            dst == slot || operand_reads(src, slot)
        },
        InstrView::BinOp { dst, lhs, rhs, .. }
        | InstrView::FloatBinOp { dst, lhs, rhs, .. }
        | InstrView::Cmp { dst, lhs, rhs, .. } => {
            dst == slot || operand_reads(lhs, slot) || operand_reads(rhs, slot)
        },
        InstrView::BinOpInPlace { dst, rhs, .. } => {
            dst == slot || operand_reads(rhs, slot)
        },
        InstrView::NormalizeInt { dst, .. } => {
            dst == slot
        },
        InstrView::JumpIfZero { cond_slot, .. } => {
            cond_slot == slot
        },
        InstrView::JumpIfCmpFalse { lhs, rhs, .. } => {
            operand_reads(lhs, slot) || operand_reads(rhs, slot)
        },
        InstrView::CompareSwap { left, right, .. } => {
            left == slot || right == slot
        },
        InstrView::RadixSortFixedInt { slots, .. } => {
            slots.contains(slot)
        },
        InstrView::LoadIndex { dst, base_slots, index }
        | InstrView::LoadIndexUnchecked { dst, base_slots, index } => {
            dst == slot || base_slots.contains(slot) || operand_reads(index, slot)
        },
        InstrView::StoreIndex { base_slots, index, src }
        | InstrView::StoreIndexUnchecked { base_slots, index, src } => {
            base_slots.contains(slot) || operand_reads(index, slot) || operand_reads(src, slot)
        },
        InstrView::HeapLoadInt { dst, ptr, index, .. } => {
            dst == slot || operand_reads(ptr, slot) || operand_reads(index, slot)
        },
        InstrView::HeapStoreInt { ptr, index, src, .. } => {
            operand_reads(ptr, slot) || operand_reads(index, slot) || operand_reads(src, slot)
        },
        InstrView::HeapCopy { dst_ptr, src_ptr, bytes } => {
            operand_reads(dst_ptr, slot)
                || operand_reads(src_ptr, slot)
                || operand_reads(bytes, slot)
        },
        InstrView::BloomSplitBlockInsert { filter_slots, hash } => {
            filter_slots.contains(slot) || operand_reads(hash, slot)
        },
        InstrView::BloomSplitBlockCheck { dst, filter_slots, hash } => {
            dst == slot || filter_slots.contains(slot) || operand_reads(hash, slot)
        },
        InstrView::BloomClassic4Check { dst, lanes_checked, filter_slots, hash } => {
            dst == slot
                || lanes_checked == slot
                || filter_slots.contains(slot)
                || operand_reads(hash, slot)
        },
        InstrView::HashCtrlGroupProbe { dst_mask, ctrl_slots, group_start, fingerprint } => {
            dst_mask == slot
                || ctrl_slots.contains(slot)
                || operand_reads(group_start, slot)
                || operand_reads(fingerprint, slot)
        },
        InstrView::JoinSelectAdaptive { dst, build_rows, probe_rows } => {
            dst == slot || operand_reads(build_rows, slot) || operand_reads(probe_rows, slot)
        },
        InstrView::Alloc { dst, size } => {
            dst == slot || operand_reads(size, slot)
        },
        InstrView::Free { ptr, size } => {
            operand_reads(ptr, slot) || operand_reads(size, slot)
        },
        InstrView::FileOpen { dst, path_ptr, .. } => {
            dst == slot || operand_reads(path_ptr, slot)
        },
        InstrView::FileWrite { dst, fd, ptr, len }
        | InstrView::FileRead { dst, fd, ptr, len } => {
            dst == slot
                || operand_reads(fd, slot)
                || operand_reads(ptr, slot)
                || operand_reads(len, slot)
        },
        InstrView::FileClose { fd } => {
            operand_reads(fd, slot)
        },
        InstrView::ThreadSpawn { handle_dst, return_slot, .. } => {
            handle_dst == slot || return_slot == Some(slot)
        },
        InstrView::ThreadJoin { dst, handle }
        | InstrView::ChannelRecv { dst, handle } => {
            dst == slot || operand_reads(handle, slot)
        },
        InstrView::ChannelCreate { dst, capacity, .. } => {
            dst == slot || operand_reads(capacity, slot)
        },
        InstrView::ChannelSend { handle, value } => {
            operand_reads(handle, slot) || operand_reads(value, slot)
        },
        InstrView::ChannelClose { handle, .. }
        | InstrView::ChannelDestroy { handle } => {
            operand_reads(handle, slot)
        },
        InstrView::PrintInt { value, .. } => {
            operand_reads(value, slot)
        },
        InstrView::Exit { code } => {
            operand_reads(code, slot)
        },
        _ => false,
    }
}

/// Whether the operand is the given slot.
pub fn runtime_operand_reads_slot(operand: &RuntimeOperand, slot: usize) -> (found: bool)
    ensures
        found == operand_reads(*operand, slot),
{
    match operand {
        RuntimeOperand::Slot(read) => *read == slot,
        RuntimeOperand::Imm(_) => false,
    }
}

/// Whether the slot is in the list.
pub fn slot_list_contains(slots: &Vec<usize>, slot: usize) -> (found: bool)
    ensures
        found == slots@.contains(slot),
{
    for i in 0..slots.len()
        invariant
            forall|j: int| 0 <= j < i ==> slots@[j] != slot,
    {
        if slots[i] == slot {
            assert(slots@[i as int] == slot);
            return true;
        }
    }
    false
}

/// Whether executing the instruction may depend on what the slot holds.
pub fn runtime_instr_reads_slot(instr: &RuntimeInstr, slot: usize) -> (found: bool)
    ensures
        found == reads(instr@, slot),
{
    match instr {
        RuntimeInstr::LoadSeed { input, .. } => {
            (match input { Some(
                operand,
            ) => runtime_operand_reads_slot(operand, slot), None => false })
        },
        RuntimeInstr::Mov { src, .. } => {
            runtime_operand_reads_slot(src, slot)
        },
        RuntimeInstr::BinOp { lhs, rhs, .. }
        | RuntimeInstr::FloatBinOp { lhs, rhs, .. }
        | RuntimeInstr::Cmp { lhs, rhs, .. }
        | RuntimeInstr::JumpIfCmpFalse { lhs, rhs, .. } => {
            runtime_operand_reads_slot(lhs, slot) || runtime_operand_reads_slot(rhs, slot)
        },
        RuntimeInstr::BinOpInPlace { dst, rhs, .. } => {
            *dst == slot || runtime_operand_reads_slot(rhs, slot)
        },
        RuntimeInstr::NormalizeInt { dst, .. } => {
            *dst == slot
        },
        RuntimeInstr::JumpIfZero { cond_slot, .. } => {
            *cond_slot == slot
        },
        RuntimeInstr::CompareSwap { left, right, .. } => {
            *left == slot || *right == slot
        },
        RuntimeInstr::RadixSortFixedInt { slots, .. } => {
            slot_list_contains(slots, slot)
        },
        RuntimeInstr::LoadIndex { base_slots, index, .. }
        | RuntimeInstr::LoadIndexUnchecked { base_slots, index, .. } => {
            slot_list_contains(base_slots, slot) || runtime_operand_reads_slot(index, slot)
        },
        RuntimeInstr::StoreIndex { base_slots, index, src }
        | RuntimeInstr::StoreIndexUnchecked { base_slots, index, src } => {
            slot_list_contains(base_slots, slot)
                || runtime_operand_reads_slot(index, slot)
                || runtime_operand_reads_slot(src, slot)
        },
        RuntimeInstr::HeapLoadInt { ptr, index, .. } => {
            runtime_operand_reads_slot(ptr, slot) || runtime_operand_reads_slot(index, slot)
        },
        RuntimeInstr::HeapStoreInt { ptr, index, src, .. } => {
            runtime_operand_reads_slot(ptr, slot)
                || runtime_operand_reads_slot(index, slot)
                || runtime_operand_reads_slot(src, slot)
        },
        RuntimeInstr::HeapCopy { dst_ptr, src_ptr, bytes } => {
            runtime_operand_reads_slot(dst_ptr, slot)
                || runtime_operand_reads_slot(src_ptr, slot)
                || runtime_operand_reads_slot(bytes, slot)
        },
        RuntimeInstr::BloomSplitBlockInsert { filter_slots, hash }
        | RuntimeInstr::BloomSplitBlockCheck { filter_slots, hash, .. }
        | RuntimeInstr::BloomClassic4Check { filter_slots, hash, .. } => {
            slot_list_contains(filter_slots, slot) || runtime_operand_reads_slot(hash, slot)
        },
        RuntimeInstr::HashCtrlGroupProbe { ctrl_slots, group_start, fingerprint, .. } => {
            slot_list_contains(ctrl_slots, slot)
                || runtime_operand_reads_slot(group_start, slot)
                || runtime_operand_reads_slot(fingerprint, slot)
        },
        RuntimeInstr::JoinSelectAdaptive { build_rows, probe_rows, .. } => {
            runtime_operand_reads_slot(build_rows, slot)
                || runtime_operand_reads_slot(probe_rows, slot)
        },
        RuntimeInstr::Alloc { size, .. } => {
            runtime_operand_reads_slot(size, slot)
        },
        RuntimeInstr::Free { ptr, size } => {
            runtime_operand_reads_slot(ptr, slot) || runtime_operand_reads_slot(size, slot)
        },
        RuntimeInstr::FileOpen { path_ptr, .. } => {
            runtime_operand_reads_slot(path_ptr, slot)
        },
        RuntimeInstr::FileWrite { fd, ptr, len, .. }
        | RuntimeInstr::FileRead { fd, ptr, len, .. } => {
            runtime_operand_reads_slot(fd, slot)
                || runtime_operand_reads_slot(ptr, slot)
                || runtime_operand_reads_slot(len, slot)
        },
        RuntimeInstr::FileClose { fd } => {
            runtime_operand_reads_slot(fd, slot)
        },
        RuntimeInstr::ThreadSpawn { return_slot, .. } => {
            (match return_slot { Some(returned) => *returned == slot, None => false })
        },
        RuntimeInstr::ThreadJoin { handle, .. }
        | RuntimeInstr::ChannelRecv { handle, .. }
        | RuntimeInstr::ChannelClose { handle, .. }
        | RuntimeInstr::ChannelDestroy { handle } => {
            runtime_operand_reads_slot(handle, slot)
        },
        RuntimeInstr::ChannelCreate { capacity, .. } => {
            runtime_operand_reads_slot(capacity, slot)
        },
        RuntimeInstr::ChannelSend { handle, value } => {
            runtime_operand_reads_slot(handle, slot) || runtime_operand_reads_slot(value, slot)
        },
        RuntimeInstr::PrintInt { value, .. } => {
            runtime_operand_reads_slot(value, slot)
        },
        RuntimeInstr::Exit { code } => {
            runtime_operand_reads_slot(code, slot)
        },
        _ => false,
    }
}

/// Whether executing the instruction may change what the slot holds.
pub fn runtime_instr_writes_slot(instr: &RuntimeInstr, slot: usize) -> (found: bool)
    ensures
        found == writes(instr@, slot),
{
    match instr {
        RuntimeInstr::LoadSeed { dst, .. }
        | RuntimeInstr::Mov { dst, .. }
        | RuntimeInstr::BinOp { dst, .. }
        | RuntimeInstr::BinOpInPlace { dst, .. }
        | RuntimeInstr::FloatBinOp { dst, .. }
        | RuntimeInstr::Cmp { dst, .. }
        | RuntimeInstr::NormalizeInt { dst, .. }
        | RuntimeInstr::LoadIndex { dst, .. }
        | RuntimeInstr::LoadIndexUnchecked { dst, .. }
        | RuntimeInstr::HeapLoadInt { dst, .. }
        | RuntimeInstr::BloomSplitBlockCheck { dst, .. }
        | RuntimeInstr::JoinSelectAdaptive { dst, .. }
        | RuntimeInstr::Alloc { dst, .. }
        | RuntimeInstr::FileOpen { dst, .. }
        | RuntimeInstr::FileWrite { dst, .. }
        | RuntimeInstr::FileRead { dst, .. }
        | RuntimeInstr::ThreadJoin { dst, .. }
        | RuntimeInstr::ChannelCreate { dst, .. }
        | RuntimeInstr::ChannelRecv { dst, .. } => {
            *dst == slot
        },
        RuntimeInstr::CompareSwap { left, right, .. } => {
            *left == slot || *right == slot
        },
        RuntimeInstr::RadixSortFixedInt { slots, .. } => {
            slot_list_contains(slots, slot)
        },
        RuntimeInstr::StoreIndex { base_slots, .. }
        | RuntimeInstr::StoreIndexUnchecked { base_slots, .. } => {
            slot_list_contains(base_slots, slot)
        },
        RuntimeInstr::BloomSplitBlockInsert { filter_slots, .. } => {
            slot_list_contains(filter_slots, slot)
        },
        RuntimeInstr::BloomClassic4Check { dst, lanes_checked, .. } => {
            *dst == slot || *lanes_checked == slot
        },
        RuntimeInstr::HashCtrlGroupProbe { dst_mask, .. } => {
            *dst_mask == slot
        },
        RuntimeInstr::ThreadSpawn { handle_dst, .. } => {
            *handle_dst == slot
        },
        _ => false,
    }
}

/// The slot is the index operand of an array access.
pub open spec fn indexes_by(instr: InstrView, slot: usize) -> bool {
    match instr {
        InstrView::LoadIndex { index, .. }
        | InstrView::LoadIndexUnchecked { index, .. }
        | InstrView::StoreIndex { index, .. }
        | InstrView::StoreIndexUnchecked { index, .. } => operand_reads(index, slot),
        _ => false,
    }
}

/// Whether the slot is the index operand of an array access.
pub fn runtime_instr_uses_as_index_slot(instr: &RuntimeInstr, slot: usize) -> (found: bool)
    ensures
        found == indexes_by(instr@, slot),
{
    match instr {
        RuntimeInstr::LoadIndex { index, .. }
        | RuntimeInstr::LoadIndexUnchecked { index, .. }
        | RuntimeInstr::StoreIndex { index, .. }
        | RuntimeInstr::StoreIndexUnchecked { index, .. } => {
            runtime_operand_reads_slot(index, slot)
        },
        _ => false,
    }
}

} // verus!
