//! Slot numbering: counting the slots a program uses and closing the gaps.

use crate::ir::{instrs_view, InstrView, ProgramView, RuntimeInstr, RuntimeOperand, RuntimeProgram};
use crate::optimizer::uses::{mentions, operand_reads, optional_operand_reads};
use crate::optimizer::targets::code_target;
use vstd::prelude::*;

verus! {

/// Some instruction mentions the slot.
pub open spec fn slot_is_used(instrs: Seq<InstrView>, slot: usize) -> bool {
    exists|i: int| 0 <= i < instrs.len() && mentions(#[trigger] instrs[i], slot)
}

/// The operand is an immediate value or a slot below `bound`.
pub open spec fn operand_below(operand: RuntimeOperand, bound: int) -> bool {
    operand matches RuntimeOperand::Slot(slot) ==> slot < bound
}

/// Every slot of the list is below `bound`.
pub open spec fn list_below(slots: Seq<usize>, bound: int) -> bool {
    forall|i: int| 0 <= i < slots.len() ==> #[trigger] slots[i] < bound
}

/// Every slot of the instruction is below `bound`.
pub open spec fn instr_below(instr: InstrView, bound: int) -> bool {
    match instr {
        InstrView::LoadSeed { dst, input, .. } => {
            dst < bound && (input matches Some(operand) ==> operand_below(operand, bound))
        },
        InstrView::Mov { dst, src } => {
            dst < bound && operand_below(src, bound)
        },
        InstrView::BinOp { dst, lhs, rhs, .. }
        | InstrView::FloatBinOp { dst, lhs, rhs, .. }
        | InstrView::Cmp { dst, lhs, rhs, .. } => {
            dst < bound && operand_below(lhs, bound) && operand_below(rhs, bound)
        },
        InstrView::BinOpInPlace { dst, rhs, .. } => {
            dst < bound && operand_below(rhs, bound)
        },
        InstrView::NormalizeInt { dst, .. } => {
            dst < bound
        },
        InstrView::JumpIfZero { cond_slot, .. } => {
            cond_slot < bound
        },
        InstrView::JumpIfCmpFalse { lhs, rhs, .. } => {
            operand_below(lhs, bound) && operand_below(rhs, bound)
        },
        InstrView::CompareSwap { left, right, .. } => {
            left < bound && right < bound
        },
        InstrView::RadixSortFixedInt { slots, .. } => {
            list_below(slots, bound)
        },
        InstrView::LoadIndex { dst, base_slots, index }
        | InstrView::LoadIndexUnchecked { dst, base_slots, index } => {
            dst < bound && list_below(base_slots, bound) && operand_below(index, bound)
        },
        InstrView::StoreIndex { base_slots, index, src }
        | InstrView::StoreIndexUnchecked { base_slots, index, src } => {
            &&& list_below(base_slots, bound)
            &&& operand_below(index, bound)
            &&& operand_below(src, bound)
        },
        InstrView::HeapLoadInt { dst, ptr, index, .. } => {
            dst < bound && operand_below(ptr, bound) && operand_below(index, bound)
        },
        InstrView::HeapStoreInt { ptr, index, src, .. } => {
            operand_below(ptr, bound) && operand_below(index, bound) && operand_below(src, bound)
        },
        InstrView::HeapCopy { dst_ptr, src_ptr, bytes } => {
            &&& operand_below(dst_ptr, bound)
            &&& operand_below(src_ptr, bound)
            &&& operand_below(bytes, bound)
        },
        InstrView::BloomSplitBlockInsert { filter_slots, hash } => {
            list_below(filter_slots, bound) && operand_below(hash, bound)
        },
        InstrView::BloomSplitBlockCheck { dst, filter_slots, hash } => {
            dst < bound && list_below(filter_slots, bound) && operand_below(hash, bound)
        },
        InstrView::BloomClassic4Check { dst, lanes_checked, filter_slots, hash } => {
            &&& dst < bound
            &&& lanes_checked < bound
            &&& list_below(filter_slots, bound)
            &&& operand_below(hash, bound)
        },
        InstrView::HashCtrlGroupProbe { dst_mask, ctrl_slots, group_start, fingerprint } => {
            &&& dst_mask < bound
            &&& list_below(ctrl_slots, bound)
            &&& operand_below(group_start, bound)
            &&& operand_below(fingerprint, bound)
        },
        InstrView::JoinSelectAdaptive { dst, build_rows, probe_rows } => {
            dst < bound && operand_below(build_rows, bound) && operand_below(probe_rows, bound)
        },
        InstrView::Alloc { dst, size } => {
            dst < bound && operand_below(size, bound)
        },
        InstrView::Free { ptr, size } => {
            operand_below(ptr, bound) && operand_below(size, bound)
        },
        InstrView::FileOpen { dst, path_ptr, .. } => {
            dst < bound && operand_below(path_ptr, bound)
        },
        InstrView::FileWrite { dst, fd, ptr, len }
        | InstrView::FileRead { dst, fd, ptr, len } => {
            &&& dst < bound
            &&& operand_below(fd, bound)
            &&& operand_below(ptr, bound)
            &&& operand_below(len, bound)
        },
        InstrView::FileClose { fd } => {
            operand_below(fd, bound)
        },
        InstrView::ThreadSpawn { handle_dst, return_slot, .. } => {
            handle_dst < bound && (return_slot matches Some(slot) ==> slot < bound)
        },
        InstrView::ThreadJoin { dst, handle }
        | InstrView::ChannelRecv { dst, handle } => {
            dst < bound && operand_below(handle, bound)
        },
        InstrView::ChannelCreate { dst, capacity, .. } => {
            dst < bound && operand_below(capacity, bound)
        },
        InstrView::ChannelSend { handle, value } => {
            operand_below(handle, bound) && operand_below(value, bound)
        },
        InstrView::ChannelClose { handle, .. }
        | InstrView::ChannelDestroy { handle } => {
            operand_below(handle, bound)
        },
        InstrView::PrintInt { value, .. } => {
            operand_below(value, bound)
        },
        InstrView::Exit { code } => {
            operand_below(code, bound)
        },
        _ => true,
    }
}

/// Every slot of every instruction is below `bound`.
pub open spec fn slots_below(instrs: Seq<InstrView>, bound: int) -> bool {
    forall|i: int| 0 <= i < instrs.len() ==> #[trigger] instr_below(instrs[i], bound)
}

/// An instruction's slots are below a bound exactly when all the slots it
/// mentions are.
pub proof fn lemma_instr_below(instr: InstrView, bound: int)
    ensures
        instr_below(instr, bound) <==> forall|slot: usize| #[trigger]
            mentions(instr, slot) ==> slot < bound,
{
    match instr {
        InstrView::LoadSeed { dst, input, .. } => {
            assert(mentions(instr, dst));
            if let Some(operand) = input {
                if let RuntimeOperand::Slot(slot) = operand {
                    assert(optional_operand_reads(input, slot));
                    assert(mentions(instr, slot));
                }
            }
        },
        InstrView::Mov { dst, src } => {
            assert(mentions(instr, dst));
            if let RuntimeOperand::Slot(slot) = src {
                assert(mentions(instr, slot));
            }
        },
        InstrView::BinOp { dst, lhs, rhs, .. }
        | InstrView::FloatBinOp { dst, lhs, rhs, .. }
        | InstrView::Cmp { dst, lhs, rhs, .. } => {
            assert(mentions(instr, dst));
            if let RuntimeOperand::Slot(slot) = lhs {
                assert(mentions(instr, slot));
            }
            if let RuntimeOperand::Slot(slot) = rhs {
                assert(mentions(instr, slot));
            }
        },
        InstrView::BinOpInPlace { dst, rhs, .. } => {
            assert(mentions(instr, dst));
            if let RuntimeOperand::Slot(slot) = rhs {
                assert(mentions(instr, slot));
            }
        },
        InstrView::NormalizeInt { dst, .. } => {
            assert(mentions(instr, dst));
        },
        InstrView::JumpIfZero { cond_slot, .. } => {
            assert(mentions(instr, cond_slot));
        },
        InstrView::JumpIfCmpFalse { lhs, rhs, .. } => {
            if let RuntimeOperand::Slot(slot) = lhs {
                assert(mentions(instr, slot));
            }
            if let RuntimeOperand::Slot(slot) = rhs {
                assert(mentions(instr, slot));
            }
        },
        InstrView::CompareSwap { left, right, .. } => {
            assert(mentions(instr, left));
            assert(mentions(instr, right));
        },
        InstrView::RadixSortFixedInt { slots, .. } => {
            assert forall|i: int| 0 <= i < slots.len() implies mentions(
                instr,
                #[trigger] slots[i],
            ) by {
                assert(slots.contains(slots[i]));
            }
        },
        InstrView::LoadIndex { dst, base_slots, index }
        | InstrView::LoadIndexUnchecked { dst, base_slots, index } => {
            assert(mentions(instr, dst));
            assert forall|i: int| 0 <= i < base_slots.len() implies mentions(
                instr,
                #[trigger] base_slots[i],
            ) by {
                assert(base_slots.contains(base_slots[i]));
            }
            if let RuntimeOperand::Slot(slot) = index {
                assert(mentions(instr, slot));
            }
        },
        InstrView::StoreIndex { base_slots, index, src }
        | InstrView::StoreIndexUnchecked { base_slots, index, src } => {
            assert forall|i: int| 0 <= i < base_slots.len() implies mentions(
                instr,
                #[trigger] base_slots[i],
            ) by {
                assert(base_slots.contains(base_slots[i]));
            }
            if let RuntimeOperand::Slot(slot) = index {
                assert(mentions(instr, slot));
            }
            if let RuntimeOperand::Slot(slot) = src {
                assert(mentions(instr, slot));
            }
        },
        InstrView::HeapLoadInt { dst, ptr, index, .. } => {
            assert(mentions(instr, dst));
            if let RuntimeOperand::Slot(slot) = ptr {
                assert(mentions(instr, slot));
            }
            if let RuntimeOperand::Slot(slot) = index {
                assert(mentions(instr, slot));
            }
        },
        InstrView::HeapStoreInt { ptr, index, src, .. } => {
            if let RuntimeOperand::Slot(slot) = ptr {
                assert(mentions(instr, slot));
            }
            if let RuntimeOperand::Slot(slot) = index {
                assert(mentions(instr, slot));
            }
            if let RuntimeOperand::Slot(slot) = src {
                assert(mentions(instr, slot));
            }
        },
        InstrView::HeapCopy { dst_ptr, src_ptr, bytes } => {
            if let RuntimeOperand::Slot(slot) = dst_ptr {
                assert(mentions(instr, slot));
            }
            if let RuntimeOperand::Slot(slot) = src_ptr {
                assert(mentions(instr, slot));
            }
            if let RuntimeOperand::Slot(slot) = bytes {
                assert(mentions(instr, slot));
            }
        },
        InstrView::BloomSplitBlockInsert { filter_slots, hash } => {
            assert forall|i: int| 0 <= i < filter_slots.len() implies mentions(
                instr,
                #[trigger] filter_slots[i],
            ) by {
                assert(filter_slots.contains(filter_slots[i]));
            }
            if let RuntimeOperand::Slot(slot) = hash {
                assert(mentions(instr, slot));
            }
        },
        InstrView::BloomSplitBlockCheck { dst, filter_slots, hash } => {
            assert(mentions(instr, dst));
            assert forall|i: int| 0 <= i < filter_slots.len() implies mentions(
                instr,
                #[trigger] filter_slots[i],
            ) by {
                assert(filter_slots.contains(filter_slots[i]));
            }
            if let RuntimeOperand::Slot(slot) = hash {
                assert(mentions(instr, slot));
            }
        },
        InstrView::BloomClassic4Check { dst, lanes_checked, filter_slots, hash } => {
            assert(mentions(instr, dst));
            assert(mentions(instr, lanes_checked));
            assert forall|i: int| 0 <= i < filter_slots.len() implies mentions(
                instr,
                #[trigger] filter_slots[i],
            ) by {
                assert(filter_slots.contains(filter_slots[i]));
            }
            if let RuntimeOperand::Slot(slot) = hash {
                assert(mentions(instr, slot));
            }
        },
        InstrView::HashCtrlGroupProbe { dst_mask, ctrl_slots, group_start, fingerprint } => {
            assert(mentions(instr, dst_mask));
            assert forall|i: int| 0 <= i < ctrl_slots.len() implies mentions(
                instr,
                #[trigger] ctrl_slots[i],
            ) by {
                assert(ctrl_slots.contains(ctrl_slots[i]));
            }
            if let RuntimeOperand::Slot(slot) = group_start {
                assert(mentions(instr, slot));
            }
            if let RuntimeOperand::Slot(slot) = fingerprint {
                assert(mentions(instr, slot));
            }
        },
        InstrView::JoinSelectAdaptive { dst, build_rows, probe_rows } => {
            assert(mentions(instr, dst));
            if let RuntimeOperand::Slot(slot) = build_rows {
                assert(mentions(instr, slot));
            }
            if let RuntimeOperand::Slot(slot) = probe_rows {
                assert(mentions(instr, slot));
            }
        },
        InstrView::Alloc { dst, size } => {
            assert(mentions(instr, dst));
            if let RuntimeOperand::Slot(slot) = size {
                assert(mentions(instr, slot));
            }
        },
        InstrView::Free { ptr, size } => {
            if let RuntimeOperand::Slot(slot) = ptr {
                assert(mentions(instr, slot));
            }
            if let RuntimeOperand::Slot(slot) = size {
                assert(mentions(instr, slot));
            }
        },
        InstrView::FileOpen { dst, path_ptr, .. } => {
            assert(mentions(instr, dst));
            if let RuntimeOperand::Slot(slot) = path_ptr {
                assert(mentions(instr, slot));
            }
        },
        InstrView::FileWrite { dst, fd, ptr, len }
        | InstrView::FileRead { dst, fd, ptr, len } => {
            assert(mentions(instr, dst));
            if let RuntimeOperand::Slot(slot) = fd {
                assert(mentions(instr, slot));
            }
            if let RuntimeOperand::Slot(slot) = ptr {
                assert(mentions(instr, slot));
            }
            if let RuntimeOperand::Slot(slot) = len {
                assert(mentions(instr, slot));
            }
        },
        InstrView::FileClose { fd } => {
            if let RuntimeOperand::Slot(slot) = fd {
                assert(mentions(instr, slot));
            }
        },
        InstrView::ThreadSpawn { handle_dst, return_slot, .. } => {
            assert(mentions(instr, handle_dst));
            if let Some(slot) = return_slot {
                assert(mentions(instr, slot));
            }
        },
        InstrView::ThreadJoin { dst, handle }
        | InstrView::ChannelRecv { dst, handle } => {
            assert(mentions(instr, dst));
            if let RuntimeOperand::Slot(slot) = handle {
                assert(mentions(instr, slot));
            }
        },
        InstrView::ChannelCreate { dst, capacity, .. } => {
            assert(mentions(instr, dst));
            if let RuntimeOperand::Slot(slot) = capacity {
                assert(mentions(instr, slot));
            }
        },
        InstrView::ChannelSend { handle, value } => {
            if let RuntimeOperand::Slot(slot) = handle {
                assert(mentions(instr, slot));
            }
            if let RuntimeOperand::Slot(slot) = value {
                assert(mentions(instr, slot));
            }
        },
        InstrView::ChannelClose { handle, .. }
        | InstrView::ChannelDestroy { handle } => {
            if let RuntimeOperand::Slot(slot) = handle {
                assert(mentions(instr, slot));
            }
        },
        InstrView::PrintInt { value, .. } => {
            if let RuntimeOperand::Slot(slot) = value {
                assert(mentions(instr, slot));
            }
        },
        InstrView::Exit { code } => {
            if let RuntimeOperand::Slot(slot) = code {
                assert(mentions(instr, slot));
            }
        },
        _ => {},
    }
}
/// A larger bound bounds too.
pub proof fn lemma_below_weaken(instr: InstrView, bound: int, larger: int)
    requires
        instr_below(instr, bound),
        bound <= larger,
    ensures
        instr_below(instr, larger),
{
}

/// A slot is among the first n + 1 of a list if it is among the first n or it
/// is the next.
pub proof fn lemma_contains_prefix(slots: Seq<usize>, n: int, slot: usize)
    requires
        0 <= n < slots.len(),
    ensures
        slots.take(n + 1).contains(slot) <==> slots.take(n).contains(slot) || slots[n] == slot,
{
    let longer = slots.take(n + 1);
    assert(longer[n] == slots[n]);
    if slots.take(n).contains(slot) {
        let k = choose|k: int| 0 <= k < n && slots.take(n)[k] == slot;
        assert(longer[k] == slot);
    }
    if longer.contains(slot) && slots[n] != slot {
        let k = choose|k: int| 0 <= k < n + 1 && longer[k] == slot;
        assert(slots.take(n)[k] == slot);
    }
}

/// Raises the bound to cover one slot.
fn bump_slot(bound: &mut usize, slot: usize)
    requires
        slot < usize::MAX,
    ensures
        *final(bound) == if slot < *old(bound) { *old(bound) as int } else { slot + 1 },
{
    if slot >= *bound {
        *bound = slot + 1;
    }
}

/// Raises the bound to cover an operand.
fn bump_operand(bound: &mut usize, operand: &RuntimeOperand)
    requires
        operand_below(*operand, usize::MAX as int),
    ensures
        *operand matches RuntimeOperand::Slot(slot) ==> *final(bound) == if slot < *old(bound) {
            *old(bound) as int
        } else {
            slot + 1
        },
        *operand is Imm ==> *final(bound) == *old(bound),
{
    if let RuntimeOperand::Slot(slot) = operand {
        bump_slot(bound, *slot);
    }
}

/// Raises the bound to cover a list of slots.
fn bump_slot_list(bound: &mut usize, slots: &Vec<usize>)
    requires
        list_below(slots@, usize::MAX as int),
    ensures
        *final(bound) >= *old(bound),
        list_below(slots@, *final(bound) as int),
        *final(bound) > *old(bound) ==> slots@.contains((*final(bound) - 1) as usize),
{
    let ghost start = *bound;
    for i in 0..slots.len()
        invariant
            *bound >= start,
            list_below(slots@, usize::MAX as int),
            forall|j: int| 0 <= j < i ==> slots@[j] < *bound,
            *bound > start ==> slots@.contains((*bound - 1) as usize),
    {
        assert(slots@.contains(slots@[i as int]));
        bump_slot(bound, slots[i]);
    }
}

/// Raises the bound to cover every slot that one instruction mentions.
fn bump_instr(bound: &mut usize, instr: &RuntimeInstr)
    requires
        instr_below(instr@, usize::MAX as int),
    ensures
        *final(bound) >= *old(bound),
        instr_below(instr@, *final(bound) as int),
        *final(bound) > *old(bound) ==> mentions(instr@, (*final(bound) - 1) as usize),
{
    match instr {
        RuntimeInstr::LoadSeed { dst, input, .. } => {
            bump_slot(bound, *dst);
            if let Some(operand) = input {
                bump_operand(bound, operand);
            }
        },
        RuntimeInstr::Mov { dst, src } => {
            bump_slot(bound, *dst);
            bump_operand(bound, src);
        },
        RuntimeInstr::BinOp { dst, lhs, rhs, .. }
        | RuntimeInstr::FloatBinOp { dst, lhs, rhs, .. }
        | RuntimeInstr::Cmp { dst, lhs, rhs, .. } => {
            bump_slot(bound, *dst);
            bump_operand(bound, lhs);
            bump_operand(bound, rhs);
        },
        RuntimeInstr::BinOpInPlace { dst, rhs, .. } => {
            bump_slot(bound, *dst);
            bump_operand(bound, rhs);
        },
        RuntimeInstr::NormalizeInt { dst, .. } => {
            bump_slot(bound, *dst);
        },
        RuntimeInstr::JumpIfZero { cond_slot, .. } => {
            bump_slot(bound, *cond_slot);
        },
        RuntimeInstr::JumpIfCmpFalse { lhs, rhs, .. } => {
            bump_operand(bound, lhs);
            bump_operand(bound, rhs);
        },
        RuntimeInstr::CompareSwap { left, right, .. } => {
            bump_slot(bound, *left);
            bump_slot(bound, *right);
        },
        RuntimeInstr::RadixSortFixedInt { slots, .. } => {
            bump_slot_list(bound, slots);
        },
        RuntimeInstr::LoadIndex { dst, base_slots, index }
        | RuntimeInstr::LoadIndexUnchecked { dst, base_slots, index } => {
            bump_slot(bound, *dst);
            bump_slot_list(bound, base_slots);
            bump_operand(bound, index);
        },
        RuntimeInstr::StoreIndex { base_slots, index, src }
        | RuntimeInstr::StoreIndexUnchecked { base_slots, index, src } => {
            bump_slot_list(bound, base_slots);
            bump_operand(bound, index);
            bump_operand(bound, src);
        },
        RuntimeInstr::HeapLoadInt { dst, ptr, index, .. } => {
            bump_slot(bound, *dst);
            bump_operand(bound, ptr);
            bump_operand(bound, index);
        },
        RuntimeInstr::HeapStoreInt { ptr, index, src, .. } => {
            bump_operand(bound, ptr);
            bump_operand(bound, index);
            bump_operand(bound, src);
        },
        RuntimeInstr::HeapCopy { dst_ptr, src_ptr, bytes } => {
            bump_operand(bound, dst_ptr);
            bump_operand(bound, src_ptr);
            bump_operand(bound, bytes);
        },
        RuntimeInstr::BloomSplitBlockInsert { filter_slots, hash } => {
            bump_slot_list(bound, filter_slots);
            bump_operand(bound, hash);
        },
        RuntimeInstr::BloomSplitBlockCheck { dst, filter_slots, hash } => {
            bump_slot(bound, *dst);
            bump_slot_list(bound, filter_slots);
            bump_operand(bound, hash);
        },
        RuntimeInstr::BloomClassic4Check { dst, lanes_checked, filter_slots, hash } => {
            bump_slot(bound, *dst);
            bump_slot(bound, *lanes_checked);
            bump_slot_list(bound, filter_slots);
            bump_operand(bound, hash);
        },
        RuntimeInstr::HashCtrlGroupProbe { dst_mask, ctrl_slots, group_start, fingerprint } => {
            bump_slot(bound, *dst_mask);
            bump_slot_list(bound, ctrl_slots);
            bump_operand(bound, group_start);
            bump_operand(bound, fingerprint);
        },
        RuntimeInstr::JoinSelectAdaptive { dst, build_rows, probe_rows } => {
            bump_slot(bound, *dst);
            bump_operand(bound, build_rows);
            bump_operand(bound, probe_rows);
        },
        RuntimeInstr::Alloc { dst, size } => {
            bump_slot(bound, *dst);
            bump_operand(bound, size);
        },
        RuntimeInstr::Free { ptr, size } => {
            bump_operand(bound, ptr);
            bump_operand(bound, size);
        },
        RuntimeInstr::FileOpen { dst, path_ptr, .. } => {
            bump_slot(bound, *dst);
            bump_operand(bound, path_ptr);
        },
        RuntimeInstr::FileWrite { dst, fd, ptr, len }
        | RuntimeInstr::FileRead { dst, fd, ptr, len } => {
            bump_slot(bound, *dst);
            bump_operand(bound, fd);
            bump_operand(bound, ptr);
            bump_operand(bound, len);
        },
        RuntimeInstr::FileClose { fd } => {
            bump_operand(bound, fd);
        },
        RuntimeInstr::ThreadSpawn { handle_dst, return_slot, .. } => {
            bump_slot(bound, *handle_dst);
            if let Some(slot) = return_slot {
                bump_slot(bound, *slot);
            }
        },
        RuntimeInstr::ThreadJoin { dst, handle }
        | RuntimeInstr::ChannelRecv { dst, handle } => {
            bump_slot(bound, *dst);
            bump_operand(bound, handle);
        },
        RuntimeInstr::ChannelCreate { dst, capacity, .. } => {
            bump_slot(bound, *dst);
            bump_operand(bound, capacity);
        },
        RuntimeInstr::ChannelSend { handle, value } => {
            bump_operand(bound, handle);
            bump_operand(bound, value);
        },
        RuntimeInstr::ChannelClose { handle, .. }
        | RuntimeInstr::ChannelDestroy { handle } => {
            bump_operand(bound, handle);
        },
        RuntimeInstr::PrintInt { value, .. } => {
            bump_operand(bound, value);
        },
        RuntimeInstr::Exit { code } => {
            bump_operand(bound, code);
        },
        _ => {},
    }
}

/// The number is one more than the largest slot that the instructions mention,
/// or zero if they mention none.
pub open spec fn is_slot_count(instrs: Seq<InstrView>, count: nat) -> bool {
    &&& slots_below(instrs, count as int)
    &&& count > 0 ==> count <= usize::MAX && slot_is_used(instrs, (count - 1) as usize)
}

/// One more than the largest slot that the instructions mention, or zero if
/// they mention none.
pub open spec fn slot_total(instrs: Seq<InstrView>) -> nat {
    choose|count: nat| is_slot_count(instrs, count)
}

/// No two numbers are one more than the largest slot.
pub proof fn lemma_slot_count_unique(instrs: Seq<InstrView>, a: nat, b: nat)
    requires
        is_slot_count(instrs, a),
        is_slot_count(instrs, b),
    ensures
        a == b,
{
    if a < b {
        lemma_used_slot_below(instrs, (b - 1) as usize, a as int);
    } else if b < a {
        lemma_used_slot_below(instrs, (a - 1) as usize, b as int);
    }
}

/// A slot that is used is below every bound of the program's slots.
pub proof fn lemma_used_slot_below(instrs: Seq<InstrView>, slot: usize, bound: int)
    requires
        slot_is_used(instrs, slot),
        slots_below(instrs, bound),
    ensures
        slot < bound,
{
    let i = choose|i: int| 0 <= i < instrs.len() && mentions(#[trigger] instrs[i], slot);
    assert(instr_below(instrs[i], bound));
    lemma_instr_below(instrs[i], bound);
}

/// One more than the largest slot that the instructions mention, or zero if
/// they mention none.
pub fn runtime_program_slot_count(instrs: &[RuntimeInstr]) -> (count: usize)
    requires
        slots_below(instrs_view(instrs@), usize::MAX as int),
    ensures
        count == slot_total(instrs_view(instrs@)),
        is_slot_count(instrs_view(instrs@), count as nat),
{
    let ghost all = instrs_view(instrs@);
    let mut count: usize = 0;
    for i in 0..instrs.len()
        invariant
            all == instrs_view(instrs@),
            slots_below(all, usize::MAX as int),
            slots_below(all.take(i as int), count as int),
            count > 0 ==> slot_is_used(all.take(i as int), (count - 1) as usize),
    {
        let ghost before = count;
        assert(all[i as int] == instrs@[i as int]@);
        bump_instr(&mut count, &instrs[i]);
        proof {
            let longer = all.take(i + 1);
            assert(longer[i as int] == all[i as int]);
            assert forall|j: int| 0 <= j < longer.len() implies #[trigger] instr_below(
                longer[j],
                count as int,
            ) by {
                if j < i {
                    assert(instr_below(all.take(i as int)[j], before as int));
                    lemma_below_weaken(all.take(i as int)[j], before as int, count as int);
                }
            }
            if count > 0 && count == before {
                let j = choose|j: int|
                    0 <= j < i && mentions(
                        #[trigger] all.take(i as int)[j],
                        (count - 1) as usize,
                    );
                assert(longer[j] == all.take(i as int)[j]);
            }
        }
    }
    assert(all.take(instrs@.len() as int) =~= all);
    proof {
        assert(is_slot_count(all, count as nat));
        lemma_slot_count_unique(all, count as nat, slot_total(all));
    }
    count
}

/// Marks a slot, if it is in range.
pub fn mark_slot_used(slot: usize, used: &mut Vec<bool>)
    ensures
        final(used)@.len() == old(used)@.len(),
        forall|s: usize|
            s < old(
                used,
            )@.len() ==> #[trigger] final(used)@[s as int] == (old(used)@[s as int] || s == slot),
{
    if slot < used.len() {
        used.set(slot, true);
    }
}

/// Marks the slot of an operand, if it is in range.
pub fn mark_operand_used(operand: &RuntimeOperand, used: &mut Vec<bool>)
    ensures
        final(used)@.len() == old(used)@.len(),
        forall|s: usize|
            s < old(used)@.len() ==> #[trigger] final(used)@[s as int] == (old(used)@[s as int]
                || operand_reads(*operand, s)),
{
    if let RuntimeOperand::Slot(slot) = operand {
        mark_slot_used(*slot, used);
    }
}

/// Marks the slots of a list that are in range.
fn mark_slot_list_used(slots: &Vec<usize>, used: &mut Vec<bool>)
    ensures
        final(used)@.len() == old(used)@.len(),
        forall|s: usize|
            s < old(used)@.len() ==> #[trigger] final(used)@[s as int] == (old(used)@[s as int]
                || slots@.contains(s)),
{
    let ghost start = used@;
    for i in 0..slots.len()
        invariant
            used@.len() == start.len(),
            forall|s: usize|
                s < start.len() ==> #[trigger] used@[s as int] == (start[s as int] || slots@.take(
                    i as int,
                ).contains(s)),
    {
        mark_slot_used(slots[i], used);
        proof {
            assert forall|s: usize| s < start.len() implies #[trigger] used@[s as int]
                == (start[s as int]
                || slots@.take(i + 1).contains(s)) by {
                lemma_contains_prefix(slots@, i as int, s);
            }
        }
    }
    assert(slots@.take(slots@.len() as int) =~= slots@);
}

/// Marks every slot that the instruction mentions and that is in range.
pub fn mark_used_slots(instr: &RuntimeInstr, used: &mut Vec<bool>)
    ensures
        final(used)@.len() == old(used)@.len(),
        forall|s: usize|
            s < old(
                used,
            )@.len() ==> #[trigger] final(used)@[s as int] == (old(used)@[s as int] || mentions(
                instr@,
                s,
            )),
{
    match instr {
        RuntimeInstr::LoadSeed { dst, input, .. } => {
            mark_slot_used(*dst, used);
            if let Some(operand) = input {
                mark_operand_used(operand, used);
            }
        },
        RuntimeInstr::Mov { dst, src } => {
            mark_slot_used(*dst, used);
            mark_operand_used(src, used);
        },
        RuntimeInstr::BinOp { dst, lhs, rhs, .. }
        | RuntimeInstr::FloatBinOp { dst, lhs, rhs, .. }
        | RuntimeInstr::Cmp { dst, lhs, rhs, .. } => {
            mark_slot_used(*dst, used);
            mark_operand_used(lhs, used);
            mark_operand_used(rhs, used);
        },
        RuntimeInstr::BinOpInPlace { dst, rhs, .. } => {
            mark_slot_used(*dst, used);
            mark_operand_used(rhs, used);
        },
        RuntimeInstr::NormalizeInt { dst, .. } => {
            mark_slot_used(*dst, used);
        },
        RuntimeInstr::JumpIfZero { cond_slot, .. } => {
            mark_slot_used(*cond_slot, used);
        },
        RuntimeInstr::JumpIfCmpFalse { lhs, rhs, .. } => {
            mark_operand_used(lhs, used);
            mark_operand_used(rhs, used);
        },
        RuntimeInstr::CompareSwap { left, right, .. } => {
            mark_slot_used(*left, used);
            mark_slot_used(*right, used);
        },
        RuntimeInstr::RadixSortFixedInt { slots, .. } => {
            mark_slot_list_used(slots, used);
        },
        RuntimeInstr::LoadIndex { dst, base_slots, index }
        | RuntimeInstr::LoadIndexUnchecked { dst, base_slots, index } => {
            mark_slot_used(*dst, used);
            mark_slot_list_used(base_slots, used);
            mark_operand_used(index, used);
        },
        RuntimeInstr::StoreIndex { base_slots, index, src }
        | RuntimeInstr::StoreIndexUnchecked { base_slots, index, src } => {
            mark_slot_list_used(base_slots, used);
            mark_operand_used(index, used);
            mark_operand_used(src, used);
        },
        RuntimeInstr::HeapLoadInt { dst, ptr, index, .. } => {
            mark_slot_used(*dst, used);
            mark_operand_used(ptr, used);
            mark_operand_used(index, used);
        },
        RuntimeInstr::HeapStoreInt { ptr, index, src, .. } => {
            mark_operand_used(ptr, used);
            mark_operand_used(index, used);
            mark_operand_used(src, used);
        },
        RuntimeInstr::HeapCopy { dst_ptr, src_ptr, bytes } => {
            mark_operand_used(dst_ptr, used);
            mark_operand_used(src_ptr, used);
            mark_operand_used(bytes, used);
        },
        RuntimeInstr::BloomSplitBlockInsert { filter_slots, hash } => {
            mark_slot_list_used(filter_slots, used);
            mark_operand_used(hash, used);
        },
        RuntimeInstr::BloomSplitBlockCheck { dst, filter_slots, hash } => {
            mark_slot_used(*dst, used);
            mark_slot_list_used(filter_slots, used);
            mark_operand_used(hash, used);
        },
        RuntimeInstr::BloomClassic4Check { dst, lanes_checked, filter_slots, hash } => {
            mark_slot_used(*dst, used);
            mark_slot_used(*lanes_checked, used);
            mark_slot_list_used(filter_slots, used);
            mark_operand_used(hash, used);
        },
        RuntimeInstr::HashCtrlGroupProbe { dst_mask, ctrl_slots, group_start, fingerprint } => {
            mark_slot_used(*dst_mask, used);
            mark_slot_list_used(ctrl_slots, used);
            mark_operand_used(group_start, used);
            mark_operand_used(fingerprint, used);
        },
        RuntimeInstr::JoinSelectAdaptive { dst, build_rows, probe_rows } => {
            mark_slot_used(*dst, used);
            mark_operand_used(build_rows, used);
            mark_operand_used(probe_rows, used);
        },
        RuntimeInstr::Alloc { dst, size } => {
            mark_slot_used(*dst, used);
            mark_operand_used(size, used);
        },
        RuntimeInstr::Free { ptr, size } => {
            mark_operand_used(ptr, used);
            mark_operand_used(size, used);
        },
        RuntimeInstr::FileOpen { dst, path_ptr, .. } => {
            mark_slot_used(*dst, used);
            mark_operand_used(path_ptr, used);
        },
        RuntimeInstr::FileWrite { dst, fd, ptr, len }
        | RuntimeInstr::FileRead { dst, fd, ptr, len } => {
            mark_slot_used(*dst, used);
            mark_operand_used(fd, used);
            mark_operand_used(ptr, used);
            mark_operand_used(len, used);
        },
        RuntimeInstr::FileClose { fd } => {
            mark_operand_used(fd, used);
        },
        RuntimeInstr::ThreadSpawn { handle_dst, return_slot, .. } => {
            mark_slot_used(*handle_dst, used);
            if let Some(slot) = return_slot {
                mark_slot_used(*slot, used);
            }
        },
        RuntimeInstr::ThreadJoin { dst, handle }
        | RuntimeInstr::ChannelRecv { dst, handle } => {
            mark_slot_used(*dst, used);
            mark_operand_used(handle, used);
        },
        RuntimeInstr::ChannelCreate { dst, capacity, .. } => {
            mark_slot_used(*dst, used);
            mark_operand_used(capacity, used);
        },
        RuntimeInstr::ChannelSend { handle, value } => {
            mark_operand_used(handle, used);
            mark_operand_used(value, used);
        },
        RuntimeInstr::ChannelClose { handle, .. }
        | RuntimeInstr::ChannelDestroy { handle } => {
            mark_operand_used(handle, used);
        },
        RuntimeInstr::PrintInt { value, .. } => {
            mark_operand_used(value, used);
        },
        RuntimeInstr::Exit { code } => {
            mark_operand_used(code, used);
        },
        _ => {},
    }
}

/// The operand with its slot renamed.
pub open spec fn rename_operand(
    operand: RuntimeOperand,
    f: spec_fn(usize) -> usize,
) -> RuntimeOperand {
    match operand {
        RuntimeOperand::Slot(slot) => RuntimeOperand::Slot(f(slot)),
        RuntimeOperand::Imm(value) => RuntimeOperand::Imm(value),
    }
}

/// The slot list with every slot renamed.
pub open spec fn rename_list(slots: Seq<usize>, f: spec_fn(usize) -> usize) -> Seq<usize> {
    Seq::new(slots.len(), |i: int| f(slots[i]))
}

/// The instruction with every slot renamed.
pub open spec fn rename(instr: InstrView, f: spec_fn(usize) -> usize) -> InstrView {
    match instr {
        InstrView::LoadSeed { dst, kind, input } => InstrView::LoadSeed {
            dst: f(dst),
            kind,
            input: match input { Some(operand) => Some(rename_operand(operand, f)), None => None },
        },
        InstrView::Mov { dst, src } => {
            InstrView::Mov { dst: f(dst), src: rename_operand(src, f) }
        },
        InstrView::BinOp { dst, op, lhs, rhs } => InstrView::BinOp {
            dst: f(dst),
            op,
            lhs: rename_operand(lhs, f),
            rhs: rename_operand(rhs, f),
        },
        InstrView::BinOpInPlace { dst, op, rhs } => {
            InstrView::BinOpInPlace { dst: f(dst), op, rhs: rename_operand(rhs, f) }
        },
        InstrView::FloatBinOp { dst, bits, op, lhs, rhs } => InstrView::FloatBinOp {
            dst: f(dst),
            bits,
            op,
            lhs: rename_operand(lhs, f),
            rhs: rename_operand(rhs, f),
        },
        InstrView::Cmp { dst, op, lhs, rhs } => InstrView::Cmp {
            dst: f(dst),
            op,
            lhs: rename_operand(lhs, f),
            rhs: rename_operand(rhs, f),
        },
        InstrView::NormalizeInt { dst, signed, bits } => {
            InstrView::NormalizeInt { dst: f(dst), signed, bits }
        },
        InstrView::JumpIfZero { cond_slot, target } => {
            InstrView::JumpIfZero { cond_slot: f(cond_slot), target }
        },
        InstrView::JumpIfCmpFalse { op, lhs, rhs, target } => InstrView::JumpIfCmpFalse {
            op,
            lhs: rename_operand(lhs, f),
            rhs: rename_operand(rhs, f),
            target,
        },
        InstrView::CompareSwap { left, right, signed } => {
            InstrView::CompareSwap { left: f(left), right: f(right), signed }
        },
        InstrView::RadixSortFixedInt { slots, bits, signed, stable } => {
            InstrView::RadixSortFixedInt { slots: rename_list(slots, f), bits, signed, stable }
        },
        InstrView::LoadIndex { dst, base_slots, index } => InstrView::LoadIndex {
            dst: f(dst),
            base_slots: rename_list(base_slots, f),
            index: rename_operand(index, f),
        },
        InstrView::LoadIndexUnchecked { dst, base_slots, index } => InstrView::LoadIndexUnchecked {
            dst: f(dst),
            base_slots: rename_list(base_slots, f),
            index: rename_operand(index, f),
        },
        InstrView::StoreIndex { base_slots, index, src } => InstrView::StoreIndex {
            base_slots: rename_list(base_slots, f),
            index: rename_operand(index, f),
            src: rename_operand(src, f),
        },
        InstrView::StoreIndexUnchecked {
            base_slots,
            index,
            src,
        } => InstrView::StoreIndexUnchecked {
            base_slots: rename_list(base_slots, f),
            index: rename_operand(index, f),
            src: rename_operand(src, f),
        },
        InstrView::HeapLoadInt { dst, ptr, index, bytes } => InstrView::HeapLoadInt {
            dst: f(dst),
            ptr: rename_operand(ptr, f),
            index: rename_operand(index, f),
            bytes,
        },
        InstrView::HeapStoreInt { ptr, index, src, bytes } => InstrView::HeapStoreInt {
            ptr: rename_operand(ptr, f),
            index: rename_operand(index, f),
            src: rename_operand(src, f),
            bytes,
        },
        InstrView::HeapCopy { dst_ptr, src_ptr, bytes } => InstrView::HeapCopy {
            dst_ptr: rename_operand(dst_ptr, f),
            src_ptr: rename_operand(src_ptr, f),
            bytes: rename_operand(bytes, f),
        },
        InstrView::BloomSplitBlockInsert {
            filter_slots,
            hash,
        } => InstrView::BloomSplitBlockInsert {
            filter_slots: rename_list(filter_slots, f),
            hash: rename_operand(hash, f),
        },
        InstrView::BloomSplitBlockCheck {
            dst,
            filter_slots,
            hash,
        } => InstrView::BloomSplitBlockCheck {
            dst: f(dst),
            filter_slots: rename_list(filter_slots, f),
            hash: rename_operand(hash, f),
        },
        InstrView::BloomClassic4Check {
            dst,
            lanes_checked,
            filter_slots,
            hash,
        } => InstrView::BloomClassic4Check {
            dst: f(dst),
            lanes_checked: f(lanes_checked),
            filter_slots: rename_list(filter_slots, f),
            hash: rename_operand(hash, f),
        },
        InstrView::HashCtrlGroupProbe {
            dst_mask,
            ctrl_slots,
            group_start,
            fingerprint,
        } => InstrView::HashCtrlGroupProbe {
            dst_mask: f(dst_mask),
            ctrl_slots: rename_list(ctrl_slots, f),
            group_start: rename_operand(group_start, f),
            fingerprint: rename_operand(fingerprint, f),
        },
        InstrView::JoinSelectAdaptive {
            dst,
            build_rows,
            probe_rows,
        } => InstrView::JoinSelectAdaptive {
            dst: f(dst),
            build_rows: rename_operand(build_rows, f),
            probe_rows: rename_operand(probe_rows, f),
        },
        InstrView::Alloc { dst, size } => {
            InstrView::Alloc { dst: f(dst), size: rename_operand(size, f) }
        },
        InstrView::Free { ptr, size } => {
            InstrView::Free { ptr: rename_operand(ptr, f), size: rename_operand(size, f) }
        },
        InstrView::FileOpen { dst, path_ptr, flags, mode } => {
            InstrView::FileOpen { dst: f(dst), path_ptr: rename_operand(path_ptr, f), flags, mode }
        },
        InstrView::FileWrite { dst, fd, ptr, len } => InstrView::FileWrite {
            dst: f(dst),
            fd: rename_operand(fd, f),
            ptr: rename_operand(ptr, f),
            len: rename_operand(len, f),
        },
        InstrView::FileRead { dst, fd, ptr, len } => InstrView::FileRead {
            dst: f(dst),
            fd: rename_operand(fd, f),
            ptr: rename_operand(ptr, f),
            len: rename_operand(len, f),
        },
        InstrView::FileClose { fd } => {
            InstrView::FileClose { fd: rename_operand(fd, f) }
        },
        InstrView::ThreadSpawn { handle_dst, target, return_slot } => InstrView::ThreadSpawn {
            handle_dst: f(handle_dst),
            target,
            return_slot: match return_slot { Some(slot) => Some(f(slot)), None => None },
        },
        InstrView::ThreadJoin { dst, handle } => {
            InstrView::ThreadJoin { dst: f(dst), handle: rename_operand(handle, f) }
        },
        InstrView::ChannelCreate { dst, capacity, unbounded } => InstrView::ChannelCreate {
            dst: f(dst),
            capacity: rename_operand(capacity, f),
            unbounded,
        },
        InstrView::ChannelSend { handle, value } => InstrView::ChannelSend {
            handle: rename_operand(handle, f),
            value: rename_operand(value, f),
        },
        InstrView::ChannelRecv { dst, handle } => {
            InstrView::ChannelRecv { dst: f(dst), handle: rename_operand(handle, f) }
        },
        InstrView::ChannelClose { handle, sender } => {
            InstrView::ChannelClose { handle: rename_operand(handle, f), sender }
        },
        InstrView::ChannelDestroy { handle } => {
            InstrView::ChannelDestroy { handle: rename_operand(handle, f) }
        },
        InstrView::PrintInt { value, signed, bits } => {
            InstrView::PrintInt { value: rename_operand(value, f), signed, bits }
        },
        InstrView::Exit { code } => {
            InstrView::Exit { code: rename_operand(code, f) }
        },
        _ => instr,
    }
}

/// The renaming that a table gives.
pub open spec fn by_table(table: Seq<usize>) -> spec_fn(usize) -> usize {
    |slot: usize| table[slot as int]
}

/// The operand with its slot renamed by a table.
pub fn remap_operand_slots(
    operand: &RuntimeOperand,
    remap: &Vec<usize>,
) -> (renamed: RuntimeOperand)
    requires
        operand_below(*operand, remap@.len() as int),
    ensures
        renamed == rename_operand(*operand, by_table(remap@)),
{
    match operand {
        RuntimeOperand::Slot(slot) => RuntimeOperand::Slot(remap[*slot]),
        RuntimeOperand::Imm(value) => RuntimeOperand::Imm(*value),
    }
}

/// The list with its slots renamed by a table.
fn remap_slot_list(slots: &Vec<usize>, remap: &Vec<usize>) -> (renamed: Vec<usize>)
    requires
        list_below(slots@, remap@.len() as int),
    ensures
        renamed@ == rename_list(slots@, by_table(remap@)),
{
    let mut renamed: Vec<usize> = Vec::with_capacity(slots.len());
    for i in 0..slots.len()
        invariant
            renamed@.len() == i,
            list_below(slots@, remap@.len() as int),
            forall|j: int| 0 <= j < i ==> renamed@[j] == remap@[slots@[j] as int],
    {
        renamed.push(remap[slots[i]]);
    }
    assert(renamed@ =~= rename_list(slots@, by_table(remap@)));
    renamed
}

/// The instruction with every slot renamed by a table.
pub fn remap_instr_slots(instr: &RuntimeInstr, remap: &Vec<usize>) -> (renamed: RuntimeInstr)
    requires
        instr_below(instr@, remap@.len() as int),
    ensures
        renamed@ == rename(instr@, by_table(remap@)),
{
    match instr {
        RuntimeInstr::LoadSeed { dst, kind, input } => RuntimeInstr::LoadSeed {
            dst: remap[*dst],
            kind: *kind,
            input: match input { Some(
                operand,
            ) => Some(remap_operand_slots(operand, remap)), None => None },
        },
        RuntimeInstr::Mov { dst, src } => {
            RuntimeInstr::Mov { dst: remap[*dst], src: remap_operand_slots(src, remap) }
        },
        RuntimeInstr::BinOp { dst, op, lhs, rhs } => RuntimeInstr::BinOp {
            dst: remap[*dst],
            op: *op,
            lhs: remap_operand_slots(lhs, remap),
            rhs: remap_operand_slots(rhs, remap),
        },
        RuntimeInstr::BinOpInPlace { dst, op, rhs } => RuntimeInstr::BinOpInPlace {
            dst: remap[*dst],
            op: *op,
            rhs: remap_operand_slots(rhs, remap),
        },
        RuntimeInstr::FloatBinOp { dst, bits, op, lhs, rhs } => RuntimeInstr::FloatBinOp {
            dst: remap[*dst],
            bits: *bits,
            op: *op,
            lhs: remap_operand_slots(lhs, remap),
            rhs: remap_operand_slots(rhs, remap),
        },
        RuntimeInstr::Cmp { dst, op, lhs, rhs } => RuntimeInstr::Cmp {
            dst: remap[*dst],
            op: *op,
            lhs: remap_operand_slots(lhs, remap),
            rhs: remap_operand_slots(rhs, remap),
        },
        RuntimeInstr::NormalizeInt { dst, signed, bits } => {
            RuntimeInstr::NormalizeInt { dst: remap[*dst], signed: *signed, bits: *bits }
        },
        RuntimeInstr::JumpIfZero { cond_slot, target } => {
            RuntimeInstr::JumpIfZero { cond_slot: remap[*cond_slot], target: *target }
        },
        RuntimeInstr::JumpIfCmpFalse { op, lhs, rhs, target } => RuntimeInstr::JumpIfCmpFalse {
            op: *op,
            lhs: remap_operand_slots(lhs, remap),
            rhs: remap_operand_slots(rhs, remap),
            target: *target,
        },
        RuntimeInstr::CompareSwap { left, right, signed } => {
            RuntimeInstr::CompareSwap { left: remap[*left], right: remap[*right], signed: *signed }
        },
        RuntimeInstr::RadixSortFixedInt {
            slots,
            bits,
            signed,
            stable,
        } => RuntimeInstr::RadixSortFixedInt {
            slots: remap_slot_list(slots, remap),
            bits: *bits,
            signed: *signed,
            stable: *stable,
        },
        RuntimeInstr::LoadIndex { dst, base_slots, index } => RuntimeInstr::LoadIndex {
            dst: remap[*dst],
            base_slots: remap_slot_list(base_slots, remap),
            index: remap_operand_slots(index, remap),
        },
        RuntimeInstr::LoadIndexUnchecked {
            dst,
            base_slots,
            index,
        } => RuntimeInstr::LoadIndexUnchecked {
            dst: remap[*dst],
            base_slots: remap_slot_list(base_slots, remap),
            index: remap_operand_slots(index, remap),
        },
        RuntimeInstr::StoreIndex { base_slots, index, src } => RuntimeInstr::StoreIndex {
            base_slots: remap_slot_list(base_slots, remap),
            index: remap_operand_slots(index, remap),
            src: remap_operand_slots(src, remap),
        },
        RuntimeInstr::StoreIndexUnchecked {
            base_slots,
            index,
            src,
        } => RuntimeInstr::StoreIndexUnchecked {
            base_slots: remap_slot_list(base_slots, remap),
            index: remap_operand_slots(index, remap),
            src: remap_operand_slots(src, remap),
        },
        RuntimeInstr::HeapLoadInt { dst, ptr, index, bytes } => RuntimeInstr::HeapLoadInt {
            dst: remap[*dst],
            ptr: remap_operand_slots(ptr, remap),
            index: remap_operand_slots(index, remap),
            bytes: *bytes,
        },
        RuntimeInstr::HeapStoreInt { ptr, index, src, bytes } => RuntimeInstr::HeapStoreInt {
            ptr: remap_operand_slots(ptr, remap),
            index: remap_operand_slots(index, remap),
            src: remap_operand_slots(src, remap),
            bytes: *bytes,
        },
        RuntimeInstr::HeapCopy { dst_ptr, src_ptr, bytes } => RuntimeInstr::HeapCopy {
            dst_ptr: remap_operand_slots(dst_ptr, remap),
            src_ptr: remap_operand_slots(src_ptr, remap),
            bytes: remap_operand_slots(bytes, remap),
        },
        RuntimeInstr::BloomSplitBlockInsert {
            filter_slots,
            hash,
        } => RuntimeInstr::BloomSplitBlockInsert {
            filter_slots: remap_slot_list(filter_slots, remap),
            hash: remap_operand_slots(hash, remap),
        },
        RuntimeInstr::BloomSplitBlockCheck {
            dst,
            filter_slots,
            hash,
        } => RuntimeInstr::BloomSplitBlockCheck {
            dst: remap[*dst],
            filter_slots: remap_slot_list(filter_slots, remap),
            hash: remap_operand_slots(hash, remap),
        },
        RuntimeInstr::BloomClassic4Check {
            dst,
            lanes_checked,
            filter_slots,
            hash,
        } => RuntimeInstr::BloomClassic4Check {
            dst: remap[*dst],
            lanes_checked: remap[*lanes_checked],
            filter_slots: remap_slot_list(filter_slots, remap),
            hash: remap_operand_slots(hash, remap),
        },
        RuntimeInstr::HashCtrlGroupProbe {
            dst_mask,
            ctrl_slots,
            group_start,
            fingerprint,
        } => RuntimeInstr::HashCtrlGroupProbe {
            dst_mask: remap[*dst_mask],
            ctrl_slots: remap_slot_list(ctrl_slots, remap),
            group_start: remap_operand_slots(group_start, remap),
            fingerprint: remap_operand_slots(fingerprint, remap),
        },
        RuntimeInstr::JoinSelectAdaptive {
            dst,
            build_rows,
            probe_rows,
        } => RuntimeInstr::JoinSelectAdaptive {
            dst: remap[*dst],
            build_rows: remap_operand_slots(build_rows, remap),
            probe_rows: remap_operand_slots(probe_rows, remap),
        },
        RuntimeInstr::Alloc { dst, size } => {
            RuntimeInstr::Alloc { dst: remap[*dst], size: remap_operand_slots(size, remap) }
        },
        RuntimeInstr::Free { ptr, size } => RuntimeInstr::Free {
            ptr: remap_operand_slots(ptr, remap),
            size: remap_operand_slots(size, remap),
        },
        RuntimeInstr::FileOpen { dst, path_ptr, flags, mode } => RuntimeInstr::FileOpen {
            dst: remap[*dst],
            path_ptr: remap_operand_slots(path_ptr, remap),
            flags: *flags,
            mode: *mode,
        },
        RuntimeInstr::FileWrite { dst, fd, ptr, len } => RuntimeInstr::FileWrite {
            dst: remap[*dst],
            fd: remap_operand_slots(fd, remap),
            ptr: remap_operand_slots(ptr, remap),
            len: remap_operand_slots(len, remap),
        },
        RuntimeInstr::FileRead { dst, fd, ptr, len } => RuntimeInstr::FileRead {
            dst: remap[*dst],
            fd: remap_operand_slots(fd, remap),
            ptr: remap_operand_slots(ptr, remap),
            len: remap_operand_slots(len, remap),
        },
        RuntimeInstr::FileClose { fd } => {
            RuntimeInstr::FileClose { fd: remap_operand_slots(fd, remap) }
        },
        RuntimeInstr::ThreadSpawn { handle_dst, target, return_slot } => RuntimeInstr::ThreadSpawn {
            handle_dst: remap[*handle_dst],
            target: *target,
            return_slot: match return_slot { Some(slot) => Some(remap[*slot]), None => None },
        },
        RuntimeInstr::ThreadJoin { dst, handle } => RuntimeInstr::ThreadJoin {
            dst: remap[*dst],
            handle: remap_operand_slots(handle, remap),
        },
        RuntimeInstr::ChannelCreate { dst, capacity, unbounded } => RuntimeInstr::ChannelCreate {
            dst: remap[*dst],
            capacity: remap_operand_slots(capacity, remap),
            unbounded: *unbounded,
        },
        RuntimeInstr::ChannelSend { handle, value } => RuntimeInstr::ChannelSend {
            handle: remap_operand_slots(handle, remap),
            value: remap_operand_slots(value, remap),
        },
        RuntimeInstr::ChannelRecv { dst, handle } => RuntimeInstr::ChannelRecv {
            dst: remap[*dst],
            handle: remap_operand_slots(handle, remap),
        },
        RuntimeInstr::ChannelClose { handle, sender } => RuntimeInstr::ChannelClose {
            handle: remap_operand_slots(handle, remap),
            sender: *sender,
        },
        RuntimeInstr::ChannelDestroy { handle } => {
            RuntimeInstr::ChannelDestroy { handle: remap_operand_slots(handle, remap) }
        },
        RuntimeInstr::PrintInt { value, signed, bits } => RuntimeInstr::PrintInt {
            value: remap_operand_slots(value, remap),
            signed: *signed,
            bits: *bits,
        },
        RuntimeInstr::Exit { code } => {
            RuntimeInstr::Exit { code: remap_operand_slots(code, remap) }
        },
        _ => instr.clone(),
    }
}

/// Renamings that agree on the slots an instruction mentions rename it alike.
pub proof fn lemma_rename_agree(
    instr: InstrView,
    f: spec_fn(usize) -> usize,
    g: spec_fn(usize) -> usize,
)
    requires
        forall|slot: usize| #[trigger] mentions(instr, slot) ==> f(slot) == g(slot),
    ensures
        rename(instr, f) == rename(instr, g),
{
    match instr {
        InstrView::LoadSeed { dst, input, .. } => {
            assert(mentions(instr, dst));
            if let Some(operand) = input {
                if let RuntimeOperand::Slot(slot) = operand {
                    assert(mentions(instr, slot));
                }
            }
        },
        InstrView::Mov { dst, src } => {
            assert(mentions(instr, dst));
            if let RuntimeOperand::Slot(slot) = src {
                assert(mentions(instr, slot));
            }
        },
        InstrView::BinOp { dst, lhs, rhs, .. }
        | InstrView::FloatBinOp { dst, lhs, rhs, .. }
        | InstrView::Cmp { dst, lhs, rhs, .. } => {
            assert(mentions(instr, dst));
            if let RuntimeOperand::Slot(slot) = lhs {
                assert(mentions(instr, slot));
            }
            if let RuntimeOperand::Slot(slot) = rhs {
                assert(mentions(instr, slot));
            }
        },
        InstrView::BinOpInPlace { dst, rhs, .. } => {
            assert(mentions(instr, dst));
            if let RuntimeOperand::Slot(slot) = rhs {
                assert(mentions(instr, slot));
            }
        },
        InstrView::NormalizeInt { dst, .. } => {
            assert(mentions(instr, dst));
        },
        InstrView::JumpIfZero { cond_slot, .. } => {
            assert(mentions(instr, cond_slot));
        },
        InstrView::JumpIfCmpFalse { lhs, rhs, .. } => {
            if let RuntimeOperand::Slot(slot) = lhs {
                assert(mentions(instr, slot));
            }
            if let RuntimeOperand::Slot(slot) = rhs {
                assert(mentions(instr, slot));
            }
        },
        InstrView::CompareSwap { left, right, .. } => {
            assert(mentions(instr, left));
            assert(mentions(instr, right));
        },
        InstrView::RadixSortFixedInt { slots, .. } => {
            assert forall|i: int| 0 <= i < slots.len() implies mentions(
                instr,
                #[trigger] slots[i],
            ) by {
                assert(slots.contains(slots[i]));
            }
            assert(rename_list(slots, f) =~= rename_list(slots, g));
        },
        InstrView::LoadIndex { dst, base_slots, index }
        | InstrView::LoadIndexUnchecked { dst, base_slots, index } => {
            assert(mentions(instr, dst));
            assert forall|i: int| 0 <= i < base_slots.len() implies mentions(
                instr,
                #[trigger] base_slots[i],
            ) by {
                assert(base_slots.contains(base_slots[i]));
            }
            assert(rename_list(base_slots, f) =~= rename_list(base_slots, g));
            if let RuntimeOperand::Slot(slot) = index {
                assert(mentions(instr, slot));
            }
        },
        InstrView::StoreIndex { base_slots, index, src }
        | InstrView::StoreIndexUnchecked { base_slots, index, src } => {
            assert forall|i: int| 0 <= i < base_slots.len() implies mentions(
                instr,
                #[trigger] base_slots[i],
            ) by {
                assert(base_slots.contains(base_slots[i]));
            }
            assert(rename_list(base_slots, f) =~= rename_list(base_slots, g));
            if let RuntimeOperand::Slot(slot) = index {
                assert(mentions(instr, slot));
            }
            if let RuntimeOperand::Slot(slot) = src {
                assert(mentions(instr, slot));
            }
        },
        InstrView::HeapLoadInt { dst, ptr, index, .. } => {
            assert(mentions(instr, dst));
            if let RuntimeOperand::Slot(slot) = ptr {
                assert(mentions(instr, slot));
            }
            if let RuntimeOperand::Slot(slot) = index {
                assert(mentions(instr, slot));
            }
        },
        InstrView::HeapStoreInt { ptr, index, src, .. } => {
            if let RuntimeOperand::Slot(slot) = ptr {
                assert(mentions(instr, slot));
            }
            if let RuntimeOperand::Slot(slot) = index {
                assert(mentions(instr, slot));
            }
            if let RuntimeOperand::Slot(slot) = src {
                assert(mentions(instr, slot));
            }
        },
        InstrView::HeapCopy { dst_ptr, src_ptr, bytes } => {
            if let RuntimeOperand::Slot(slot) = dst_ptr {
                assert(mentions(instr, slot));
            }
            if let RuntimeOperand::Slot(slot) = src_ptr {
                assert(mentions(instr, slot));
            }
            if let RuntimeOperand::Slot(slot) = bytes {
                assert(mentions(instr, slot));
            }
        },
        InstrView::BloomSplitBlockInsert { filter_slots, hash } => {
            assert forall|i: int| 0 <= i < filter_slots.len() implies mentions(
                instr,
                #[trigger] filter_slots[i],
            ) by {
                assert(filter_slots.contains(filter_slots[i]));
            }
            assert(rename_list(filter_slots, f) =~= rename_list(filter_slots, g));
            if let RuntimeOperand::Slot(slot) = hash {
                assert(mentions(instr, slot));
            }
        },
        InstrView::BloomSplitBlockCheck { dst, filter_slots, hash } => {
            assert(mentions(instr, dst));
            assert forall|i: int| 0 <= i < filter_slots.len() implies mentions(
                instr,
                #[trigger] filter_slots[i],
            ) by {
                assert(filter_slots.contains(filter_slots[i]));
            }
            assert(rename_list(filter_slots, f) =~= rename_list(filter_slots, g));
            if let RuntimeOperand::Slot(slot) = hash {
                assert(mentions(instr, slot));
            }
        },
        InstrView::BloomClassic4Check { dst, lanes_checked, filter_slots, hash } => {
            assert(mentions(instr, dst));
            assert(mentions(instr, lanes_checked));
            assert forall|i: int| 0 <= i < filter_slots.len() implies mentions(
                instr,
                #[trigger] filter_slots[i],
            ) by {
                assert(filter_slots.contains(filter_slots[i]));
            }
            assert(rename_list(filter_slots, f) =~= rename_list(filter_slots, g));
            if let RuntimeOperand::Slot(slot) = hash {
                assert(mentions(instr, slot));
            }
        },
        InstrView::HashCtrlGroupProbe { dst_mask, ctrl_slots, group_start, fingerprint } => {
            assert(mentions(instr, dst_mask));
            assert forall|i: int| 0 <= i < ctrl_slots.len() implies mentions(
                instr,
                #[trigger] ctrl_slots[i],
            ) by {
                assert(ctrl_slots.contains(ctrl_slots[i]));
            }
            assert(rename_list(ctrl_slots, f) =~= rename_list(ctrl_slots, g));
            if let RuntimeOperand::Slot(slot) = group_start {
                assert(mentions(instr, slot));
            }
            if let RuntimeOperand::Slot(slot) = fingerprint {
                assert(mentions(instr, slot));
            }
        },
        InstrView::JoinSelectAdaptive { dst, build_rows, probe_rows } => {
            assert(mentions(instr, dst));
            if let RuntimeOperand::Slot(slot) = build_rows {
                assert(mentions(instr, slot));
            }
            if let RuntimeOperand::Slot(slot) = probe_rows {
                assert(mentions(instr, slot));
            }
        },
        InstrView::Alloc { dst, size } => {
            assert(mentions(instr, dst));
            if let RuntimeOperand::Slot(slot) = size {
                assert(mentions(instr, slot));
            }
        },
        InstrView::Free { ptr, size } => {
            if let RuntimeOperand::Slot(slot) = ptr {
                assert(mentions(instr, slot));
            }
            if let RuntimeOperand::Slot(slot) = size {
                assert(mentions(instr, slot));
            }
        },
        InstrView::FileOpen { dst, path_ptr, .. } => {
            assert(mentions(instr, dst));
            if let RuntimeOperand::Slot(slot) = path_ptr {
                assert(mentions(instr, slot));
            }
        },
        InstrView::FileWrite { dst, fd, ptr, len }
        | InstrView::FileRead { dst, fd, ptr, len } => {
            assert(mentions(instr, dst));
            if let RuntimeOperand::Slot(slot) = fd {
                assert(mentions(instr, slot));
            }
            if let RuntimeOperand::Slot(slot) = ptr {
                assert(mentions(instr, slot));
            }
            if let RuntimeOperand::Slot(slot) = len {
                assert(mentions(instr, slot));
            }
        },
        InstrView::FileClose { fd } => {
            if let RuntimeOperand::Slot(slot) = fd {
                assert(mentions(instr, slot));
            }
        },
        InstrView::ThreadSpawn { handle_dst, return_slot, .. } => {
            assert(mentions(instr, handle_dst));
            if let Some(slot) = return_slot {
                assert(mentions(instr, slot));
            }
        },
        InstrView::ThreadJoin { dst, handle }
        | InstrView::ChannelRecv { dst, handle } => {
            assert(mentions(instr, dst));
            if let RuntimeOperand::Slot(slot) = handle {
                assert(mentions(instr, slot));
            }
        },
        InstrView::ChannelCreate { dst, capacity, .. } => {
            assert(mentions(instr, dst));
            if let RuntimeOperand::Slot(slot) = capacity {
                assert(mentions(instr, slot));
            }
        },
        InstrView::ChannelSend { handle, value } => {
            if let RuntimeOperand::Slot(slot) = handle {
                assert(mentions(instr, slot));
            }
            if let RuntimeOperand::Slot(slot) = value {
                assert(mentions(instr, slot));
            }
        },
        InstrView::ChannelClose { handle, .. }
        | InstrView::ChannelDestroy { handle } => {
            if let RuntimeOperand::Slot(slot) = handle {
                assert(mentions(instr, slot));
            }
        },
        InstrView::PrintInt { value, .. } => {
            if let RuntimeOperand::Slot(slot) = value {
                assert(mentions(instr, slot));
            }
        },
        InstrView::Exit { code } => {
            if let RuntimeOperand::Slot(slot) = code {
                assert(mentions(instr, slot));
            }
        },
        _ => {},
    }
}

/// A slot is used by a prefix extended by one instruction if it was used
/// before or the instruction mentions it.
proof fn lemma_used_prefix(instrs: Seq<InstrView>, n: int, slot: usize)
    requires
        0 <= n < instrs.len(),
    ensures
        slot_is_used(instrs.take(n + 1), slot) <==> slot_is_used(instrs.take(n), slot) || mentions(
            instrs[n],
            slot,
        ),
{
    let longer = instrs.take(n + 1);
    let shorter = instrs.take(n);
    assert(longer[n] == instrs[n]);
    if slot_is_used(shorter, slot) {
        let k = choose|k: int| 0 <= k < shorter.len() && mentions(#[trigger] shorter[k], slot);
        assert(longer[k] == shorter[k]);
    }
    if slot_is_used(longer, slot) && !mentions(instrs[n], slot) {
        let k = choose|k: int| 0 <= k < longer.len() && mentions(#[trigger] longer[k], slot);
        assert(longer[k] == shorter[k]);
    }
}

/// Renaming the slots of an instruction below a bound puts it below the bound.
pub proof fn lemma_rename_below(instr: InstrView, f: spec_fn(usize) -> usize, bound: int)
    requires
        forall|slot: usize| #[trigger] mentions(instr, slot) ==> f(slot) < bound,
    ensures
        instr_below(rename(instr, f), bound),
{
    match instr {
        InstrView::LoadSeed { dst, input, .. } => {
            assert(mentions(instr, dst));
            if let Some(operand) = input {
                if let RuntimeOperand::Slot(slot) = operand {
                    assert(mentions(instr, slot));
                }
            }
        },
        InstrView::Mov { dst, src } => {
            assert(mentions(instr, dst));
            if let RuntimeOperand::Slot(slot) = src {
                assert(mentions(instr, slot));
            }
        },
        InstrView::BinOp { dst, lhs, rhs, .. }
        | InstrView::FloatBinOp { dst, lhs, rhs, .. }
        | InstrView::Cmp { dst, lhs, rhs, .. } => {
            assert(mentions(instr, dst));
            if let RuntimeOperand::Slot(slot) = lhs {
                assert(mentions(instr, slot));
            }
            if let RuntimeOperand::Slot(slot) = rhs {
                assert(mentions(instr, slot));
            }
        },
        InstrView::BinOpInPlace { dst, rhs, .. } => {
            assert(mentions(instr, dst));
            if let RuntimeOperand::Slot(slot) = rhs {
                assert(mentions(instr, slot));
            }
        },
        InstrView::NormalizeInt { dst, .. } => {
            assert(mentions(instr, dst));
        },
        InstrView::JumpIfZero { cond_slot, .. } => {
            assert(mentions(instr, cond_slot));
        },
        InstrView::JumpIfCmpFalse { lhs, rhs, .. } => {
            if let RuntimeOperand::Slot(slot) = lhs {
                assert(mentions(instr, slot));
            }
            if let RuntimeOperand::Slot(slot) = rhs {
                assert(mentions(instr, slot));
            }
        },
        InstrView::CompareSwap { left, right, .. } => {
            assert(mentions(instr, left));
            assert(mentions(instr, right));
        },
        InstrView::RadixSortFixedInt { slots, .. } => {
            assert forall|i: int| 0 <= i < slots.len() implies mentions(
                instr,
                #[trigger] slots[i],
            ) by {
                assert(slots.contains(slots[i]));
            }
        },
        InstrView::LoadIndex { dst, base_slots, index }
        | InstrView::LoadIndexUnchecked { dst, base_slots, index } => {
            assert(mentions(instr, dst));
            assert forall|i: int| 0 <= i < base_slots.len() implies mentions(
                instr,
                #[trigger] base_slots[i],
            ) by {
                assert(base_slots.contains(base_slots[i]));
            }
            if let RuntimeOperand::Slot(slot) = index {
                assert(mentions(instr, slot));
            }
        },
        InstrView::StoreIndex { base_slots, index, src }
        | InstrView::StoreIndexUnchecked { base_slots, index, src } => {
            assert forall|i: int| 0 <= i < base_slots.len() implies mentions(
                instr,
                #[trigger] base_slots[i],
            ) by {
                assert(base_slots.contains(base_slots[i]));
            }
            if let RuntimeOperand::Slot(slot) = index {
                assert(mentions(instr, slot));
            }
            if let RuntimeOperand::Slot(slot) = src {
                assert(mentions(instr, slot));
            }
        },
        InstrView::HeapLoadInt { dst, ptr, index, .. } => {
            assert(mentions(instr, dst));
            if let RuntimeOperand::Slot(slot) = ptr {
                assert(mentions(instr, slot));
            }
            if let RuntimeOperand::Slot(slot) = index {
                assert(mentions(instr, slot));
            }
        },
        InstrView::HeapStoreInt { ptr, index, src, .. } => {
            if let RuntimeOperand::Slot(slot) = ptr {
                assert(mentions(instr, slot));
            }
            if let RuntimeOperand::Slot(slot) = index {
                assert(mentions(instr, slot));
            }
            if let RuntimeOperand::Slot(slot) = src {
                assert(mentions(instr, slot));
            }
        },
        InstrView::HeapCopy { dst_ptr, src_ptr, bytes } => {
            if let RuntimeOperand::Slot(slot) = dst_ptr {
                assert(mentions(instr, slot));
            }
            if let RuntimeOperand::Slot(slot) = src_ptr {
                assert(mentions(instr, slot));
            }
            if let RuntimeOperand::Slot(slot) = bytes {
                assert(mentions(instr, slot));
            }
        },
        InstrView::BloomSplitBlockInsert { filter_slots, hash } => {
            assert forall|i: int| 0 <= i < filter_slots.len() implies mentions(
                instr,
                #[trigger] filter_slots[i],
            ) by {
                assert(filter_slots.contains(filter_slots[i]));
            }
            if let RuntimeOperand::Slot(slot) = hash {
                assert(mentions(instr, slot));
            }
        },
        InstrView::BloomSplitBlockCheck { dst, filter_slots, hash } => {
            assert(mentions(instr, dst));
            assert forall|i: int| 0 <= i < filter_slots.len() implies mentions(
                instr,
                #[trigger] filter_slots[i],
            ) by {
                assert(filter_slots.contains(filter_slots[i]));
            }
            if let RuntimeOperand::Slot(slot) = hash {
                assert(mentions(instr, slot));
            }
        },
        InstrView::BloomClassic4Check { dst, lanes_checked, filter_slots, hash } => {
            assert(mentions(instr, dst));
            assert(mentions(instr, lanes_checked));
            assert forall|i: int| 0 <= i < filter_slots.len() implies mentions(
                instr,
                #[trigger] filter_slots[i],
            ) by {
                assert(filter_slots.contains(filter_slots[i]));
            }
            if let RuntimeOperand::Slot(slot) = hash {
                assert(mentions(instr, slot));
            }
        },
        InstrView::HashCtrlGroupProbe { dst_mask, ctrl_slots, group_start, fingerprint } => {
            assert(mentions(instr, dst_mask));
            assert forall|i: int| 0 <= i < ctrl_slots.len() implies mentions(
                instr,
                #[trigger] ctrl_slots[i],
            ) by {
                assert(ctrl_slots.contains(ctrl_slots[i]));
            }
            if let RuntimeOperand::Slot(slot) = group_start {
                assert(mentions(instr, slot));
            }
            if let RuntimeOperand::Slot(slot) = fingerprint {
                assert(mentions(instr, slot));
            }
        },
        InstrView::JoinSelectAdaptive { dst, build_rows, probe_rows } => {
            assert(mentions(instr, dst));
            if let RuntimeOperand::Slot(slot) = build_rows {
                assert(mentions(instr, slot));
            }
            if let RuntimeOperand::Slot(slot) = probe_rows {
                assert(mentions(instr, slot));
            }
        },
        InstrView::Alloc { dst, size } => {
            assert(mentions(instr, dst));
            if let RuntimeOperand::Slot(slot) = size {
                assert(mentions(instr, slot));
            }
        },
        InstrView::Free { ptr, size } => {
            if let RuntimeOperand::Slot(slot) = ptr {
                assert(mentions(instr, slot));
            }
            if let RuntimeOperand::Slot(slot) = size {
                assert(mentions(instr, slot));
            }
        },
        InstrView::FileOpen { dst, path_ptr, .. } => {
            assert(mentions(instr, dst));
            if let RuntimeOperand::Slot(slot) = path_ptr {
                assert(mentions(instr, slot));
            }
        },
        InstrView::FileWrite { dst, fd, ptr, len }
        | InstrView::FileRead { dst, fd, ptr, len } => {
            assert(mentions(instr, dst));
            if let RuntimeOperand::Slot(slot) = fd {
                assert(mentions(instr, slot));
            }
            if let RuntimeOperand::Slot(slot) = ptr {
                assert(mentions(instr, slot));
            }
            if let RuntimeOperand::Slot(slot) = len {
                assert(mentions(instr, slot));
            }
        },
        InstrView::FileClose { fd } => {
            if let RuntimeOperand::Slot(slot) = fd {
                assert(mentions(instr, slot));
            }
        },
        InstrView::ThreadSpawn { handle_dst, return_slot, .. } => {
            assert(mentions(instr, handle_dst));
            if let Some(slot) = return_slot {
                assert(mentions(instr, slot));
            }
        },
        InstrView::ThreadJoin { dst, handle }
        | InstrView::ChannelRecv { dst, handle } => {
            assert(mentions(instr, dst));
            if let RuntimeOperand::Slot(slot) = handle {
                assert(mentions(instr, slot));
            }
        },
        InstrView::ChannelCreate { dst, capacity, .. } => {
            assert(mentions(instr, dst));
            if let RuntimeOperand::Slot(slot) = capacity {
                assert(mentions(instr, slot));
            }
        },
        InstrView::ChannelSend { handle, value } => {
            if let RuntimeOperand::Slot(slot) = handle {
                assert(mentions(instr, slot));
            }
            if let RuntimeOperand::Slot(slot) = value {
                assert(mentions(instr, slot));
            }
        },
        InstrView::ChannelClose { handle, .. }
        | InstrView::ChannelDestroy { handle } => {
            if let RuntimeOperand::Slot(slot) = handle {
                assert(mentions(instr, slot));
            }
        },
        InstrView::PrintInt { value, .. } => {
            if let RuntimeOperand::Slot(slot) = value {
                assert(mentions(instr, slot));
            }
        },
        InstrView::Exit { code } => {
            if let RuntimeOperand::Slot(slot) = code {
                assert(mentions(instr, slot));
            }
        },
        _ => {},
    }
}
/// How many slots below `slot` the instructions use.
pub open spec fn slot_rank(instrs: Seq<InstrView>, slot: nat) -> nat
    decreases slot,
{
    if slot == 0 {
        0
    } else {
        let below = slot_rank(instrs, (slot - 1) as nat);
        if slot_is_used(instrs, (slot - 1) as usize) {
            below + 1
        } else {
            below
        }
    }
}

/// The renaming of each slot to its rank.
pub open spec fn by_rank(instrs: Seq<InstrView>) -> spec_fn(usize) -> usize {
    |slot: usize| slot_rank(instrs, slot as nat) as usize
}

/// Some slot of the program is used by no instruction.
pub open spec fn has_unused_slot(program: ProgramView) -> bool {
    exists|slot: usize| slot < program.slots && !#[trigger] slot_is_used(program.instrs, slot)
}

/// The program with unused slots dropped and the rest renumbered in order.
pub open spec fn compact_slots(program: ProgramView) -> ProgramView {
    if has_unused_slot(program) {
        ProgramView {
            slots: slot_rank(program.instrs, program.slots as nat) as usize,
            instrs: Seq::new(
                program.instrs.len(),
                |i: int| rename(program.instrs[i], by_rank(program.instrs)),
            ),
        }
    } else {
        program
    }
}

/// A rank never exceeds the slot, and ranks grow with the slots.
pub proof fn lemma_slot_rank(instrs: Seq<InstrView>, low: nat, high: nat)
    requires
        low <= high,
    ensures
        slot_rank(instrs, low) <= low,
        slot_rank(instrs, low) <= slot_rank(instrs, high),
        slot_rank(instrs, high) - slot_rank(instrs, low) <= high - low,
        low < high <= usize::MAX && slot_is_used(instrs, low as usize) ==> slot_rank(instrs, low)
            < slot_rank(instrs, high),
    decreases high,
{
    if low < high {
        lemma_slot_rank(instrs, low, (high - 1) as nat);
    } else if low > 0 {
        lemma_slot_rank(instrs, (low - 1) as nat, (low - 1) as nat);
    }
}

/// Slot compaction keeps used slots apart: two used slots get the same number
/// only if they are the same, and smaller slots get smaller numbers.
pub proof fn law_compaction_is_order_preserving(program: ProgramView, low: usize, high: usize)
    requires
        slot_is_used(program.instrs, low),
        slot_is_used(program.instrs, high),
        low < high,
    ensures
        by_rank(program.instrs)(low) < by_rank(program.instrs)(high),
{
    lemma_slot_rank(program.instrs, low as nat, high as nat);
    lemma_slot_rank(program.instrs, high as nat, high as nat);
}

/// After compaction every slot that an instruction mentions is in range.
pub proof fn law_compaction_keeps_slots_in_range(program: ProgramView)
    requires
        slots_below(program.instrs, program.slots as int),
    ensures
        slots_below(compact_slots(program).instrs, compact_slots(program).slots as int),
{
    if has_unused_slot(program) {
        let f = by_rank(program.instrs);
        let bound = slot_rank(program.instrs, program.slots as nat);
        lemma_slot_rank(program.instrs, program.slots as nat, program.slots as nat);
        assert forall|slot: usize|
            slot < program.slots && slot_is_used(program.instrs, slot) implies #[trigger] f(slot)
            < bound by {
            lemma_slot_rank(program.instrs, slot as nat, program.slots as nat);
        }
        assert forall|i: int| 0 <= i < program.instrs.len() implies #[trigger] instr_below(
            compact_slots(program).instrs[i],
            bound as int,
        ) by {
            let instr = program.instrs[i];
            assert(instr_below(instr, program.slots as int));
            lemma_instr_below(instr, program.slots as int);
            assert forall|slot: usize| #[trigger] mentions(instr, slot) implies f(slot) < bound by {
                assert(slot_is_used(program.instrs, slot));
            }
            lemma_rename_below(instr, f, bound as int);
        }
    }
}

/// Other names for slots leave jumps and calls alone.
proof fn lemma_rename_target(instr: InstrView, f: spec_fn(usize) -> usize)
    ensures
        code_target(rename(instr, f)) == code_target(instr),
{
}

/// After compaction every jump, call and thread start names what it named before.
pub proof fn law_compaction_keeps_branches(program: ProgramView)
    ensures
        compact_slots(program).instrs.len() == program.instrs.len(),
        forall|i: int|
            0 <= i < program.instrs.len() ==> code_target(
                #[trigger] compact_slots(program).instrs[i],
            ) == code_target(program.instrs[i]),
{
    assert forall|i: int| 0 <= i < program.instrs.len() implies code_target(
        #[trigger] compact_slots(program).instrs[i],
    ) == code_target(program.instrs[i]) by {
        lemma_rename_target(program.instrs[i], by_rank(program.instrs));
    }
}

/// Closes the gaps in a program's slot numbering.
pub fn compact_runtime_program_slots(program: &mut RuntimeProgram)
    requires
        has_unused_slot(old(program)@) ==> slots_below(
            old(program)@.instrs,
            old(program)@.slots as int,
        ),
    ensures
        final(program)@ == compact_slots(old(program)@),
{
    let ghost start = program@;
    if program.slots == 0 {
        return;
    }
    let mut used: Vec<bool> = vec![false; program.slots];
    for i in 0..program.instrs.len()
        invariant
            program@ == start,
            used@.len() == start.slots,
            forall|s: usize|
                s < start.slots ==> #[trigger] used@[s as int] == slot_is_used(
                    start.instrs.take(i as int),
                    s,
                ),
    {
        let ghost before = used@;
        mark_used_slots(&program.instrs[i], &mut used);
        proof {
            assert(start.instrs[i as int] == program.instrs@[i as int]@);
            assert forall|s: usize| s < start.slots implies #[trigger] used@[s as int]
                == slot_is_used(start.instrs.take(i + 1), s) by {
                assert(used@[s as int] == (before[s as int] || mentions(
                    start.instrs[i as int],
                    s,
                )));
                lemma_used_prefix(start.instrs, i as int, s);
            }
        }
    }
    assert(start.instrs.take(start.instrs.len() as int) =~= start.instrs);
    let mut remap: Vec<usize> = vec![usize::MAX; program.slots];
    let mut next: usize = 0;
    for slot in 0..program.slots
        invariant
            program@ == start,
            used@.len() == start.slots,
            remap@.len() == start.slots,
            forall|s: usize|
                s < start.slots ==> #[trigger] used@[s as int] == slot_is_used(start.instrs, s),
            next == slot_rank(start.instrs, slot as nat),
            next <= slot,
            next < slot <==> exists|s: usize| s < slot && !#[trigger] slot_is_used(start.instrs, s),
            forall|s: usize|
                s < slot && #[trigger] slot_is_used(start.instrs, s) ==> remap@[s as int]
                    == slot_rank(start.instrs, s as nat),
    {
        assert(used@[slot as int] == slot_is_used(start.instrs, slot));
        if used[slot] {
            remap.set(slot, next);
            next = next + 1;
        }
    }
    if next == program.slots {
        return;
    }
    let ghost table = by_table(remap@);
    let count: usize = program.instrs.len();
    for i in 0..count
        invariant
            count == program.instrs@.len(),
            start.instrs.len() == program.instrs@.len(),
            program.slots == start.slots,
            remap@.len() == start.slots,
            table == by_table(remap@),
            slots_below(start.instrs, start.slots as int),
            forall|s: usize|
                s < start.slots && #[trigger] slot_is_used(start.instrs, s) ==> remap@[s as int]
                    == slot_rank(start.instrs, s as nat),
            forall|j: int|
                i <= j < program.instrs@.len() ==> (#[trigger] program.instrs@[j])@
                    == start.instrs[j],
            forall|j: int|
                0 <= j < i ==> (#[trigger] program.instrs@[j])@ == rename(
                    start.instrs[j],
                    by_rank(start.instrs),
                ),
    {
        assert(program.instrs@[i as int]@ == start.instrs[i as int]);
        assert(instr_below(start.instrs[i as int], start.slots as int));
        let renamed = remap_instr_slots(&program.instrs[i], &remap);
        proof {
            let instr = start.instrs[i as int];
            lemma_instr_below(instr, start.slots as int);
            assert forall|slot: usize| #[trigger] mentions(instr, slot) implies table(slot)
                == by_rank(start.instrs)(slot) by {
                assert(slot_is_used(start.instrs, slot));
                lemma_slot_rank(start.instrs, slot as nat, slot as nat);
            }
            lemma_rename_agree(instr, table, by_rank(start.instrs));
        }
        program.instrs.set(i, renamed);
    }
    program.slots = next;
    assert(program@.instrs =~= compact_slots(start).instrs);
}

} // verus!
