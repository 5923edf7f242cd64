//! Full unrolling of small counted loops.

use crate::ir::{copy_slots, instrs_view, InstrView, RuntimeBinOp, RuntimeInstr, RuntimeOperand};
use crate::optimizer::checks::{unchecked, without_check};
use crate::optimizer::control_flow::targets_in_bounds;
use crate::optimizer::loops::{
    counted_loop, counted_loops, find_canonical_counted_loops, is_increment, keeps_count,
    lemma_counted_loops, loop_in_program, CountedLoopInfo, LoopLimit,
};
use crate::optimizer::machine::{
    is_slot_arithmetic, lemma_run_append, run, run_times, step, SlotState,
};
use crate::optimizer::slots::{instr_below, runtime_program_slot_count, slot_total, slots_below};
use crate::optimizer::targets::{
    clamped_lookup, code_target, control_flow_targets, is_branched_to, map_code_target,
    map_code_targets, remap_code,
};
use crate::optimizer::uses::{reads, runtime_instr_reads_slot, runtime_instr_writes_slot, writes};
use vstd::prelude::*;

verus! {

/// An operand of one unrolled iteration: the induction slot is a constant.
pub open spec fn unrolled_operand(
    operand: RuntimeOperand,
    slot: usize,
    value: u64,
) -> RuntimeOperand {
    if operand == RuntimeOperand::Slot(slot) {
        RuntimeOperand::Imm(value)
    } else {
        operand
    }
}

/// An operand of one unrolled iteration.
pub fn rewrite_unrolled_operand(
    operand: RuntimeOperand,
    ind_slot: usize,
    iter_index: u64,
) -> (unrolled: RuntimeOperand)
    ensures
        unrolled == unrolled_operand(operand, ind_slot, iter_index),
{
    match operand {
        RuntimeOperand::Slot(slot) => if slot == ind_slot {
            RuntimeOperand::Imm(iter_index)
        } else {
            operand
        },
        RuntimeOperand::Imm(_) => operand,
    }
}

/// An instruction with the induction slot of every operand made a constant. The
/// optional input of a seed is left alone.
pub open spec fn substituted(instr: InstrView, slot: usize, count: u64) -> InstrView {
    match instr {
        InstrView::Mov { dst, src } => InstrView::Mov {
            dst,
            src: unrolled_operand(src, slot, count),
        },
        InstrView::BinOp { dst, op, lhs, rhs } => InstrView::BinOp {
            dst,
            op,
            lhs: unrolled_operand(lhs, slot, count),
            rhs: unrolled_operand(rhs, slot, count),
        },
        InstrView::BinOpInPlace { dst, op, rhs } => InstrView::BinOpInPlace {
            dst,
            op,
            rhs: unrolled_operand(rhs, slot, count),
        },
        InstrView::FloatBinOp { dst, bits, op, lhs, rhs } => InstrView::FloatBinOp {
            dst,
            bits,
            op,
            lhs: unrolled_operand(lhs, slot, count),
            rhs: unrolled_operand(rhs, slot, count),
        },
        InstrView::Cmp { dst, op, lhs, rhs } => InstrView::Cmp {
            dst,
            op,
            lhs: unrolled_operand(lhs, slot, count),
            rhs: unrolled_operand(rhs, slot, count),
        },
        InstrView::JumpIfCmpFalse { op, lhs, rhs, target } => InstrView::JumpIfCmpFalse {
            op,
            lhs: unrolled_operand(lhs, slot, count),
            rhs: unrolled_operand(rhs, slot, count),
            target,
        },
        InstrView::LoadIndex { dst, base_slots, index } => InstrView::LoadIndex {
            dst,
            base_slots,
            index: unrolled_operand(index, slot, count),
        },
        InstrView::LoadIndexUnchecked { dst, base_slots, index } => InstrView::LoadIndexUnchecked {
            dst,
            base_slots,
            index: unrolled_operand(index, slot, count),
        },
        InstrView::StoreIndex { base_slots, index, src } => InstrView::StoreIndex {
            base_slots,
            index: unrolled_operand(index, slot, count),
            src: unrolled_operand(src, slot, count),
        },
        InstrView::StoreIndexUnchecked {
            base_slots,
            index,
            src,
        } => InstrView::StoreIndexUnchecked {
            base_slots,
            index: unrolled_operand(index, slot, count),
            src: unrolled_operand(src, slot, count),
        },
        InstrView::HeapLoadInt { dst, ptr, index, bytes } => InstrView::HeapLoadInt {
            dst,
            ptr: unrolled_operand(ptr, slot, count),
            index: unrolled_operand(index, slot, count),
            bytes,
        },
        InstrView::HeapStoreInt { ptr, index, src, bytes } => InstrView::HeapStoreInt {
            ptr: unrolled_operand(ptr, slot, count),
            index: unrolled_operand(index, slot, count),
            src: unrolled_operand(src, slot, count),
            bytes,
        },
        InstrView::HeapCopy { dst_ptr, src_ptr, bytes } => InstrView::HeapCopy {
            dst_ptr: unrolled_operand(dst_ptr, slot, count),
            src_ptr: unrolled_operand(src_ptr, slot, count),
            bytes: unrolled_operand(bytes, slot, count),
        },
        InstrView::BloomSplitBlockInsert {
            filter_slots,
            hash,
        } => InstrView::BloomSplitBlockInsert {
            filter_slots,
            hash: unrolled_operand(hash, slot, count),
        },
        InstrView::BloomSplitBlockCheck {
            dst,
            filter_slots,
            hash,
        } => InstrView::BloomSplitBlockCheck {
            dst,
            filter_slots,
            hash: unrolled_operand(hash, slot, count),
        },
        InstrView::BloomClassic4Check {
            dst,
            lanes_checked,
            filter_slots,
            hash,
        } => InstrView::BloomClassic4Check {
            dst,
            lanes_checked,
            filter_slots,
            hash: unrolled_operand(hash, slot, count),
        },
        InstrView::HashCtrlGroupProbe {
            dst_mask,
            ctrl_slots,
            group_start,
            fingerprint,
        } => InstrView::HashCtrlGroupProbe {
            dst_mask,
            ctrl_slots,
            group_start: unrolled_operand(group_start, slot, count),
            fingerprint: unrolled_operand(fingerprint, slot, count),
        },
        InstrView::JoinSelectAdaptive {
            dst,
            build_rows,
            probe_rows,
        } => InstrView::JoinSelectAdaptive {
            dst,
            build_rows: unrolled_operand(build_rows, slot, count),
            probe_rows: unrolled_operand(probe_rows, slot, count),
        },
        InstrView::Alloc { dst, size } => InstrView::Alloc {
            dst,
            size: unrolled_operand(size, slot, count),
        },
        InstrView::Free { ptr, size } => InstrView::Free {
            ptr: unrolled_operand(ptr, slot, count),
            size: unrolled_operand(size, slot, count),
        },
        InstrView::FileOpen { dst, path_ptr, flags, mode } => InstrView::FileOpen {
            dst,
            path_ptr: unrolled_operand(path_ptr, slot, count),
            flags,
            mode,
        },
        InstrView::FileWrite { dst, fd, ptr, len } => InstrView::FileWrite {
            dst,
            fd: unrolled_operand(fd, slot, count),
            ptr: unrolled_operand(ptr, slot, count),
            len: unrolled_operand(len, slot, count),
        },
        InstrView::FileRead { dst, fd, ptr, len } => InstrView::FileRead {
            dst,
            fd: unrolled_operand(fd, slot, count),
            ptr: unrolled_operand(ptr, slot, count),
            len: unrolled_operand(len, slot, count),
        },
        InstrView::FileClose { fd } => InstrView::FileClose {
            fd: unrolled_operand(fd, slot, count),
        },
        InstrView::ThreadJoin { dst, handle } => InstrView::ThreadJoin {
            dst,
            handle: unrolled_operand(handle, slot, count),
        },
        InstrView::ChannelCreate { dst, capacity, unbounded } => InstrView::ChannelCreate {
            dst,
            capacity: unrolled_operand(capacity, slot, count),
            unbounded,
        },
        InstrView::ChannelSend { handle, value } => InstrView::ChannelSend {
            handle: unrolled_operand(handle, slot, count),
            value: unrolled_operand(value, slot, count),
        },
        InstrView::ChannelRecv { dst, handle } => InstrView::ChannelRecv {
            dst,
            handle: unrolled_operand(handle, slot, count),
        },
        InstrView::ChannelClose { handle, sender } => InstrView::ChannelClose {
            handle: unrolled_operand(handle, slot, count),
            sender,
        },
        InstrView::ChannelDestroy { handle } => InstrView::ChannelDestroy {
            handle: unrolled_operand(handle, slot, count),
        },
        InstrView::PrintInt { value, signed, bits } => InstrView::PrintInt {
            value: unrolled_operand(value, slot, count),
            signed,
            bits,
        },
        InstrView::Exit { code } => InstrView::Exit {
            code: unrolled_operand(code, slot, count),
        },
        _ => instr,
    }
}

/// An access whose index is a constant within its array.
pub open spec fn index_is_within(instr: InstrView) -> bool {
    match instr {
        InstrView::LoadIndex { base_slots, index: RuntimeOperand::Imm(value), .. } => {
            value < base_slots.len()
        },
        InstrView::StoreIndex { base_slots, index: RuntimeOperand::Imm(value), .. } => {
            value < base_slots.len()
        },
        _ => false,
    }
}

/// An instruction of one unrolled iteration: the induction slot is a constant,
/// and an access that the constant shows to be in bounds loses its check.
pub open spec fn unrolled_instr(instr: InstrView, slot: usize, value: u64) -> InstrView {
    let plain = substituted(instr, slot, value);
    if index_is_within(plain) {
        unchecked(plain)
    } else {
        plain
    }
}

/// An instruction with the induction slot of every operand made a constant.
#[verifier::rlimit(40)]
fn substitute_index(instr: &RuntimeInstr, ind_slot: usize, iter_index: u64) -> (plain: RuntimeInstr)
    ensures
        plain@ == substituted(instr@, ind_slot, iter_index),
{
    match instr {
        RuntimeInstr::Mov { dst, src } => RuntimeInstr::Mov {
            dst: *dst,
            src: rewrite_unrolled_operand(*src, ind_slot, iter_index),
        },
        RuntimeInstr::BinOp { dst, op, lhs, rhs } => RuntimeInstr::BinOp {
            dst: *dst,
            op: *op,
            lhs: rewrite_unrolled_operand(*lhs, ind_slot, iter_index),
            rhs: rewrite_unrolled_operand(*rhs, ind_slot, iter_index),
        },
        RuntimeInstr::BinOpInPlace { dst, op, rhs } => RuntimeInstr::BinOpInPlace {
            dst: *dst,
            op: *op,
            rhs: rewrite_unrolled_operand(*rhs, ind_slot, iter_index),
        },
        RuntimeInstr::FloatBinOp { dst, bits, op, lhs, rhs } => RuntimeInstr::FloatBinOp {
            dst: *dst,
            bits: *bits,
            op: *op,
            lhs: rewrite_unrolled_operand(*lhs, ind_slot, iter_index),
            rhs: rewrite_unrolled_operand(*rhs, ind_slot, iter_index),
        },
        RuntimeInstr::Cmp { dst, op, lhs, rhs } => RuntimeInstr::Cmp {
            dst: *dst,
            op: *op,
            lhs: rewrite_unrolled_operand(*lhs, ind_slot, iter_index),
            rhs: rewrite_unrolled_operand(*rhs, ind_slot, iter_index),
        },
        RuntimeInstr::JumpIfCmpFalse { op, lhs, rhs, target } => RuntimeInstr::JumpIfCmpFalse {
            op: *op,
            lhs: rewrite_unrolled_operand(*lhs, ind_slot, iter_index),
            rhs: rewrite_unrolled_operand(*rhs, ind_slot, iter_index),
            target: *target,
        },
        RuntimeInstr::LoadIndex { dst, base_slots, index } => RuntimeInstr::LoadIndex {
            dst: *dst,
            base_slots: copy_slots(base_slots),
            index: rewrite_unrolled_operand(*index, ind_slot, iter_index),
        },
        RuntimeInstr::LoadIndexUnchecked {
            dst,
            base_slots,
            index,
        } => RuntimeInstr::LoadIndexUnchecked {
            dst: *dst,
            base_slots: copy_slots(base_slots),
            index: rewrite_unrolled_operand(*index, ind_slot, iter_index),
        },
        RuntimeInstr::StoreIndex { base_slots, index, src } => RuntimeInstr::StoreIndex {
            base_slots: copy_slots(base_slots),
            index: rewrite_unrolled_operand(*index, ind_slot, iter_index),
            src: rewrite_unrolled_operand(*src, ind_slot, iter_index),
        },
        RuntimeInstr::StoreIndexUnchecked {
            base_slots,
            index,
            src,
        } => RuntimeInstr::StoreIndexUnchecked {
            base_slots: copy_slots(base_slots),
            index: rewrite_unrolled_operand(*index, ind_slot, iter_index),
            src: rewrite_unrolled_operand(*src, ind_slot, iter_index),
        },
        RuntimeInstr::HeapLoadInt { dst, ptr, index, bytes } => RuntimeInstr::HeapLoadInt {
            dst: *dst,
            ptr: rewrite_unrolled_operand(*ptr, ind_slot, iter_index),
            index: rewrite_unrolled_operand(*index, ind_slot, iter_index),
            bytes: *bytes,
        },
        RuntimeInstr::HeapStoreInt { ptr, index, src, bytes } => RuntimeInstr::HeapStoreInt {
            ptr: rewrite_unrolled_operand(*ptr, ind_slot, iter_index),
            index: rewrite_unrolled_operand(*index, ind_slot, iter_index),
            src: rewrite_unrolled_operand(*src, ind_slot, iter_index),
            bytes: *bytes,
        },
        RuntimeInstr::HeapCopy { dst_ptr, src_ptr, bytes } => RuntimeInstr::HeapCopy {
            dst_ptr: rewrite_unrolled_operand(*dst_ptr, ind_slot, iter_index),
            src_ptr: rewrite_unrolled_operand(*src_ptr, ind_slot, iter_index),
            bytes: rewrite_unrolled_operand(*bytes, ind_slot, iter_index),
        },
        RuntimeInstr::BloomSplitBlockInsert {
            filter_slots,
            hash,
        } => RuntimeInstr::BloomSplitBlockInsert {
            filter_slots: copy_slots(filter_slots),
            hash: rewrite_unrolled_operand(*hash, ind_slot, iter_index),
        },
        RuntimeInstr::BloomSplitBlockCheck {
            dst,
            filter_slots,
            hash,
        } => RuntimeInstr::BloomSplitBlockCheck {
            dst: *dst,
            filter_slots: copy_slots(filter_slots),
            hash: rewrite_unrolled_operand(*hash, ind_slot, iter_index),
        },
        RuntimeInstr::BloomClassic4Check {
            dst,
            lanes_checked,
            filter_slots,
            hash,
        } => RuntimeInstr::BloomClassic4Check {
            dst: *dst,
            lanes_checked: *lanes_checked,
            filter_slots: copy_slots(filter_slots),
            hash: rewrite_unrolled_operand(*hash, ind_slot, iter_index),
        },
        RuntimeInstr::HashCtrlGroupProbe {
            dst_mask,
            ctrl_slots,
            group_start,
            fingerprint,
        } => RuntimeInstr::HashCtrlGroupProbe {
            dst_mask: *dst_mask,
            ctrl_slots: copy_slots(ctrl_slots),
            group_start: rewrite_unrolled_operand(*group_start, ind_slot, iter_index),
            fingerprint: rewrite_unrolled_operand(*fingerprint, ind_slot, iter_index),
        },
        RuntimeInstr::JoinSelectAdaptive {
            dst,
            build_rows,
            probe_rows,
        } => RuntimeInstr::JoinSelectAdaptive {
            dst: *dst,
            build_rows: rewrite_unrolled_operand(*build_rows, ind_slot, iter_index),
            probe_rows: rewrite_unrolled_operand(*probe_rows, ind_slot, iter_index),
        },
        RuntimeInstr::Alloc { dst, size } => RuntimeInstr::Alloc {
            dst: *dst,
            size: rewrite_unrolled_operand(*size, ind_slot, iter_index),
        },
        RuntimeInstr::Free { ptr, size } => RuntimeInstr::Free {
            ptr: rewrite_unrolled_operand(*ptr, ind_slot, iter_index),
            size: rewrite_unrolled_operand(*size, ind_slot, iter_index),
        },
        RuntimeInstr::FileOpen { dst, path_ptr, flags, mode } => RuntimeInstr::FileOpen {
            dst: *dst,
            path_ptr: rewrite_unrolled_operand(*path_ptr, ind_slot, iter_index),
            flags: *flags,
            mode: *mode,
        },
        RuntimeInstr::FileWrite { dst, fd, ptr, len } => RuntimeInstr::FileWrite {
            dst: *dst,
            fd: rewrite_unrolled_operand(*fd, ind_slot, iter_index),
            ptr: rewrite_unrolled_operand(*ptr, ind_slot, iter_index),
            len: rewrite_unrolled_operand(*len, ind_slot, iter_index),
        },
        RuntimeInstr::FileRead { dst, fd, ptr, len } => RuntimeInstr::FileRead {
            dst: *dst,
            fd: rewrite_unrolled_operand(*fd, ind_slot, iter_index),
            ptr: rewrite_unrolled_operand(*ptr, ind_slot, iter_index),
            len: rewrite_unrolled_operand(*len, ind_slot, iter_index),
        },
        RuntimeInstr::FileClose { fd } => RuntimeInstr::FileClose {
            fd: rewrite_unrolled_operand(*fd, ind_slot, iter_index),
        },
        RuntimeInstr::ThreadJoin { dst, handle } => RuntimeInstr::ThreadJoin {
            dst: *dst,
            handle: rewrite_unrolled_operand(*handle, ind_slot, iter_index),
        },
        RuntimeInstr::ChannelCreate { dst, capacity, unbounded } => RuntimeInstr::ChannelCreate {
            dst: *dst,
            capacity: rewrite_unrolled_operand(*capacity, ind_slot, iter_index),
            unbounded: *unbounded,
        },
        RuntimeInstr::ChannelSend { handle, value } => RuntimeInstr::ChannelSend {
            handle: rewrite_unrolled_operand(*handle, ind_slot, iter_index),
            value: rewrite_unrolled_operand(*value, ind_slot, iter_index),
        },
        RuntimeInstr::ChannelRecv { dst, handle } => RuntimeInstr::ChannelRecv {
            dst: *dst,
            handle: rewrite_unrolled_operand(*handle, ind_slot, iter_index),
        },
        RuntimeInstr::ChannelClose { handle, sender } => RuntimeInstr::ChannelClose {
            handle: rewrite_unrolled_operand(*handle, ind_slot, iter_index),
            sender: *sender,
        },
        RuntimeInstr::ChannelDestroy { handle } => RuntimeInstr::ChannelDestroy {
            handle: rewrite_unrolled_operand(*handle, ind_slot, iter_index),
        },
        RuntimeInstr::PrintInt { value, signed, bits } => RuntimeInstr::PrintInt {
            value: rewrite_unrolled_operand(*value, ind_slot, iter_index),
            signed: *signed,
            bits: *bits,
        },
        RuntimeInstr::Exit { code } => RuntimeInstr::Exit {
            code: rewrite_unrolled_operand(*code, ind_slot, iter_index),
        },
        _ => instr.clone(),
    }
}

/// An instruction of one unrolled iteration.
pub fn rewrite_unrolled_instr_with_index(
    instr: &RuntimeInstr,
    ind_slot: usize,
    iter_index: u64,
) -> (unrolled: RuntimeInstr)
    ensures
        unrolled@ == unrolled_instr(instr@, ind_slot, iter_index),
{
    let plain = substitute_index(instr, ind_slot, iter_index);
    let within = match &plain {
        RuntimeInstr::LoadIndex { base_slots, index: RuntimeOperand::Imm(value), .. } => {
            *value < base_slots.len() as u64
        },
        RuntimeInstr::StoreIndex { base_slots, index: RuntimeOperand::Imm(value), .. } => {
            *value < base_slots.len() as u64
        },
        _ => false,
    };
    if within {
        without_check(&plain)
    } else {
        plain
    }
}

/// Slots of the body `from..to` below n that are read or written in it.
pub open spec fn hot_slots(instrs: Seq<InstrView>, from: int, to: int, n: nat) -> nat
    decreases n,
{
    if n == 0 {
        0
    } else {
        hot_slots(
            instrs,
            from,
            to,
            (n - 1) as nat,
        ) + if is_hot(instrs, from, to, (n - 1) as usize) {
            1nat
        } else {
            0nat
        }
    }
}

/// The slot is read or written in `from..to`.
pub open spec fn is_hot(instrs: Seq<InstrView>, from: int, to: int, slot: usize) -> bool {
    exists|i: int| from <= i < to && #[trigger] touches(instrs[i], slot)
}

/// The instruction reads or writes the slot.
pub open spec fn touches(instr: InstrView, slot: usize) -> bool {
    reads(instr, slot) || writes(instr, slot)
}

/// How many slots a loop body reads or writes.
pub fn loop_hot_slot_count(
    instrs: &Vec<RuntimeInstr>,
    body_start: usize,
    body_end_exclusive: usize,
    total_slots: usize,
) -> (hot: usize)
    requires
        body_end_exclusive <= instrs@.len(),
    ensures
        hot == hot_slots(
            instrs_view(instrs@),
            body_start as int,
            body_end_exclusive as int,
            total_slots as nat,
        ),
{
    let ghost all = instrs_view(instrs@);
    let mut hot: usize = 0;
    for slot in 0..total_slots
        invariant
            all == instrs_view(instrs@),
            body_end_exclusive <= instrs@.len(),
            hot <= slot,
            hot == hot_slots(all, body_start as int, body_end_exclusive as int, slot as nat),
    {
        let mut seen = false;
        let mut i: usize = body_start;
        while i < body_end_exclusive && !seen
            invariant
                all == instrs_view(instrs@),
                body_start <= i,
                body_end_exclusive <= instrs@.len(),
                seen ==> is_hot(all, body_start as int, body_end_exclusive as int, slot),
                !seen ==> forall|j: int| body_start <= j < i ==> !#[trigger] touches(all[j], slot),
            decreases body_end_exclusive - i,
        {
            assert(all[i as int] == instrs@[i as int]@);
            if runtime_instr_reads_slot(&instrs[i], slot) || runtime_instr_writes_slot(
                &instrs[i],
                slot,
            ) {
                assert(touches(all[i as int], slot));
                seen = true;
            }
            i = i + 1;
        }
        if seen {
            hot = hot + 1;
        }
    }
    hot
}

/// How often a loop may run to be unrolled, by the size of its body and the
/// slots it uses.
pub open spec fn trip_limit(body_len: int, hot_slots: nat) -> u64 {
    if body_len <= 4 && hot_slots <= 8 {
        64
    } else if body_len <= 8 && hot_slots <= 12 {
        32
    } else if hot_slots <= 16 {
        16
    } else {
        8
    }
}

/// How often a loop may run to be unrolled.
pub fn unroll_trip_limit(body_len: usize, hot_slots: usize) -> (limit: u64)
    ensures
        limit == trip_limit(body_len as int, hot_slots as nat),
{
    if body_len <= 4 && hot_slots <= 8 {
        64
    } else if body_len <= 8 && hot_slots <= 12 {
        32
    } else if hot_slots <= 16 {
        16
    } else {
        8
    }
}

/// A loop that runs no more often than this is small whatever it uses.
pub const BASE_MAX_TRIP_COUNT: u64 = 16;

/// How many instructions the unrolled body may have.
pub const MAX_UNROLLED_BODY_INSTRS: usize = 1024;

/// How often the loop runs.
pub open spec fn trip_count(info: CountedLoopInfo) -> int {
    match info.limit {
        LoopLimit::Imm(limit) => limit - info.start,
        LoopLimit::Slot(_) => 0,
    }
}

/// The loop is worth unrolling: it runs a small constant number of times, its
/// body is not empty, the result is not too long, and nothing branches into it.
pub open spec fn is_unrollable(instrs: Seq<InstrView>, info: CountedLoopInfo) -> bool {
    let body_len = info.update_idx - info.header - 1;
    let trips = trip_count(info);
    let limit = trip_limit(
        body_len,
        hot_slots(instrs, info.header + 1, info.update_idx as int, slot_total(instrs)),
    );
    &&& trips > 0
    &&& body_len > 0
    &&& trips <= limit || trips <= BASE_MAX_TRIP_COUNT
    &&& body_len * trips <= MAX_UNROLLED_BODY_INSTRS
    &&& forall|t: int| info.header < t <= info.latch ==> !#[trigger] is_branched_to(instrs, t)
}

/// The loop to unroll whose header is at `header`, among the first n loops.
pub open spec fn plan_among(
    instrs: Seq<InstrView>,
    loops: Seq<CountedLoopInfo>,
    header: int,
    n: int,
) -> Option<CountedLoopInfo>
    decreases n,
{
    if n <= 0 {
        None
    } else if loops[n - 1].header == header && is_unrollable(instrs, loops[n - 1]) {
        Some(loops[n - 1])
    } else {
        plan_among(instrs, loops, header, n - 1)
    }
}

/// The loop to unroll whose header is at `header`.
pub open spec fn plan_at(instrs: Seq<InstrView>, header: int) -> Option<CountedLoopInfo> {
    let loops = counted_loops(instrs, true, instrs.len() as int);
    plan_among(instrs, loops, header, loops.len() as int)
}

/// A loop to unroll is one of the loops.
pub proof fn lemma_plan_among(
    instrs: Seq<InstrView>,
    loops: Seq<CountedLoopInfo>,
    header: int,
    n: int,
)
    requires
        0 <= n <= loops.len(),
    ensures
        plan_among(instrs, loops, header, n) matches Some(info) ==> info.header == header
            && is_unrollable(instrs, info) && loops.contains(info),
    decreases n,
{
    if n > 0 {
        lemma_plan_among(instrs, loops, header, n - 1);
        assert(loops.contains(loops[n - 1]));
    }
}

/// A loop to unroll starts where it was looked for and lies in the program.
pub proof fn lemma_plan_at(instrs: Seq<InstrView>, header: int)
    requires
        instrs.len() <= usize::MAX,
    ensures
        plan_at(instrs, header) matches Some(info) ==> info.header == header && is_unrollable(
            instrs,
            info,
        ) && loop_in_program(info, instrs.len()),
{
    let loops = counted_loops(instrs, true, instrs.len() as int);
    lemma_plan_among(instrs, loops, header, loops.len() as int);
    lemma_counted_loops(instrs, true, instrs.len() as int);
    if let Some(info) = plan_at(instrs, header) {
        let k = choose|k: int| 0 <= k < loops.len() && loops[k] == info;
        assert(loop_in_program(loops[k], instrs.len()));
    }
}

/// One unrolled iteration: the induction slot is set, then the body follows.
pub open spec fn unrolled_iteration(
    instrs: Seq<InstrView>,
    info: CountedLoopInfo,
    value: u64,
) -> Seq<InstrView> {
    seq![InstrView::Mov { dst: info.ind_slot, src: RuntimeOperand::Imm(value) }] + Seq::new(
        (info.update_idx - info.header - 1) as nat,
        |i: int| unrolled_instr(instrs[info.header + 1 + i], info.ind_slot, value),
    )
}

/// The first n unrolled iterations.
pub open spec fn unrolled_iterations(
    instrs: Seq<InstrView>,
    info: CountedLoopInfo,
    n: nat,
) -> Seq<InstrView>
    decreases n,
{
    if n == 0 {
        Seq::empty()
    } else {
        unrolled_iterations(instrs, info, (n - 1) as nat) + unrolled_iteration(
            instrs,
            info,
            (info.start + (n - 1)) as u64,
        )
    }
}

/// What replaces a loop: its iterations, the final value of the induction slot,
/// and a jump to where the loop leaves to.
pub open spec fn expansion(instrs: Seq<InstrView>, info: CountedLoopInfo) -> Seq<InstrView> {
    unrolled_iterations(instrs, info, trip_count(info) as nat).push(
        InstrView::Mov {
            dst: info.ind_slot,
            src: RuntimeOperand::Imm((info.start + trip_count(info)) as u64),
        },
    ).push(InstrView::Jump { target: info.exit_target })
}

/// The program from `from` on with its loops unrolled.
pub open spec fn unrolled_from(instrs: Seq<InstrView>, from: int) -> Seq<InstrView>
    decreases instrs.len() - from,
{
    if from < 0 || from >= instrs.len() {
        Seq::empty()
    } else {
        match plan_at(instrs, from) {
            Some(info) => if from <= info.latch < instrs.len() {
                expansion(instrs, info) + unrolled_from(instrs, info.latch + 1)
            } else {
                Seq::empty()
            },
            None => seq![instrs[from]] + unrolled_from(instrs, from + 1),
        }
    }
}

/// How far behind the start of the unrolled `from` the instruction `target`
/// comes to stand; a whole loop stands at the start of its replacement.
pub open spec fn unrolled_distance(instrs: Seq<InstrView>, from: int, target: int) -> int
    decreases instrs.len() - from,
{
    if from < 0 || from >= instrs.len() {
        0
    } else {
        match plan_at(instrs, from) {
            Some(info) => if target <= info.latch || !(from <= info.latch < instrs.len()) {
                0
            } else {
                expansion(instrs, info).len() + unrolled_distance(instrs, info.latch + 1, target)
            },
            None => if target <= from {
                0
            } else {
                1 + unrolled_distance(instrs, from + 1, target)
            },
        }
    }
}

/// Where each instruction comes to stand; targets past the end are the end.
pub open spec fn unrolled_position(instrs: Seq<InstrView>) -> spec_fn(usize) -> usize {
    |target: usize|
        unrolled_distance(
            instrs,
            0,
            if target < instrs.len() {
                target as int
            } else {
                instrs.len() as int
            },
        ) as usize
}

/// Some loop is worth unrolling.
pub open spec fn has_plan(instrs: Seq<InstrView>) -> bool {
    exists|header: int| 0 <= header < instrs.len() && #[trigger] plan_at(instrs, header) is Some
}

/// The program with its small counted loops unrolled.
pub open spec fn unroll_loops(instrs: Seq<InstrView>) -> Seq<InstrView> {
    if has_plan(instrs) {
        map_code_targets(unrolled_from(instrs, 0), unrolled_position(instrs))
    } else {
        instrs
    }
}

/// Finds the loops to unroll: for each instruction the loop whose header it is.
fn plan_unrolling(instrs: &Vec<RuntimeInstr>) -> (plans: Vec<Option<CountedLoopInfo>>)
    requires
        slots_below(instrs_view(instrs@), usize::MAX as int),
    ensures
        plans@.len() == instrs@.len(),
        forall|i: int|
            0 <= i < plans@.len() ==> #[trigger] plans@[i] == plan_at(instrs_view(instrs@), i),
{
    let ghost all = instrs_view(instrs@);
    let count: usize = instrs.len();
    let loops = find_canonical_counted_loops(instrs);
    let is_target = control_flow_targets(instrs);
    let slot_count: usize = runtime_program_slot_count(instrs);
    let mut plans: Vec<Option<CountedLoopInfo>> = vec![None; count];
    proof {
        lemma_counted_loops(all, true, all.len() as int);
    }
    for n in 0..loops.len()
        invariant
            all == instrs_view(instrs@),
            count == instrs@.len(),
            plans@.len() == count,
            is_target@.len() == count,
            slot_count == slot_total(all),
            forall|j: int|
                0 <= j < is_target@.len() ==> #[trigger] is_target@[j] == is_branched_to(all, j),
            forall|i: int|
                0 <= i < loops@.len() ==> loop_in_program(#[trigger] loops@[i], count as nat),
            forall|i: int|
                0 <= i < count ==> #[trigger] plans@[i] == plan_among(all, loops@, i, n as int),
    {
        let info = loops[n];
        assert(loop_in_program(loops@[n as int], count as nat));
        if can_unroll(instrs, info, &is_target, slot_count) {
            plans.set(info.header, Some(info));
        }
    }
    plans
}

/// Whether the loop is worth unrolling.
fn can_unroll(
    instrs: &Vec<RuntimeInstr>,
    info: CountedLoopInfo,
    is_target: &Vec<bool>,
    slot_count: usize,
) -> (worth: bool)
    requires
        loop_in_program(info, instrs@.len()),
        is_target@.len() == instrs@.len(),
        slot_count == slot_total(instrs_view(instrs@)),
        forall|j: int|
            0 <= j < is_target@.len() ==> #[trigger] is_target@[j] == is_branched_to(
                instrs_view(instrs@),
                j,
            ),
    ensures
        worth == is_unrollable(instrs_view(instrs@), info),
{
    let ghost all = instrs_view(instrs@);
    let limit: u64 = match info.limit {
        LoopLimit::Imm(limit) => limit,
        LoopLimit::Slot(_) => return false,
    };
    if limit <= info.start {
        return false;
    }
    let trips: u64 = limit - info.start;
    let body_start: usize = info.header + 1;
    if info.update_idx <= body_start {
        return false;
    }
    let body_len: usize = info.update_idx - body_start;
    let hot: usize = loop_hot_slot_count(instrs, body_start, info.update_idx, slot_count);
    let max_trips: u64 = unroll_trip_limit(body_len, hot);
    if trips > max_trips && trips > BASE_MAX_TRIP_COUNT {
        return false;
    }
    assert(trips <= 64);
    if body_len > MAX_UNROLLED_BODY_INSTRS {
        assert(body_len * trips > MAX_UNROLLED_BODY_INSTRS) by (nonlinear_arith)
            requires
                body_len > MAX_UNROLLED_BODY_INSTRS,
                trips >= 1,
        ;
        return false;
    }
    assert(body_len * trips <= 1024 * 64) by (nonlinear_arith)
        requires
            body_len <= 1024,
            trips <= 64,
    ;
    if body_len * (trips as usize) > MAX_UNROLLED_BODY_INSTRS {
        return false;
    }
    let mut t: usize = info.header;
    while t < info.latch
        invariant
            loop_in_program(info, instrs@.len()),
            is_target@.len() == instrs@.len(),
            info.header <= t <= info.latch,
            all == instrs_view(instrs@),
            forall|j: int|
                0 <= j < is_target@.len() ==> #[trigger] is_target@[j] == is_branched_to(all, j),
            forall|j: int| info.header < j <= t ==> !#[trigger] is_branched_to(all, j),
        decreases info.latch - t,
    {
        t = t + 1;
        assert(is_target@[t as int] == is_branched_to(all, t as int));
        if is_target[t] {
            return false;
        }
    }
    true
}

/// Appends what replaces a loop.
fn push_expansion(
    out: &mut Vec<RuntimeInstr>,
    instrs: &Vec<RuntimeInstr>,
    info: CountedLoopInfo,
)
    requires
        loop_in_program(info, instrs@.len()),
        trip_count(info) > 0,
    ensures
        instrs_view(final(out)@) == instrs_view(old(out)@) + expansion(instrs_view(instrs@), info),
{
    let ghost all = instrs_view(instrs@);
    let ghost start = instrs_view(out@);
    let limit: u64 = match info.limit {
        LoopLimit::Imm(limit) => limit,
        LoopLimit::Slot(_) => return,
    };
    let trips: u64 = limit - info.start;
    for k in 0..trips
        invariant
            all == instrs_view(instrs@),
            loop_in_program(info, instrs@.len()),
            info.start + trips == limit,
            instrs_view(out@) == start + unrolled_iterations(all, info, k as nat),
    {
        let value: u64 = info.start + k;
        let ghost before = instrs_view(out@);
        let ghost iteration = unrolled_iteration(all, info, value);
        out.push(RuntimeInstr::Mov { dst: info.ind_slot, src: RuntimeOperand::Imm(value) });
        assert(instrs_view(out@) =~= before + iteration.take(1));
        for i in info.header + 1..info.update_idx
            invariant
                all == instrs_view(instrs@),
                loop_in_program(info, instrs@.len()),
                iteration == unrolled_iteration(all, info, value),
                instrs_view(out@) == before + iteration.take(i - info.header),
        {
            let ghost shorter = instrs_view(out@);
            assert(all[i as int] == instrs@[i as int]@);
            let next = rewrite_unrolled_instr_with_index(&instrs[i], info.ind_slot, value);
            let ghost added = next@;
            out.push(next);
            assert(instrs_view(out@) =~= shorter.push(added));
            assert(iteration[i - info.header] == added);
            assert(iteration.take(i - info.header).push(added) =~= iteration.take(
                i - info.header + 1,
            ));
            assert(before + iteration.take(i - info.header).push(added) =~= shorter.push(added));
        }
        assert(iteration.take(info.update_idx - info.header) =~= iteration);
        assert(instrs_view(out@) =~= start + unrolled_iterations(all, info, (k + 1) as nat));
    }
    let ghost rolled = unrolled_iterations(all, info, trips as nat);
    let ghost last = InstrView::Mov { dst: info.ind_slot, src: RuntimeOperand::Imm(limit) };
    let ghost leave = InstrView::Jump { target: info.exit_target };
    let ghost body = instrs_view(out@);
    out.push(RuntimeInstr::Mov { dst: info.ind_slot, src: RuntimeOperand::Imm(limit) });
    assert(instrs_view(out@) =~= body.push(last));
    out.push(RuntimeInstr::Jump { target: info.exit_target });
    assert(instrs_view(out@) =~= body.push(last).push(leave));
    assert(body.push(last).push(leave) =~= start + rolled.push(last).push(leave));
}

/// Unrolls the small counted loops of a program.
pub fn unroll_runtime_small_counted_loops_in_program(instrs: &mut Vec<RuntimeInstr>)
    requires
        slots_below(instrs_view(old(instrs)@), usize::MAX as int),
    ensures
        instrs_view(final(instrs)@) == unroll_loops(instrs_view(old(instrs)@)),
{
    let ghost all = instrs_view(instrs@);
    let count: usize = instrs.len();
    let plans = plan_unrolling(instrs);
    let mut planned = false;
    for i in 0..count
        invariant
            all.len() == count,
            plans@.len() == count,
            forall|j: int| 0 <= j < count ==> #[trigger] plans@[j] == plan_at(all, j),
            planned ==> has_plan(all),
            !planned ==> forall|j: int| 0 <= j < i ==> #[trigger] plan_at(all, j) is None,
    {
        assert(plans@[i as int] == plan_at(all, i as int));
        if plans[i].is_some() {
            planned = true;
        }
    }
    if !planned {
        return;
    }
    let mut remap: Vec<usize> = Vec::with_capacity(count);
    let mut out: Vec<RuntimeInstr> = Vec::new();
    assert(instrs_view(out@) =~= Seq::<InstrView>::empty());
    assert(Seq::<InstrView>::empty() + unrolled_from(all, 0) =~= unrolled_from(all, 0));
    let mut i: usize = 0;
    while i < count
        invariant
            i <= count == instrs@.len(),
            all == instrs_view(instrs@),
            plans@.len() == count,
            forall|j: int| 0 <= j < count ==> #[trigger] plans@[j] == plan_at(all, j),
            instrs_view(out@) + unrolled_from(all, i as int) == unrolled_from(all, 0),
            remap@.len() == i,
            forall|t: int| 0 <= t < i ==> #[trigger] remap@[t] == unrolled_distance(all, 0, t),
            forall|t: int|
                i <= t <= count ==> #[trigger] unrolled_distance(all, 0, t) == out@.len()
                    + unrolled_distance(all, i as int, t),
        decreases count - i,
    {
        assert(plans@[i as int] == plan_at(all, i as int));
        let ghost before = instrs_view(out@);
        let at: usize = out.len();
        if let Some(info) = plans[i] {
            proof {
                lemma_plan_at(all, i as int);
            }
            while remap.len() <= info.latch
                invariant
                    i <= remap@.len() <= info.latch + 1,
                    info.latch < count,
                    all == instrs_view(instrs@),
                    at == out@.len(),
                    i == info.header,
                    i < count == all.len(),
                    plan_at(all, i as int) == Some(info),
                    forall|t: int|
                        0 <= t < remap@.len() ==> #[trigger] remap@[t] == unrolled_distance(
                            all,
                            0,
                            t,
                        ),
                    forall|t: int|
                        i <= t <= count ==> #[trigger] unrolled_distance(all, 0, t) == out@.len()
                            + unrolled_distance(all, i as int, t),
                decreases info.latch + 1 - remap@.len(),
            {
                assert(unrolled_distance(all, 0, remap@.len() as int) == at);
                remap.push(at);
            }
            push_expansion(&mut out, instrs, info);
            i = info.latch + 1;
            proof {
                let rest = unrolled_from(all, i as int);
                assert(before + (expansion(all, info) + rest) =~= (before + expansion(all, info))
                    + rest);
                assert forall|t: int| i <= t <= count implies #[trigger] unrolled_distance(
                    all,
                    0,
                    t,
                ) == out@.len() + unrolled_distance(all, i as int, t) by {
                    assert(unrolled_distance(all, 0, t) == before.len() + unrolled_distance(
                        all,
                        info.header as int,
                        t,
                    ));
                }
            }
        } else {
            assert(unrolled_distance(all, 0, i as int) == at);
            remap.push(at);
            assert(all[i as int] == instrs@[i as int]@);
            out.push(instrs[i].clone());
            proof {
                assert(instrs_view(out@) =~= before.push(all[i as int]));
                let rest = unrolled_from(all, i + 1);
                assert(before + (seq![all[i as int]] + rest) =~= before.push(all[i as int]) + rest);
                assert forall|t: int| i + 1 <= t <= count implies #[trigger] unrolled_distance(
                    all,
                    0,
                    t,
                ) == out@.len() + unrolled_distance(all, i + 1, t) by {
                    assert(unrolled_distance(all, 0, t) == before.len() + unrolled_distance(
                        all,
                        i as int,
                        t,
                    ));
                }
            }
            i = i + 1;
        }
    }
    assert(instrs_view(out@) + unrolled_from(all, count as int) =~= instrs_view(out@));
    assert(unrolled_distance(all, 0, count as int) == out@.len() + unrolled_distance(
        all,
        count as int,
        count as int,
    ));
    remap.push(out.len());
    remap_code(&mut out, &remap);
    proof {
        let flat = unrolled_from(all, 0);
        let f = clamped_lookup(remap@);
        let g = unrolled_position(all);
        assert forall|t: usize| #[trigger] f(t) == g(t) by {
            if t < count {
                assert(remap@[t as int] == unrolled_distance(all, 0, t as int));
            } else {
                assert(remap@[count as int] == unrolled_distance(all, 0, count as int));
            }
        }
        assert forall|j: int| 0 <= j < flat.len() implies #[trigger] map_code_target(flat[j], f)
            == map_code_target(flat[j], g) by {
            if let Some(target) = code_target(flat[j]) {
                assert(f(target) == g(target));
            }
        }
        assert(map_code_targets(flat, f) =~= map_code_targets(flat, g)) by {
            assert forall|j: int| 0 <= j < flat.len() implies map_code_targets(flat, f)[j]
                == map_code_targets(flat, g)[j] by {
                assert(map_code_target(flat[j], f) == map_code_target(flat[j], g));
            }
        }
    }
    *instrs = out;
}

/// Unrolling an instruction keeps its slots in range.
pub proof fn lemma_unrolled_below(instr: InstrView, slot: usize, value: u64, bound: int)
    requires
        instr_below(instr, bound),
    ensures
        instr_below(unrolled_instr(instr, slot, value), bound),
        code_target(unrolled_instr(instr, slot, value)) == code_target(instr),
{
    match instr {
        InstrView::LoadSeed { .. } => {},
        InstrView::Mov { .. } => {},
        InstrView::BinOp { .. } => {},
        InstrView::BinOpInPlace { .. } => {},
        InstrView::FloatBinOp { .. } => {},
        InstrView::Cmp { .. } => {},
        InstrView::NormalizeInt { .. } => {},
        InstrView::Jump { .. } => {},
        InstrView::JumpIfZero { .. } => {},
        InstrView::JumpIfCmpFalse { .. } => {},
        InstrView::CompareSwap { .. } => {},
        InstrView::RadixSortFixedInt { .. } => {},
        InstrView::Call { .. } => {},
        InstrView::LoadIndex { .. } => {},
        InstrView::LoadIndexUnchecked { .. } => {},
        InstrView::StoreIndex { .. } => {},
        InstrView::StoreIndexUnchecked { .. } => {},
        InstrView::HeapLoadInt { .. } => {},
        InstrView::HeapStoreInt { .. } => {},
        InstrView::HeapCopy { .. } => {},
        InstrView::BloomSplitBlockInsert { .. } => {},
        InstrView::BloomSplitBlockCheck { .. } => {},
        InstrView::BloomClassic4Check { .. } => {},
        InstrView::HashCtrlGroupProbe { .. } => {},
        InstrView::JoinSelectAdaptive { .. } => {},
        InstrView::Alloc { .. } => {},
        InstrView::Free { .. } => {},
        InstrView::FileOpen { .. } => {},
        InstrView::FileWrite { .. } => {},
        InstrView::FileRead { .. } => {},
        InstrView::FileClose { .. } => {},
        InstrView::ThreadSpawn { .. } => {},
        InstrView::ThreadJoin { .. } => {},
        InstrView::ChannelCreate { .. } => {},
        InstrView::ChannelSend { .. } => {},
        InstrView::ChannelRecv { .. } => {},
        InstrView::ChannelClose { .. } => {},
        InstrView::ChannelDestroy { .. } => {},
        InstrView::PrintConst { .. } => {},
        InstrView::PrintInt { .. } => {},
        InstrView::Return => {},
        InstrView::Exit { .. } => {},
    }
}

/// Unrolled iterations keep their slots in range and start no other code.
proof fn lemma_iterations_in_range(
    instrs: Seq<InstrView>,
    info: CountedLoopInfo,
    n: nat,
    bound: int,
)
    requires
        loop_in_program(info, instrs.len()),
        slots_below(instrs, bound),
        info.ind_slot < bound,
    ensures
        slots_below(unrolled_iterations(instrs, info, n), bound),
    decreases n,
{
    if n > 0 {
        lemma_iterations_in_range(instrs, info, (n - 1) as nat, bound);
        let value = (info.start + (n - 1)) as u64;
        let before = unrolled_iterations(instrs, info, (n - 1) as nat);
        let iteration = unrolled_iteration(instrs, info, value);
        let after = unrolled_iterations(instrs, info, n);
        assert forall|i: int| 0 <= i < iteration.len() implies #[trigger] instr_below(
            iteration[i],
            bound,
        ) by {
            if i > 0 {
                assert(instr_below(instrs[info.header + i], bound));
                lemma_unrolled_below(instrs[info.header + i], info.ind_slot, value, bound);
                assert(iteration[i] == unrolled_instr(
                    instrs[info.header + i],
                    info.ind_slot,
                    value,
                ));
            }
        }
        assert forall|i: int| 0 <= i < after.len() implies #[trigger] instr_below(
            after[i],
            bound,
        ) by {
            if i < before.len() {
                assert(instr_below(before[i], bound));
            } else {
                assert(instr_below(iteration[i - before.len()], bound));
            }
        }
    }
}

/// A loop to unroll counts a slot of the program.
proof fn lemma_plan_slot(instrs: Seq<InstrView>, n: int, bound: int)
    requires
        0 <= n <= instrs.len(),
        slots_below(instrs, bound),
    ensures
        forall|i: int|
            0 <= i < counted_loops(instrs, true, n).len() ==> (#[trigger] counted_loops(
                instrs,
                true,
                n,
            )[i]).ind_slot < bound,
    decreases n,
{
    if n > 0 {
        lemma_plan_slot(instrs, n - 1, bound);
        let before = counted_loops(instrs, true, n - 1);
        let after = counted_loops(instrs, true, n);
        if let Some(info) = counted_loop(instrs, n - 1, true) {
            assert(instr_below(instrs[info.header as int], bound));
        }
        assert forall|i: int| 0 <= i < after.len() implies (#[trigger] after[i]).ind_slot
            < bound by {
            if i < before.len() {
                assert(after[i] == before[i]);
            }
        }
    }
}

/// Unrolling keeps slots in range.
pub proof fn lemma_unrolled_in_range(instrs: Seq<InstrView>, from: int, bound: int)
    requires
        instrs.len() <= usize::MAX,
        slots_below(instrs, bound),
    ensures
        slots_below(unrolled_from(instrs, from), bound),
    decreases instrs.len() - from,
{
    if 0 <= from < instrs.len() {
        let out = unrolled_from(instrs, from);
        match plan_at(instrs, from) {
            Some(info) => {
                lemma_plan_at(instrs, from);
                lemma_unrolled_in_range(instrs, info.latch + 1, bound);
                let loops = counted_loops(instrs, true, instrs.len() as int);
                lemma_plan_among(instrs, loops, from, loops.len() as int);
                lemma_plan_slot(instrs, instrs.len() as int, bound);
                let k = choose|k: int| 0 <= k < loops.len() && loops[k] == info;
                assert(loops[k].ind_slot < bound);
                let rolled = unrolled_iterations(instrs, info, trip_count(info) as nat);
                lemma_iterations_in_range(instrs, info, trip_count(info) as nat, bound);
                let rest = unrolled_from(instrs, info.latch + 1);
                let whole = expansion(instrs, info);
                assert forall|i: int| 0 <= i < out.len() implies #[trigger] instr_below(
                    out[i],
                    bound,
                ) by {
                    if i < rolled.len() {
                        assert(out[i] == rolled[i]);
                        assert(instr_below(rolled[i], bound));
                    } else if i >= whole.len() {
                        assert(out[i] == rest[i - whole.len()]);
                        assert(instr_below(rest[i - whole.len()], bound));
                    } else {
                        assert(out[i] == whole[i]);
                    }
                }
            },
            None => {
                lemma_unrolled_in_range(instrs, from + 1, bound);
                let rest = unrolled_from(instrs, from + 1);
                assert forall|i: int| 0 <= i < out.len() implies #[trigger] instr_below(
                    out[i],
                    bound,
                ) by {
                    if i == 0 {
                        assert(instr_below(instrs[from], bound));
                    } else {
                        assert(instr_below(rest[i - 1], bound));
                    }
                }
            },
        }
    }
}

/// Every instruction comes to stand within the unrolled program.
pub proof fn lemma_distance_in_bounds(instrs: Seq<InstrView>, from: int, target: int)
    ensures
        0 <= unrolled_distance(instrs, from, target) <= unrolled_from(instrs, from).len(),
    decreases instrs.len() - from,
{
    if 0 <= from < instrs.len() {
        match plan_at(instrs, from) {
            Some(info) => {
                if from <= info.latch < instrs.len() {
                    lemma_distance_in_bounds(instrs, info.latch + 1, target);
                }
            },
            None => {
                lemma_distance_in_bounds(instrs, from + 1, target);
            },
        }
    }
}

/// Unrolling keeps slots and targets in range.
pub proof fn lemma_unroll_in_range(instrs: Seq<InstrView>, bound: int)
    requires
        instrs.len() <= usize::MAX,
        unroll_loops(instrs).len() <= usize::MAX,
        slots_below(instrs, bound),
        targets_in_bounds(instrs),
    ensures
        slots_below(unroll_loops(instrs), bound),
        targets_in_bounds(unroll_loops(instrs)),
{
    if has_plan(instrs) {
        let flat = unrolled_from(instrs, 0);
        let f = unrolled_position(instrs);
        let out = unroll_loops(instrs);
        lemma_unrolled_in_range(instrs, 0, bound);
        assert forall|i: int| 0 <= i < out.len() implies #[trigger] instr_below(out[i], bound) by {
            assert(instr_below(flat[i], bound));
            assert(out[i] == map_code_target(flat[i], f));
        }
        assert forall|i: int| 0 <= i < out.len() implies ((#[trigger] code_target(
            out[i],
        )) matches Some(target) ==> target <= out.len()) by {
            assert(out[i] == map_code_target(flat[i], f));
            if let Some(target) = code_target(flat[i]) {
                lemma_distance_in_bounds(
                    instrs,
                    0,
                    if target < instrs.len() {
                        target as int
                    } else {
                        instrs.len() as int
                    },
                );
                assert(code_target(out[i]) == Some(f(target)));
            }
        }
    }
}

/// No array that the instruction stores to holds the slot.
pub open spec fn stores_elsewhere(instr: InstrView, slot: usize) -> bool {
    match instr {
        InstrView::StoreIndex { base_slots, .. } => !base_slots.contains(slot),
        InstrView::StoreIndexUnchecked { base_slots, .. } => !base_slots.contains(slot),
        _ => true,
    }
}

/// While the induction slot holds the constant, the unrolled instruction does
/// what the instruction does, and leaves the induction slot alone.
pub proof fn law_unrolled_instr_has_same_effect(
    instr: InstrView,
    slot: usize,
    value: u64,
    state: SlotState,
)
    requires
        is_slot_arithmetic(instr),
        !writes(instr, slot),
        stores_elsewhere(instr, slot),
        instr_below(instr, state.len() as int),
        slot < state.len(),
        state[slot as int] == value,
    ensures
        step(unrolled_instr(instr, slot, value), state) == step(instr, state),
        step(instr, state) matches Some(after) ==> after.len() == state.len()
            && after[slot as int] == value,
{
}

/// The code of one iteration of a loop whose update is the last instruction
/// before the jump back.
pub open spec fn loop_iteration(instrs: Seq<InstrView>, info: CountedLoopInfo) -> Seq<InstrView> {
    instrs.subrange(info.header + 1, info.update_idx + 1)
}

/// The body of the loop computes slots from slots and stores to no array that
/// holds the induction slot.
pub open spec fn body_is_plain(instrs: Seq<InstrView>, info: CountedLoopInfo) -> bool {
    forall|i: int|
        info.header < i < info.update_idx ==> is_slot_arithmetic(#[trigger] instrs[i])
            && stores_elsewhere(instrs[i], info.ind_slot)
}

/// The first k instructions of an unrolled iteration behind its first do what
/// the first k of the body do.
proof fn lemma_body_prefix(
    instrs: Seq<InstrView>,
    info: CountedLoopInfo,
    value: u64,
    state: SlotState,
    k: nat,
)
    requires
        loop_in_program(info, instrs.len()),
        counted_loop(instrs, info.latch as int, true) == Some(info),
        info.update_idx == info.latch - 1,
        body_is_plain(instrs, info),
        slots_below(instrs, state.len() as int),
        info.ind_slot < state.len(),
        state[info.ind_slot as int] == value,
        k <= info.update_idx - info.header - 1,
    ensures
        ({
            let body = instrs.subrange(info.header + 1, info.header + 1 + k);
            let unrolled = unrolled_iteration(instrs, info, value).subrange(1, k + 1int);
            &&& run(unrolled, state) == run(body, state)
            &&& run(body, state) matches Some(after) ==> after.len() == state.len()
                && after[info.ind_slot as int] == value
        }),
    decreases k,
{
    let body = instrs.subrange(info.header + 1, info.header + 1 + k);
    let iteration = unrolled_iteration(instrs, info, value);
    let unrolled = iteration.subrange(1, k + 1int);
    if k > 0 {
        lemma_body_prefix(instrs, info, value, state, (k - 1) as nat);
        assert(body.drop_last() =~= instrs.subrange(info.header + 1, info.header + k));
        assert(unrolled.drop_last() =~= iteration.subrange(1, k as int));
        let at = info.header + k;
        assert(body.last() == instrs[at]);
        assert(unrolled.last() == unrolled_instr(instrs[at], info.ind_slot, value));
        assert(keeps_count(instrs[at], info.ind_slot, info.limit, true));
        assert(is_slot_arithmetic(instrs[at]));
        assert(instr_below(instrs[at], state.len() as int));
        if let Some(before) = run(body.drop_last(), state) {
            law_unrolled_instr_has_same_effect(instrs[at], info.ind_slot, value, before);
        }
    }
}

/// The unrolled iterations, with the final value of the induction slot set, do
/// what running the loop does.
proof fn lemma_iterations_effect(
    instrs: Seq<InstrView>,
    info: CountedLoopInfo,
    n: nat,
    state: SlotState,
)
    requires
        loop_in_program(info, instrs.len()),
        counted_loop(instrs, info.latch as int, true) == Some(info),
        info.update_idx == info.latch - 1,
        body_is_plain(instrs, info),
        slots_below(instrs, state.len() as int),
        info.ind_slot < state.len(),
        state[info.ind_slot as int] == info.start,
        info.start + n <= u64::MAX,
    ensures
        ({
            let rolled = run_times(loop_iteration(instrs, info), n, state);
            let flat = run(unrolled_iterations(instrs, info, n), state);
            &&& rolled is None <==> flat is None
            &&& rolled matches Some(after) ==> after.len() == state.len()
                && after[info.ind_slot as int] == info.start + n && flat->0.len() == state.len()
                && flat->0.update(info.ind_slot as int, (info.start + n) as u64) =~= after
        }),
    decreases n,
{
    let ind = info.ind_slot as int;
    if n == 0 {
        assert(state.update(ind, info.start) =~= state);
    } else {
        lemma_iterations_effect(instrs, info, (n - 1) as nat, state);
        let one = loop_iteration(instrs, info);
        let value = (info.start + (n - 1)) as u64;
        let iteration = unrolled_iteration(instrs, info, value);
        let earlier = unrolled_iterations(instrs, info, (n - 1) as nat);
        lemma_run_append(earlier, iteration, state);
        if let Some(rolled) = run_times(one, (n - 1) as nat, state) {
            let flat = run(earlier, state)->0;
            let set = iteration.take(1);
            let rest = iteration.subrange(1, iteration.len() as int);
            assert(iteration =~= set + rest);
            lemma_run_append(set, rest, flat);
            assert(run(set, flat) == Some(rolled)) by {
                assert(set.drop_last() =~= Seq::<InstrView>::empty());
                assert(set.last() == (InstrView::Mov {
                    dst: info.ind_slot,
                    src: RuntimeOperand::Imm(value),
                }));
                assert(run(set.drop_last(), flat) == Some(flat));
            }
            let k = (info.update_idx - info.header - 1) as nat;
            lemma_body_prefix(instrs, info, value, rolled, k);
            let body = instrs.subrange(info.header + 1, info.header + 1 + k);
            assert(one.drop_last() =~= body);
            assert(one.last() == instrs[info.update_idx as int]);
            assert(is_increment(one.last(), info.ind_slot));
            if let Some(after) = run(body, rolled) {
                lemma_increment(one.last(), info.ind_slot, value, after);
                assert(after.update(ind, (info.start + n) as u64) =~= run(one, rolled)->0);
            }
        }
    }
}

/// Adding one to a slot that can hold the sum.
pub proof fn lemma_increment(instr: InstrView, slot: usize, value: u64, state: SlotState)
    requires
        is_increment(instr, slot),
        slot < state.len(),
        state[slot as int] == value,
        value < u64::MAX,
    ensures
        step(instr, state) == Some(state.update(slot as int, (value + 1) as u64)),
{
    assert(instr == (InstrView::BinOpInPlace {
        dst: slot,
        op: RuntimeBinOp::Add,
        rhs: RuntimeOperand::Imm(1),
    }));
}

/// What replaces a loop does what the loop does: the straight-line code in front
/// of its final jump leaves the slots as running the loop to its limit would,
/// or traps where that traps. The loop's body computes slots from slots, and the
/// loop counts without normalising.
pub proof fn law_unrolling_preserves_effect(
    instrs: Seq<InstrView>,
    info: CountedLoopInfo,
    state: SlotState,
)
    requires
        loop_in_program(info, instrs.len()),
        counted_loop(instrs, info.latch as int, true) == Some(info),
        info.limit is Imm,
        info.update_idx == info.latch - 1,
        body_is_plain(instrs, info),
        slots_below(instrs, state.len() as int),
        state[info.ind_slot as int] == info.start,
    ensures
        run(expansion(instrs, info).drop_last(), state) == run_times(
            loop_iteration(instrs, info),
            trip_count(info) as nat,
            state,
        ),
        expansion(instrs, info).last() == (InstrView::Jump { target: info.exit_target }),
{
    let n = trip_count(info) as nat;
    assert(instr_below(instrs[info.header as int], state.len() as int));
    lemma_iterations_effect(instrs, info, n, state);
    let flat = unrolled_iterations(instrs, info, n);
    let last = InstrView::Mov {
        dst: info.ind_slot,
        src: RuntimeOperand::Imm((info.start + trip_count(info)) as u64),
    };
    assert(expansion(instrs, info).drop_last() =~= flat.push(last));
    assert(flat.push(last).drop_last() =~= flat);
}

} // verus!
