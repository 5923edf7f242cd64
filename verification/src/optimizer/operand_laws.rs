//! Rewritten instructions have the operands of the instruction: each in its place, and
//! of the same value.

use crate::ir::{InstrView, ProgramView, RuntimeOperand};
use crate::optimizer::checks::unchecked;
use crate::optimizer::copies::{
    alias_count, aliases_hold, copy_instr, invalidated, lemma_renamed_value, Aliases,
};
use crate::optimizer::machine::{is_slot_arithmetic, value_of, SlotState};
use crate::optimizer::peephole::{
    adaptive_join, fold_instr, known_holds, learn, lemma_folded_value, slot_count, FloatFn,
    KnownSlots,
};
use crate::optimizer::request_laws::{lemma_fewer_aliases, lemma_less_known};
use crate::optimizer::slots::{by_rank, instr_below, rename, rename_operand, slot_is_used};
use crate::optimizer::straight_laws::is_renumbered;
use crate::optimizer::unroll::{unrolled_instr, unrolled_operand};
use crate::optimizer::uses::{mentions, reads, writes};
use vstd::prelude::*;

verus! {

/// The value of an operand, as an operand.
pub open spec fn given(operand: RuntimeOperand, state: SlotState) -> RuntimeOperand {
    RuntimeOperand::Imm(value_of(operand, state))
}

/// An instruction with the value of each operand in the place of the operand.
pub open spec fn with_values(instr: InstrView, state: SlotState) -> InstrView {
    match instr {
        InstrView::LoadSeed { dst, kind, input } => InstrView::LoadSeed {
            dst,
            kind,
            input: match input {
                Some(operand) => Some(given(operand, state)),
                None => None,
            },
        },
        InstrView::Mov { dst, src } => InstrView::Mov {
            dst,
            src: given(src, state),
        },
        InstrView::BinOp { dst, op, lhs, rhs } => InstrView::BinOp {
            dst,
            op,
            lhs: given(lhs, state),
            rhs: given(rhs, state),
        },
        InstrView::BinOpInPlace { dst, op, rhs } => InstrView::BinOpInPlace {
            dst,
            op,
            rhs: given(rhs, state),
        },
        InstrView::FloatBinOp { dst, bits, op, lhs, rhs } => InstrView::FloatBinOp {
            dst,
            bits,
            op,
            lhs: given(lhs, state),
            rhs: given(rhs, state),
        },
        InstrView::Cmp { dst, op, lhs, rhs } => InstrView::Cmp {
            dst,
            op,
            lhs: given(lhs, state),
            rhs: given(rhs, state),
        },
        InstrView::JumpIfCmpFalse { op, lhs, rhs, target } => InstrView::JumpIfCmpFalse {
            op,
            lhs: given(lhs, state),
            rhs: given(rhs, state),
            target,
        },
        InstrView::LoadIndex { dst, base_slots, index } => InstrView::LoadIndex {
            dst,
            base_slots,
            index: given(index, state),
        },
        InstrView::LoadIndexUnchecked { dst, base_slots, index } => InstrView::LoadIndexUnchecked {
            dst,
            base_slots,
            index: given(index, state),
        },
        InstrView::StoreIndex { base_slots, index, src } => InstrView::StoreIndex {
            base_slots,
            index: given(index, state),
            src: given(src, state),
        },
        InstrView::StoreIndexUnchecked {
            base_slots,
            index,
            src,
        } => InstrView::StoreIndexUnchecked {
            base_slots,
            index: given(index, state),
            src: given(src, state),
        },
        InstrView::HeapLoadInt { dst, ptr, index, bytes } => InstrView::HeapLoadInt {
            dst,
            ptr: given(ptr, state),
            index: given(index, state),
            bytes,
        },
        InstrView::HeapStoreInt { ptr, index, src, bytes } => InstrView::HeapStoreInt {
            ptr: given(ptr, state),
            index: given(index, state),
            src: given(src, state),
            bytes,
        },
        InstrView::HeapCopy { dst_ptr, src_ptr, bytes } => InstrView::HeapCopy {
            dst_ptr: given(dst_ptr, state),
            src_ptr: given(src_ptr, state),
            bytes: given(bytes, state),
        },
        InstrView::BloomSplitBlockInsert {
            filter_slots,
            hash,
        } => InstrView::BloomSplitBlockInsert {
            filter_slots,
            hash: given(hash, state),
        },
        InstrView::BloomSplitBlockCheck {
            dst,
            filter_slots,
            hash,
        } => InstrView::BloomSplitBlockCheck {
            dst,
            filter_slots,
            hash: given(hash, state),
        },
        InstrView::BloomClassic4Check {
            dst,
            lanes_checked,
            filter_slots,
            hash,
        } => InstrView::BloomClassic4Check {
            dst,
            lanes_checked,
            filter_slots,
            hash: given(hash, state),
        },
        InstrView::HashCtrlGroupProbe {
            dst_mask,
            ctrl_slots,
            group_start,
            fingerprint,
        } => InstrView::HashCtrlGroupProbe {
            dst_mask,
            ctrl_slots,
            group_start: given(group_start, state),
            fingerprint: given(fingerprint, state),
        },
        InstrView::JoinSelectAdaptive {
            dst,
            build_rows,
            probe_rows,
        } => InstrView::JoinSelectAdaptive {
            dst,
            build_rows: given(build_rows, state),
            probe_rows: given(probe_rows, state),
        },
        InstrView::Alloc { dst, size } => InstrView::Alloc {
            dst,
            size: given(size, state),
        },
        InstrView::Free { ptr, size } => InstrView::Free {
            ptr: given(ptr, state),
            size: given(size, state),
        },
        InstrView::FileOpen { dst, path_ptr, flags, mode } => InstrView::FileOpen {
            dst,
            path_ptr: given(path_ptr, state),
            flags,
            mode,
        },
        InstrView::FileWrite { dst, fd, ptr, len } => InstrView::FileWrite {
            dst,
            fd: given(fd, state),
            ptr: given(ptr, state),
            len: given(len, state),
        },
        InstrView::FileRead { dst, fd, ptr, len } => InstrView::FileRead {
            dst,
            fd: given(fd, state),
            ptr: given(ptr, state),
            len: given(len, state),
        },
        InstrView::FileClose { fd } => InstrView::FileClose {
            fd: given(fd, state),
        },
        InstrView::ThreadJoin { dst, handle } => InstrView::ThreadJoin {
            dst,
            handle: given(handle, state),
        },
        InstrView::ChannelCreate { dst, capacity, unbounded } => InstrView::ChannelCreate {
            dst,
            capacity: given(capacity, state),
            unbounded,
        },
        InstrView::ChannelSend { handle, value } => InstrView::ChannelSend {
            handle: given(handle, state),
            value: given(value, state),
        },
        InstrView::ChannelRecv { dst, handle } => InstrView::ChannelRecv {
            dst,
            handle: given(handle, state),
        },
        InstrView::ChannelClose { handle, sender } => InstrView::ChannelClose {
            handle: given(handle, state),
            sender,
        },
        InstrView::ChannelDestroy { handle } => InstrView::ChannelDestroy {
            handle: given(handle, state),
        },
        InstrView::PrintInt { value, signed, bits } => InstrView::PrintInt {
            value: given(value, state),
            signed,
            bits,
        },
        InstrView::Exit { code } => InstrView::Exit {
            code: given(code, state),
        },
        _ => instr,
    }
}

/// Constant folding keeps operands: with what is known of the slots, an instruction
/// other than slot arithmetic has, once it is rewritten, the same values in the same
/// places, and its slots and widths. An operation on floating-point numbers that the
/// machine has, and a choice of a join, may become a move of what it comes to.
pub proof fn law_folding_keeps_operands(
    instr: InstrView,
    known: KnownSlots,
    floats: FloatFn,
    state: SlotState,
)
    requires
        !is_slot_arithmetic(instr),
        instr_below(instr, slot_count(known)),
        known_holds(known, state),
    ensures
        fold_instr(instr, known, floats).instr matches Some(new) && {
            ||| with_values(new, state) == with_values(instr, state)
            ||| instr matches InstrView::FloatBinOp { dst, bits, op, lhs, rhs } && floats(
                bits,
                op,
                value_of(lhs, state),
                value_of(rhs, state),
            ) matches Some(value) && new == (InstrView::Mov {
                dst,
                src: RuntimeOperand::Imm(value),
            })
            ||| instr matches InstrView::JoinSelectAdaptive { dst, build_rows, probe_rows } && new
                == (InstrView::Mov {
                dst,
                src: RuntimeOperand::Imm(
                    adaptive_join(value_of(build_rows, state), value_of(probe_rows, state)),
                ),
            })
        },
{
    match instr {
        InstrView::FloatBinOp { lhs, rhs, .. } => {
            lemma_folded_value(lhs, known, state);
            lemma_folded_value(rhs, known, state);
        },
        InstrView::HeapLoadInt { ptr, index, .. } => {
            lemma_folded_value(ptr, known, state);
            lemma_folded_value(index, known, state);
        },
        InstrView::HeapStoreInt { ptr, index, src, .. } => {
            lemma_folded_value(ptr, known, state);
            lemma_folded_value(index, known, state);
            lemma_folded_value(src, known, state);
        },
        InstrView::HeapCopy { dst_ptr, src_ptr, bytes } => {
            lemma_folded_value(dst_ptr, known, state);
            lemma_folded_value(src_ptr, known, state);
            lemma_folded_value(bytes, known, state);
        },
        InstrView::BloomSplitBlockInsert { hash, .. } => {
            lemma_folded_value(hash, known, state);
        },
        InstrView::BloomSplitBlockCheck { hash, .. } => {
            lemma_folded_value(hash, known, state);
        },
        InstrView::BloomClassic4Check { hash, .. } => {
            lemma_folded_value(hash, known, state);
        },
        InstrView::HashCtrlGroupProbe { group_start, fingerprint, .. } => {
            lemma_folded_value(group_start, known, state);
            lemma_folded_value(fingerprint, known, state);
        },
        InstrView::JoinSelectAdaptive { build_rows, probe_rows, .. } => {
            lemma_folded_value(build_rows, known, state);
            lemma_folded_value(probe_rows, known, state);
        },
        InstrView::Alloc { size, .. } => {
            lemma_folded_value(size, known, state);
        },
        InstrView::Free { ptr, size } => {
            lemma_folded_value(ptr, known, state);
            lemma_folded_value(size, known, state);
        },
        InstrView::FileOpen { path_ptr, .. } => {
            lemma_folded_value(path_ptr, known, state);
        },
        InstrView::FileWrite { fd, ptr, len, .. } => {
            lemma_folded_value(fd, known, state);
            lemma_folded_value(ptr, known, state);
            lemma_folded_value(len, known, state);
        },
        InstrView::FileRead { fd, ptr, len, .. } => {
            lemma_folded_value(fd, known, state);
            lemma_folded_value(ptr, known, state);
            lemma_folded_value(len, known, state);
        },
        InstrView::FileClose { fd } => {
            lemma_folded_value(fd, known, state);
        },
        InstrView::ThreadJoin { dst, handle } => {
            lemma_less_known(known, state, dst);
            lemma_folded_value(handle, learn(known, dst, None), state);
        },
        InstrView::ChannelCreate { dst, capacity, .. } => {
            lemma_less_known(known, state, dst);
            lemma_folded_value(capacity, learn(known, dst, None), state);
        },
        InstrView::ChannelSend { handle, value } => {
            lemma_folded_value(handle, known, state);
            lemma_folded_value(value, known, state);
        },
        InstrView::ChannelRecv { dst, handle } => {
            lemma_less_known(known, state, dst);
            lemma_folded_value(handle, learn(known, dst, None), state);
        },
        InstrView::ChannelClose { handle, .. } => {
            lemma_folded_value(handle, known, state);
        },
        InstrView::ChannelDestroy { handle } => {
            lemma_folded_value(handle, known, state);
        },
        InstrView::PrintInt { value, .. } => {
            lemma_folded_value(value, known, state);
        },
        InstrView::Exit { code } => {
            lemma_folded_value(code, known, state);
        },
        _ => {},
    }
}

/// Copy propagation keeps operands: where the aliases hold, an instruction other than
/// slot arithmetic has, once it is rewritten, the same values in the same places, and
/// its slots and widths. A branch may look at another slot that holds the same.
pub proof fn law_copying_keeps_operands(instr: InstrView, aliases: Aliases, state: SlotState)
    requires
        !is_slot_arithmetic(instr),
        instr_below(instr, alias_count(aliases)),
        aliases_hold(aliases, state),
    ensures
        copy_instr(instr, aliases).instr matches Some(new) && {
            ||| with_values(new, state) == with_values(instr, state)
            ||| instr matches InstrView::JumpIfZero { cond_slot, target }
            && new matches InstrView::JumpIfZero {
                cond_slot: other,
                target: same,
            } && same == target && state[other as int] == state[cond_slot as int]
        },
{
    match instr {
        InstrView::JumpIfZero { cond_slot, .. } => {
            lemma_renamed_value(RuntimeOperand::Slot(cond_slot), aliases, state);
        },
        InstrView::FloatBinOp { lhs, rhs, .. } => {
            lemma_renamed_value(lhs, aliases, state);
            lemma_renamed_value(rhs, aliases, state);
        },
        InstrView::JumpIfCmpFalse { lhs, rhs, .. } => {
            lemma_renamed_value(lhs, aliases, state);
            lemma_renamed_value(rhs, aliases, state);
        },
        InstrView::HeapLoadInt { dst, ptr, index, .. } => {
            lemma_fewer_aliases(aliases, state, dst);
            lemma_renamed_value(ptr, invalidated(aliases, dst), state);
            lemma_renamed_value(index, invalidated(aliases, dst), state);
        },
        InstrView::HeapStoreInt { ptr, index, src, .. } => {
            lemma_renamed_value(ptr, aliases, state);
            lemma_renamed_value(index, aliases, state);
            lemma_renamed_value(src, aliases, state);
        },
        InstrView::HeapCopy { dst_ptr, src_ptr, bytes } => {
            lemma_renamed_value(dst_ptr, aliases, state);
            lemma_renamed_value(src_ptr, aliases, state);
            lemma_renamed_value(bytes, aliases, state);
        },
        InstrView::BloomSplitBlockInsert { hash, .. } => {
            lemma_renamed_value(hash, aliases, state);
        },
        InstrView::BloomSplitBlockCheck { dst, hash, .. } => {
            lemma_fewer_aliases(aliases, state, dst);
            lemma_renamed_value(hash, invalidated(aliases, dst), state);
        },
        InstrView::BloomClassic4Check { dst, lanes_checked, hash, .. } => {
            lemma_fewer_aliases(aliases, state, dst);
            lemma_fewer_aliases(invalidated(aliases, dst), state, lanes_checked);
            lemma_renamed_value(hash, invalidated(invalidated(aliases, dst), lanes_checked), state);
        },
        InstrView::HashCtrlGroupProbe { dst_mask, group_start, fingerprint, .. } => {
            lemma_fewer_aliases(aliases, state, dst_mask);
            lemma_renamed_value(group_start, invalidated(aliases, dst_mask), state);
            lemma_renamed_value(fingerprint, invalidated(aliases, dst_mask), state);
        },
        InstrView::JoinSelectAdaptive { dst, build_rows, probe_rows } => {
            lemma_fewer_aliases(aliases, state, dst);
            lemma_renamed_value(build_rows, invalidated(aliases, dst), state);
            lemma_renamed_value(probe_rows, invalidated(aliases, dst), state);
        },
        InstrView::Alloc { dst, size } => {
            lemma_fewer_aliases(aliases, state, dst);
            lemma_renamed_value(size, invalidated(aliases, dst), state);
        },
        InstrView::Free { ptr, size } => {
            lemma_renamed_value(ptr, aliases, state);
            lemma_renamed_value(size, aliases, state);
        },
        InstrView::FileOpen { dst, path_ptr, .. } => {
            lemma_fewer_aliases(aliases, state, dst);
            lemma_renamed_value(path_ptr, invalidated(aliases, dst), state);
        },
        InstrView::FileWrite { dst, fd, ptr, len } => {
            lemma_fewer_aliases(aliases, state, dst);
            lemma_renamed_value(fd, invalidated(aliases, dst), state);
            lemma_renamed_value(ptr, invalidated(aliases, dst), state);
            lemma_renamed_value(len, invalidated(aliases, dst), state);
        },
        InstrView::FileRead { dst, fd, ptr, len } => {
            lemma_fewer_aliases(aliases, state, dst);
            lemma_renamed_value(fd, invalidated(aliases, dst), state);
            lemma_renamed_value(ptr, invalidated(aliases, dst), state);
            lemma_renamed_value(len, invalidated(aliases, dst), state);
        },
        InstrView::FileClose { fd } => {
            lemma_renamed_value(fd, aliases, state);
        },
        InstrView::ThreadJoin { dst, handle } => {
            lemma_fewer_aliases(aliases, state, dst);
            lemma_renamed_value(handle, invalidated(aliases, dst), state);
        },
        InstrView::ChannelCreate { dst, capacity, .. } => {
            lemma_fewer_aliases(aliases, state, dst);
            lemma_renamed_value(capacity, invalidated(aliases, dst), state);
        },
        InstrView::ChannelSend { handle, value } => {
            lemma_renamed_value(handle, aliases, state);
            lemma_renamed_value(value, aliases, state);
        },
        InstrView::ChannelRecv { dst, handle } => {
            lemma_fewer_aliases(aliases, state, dst);
            lemma_renamed_value(handle, invalidated(aliases, dst), state);
        },
        InstrView::ChannelClose { handle, .. } => {
            lemma_renamed_value(handle, aliases, state);
        },
        InstrView::ChannelDestroy { handle } => {
            lemma_renamed_value(handle, aliases, state);
        },
        InstrView::PrintInt { value, .. } => {
            lemma_renamed_value(value, aliases, state);
        },
        InstrView::Exit { code } => {
            lemma_renamed_value(code, aliases, state);
        },
        _ => {},
    }
}

/// Unrolling keeps operands: while the induction slot holds the constant, an
/// instruction has, once it is unrolled, the same values in the same places; but an
/// access may lose its check.
pub proof fn law_unrolling_keeps_operands(
    instr: InstrView,
    slot: usize,
    value: u64,
    state: SlotState,
)
    requires
        slot < state.len(),
        state[slot as int] == value,
    ensures
        with_values(unrolled_instr(instr, slot, value), state) == with_values(instr, state)
            || with_values(unrolled_instr(instr, slot, value), state) == unchecked(
            with_values(instr, state),
        ),
{
    assert forall|operand: RuntimeOperand| #[trigger]
        given(unrolled_operand(operand, slot, value), state) == given(operand, state) by {}
}

/// Slot compaction keeps operands: on slots that hold the same under their new numbers
/// a renumbered instruction has the same values in the same places, and its other
/// slots under their new numbers.
pub proof fn law_compaction_keeps_operands(
    program: ProgramView,
    i: int,
    state: SlotState,
    small: SlotState,
)
    requires
        is_renumbered(program, state, small),
        0 <= i < program.instrs.len(),
    ensures
        with_values(rename(program.instrs[i], by_rank(program.instrs)), small) == rename(
            with_values(program.instrs[i], state),
            by_rank(program.instrs),
        ),
{
    let instr = program.instrs[i];
    let f = by_rank(program.instrs);
    assert forall|slot: usize| #[trigger] mentions(instr, slot) implies slot_is_used(
        program.instrs,
        slot,
    ) by {}
    assert forall|operand: RuntimeOperand|
        (operand matches RuntimeOperand::Slot(slot) ==> mentions(instr, slot)) implies
        #[trigger] given(rename_operand(operand, f), small) == given(operand, state) by {
        if let RuntimeOperand::Slot(slot) = operand {
            assert(slot_is_used(program.instrs, slot));
        }
    }
    match instr {
        InstrView::LoadSeed { input, .. } => {
            if let Some(operand) = input {
                assert(given(rename_operand(operand, f), small) == given(operand, state));
            }
        },
        InstrView::Mov { src, .. } => {
            assert(given(rename_operand(src, f), small) == given(src, state));
        },
        InstrView::BinOp { lhs, rhs, .. } => {
            assert(given(rename_operand(lhs, f), small) == given(lhs, state));
            assert(given(rename_operand(rhs, f), small) == given(rhs, state));
        },
        InstrView::BinOpInPlace { rhs, .. } => {
            assert(given(rename_operand(rhs, f), small) == given(rhs, state));
        },
        InstrView::FloatBinOp { lhs, rhs, .. } => {
            assert(given(rename_operand(lhs, f), small) == given(lhs, state));
            assert(given(rename_operand(rhs, f), small) == given(rhs, state));
        },
        InstrView::Cmp { lhs, rhs, .. } => {
            assert(given(rename_operand(lhs, f), small) == given(lhs, state));
            assert(given(rename_operand(rhs, f), small) == given(rhs, state));
        },
        InstrView::JumpIfCmpFalse { lhs, rhs, .. } => {
            assert(given(rename_operand(lhs, f), small) == given(lhs, state));
            assert(given(rename_operand(rhs, f), small) == given(rhs, state));
        },
        InstrView::LoadIndex { index, .. } => {
            assert(given(rename_operand(index, f), small) == given(index, state));
        },
        InstrView::LoadIndexUnchecked { index, .. } => {
            assert(given(rename_operand(index, f), small) == given(index, state));
        },
        InstrView::StoreIndex { index, src, .. } => {
            assert(given(rename_operand(index, f), small) == given(index, state));
            assert(given(rename_operand(src, f), small) == given(src, state));
        },
        InstrView::StoreIndexUnchecked { index, src, .. } => {
            assert(given(rename_operand(index, f), small) == given(index, state));
            assert(given(rename_operand(src, f), small) == given(src, state));
        },
        InstrView::HeapLoadInt { ptr, index, .. } => {
            assert(given(rename_operand(ptr, f), small) == given(ptr, state));
            assert(given(rename_operand(index, f), small) == given(index, state));
        },
        InstrView::HeapStoreInt { ptr, index, src, .. } => {
            assert(given(rename_operand(ptr, f), small) == given(ptr, state));
            assert(given(rename_operand(index, f), small) == given(index, state));
            assert(given(rename_operand(src, f), small) == given(src, state));
        },
        InstrView::HeapCopy { dst_ptr, src_ptr, bytes } => {
            assert(given(rename_operand(dst_ptr, f), small) == given(dst_ptr, state));
            assert(given(rename_operand(src_ptr, f), small) == given(src_ptr, state));
            assert(given(rename_operand(bytes, f), small) == given(bytes, state));
        },
        InstrView::BloomSplitBlockInsert { hash, .. } => {
            assert(given(rename_operand(hash, f), small) == given(hash, state));
        },
        InstrView::BloomSplitBlockCheck { hash, .. } => {
            assert(given(rename_operand(hash, f), small) == given(hash, state));
        },
        InstrView::BloomClassic4Check { hash, .. } => {
            assert(given(rename_operand(hash, f), small) == given(hash, state));
        },
        InstrView::HashCtrlGroupProbe { group_start, fingerprint, .. } => {
            assert(given(rename_operand(group_start, f), small) == given(group_start, state));
            assert(given(rename_operand(fingerprint, f), small) == given(fingerprint, state));
        },
        InstrView::JoinSelectAdaptive { build_rows, probe_rows, .. } => {
            assert(given(rename_operand(build_rows, f), small) == given(build_rows, state));
            assert(given(rename_operand(probe_rows, f), small) == given(probe_rows, state));
        },
        InstrView::Alloc { size, .. } => {
            assert(given(rename_operand(size, f), small) == given(size, state));
        },
        InstrView::Free { ptr, size } => {
            assert(given(rename_operand(ptr, f), small) == given(ptr, state));
            assert(given(rename_operand(size, f), small) == given(size, state));
        },
        InstrView::FileOpen { path_ptr, .. } => {
            assert(given(rename_operand(path_ptr, f), small) == given(path_ptr, state));
        },
        InstrView::FileWrite { fd, ptr, len, .. } => {
            assert(given(rename_operand(fd, f), small) == given(fd, state));
            assert(given(rename_operand(ptr, f), small) == given(ptr, state));
            assert(given(rename_operand(len, f), small) == given(len, state));
        },
        InstrView::FileRead { fd, ptr, len, .. } => {
            assert(given(rename_operand(fd, f), small) == given(fd, state));
            assert(given(rename_operand(ptr, f), small) == given(ptr, state));
            assert(given(rename_operand(len, f), small) == given(len, state));
        },
        InstrView::FileClose { fd } => {
            assert(given(rename_operand(fd, f), small) == given(fd, state));
        },
        InstrView::ThreadJoin { handle, .. } => {
            assert(given(rename_operand(handle, f), small) == given(handle, state));
        },
        InstrView::ChannelCreate { capacity, .. } => {
            assert(given(rename_operand(capacity, f), small) == given(capacity, state));
        },
        InstrView::ChannelSend { handle, value } => {
            assert(given(rename_operand(handle, f), small) == given(handle, state));
            assert(given(rename_operand(value, f), small) == given(value, state));
        },
        InstrView::ChannelRecv { handle, .. } => {
            assert(given(rename_operand(handle, f), small) == given(handle, state));
        },
        InstrView::ChannelClose { handle, .. } => {
            assert(given(rename_operand(handle, f), small) == given(handle, state));
        },
        InstrView::ChannelDestroy { handle } => {
            assert(given(rename_operand(handle, f), small) == given(handle, state));
        },
        InstrView::PrintInt { value, .. } => {
            assert(given(rename_operand(value, f), small) == given(value, state));
        },
        InstrView::Exit { code } => {
            assert(given(rename_operand(code, f), small) == given(code, state));
        },
        _ => {},
    }
}

/// Every operand is among what an instruction reads: on slots that agree there, it has the
/// same values.
pub proof fn law_operands_depend_on_what_is_read(instr: InstrView, a: SlotState, b: SlotState)
    requires
        forall|slot: usize| reads(instr, slot) ==> #[trigger] a[slot as int] == b[slot as int],
    ensures
        with_values(instr, a) == with_values(instr, b),
{
    assert forall|operand: RuntimeOperand|
        (operand matches RuntimeOperand::Slot(
            slot,
        ) ==> reads(instr, slot)) implies #[trigger] given(
        operand,
        a,
    ) == given(operand, b) by {
        if let RuntimeOperand::Slot(slot) = operand {
            assert(reads(instr, slot));
            assert(a[slot as int] == b[slot as int]);
        }
    }
    match instr {
        InstrView::LoadSeed { input, .. } => {
            if let Some(operand) = input {
                assert(given(operand, a) == given(operand, b));
            }
        },
        InstrView::Mov { src, .. } => {
            assert(given(src, a) == given(src, b));
        },
        InstrView::BinOp { lhs, rhs, .. } => {
            assert(given(lhs, a) == given(lhs, b));
            assert(given(rhs, a) == given(rhs, b));
        },
        InstrView::BinOpInPlace { rhs, .. } => {
            assert(given(rhs, a) == given(rhs, b));
        },
        InstrView::FloatBinOp { lhs, rhs, .. } => {
            assert(given(lhs, a) == given(lhs, b));
            assert(given(rhs, a) == given(rhs, b));
        },
        InstrView::Cmp { lhs, rhs, .. } => {
            assert(given(lhs, a) == given(lhs, b));
            assert(given(rhs, a) == given(rhs, b));
        },
        InstrView::JumpIfCmpFalse { lhs, rhs, .. } => {
            assert(given(lhs, a) == given(lhs, b));
            assert(given(rhs, a) == given(rhs, b));
        },
        InstrView::LoadIndex { index, .. } => {
            assert(given(index, a) == given(index, b));
        },
        InstrView::LoadIndexUnchecked { index, .. } => {
            assert(given(index, a) == given(index, b));
        },
        InstrView::StoreIndex { index, src, .. } => {
            assert(given(index, a) == given(index, b));
            assert(given(src, a) == given(src, b));
        },
        InstrView::StoreIndexUnchecked { index, src, .. } => {
            assert(given(index, a) == given(index, b));
            assert(given(src, a) == given(src, b));
        },
        InstrView::HeapLoadInt { ptr, index, .. } => {
            assert(given(ptr, a) == given(ptr, b));
            assert(given(index, a) == given(index, b));
        },
        InstrView::HeapStoreInt { ptr, index, src, .. } => {
            assert(given(ptr, a) == given(ptr, b));
            assert(given(index, a) == given(index, b));
            assert(given(src, a) == given(src, b));
        },
        InstrView::HeapCopy { dst_ptr, src_ptr, bytes } => {
            assert(given(dst_ptr, a) == given(dst_ptr, b));
            assert(given(src_ptr, a) == given(src_ptr, b));
            assert(given(bytes, a) == given(bytes, b));
        },
        InstrView::BloomSplitBlockInsert { hash, .. } => {
            assert(given(hash, a) == given(hash, b));
        },
        InstrView::BloomSplitBlockCheck { hash, .. } => {
            assert(given(hash, a) == given(hash, b));
        },
        InstrView::BloomClassic4Check { hash, .. } => {
            assert(given(hash, a) == given(hash, b));
        },
        InstrView::HashCtrlGroupProbe { group_start, fingerprint, .. } => {
            assert(given(group_start, a) == given(group_start, b));
            assert(given(fingerprint, a) == given(fingerprint, b));
        },
        InstrView::JoinSelectAdaptive { build_rows, probe_rows, .. } => {
            assert(given(build_rows, a) == given(build_rows, b));
            assert(given(probe_rows, a) == given(probe_rows, b));
        },
        InstrView::Alloc { size, .. } => {
            assert(given(size, a) == given(size, b));
        },
        InstrView::Free { ptr, size } => {
            assert(given(ptr, a) == given(ptr, b));
            assert(given(size, a) == given(size, b));
        },
        InstrView::FileOpen { path_ptr, .. } => {
            assert(given(path_ptr, a) == given(path_ptr, b));
        },
        InstrView::FileWrite { fd, ptr, len, .. } => {
            assert(given(fd, a) == given(fd, b));
            assert(given(ptr, a) == given(ptr, b));
            assert(given(len, a) == given(len, b));
        },
        InstrView::FileRead { fd, ptr, len, .. } => {
            assert(given(fd, a) == given(fd, b));
            assert(given(ptr, a) == given(ptr, b));
            assert(given(len, a) == given(len, b));
        },
        InstrView::FileClose { fd } => {
            assert(given(fd, a) == given(fd, b));
        },
        InstrView::ThreadJoin { handle, .. } => {
            assert(given(handle, a) == given(handle, b));
        },
        InstrView::ChannelCreate { capacity, .. } => {
            assert(given(capacity, a) == given(capacity, b));
        },
        InstrView::ChannelSend { handle, value } => {
            assert(given(handle, a) == given(handle, b));
            assert(given(value, a) == given(value, b));
        },
        InstrView::ChannelRecv { handle, .. } => {
            assert(given(handle, a) == given(handle, b));
        },
        InstrView::ChannelClose { handle, .. } => {
            assert(given(handle, a) == given(handle, b));
        },
        InstrView::ChannelDestroy { handle } => {
            assert(given(handle, a) == given(handle, b));
        },
        InstrView::PrintInt { value, .. } => {
            assert(given(value, a) == given(value, b));
        },
        InstrView::Exit { code } => {
            assert(given(code, a) == given(code, b));
        },
        _ => {},
    }
}

/// The slots that an instruction goes through beside its operands are among what it reads,
/// and those that it may change among what it writes.
pub proof fn law_slots_that_matter_are_read_and_written(instr: InstrView, slot: usize)
    ensures
        match instr {
            InstrView::RadixSortFixedInt { slots, .. } => slots.contains(slot) ==> reads(
                instr,
                slot,
            ) && writes(instr, slot),
            InstrView::CompareSwap { left, right, .. } => slot == left || slot == right ==> reads(
                instr,
                slot,
            ) && writes(instr, slot),
            InstrView::LoadIndex { dst, base_slots, .. }
            | InstrView::LoadIndexUnchecked { dst, base_slots, .. } => {
                &&& base_slots.contains(slot) ==> reads(instr, slot)
                &&& writes(instr, dst)
            },
            InstrView::StoreIndex { base_slots, .. }
            | InstrView::StoreIndexUnchecked { base_slots, .. } => base_slots.contains(slot)
                ==> writes(instr, slot),
            InstrView::BloomSplitBlockInsert { filter_slots, .. } => filter_slots.contains(slot)
                ==> reads(instr, slot) && writes(instr, slot),
            InstrView::BloomSplitBlockCheck { dst, filter_slots, .. } => {
                &&& filter_slots.contains(slot) ==> reads(instr, slot)
                &&& writes(instr, dst)
            },
            InstrView::BloomClassic4Check { dst, lanes_checked, filter_slots, .. } => {
                &&& filter_slots.contains(slot) ==> reads(instr, slot)
                &&& writes(instr, dst) && writes(instr, lanes_checked)
            },
            InstrView::HashCtrlGroupProbe { dst_mask, ctrl_slots, .. } => {
                &&& ctrl_slots.contains(slot) ==> reads(instr, slot)
                &&& writes(instr, dst_mask)
            },
            InstrView::JumpIfZero { cond_slot, .. } => reads(instr, cond_slot),
            InstrView::NormalizeInt { dst, .. } | InstrView::BinOpInPlace { dst, .. } => reads(
                instr,
                dst,
            ) && writes(instr, dst),
            InstrView::LoadSeed { dst, .. }
            | InstrView::Mov { dst, .. }
            | InstrView::BinOp { dst, .. }
            | InstrView::FloatBinOp { dst, .. }
            | InstrView::Cmp { dst, .. }
            | InstrView::HeapLoadInt { dst, .. }
            | InstrView::JoinSelectAdaptive { dst, .. }
            | InstrView::Alloc { dst, .. }
            | InstrView::FileOpen { dst, .. }
            | InstrView::FileWrite { dst, .. }
            | InstrView::FileRead { dst, .. }
            | InstrView::ThreadJoin { dst, .. }
            | InstrView::ChannelCreate { dst, .. }
            | InstrView::ChannelRecv { dst, .. } => writes(instr, dst),
            InstrView::ThreadSpawn { handle_dst, return_slot, .. } => {
                &&& writes(instr, handle_dst)
                &&& return_slot == Some(slot) ==> reads(instr, slot)
            },
            _ => true,
        },
{
}

} // verus!
