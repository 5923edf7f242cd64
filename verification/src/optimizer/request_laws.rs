//! Instructions that ask something of the machine ask the same once they are
//! rewritten: each operand has the value that it had.

use crate::ir::{InstrView, ProgramView, RuntimeOperand};
use crate::optimizer::copies::{
    alias_count, aliases_hold, copy_instr, invalidated, lemma_renamed_value, Aliases,
};
use crate::optimizer::machine::{
    answer_slot, effect, event, is_request, request, value_of, SlotState,
};
use crate::optimizer::peephole::{
    fold_instr, known_holds, learn, lemma_folded_value, slot_count, FloatFn, KnownSlots,
};
use crate::optimizer::slots::{by_rank, instr_below, rename, rename_operand, slot_is_used};
use crate::optimizer::slots::slots_below;
use crate::optimizer::straight_laws::{is_renumbered, lemma_rank_in_range, lemma_renumbered_update};
use crate::optimizer::unroll::{unrolled_instr, unrolled_operand};
use crate::optimizer::uses::{mentions, reads};
use vstd::prelude::*;

verus! {

/// What is known but for one slot is known.
pub proof fn lemma_less_known(known: KnownSlots, state: SlotState, slot: usize)
    requires
        known_holds(known, state),
        slot < known.len(),
    ensures
        known_holds(learn(known, slot, None), state),
{
}

/// Constant folding keeps requests: with what is known of the slots, a rewritten
/// instruction asks for the same, and the answer goes to the same slot.
pub proof fn law_folded_requests_ask_the_same(
    instr: InstrView,
    known: KnownSlots,
    floats: FloatFn,
    state: SlotState,
)
    requires
        is_request(instr),
        instr_below(instr, slot_count(known)),
        known_holds(known, state),
    ensures
        fold_instr(instr, known, floats).instr matches Some(new) && is_request(new) && request(
            new,
            state,
        ) == request(instr, state) && answer_slot(new) == answer_slot(instr),
{
    match instr {
        InstrView::HeapLoadInt { ptr, index, .. } => {
            lemma_folded_value(ptr, known, state);
            lemma_folded_value(index, known, state);
        },
        InstrView::HeapStoreInt { ptr, index, src, .. } => {
            lemma_folded_value(ptr, known, state);
            lemma_folded_value(index, known, state);
            lemma_folded_value(src, known, state);
        },
        InstrView::HeapCopy { dst_ptr, src_ptr, bytes } => {
            lemma_folded_value(dst_ptr, known, state);
            lemma_folded_value(src_ptr, known, state);
            lemma_folded_value(bytes, known, state);
        },
        InstrView::Alloc { size, .. } => {
            lemma_folded_value(size, known, state);
        },
        InstrView::Free { ptr, size } => {
            lemma_folded_value(ptr, known, state);
            lemma_folded_value(size, known, state);
        },
        InstrView::FileOpen { path_ptr, .. } => {
            lemma_folded_value(path_ptr, known, state);
        },
        InstrView::FileWrite { fd, ptr, len, .. } => {
            lemma_folded_value(fd, known, state);
            lemma_folded_value(ptr, known, state);
            lemma_folded_value(len, known, state);
        },
        InstrView::FileRead { fd, ptr, len, .. } => {
            lemma_folded_value(fd, known, state);
            lemma_folded_value(ptr, known, state);
            lemma_folded_value(len, known, state);
        },
        InstrView::FileClose { fd } => {
            lemma_folded_value(fd, known, state);
        },
        InstrView::ChannelCreate { dst, capacity, .. } => {
            lemma_less_known(known, state, dst);
            lemma_folded_value(capacity, learn(known, dst, None), state);
        },
        InstrView::ChannelSend { handle, value } => {
            lemma_folded_value(handle, known, state);
            lemma_folded_value(value, known, state);
        },
        InstrView::ChannelRecv { dst, handle, .. } => {
            lemma_less_known(known, state, dst);
            lemma_folded_value(handle, learn(known, dst, None), state);
        },
        InstrView::ChannelClose { handle, .. } => {
            lemma_folded_value(handle, known, state);
        },
        InstrView::ChannelDestroy { handle } => {
            lemma_folded_value(handle, known, state);
        },
        _ => {},
    }
}

/// Aliases but for those of a slot hold.
pub proof fn lemma_fewer_aliases(aliases: Aliases, state: SlotState, slot: usize)
    requires
        aliases_hold(aliases, state),
    ensures
        aliases_hold(invalidated(aliases, slot), state),
        alias_count(invalidated(aliases, slot)) == alias_count(aliases),
{
    let fewer = invalidated(aliases, slot);
    assert forall|i: int| 0 <= i < fewer.len() implies ((#[trigger] fewer[i]) matches Some(other)
        ==> aliases[i] == Some(other)) by {}
}

/// Copy propagation keeps requests: where the aliases hold, a rewritten instruction
/// asks for the same, and the answer goes to the same slot.
pub proof fn law_copied_requests_ask_the_same(
    instr: InstrView,
    aliases: Aliases,
    state: SlotState,
)
    requires
        is_request(instr),
        instr_below(instr, alias_count(aliases)),
        aliases_hold(aliases, state),
    ensures
        copy_instr(instr, aliases).instr matches Some(new) && is_request(new) && request(new, state)
            == request(instr, state) && answer_slot(new) == answer_slot(instr),
{
    match instr {
        InstrView::HeapLoadInt { dst, ptr, index, .. } => {
            lemma_fewer_aliases(aliases, state, dst);
            lemma_renamed_value(ptr, invalidated(aliases, dst), state);
            lemma_renamed_value(index, invalidated(aliases, dst), state);
        },
        InstrView::HeapStoreInt { ptr, index, src, .. } => {
            lemma_renamed_value(ptr, aliases, state);
            lemma_renamed_value(index, aliases, state);
            lemma_renamed_value(src, aliases, state);
        },
        InstrView::HeapCopy { dst_ptr, src_ptr, bytes } => {
            lemma_renamed_value(dst_ptr, aliases, state);
            lemma_renamed_value(src_ptr, aliases, state);
            lemma_renamed_value(bytes, aliases, state);
        },
        InstrView::Alloc { dst, size, .. } => {
            lemma_fewer_aliases(aliases, state, dst);
            lemma_renamed_value(size, invalidated(aliases, dst), state);
        },
        InstrView::Free { ptr, size } => {
            lemma_renamed_value(ptr, aliases, state);
            lemma_renamed_value(size, aliases, state);
        },
        InstrView::FileOpen { dst, path_ptr, .. } => {
            lemma_fewer_aliases(aliases, state, dst);
            lemma_renamed_value(path_ptr, invalidated(aliases, dst), state);
        },
        InstrView::FileWrite { dst, fd, ptr, len, .. } => {
            lemma_fewer_aliases(aliases, state, dst);
            lemma_renamed_value(fd, invalidated(aliases, dst), state);
            lemma_renamed_value(ptr, invalidated(aliases, dst), state);
            lemma_renamed_value(len, invalidated(aliases, dst), state);
        },
        InstrView::FileRead { dst, fd, ptr, len, .. } => {
            lemma_fewer_aliases(aliases, state, dst);
            lemma_renamed_value(fd, invalidated(aliases, dst), state);
            lemma_renamed_value(ptr, invalidated(aliases, dst), state);
            lemma_renamed_value(len, invalidated(aliases, dst), state);
        },
        InstrView::FileClose { fd } => {
            lemma_renamed_value(fd, aliases, state);
        },
        InstrView::ChannelCreate { dst, capacity, .. } => {
            lemma_fewer_aliases(aliases, state, dst);
            lemma_renamed_value(capacity, invalidated(aliases, dst), state);
        },
        InstrView::ChannelSend { handle, value } => {
            lemma_renamed_value(handle, aliases, state);
            lemma_renamed_value(value, aliases, state);
        },
        InstrView::ChannelRecv { dst, handle, .. } => {
            lemma_fewer_aliases(aliases, state, dst);
            lemma_renamed_value(handle, invalidated(aliases, dst), state);
        },
        InstrView::ChannelClose { handle, .. } => {
            lemma_renamed_value(handle, aliases, state);
        },
        InstrView::ChannelDestroy { handle } => {
            lemma_renamed_value(handle, aliases, state);
        },
        _ => {},
    }
}

/// Unrolling keeps requests: while the induction slot holds the constant, an unrolled
/// instruction asks for the same, and the answer goes to the same slot.
pub proof fn law_unrolled_requests_ask_the_same(
    instr: InstrView,
    slot: usize,
    value: u64,
    state: SlotState,
)
    requires
        is_request(instr),
        slot < state.len(),
        state[slot as int] == value,
    ensures
        is_request(unrolled_instr(instr, slot, value)),
        request(unrolled_instr(instr, slot, value), state) == request(instr, state),
        answer_slot(unrolled_instr(instr, slot, value)) == answer_slot(instr),
{
    assert forall|operand: RuntimeOperand| #[trigger]
        value_of(unrolled_operand(operand, slot, value), state) == value_of(operand, state) by {}
}

/// On slots that agree where it reads, an instruction asks for the same.
pub proof fn law_requests_depend_on_what_is_read(instr: InstrView, a: SlotState, b: SlotState)
    requires
        is_request(instr),
        forall|slot: usize| reads(instr, slot) ==> #[trigger] a[slot as int] == b[slot as int],
    ensures
        request(instr, a) == request(instr, b),
{
    assert forall|operand: RuntimeOperand|
        (operand matches RuntimeOperand::Slot(
            slot,
        ) ==> reads(instr, slot)) implies #[trigger] value_of(
        operand,
        a,
    ) == value_of(operand, b) by {
        if let RuntimeOperand::Slot(slot) = operand {
            assert(reads(instr, slot));
            assert(a[slot as int] == b[slot as int]);
        }
    }
    match instr {
        InstrView::LoadSeed { input, .. } => {
            if let Some(operand) = input {
                assert(value_of(operand, a) == value_of(operand, b));
            }
        },
        InstrView::HeapLoadInt { ptr, index, .. } => {
            assert(value_of(ptr, a) == value_of(ptr, b));
            assert(value_of(index, a) == value_of(index, b));
        },
        InstrView::HeapStoreInt { ptr, index, src, .. } => {
            assert(value_of(ptr, a) == value_of(ptr, b));
            assert(value_of(index, a) == value_of(index, b));
            assert(value_of(src, a) == value_of(src, b));
        },
        InstrView::HeapCopy { dst_ptr, src_ptr, bytes } => {
            assert(value_of(dst_ptr, a) == value_of(dst_ptr, b));
            assert(value_of(src_ptr, a) == value_of(src_ptr, b));
            assert(value_of(bytes, a) == value_of(bytes, b));
        },
        InstrView::Alloc { size, .. } => {
            assert(value_of(size, a) == value_of(size, b));
        },
        InstrView::Free { ptr, size } => {
            assert(value_of(ptr, a) == value_of(ptr, b));
            assert(value_of(size, a) == value_of(size, b));
        },
        InstrView::FileOpen { path_ptr, .. } => {
            assert(value_of(path_ptr, a) == value_of(path_ptr, b));
        },
        InstrView::FileWrite { fd, ptr, len, .. } => {
            assert(value_of(fd, a) == value_of(fd, b));
            assert(value_of(ptr, a) == value_of(ptr, b));
            assert(value_of(len, a) == value_of(len, b));
        },
        InstrView::FileRead { fd, ptr, len, .. } => {
            assert(value_of(fd, a) == value_of(fd, b));
            assert(value_of(ptr, a) == value_of(ptr, b));
            assert(value_of(len, a) == value_of(len, b));
        },
        InstrView::FileClose { fd } => {
            assert(value_of(fd, a) == value_of(fd, b));
        },
        InstrView::ChannelCreate { capacity, .. } => {
            assert(value_of(capacity, a) == value_of(capacity, b));
        },
        InstrView::ChannelSend { handle, value } => {
            assert(value_of(handle, a) == value_of(handle, b));
            assert(value_of(value, a) == value_of(value, b));
        },
        InstrView::ChannelRecv { handle, .. } => {
            assert(value_of(handle, a) == value_of(handle, b));
        },
        InstrView::ChannelClose { handle, .. } => {
            assert(value_of(handle, a) == value_of(handle, b));
        },
        InstrView::ChannelDestroy { handle } => {
            assert(value_of(handle, a) == value_of(handle, b));
        },
        _ => {},
    }
}

/// Slot compaction keeps requests: on slots that hold the same under their new numbers
/// a renumbered instruction asks for the same, and slots hold the same under their new
/// numbers once the answer is in.
pub proof fn law_renumbered_requests_ask_the_same(
    program: ProgramView,
    i: int,
    state: SlotState,
    small: SlotState,
    answer: u64,
)
    requires
        slots_below(program.instrs, program.slots as int),
        is_renumbered(program, state, small),
        0 <= i < program.instrs.len(),
        is_request(program.instrs[i]),
    ensures
        ({
            let instr = program.instrs[i];
            let new = rename(instr, by_rank(program.instrs));
            &&& is_request(new)
            &&& request(new, small) == request(instr, state)
            &&& event(new, small) == event(instr, state)
            &&& is_renumbered(
                program,
                effect(instr, state, answer)->0,
                effect(new, small, answer)->0,
            )
        }),
{
    let instr = program.instrs[i];
    let f = by_rank(program.instrs);
    assert forall|slot: usize| #[trigger] mentions(instr, slot) implies slot_is_used(
        program.instrs,
        slot,
    ) by {}
    assert forall|operand: RuntimeOperand|
        (operand matches RuntimeOperand::Slot(slot) ==> mentions(instr, slot)) implies
        #[trigger] value_of(rename_operand(operand, f), small) == value_of(operand, state) by {
        if let RuntimeOperand::Slot(slot) = operand {
            assert(slot_is_used(program.instrs, slot));
        }
    }
    if let Some(dst) = answer_slot(instr) {
        assert(mentions(instr, dst));
        lemma_rank_in_range(program, dst);
        lemma_renumbered_update(program, state, small, dst, answer);
    }
    match instr {
        InstrView::LoadSeed { input, .. } => {
            if let Some(operand) = input {
                assert(value_of(rename_operand(operand, f), small) == value_of(operand, state));
            }
        },
        InstrView::HeapLoadInt { ptr, index, .. } => {
            assert(value_of(rename_operand(ptr, f), small) == value_of(ptr, state));
            assert(value_of(rename_operand(index, f), small) == value_of(index, state));
        },
        InstrView::HeapStoreInt { ptr, index, src, .. } => {
            assert(value_of(rename_operand(ptr, f), small) == value_of(ptr, state));
            assert(value_of(rename_operand(index, f), small) == value_of(index, state));
            assert(value_of(rename_operand(src, f), small) == value_of(src, state));
        },
        InstrView::HeapCopy { dst_ptr, src_ptr, bytes } => {
            assert(value_of(rename_operand(dst_ptr, f), small) == value_of(dst_ptr, state));
            assert(value_of(rename_operand(src_ptr, f), small) == value_of(src_ptr, state));
            assert(value_of(rename_operand(bytes, f), small) == value_of(bytes, state));
        },
        InstrView::Alloc { size, .. } => {
            assert(value_of(rename_operand(size, f), small) == value_of(size, state));
        },
        InstrView::Free { ptr, size } => {
            assert(value_of(rename_operand(ptr, f), small) == value_of(ptr, state));
            assert(value_of(rename_operand(size, f), small) == value_of(size, state));
        },
        InstrView::FileOpen { path_ptr, .. } => {
            assert(value_of(rename_operand(path_ptr, f), small) == value_of(path_ptr, state));
        },
        InstrView::FileWrite { fd, ptr, len, .. } => {
            assert(value_of(rename_operand(fd, f), small) == value_of(fd, state));
            assert(value_of(rename_operand(ptr, f), small) == value_of(ptr, state));
            assert(value_of(rename_operand(len, f), small) == value_of(len, state));
        },
        InstrView::FileRead { fd, ptr, len, .. } => {
            assert(value_of(rename_operand(fd, f), small) == value_of(fd, state));
            assert(value_of(rename_operand(ptr, f), small) == value_of(ptr, state));
            assert(value_of(rename_operand(len, f), small) == value_of(len, state));
        },
        InstrView::FileClose { fd } => {
            assert(value_of(rename_operand(fd, f), small) == value_of(fd, state));
        },
        InstrView::ChannelCreate { capacity, .. } => {
            assert(value_of(rename_operand(capacity, f), small) == value_of(capacity, state));
        },
        InstrView::ChannelSend { handle, value } => {
            assert(value_of(rename_operand(handle, f), small) == value_of(handle, state));
            assert(value_of(rename_operand(value, f), small) == value_of(value, state));
        },
        InstrView::ChannelRecv { handle, .. } => {
            assert(value_of(rename_operand(handle, f), small) == value_of(handle, state));
        },
        InstrView::ChannelClose { handle, .. } => {
            assert(value_of(rename_operand(handle, f), small) == value_of(handle, state));
        },
        InstrView::ChannelDestroy { handle } => {
            assert(value_of(rename_operand(handle, f), small) == value_of(handle, state));
        },
        _ => {},
    }
}

} // verus!
