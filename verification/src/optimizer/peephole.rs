//! Constant propagation along straight-line code.

use crate::ir::{
    copy_slots, instrs_view, optional_view, InstrView, RuntimeFloatBinOp, RuntimeInstr,
    RuntimeOperand,
};
use crate::optimizer::consts::{
    binop_value, comparison_value, eval_runtime_binop, eval_runtime_comparison, fold_binop_identity,
    fold_binop_in_place_is_nop, identity_operand, in_place_is_nop,
    law_dropped_operation_changes_nothing, law_identity_preserves_value, normalize_const_int,
    normalized,
};
use crate::optimizer::machine::{
    event, events, is_slot_arithmetic, is_straight, lemma_run_push, run, step, value_of, SlotState,
};
use crate::optimizer::slots::{
    instr_below, lemma_contains_prefix, list_below, operand_below, slots_below,
};
use crate::optimizer::targets::{
    clamped_lookup, control_flow_entries, enters, is_entered, map_branch_target, map_branch_targets,
    remap_branches,
};
use vstd::prelude::*;

verus! {

/// The known value of each slot, where one is known.
pub type KnownSlots = Seq<Option<u64>>;

/// A function on the bit patterns of floating-point numbers: width, operation,
/// operands.
pub type FloatFn = spec_fn(u16, RuntimeFloatBinOp, u64, u64) -> Option<u64>;

/// A routine that may be called on any floating-point operation and whose
/// result depends on nothing but its arguments.
pub open spec fn is_float_unit<F: Fn(u16, RuntimeFloatBinOp, u64, u64) -> Option<u64>>(
    unit: F,
) -> bool {
    &&& forall|bits: u16, op: RuntimeFloatBinOp, lhs: u64, rhs: u64|
        call_requires(unit, (bits, op, lhs, rhs))
    &&& forall|bits: u16, op: RuntimeFloatBinOp, lhs: u64, rhs: u64, a: Option<u64>, b: Option<u64>|
        call_ensures(unit, (bits, op, lhs, rhs), a) && call_ensures(unit, (bits, op, lhs, rhs), b)
            ==> a == b
}

/// The function that such a routine computes.
pub open spec fn float_fn<F: Fn(u16, RuntimeFloatBinOp, u64, u64) -> Option<u64>>(
    unit: F,
) -> FloatFn {
    |bits: u16, op: RuntimeFloatBinOp, lhs: u64, rhs: u64|
        choose|value: Option<u64>| call_ensures(unit, (bits, op, lhs, rhs), value)
}

/// The value of an operand, where it is known.
pub open spec fn known_value(operand: RuntimeOperand, known: KnownSlots) -> Option<u64> {
    match operand {
        RuntimeOperand::Imm(value) => Some(value),
        RuntimeOperand::Slot(slot) => if slot < known.len() {
            known[slot as int]
        } else {
            None
        },
    }
}

/// The operand with a slot of known value replaced by that value.
pub open spec fn folded(operand: RuntimeOperand, known: KnownSlots) -> RuntimeOperand {
    match known_value(operand, known) {
        Some(value) => RuntimeOperand::Imm(value),
        None => operand,
    }
}

/// What is known after a slot has been set.
pub open spec fn learn(known: KnownSlots, slot: usize, value: Option<u64>) -> KnownSlots {
    known.update(slot as int, value)
}

/// What is known after every slot of a list has been set to something unknown.
pub open spec fn forget_list(known: KnownSlots, slots: Seq<usize>) -> KnownSlots {
    Seq::new(
        known.len(),
        |i: int|
            if slots.contains(i as usize) {
                None
            } else {
                known[i]
            },
    )
}

/// Nothing is known.
pub open spec fn nothing_known(slots: nat) -> KnownSlots {
    Seq::new(slots, |i: int| None)
}

/// An instruction rewritten, or dropped, and what is known after it.
pub struct Fold {
    pub instr: Option<InstrView>,
    pub known: KnownSlots,
}

/// A move of a constant, after which the constant is known.
pub open spec fn constant_move(dst: usize, value: u64, known: KnownSlots) -> Fold {
    Fold {
        instr: Some(InstrView::Mov { dst, src: RuntimeOperand::Imm(value) }),
        known: learn(known, dst, Some(value)),
    }
}

/// The slot of an array that a constant index selects.
pub open spec fn selected_slot(
    base_slots: Seq<usize>,
    index: RuntimeOperand,
    known: KnownSlots,
) -> Option<usize> {
    match known_value(index, known) {
        Some(i) => if i < base_slots.len() {
            Some(base_slots[i as int])
        } else {
            None
        },
        None => None,
    }
}

/// The instruction folded with what is known before it, and what is known
/// after it.
pub open spec fn fold_instr(instr: InstrView, known: KnownSlots, floats: FloatFn) -> Fold {
    let nothing = nothing_known(known.len());
    match instr {
        InstrView::LoadSeed { dst, .. } => Fold {
            instr: Some(instr),
            known: learn(known, dst, None),
        },
        InstrView::Mov { dst, src } => if folded(src, known) == RuntimeOperand::Slot(dst) {
            Fold { instr: None, known }
        } else {
            Fold {
                instr: Some(InstrView::Mov { dst, src: folded(src, known) }),
                known: learn(known, dst, known_value(src, known)),
            }
        },
        InstrView::BinOp { dst, op, lhs, rhs } => {
            let l = folded(lhs, known);
            let r = folded(rhs, known);
            let value = match (known_value(lhs, known), known_value(rhs, known)) {
                (Some(a), Some(b)) => binop_value(op, a, b),
                _ => None,
            };
            match (value, identity_operand(op, l, r)) {
                (Some(value), _) => constant_move(dst, value, known),
                (None, Some(same)) => Fold {
                    instr: Some(InstrView::Mov { dst, src: same }),
                    known: learn(known, dst, known_value(same, known)),
                },
                (None, None) => Fold {
                    instr: Some(InstrView::BinOp { dst, op, lhs: l, rhs: r }),
                    known: learn(known, dst, None),
                },
            }
        },
        InstrView::BinOpInPlace { dst, op, rhs } => {
            let r = folded(rhs, known);
            let value = match (known[dst as int], known_value(rhs, known)) {
                (Some(a), Some(b)) => binop_value(op, a, b),
                _ => None,
            };
            if in_place_is_nop(op, r) {
                Fold { instr: None, known }
            } else {
                match value {
                    Some(value) => constant_move(dst, value, known),
                    None => Fold {
                        instr: Some(InstrView::BinOpInPlace { dst, op, rhs: r }),
                        known: learn(known, dst, None),
                    },
                }
            }
        },
        InstrView::FloatBinOp { dst, bits, op, lhs, rhs } => {
            let value = match (known_value(lhs, known), known_value(rhs, known)) {
                (Some(a), Some(b)) => floats(bits, op, a, b),
                _ => None,
            };
            match value {
                Some(value) => constant_move(dst, value, known),
                None => Fold {
                    instr: Some(
                        InstrView::FloatBinOp {
                            dst,
                            bits,
                            op,
                            lhs: folded(lhs, known),
                            rhs: folded(rhs, known),
                        },
                    ),
                    known: learn(known, dst, None),
                },
            }
        },
        InstrView::Cmp { dst, op, lhs, rhs } => {
            match (known_value(lhs, known), known_value(rhs, known)) {
                (Some(a), Some(b)) => constant_move(dst, comparison_value(op, a, b), known),
                _ => Fold {
                    instr: Some(
                        InstrView::Cmp {
                            dst,
                            op,
                            lhs: folded(lhs, known),
                            rhs: folded(rhs, known),
                        },
                    ),
                    known: learn(known, dst, None),
                },
            }
        },
        InstrView::NormalizeInt { dst, signed, bits } => if bits >= 64 {
            Fold { instr: None, known }
        } else {
            match known[dst as int] {
                Some(value) => constant_move(dst, normalized(value, signed, bits), known),
                None => Fold { instr: Some(instr), known },
            }
        },
        InstrView::LoadIndex { dst, base_slots, index } => {
            match selected_slot(base_slots, index, known) {
                Some(slot) => Fold {
                    instr: Some(InstrView::Mov { dst, src: RuntimeOperand::Slot(slot) }),
                    known: learn(known, dst, known[slot as int]),
                },
                None => Fold {
                    instr: Some(
                        InstrView::LoadIndex { dst, base_slots, index: folded(index, known) },
                    ),
                    known: learn(known, dst, None),
                },
            }
        },
        InstrView::LoadIndexUnchecked { dst, base_slots, index } => {
            match selected_slot(base_slots, index, known) {
                Some(slot) => Fold {
                    instr: Some(InstrView::Mov { dst, src: RuntimeOperand::Slot(slot) }),
                    known: learn(known, dst, known[slot as int]),
                },
                None => Fold {
                    instr: Some(
                        InstrView::LoadIndexUnchecked {
                            dst,
                            base_slots,
                            index: folded(index, known),
                        },
                    ),
                    known: learn(known, dst, None),
                },
            }
        },
        InstrView::StoreIndex { base_slots, index, src } => {
            match selected_slot(base_slots, index, known) {
                Some(slot) => Fold {
                    instr: Some(InstrView::Mov { dst: slot, src: folded(src, known) }),
                    known: learn(known, slot, known_value(src, known)),
                },
                None => Fold {
                    instr: Some(
                        InstrView::StoreIndex {
                            base_slots,
                            index: folded(index, known),
                            src: folded(src, known),
                        },
                    ),
                    known: forget_list(known, base_slots),
                },
            }
        },
        InstrView::StoreIndexUnchecked { base_slots, index, src } => {
            match selected_slot(base_slots, index, known) {
                Some(slot) => Fold {
                    instr: Some(InstrView::Mov { dst: slot, src: folded(src, known) }),
                    known: learn(known, slot, known_value(src, known)),
                },
                None => Fold {
                    instr: Some(
                        InstrView::StoreIndexUnchecked {
                            base_slots,
                            index: folded(index, known),
                            src: folded(src, known),
                        },
                    ),
                    known: forget_list(known, base_slots),
                },
            }
        },
        InstrView::BloomSplitBlockInsert { filter_slots, hash } => Fold {
            instr: Some(
                InstrView::BloomSplitBlockInsert { filter_slots, hash: folded(hash, known) },
            ),
            known: forget_list(known, filter_slots),
        },
        InstrView::BloomSplitBlockCheck { dst, filter_slots, hash } => Fold {
            instr: Some(
                InstrView::BloomSplitBlockCheck { dst, filter_slots, hash: folded(hash, known) },
            ),
            known: learn(forget_list(known, filter_slots), dst, None),
        },
        InstrView::BloomClassic4Check { dst, lanes_checked, filter_slots, hash } => Fold {
            instr: Some(
                InstrView::BloomClassic4Check {
                    dst,
                    lanes_checked,
                    filter_slots,
                    hash: folded(hash, known),
                },
            ),
            known: learn(
                learn(forget_list(known, filter_slots), dst, None),
                lanes_checked,
                None,
            ),
        },
        InstrView::HashCtrlGroupProbe { dst_mask, ctrl_slots, group_start, fingerprint } => Fold {
            instr: Some(
                InstrView::HashCtrlGroupProbe {
                    dst_mask,
                    ctrl_slots,
                    group_start: folded(group_start, known),
                    fingerprint: folded(fingerprint, known),
                },
            ),
            known: learn(forget_list(known, ctrl_slots), dst_mask, None),
        },
        InstrView::JoinSelectAdaptive { dst, build_rows, probe_rows } => {
            match (known_value(build_rows, known), known_value(probe_rows, known)) {
                (Some(build), Some(probe)) => constant_move(
                    dst,
                    adaptive_join(build, probe),
                    known,
                ),
                _ => Fold {
                    instr: Some(
                        InstrView::JoinSelectAdaptive {
                            dst,
                            build_rows: folded(build_rows, known),
                            probe_rows: folded(probe_rows, known),
                        },
                    ),
                    known: learn(known, dst, None),
                },
            }
        },
        InstrView::HeapLoadInt { dst, ptr, index, bytes } => Fold {
            instr: Some(
                InstrView::HeapLoadInt {
                    dst,
                    ptr: folded(ptr, known),
                    index: folded(index, known),
                    bytes,
                },
            ),
            known: learn(known, dst, None),
        },
        InstrView::HeapStoreInt { ptr, index, src, bytes } => Fold {
            instr: Some(
                InstrView::HeapStoreInt {
                    ptr: folded(ptr, known),
                    index: folded(index, known),
                    src: folded(src, known),
                    bytes,
                },
            ),
            known,
        },
        InstrView::HeapCopy { dst_ptr, src_ptr, bytes } => Fold {
            instr: Some(
                InstrView::HeapCopy {
                    dst_ptr: folded(dst_ptr, known),
                    src_ptr: folded(src_ptr, known),
                    bytes: folded(bytes, known),
                },
            ),
            known,
        },
        InstrView::Alloc { dst, size } => Fold {
            instr: Some(InstrView::Alloc { dst, size: folded(size, known) }),
            known: nothing,
        },
        InstrView::Free { ptr, size } => Fold {
            instr: Some(InstrView::Free { ptr: folded(ptr, known), size: folded(size, known) }),
            known: nothing,
        },
        InstrView::FileOpen { dst, path_ptr, flags, mode } => Fold {
            instr: Some(
                InstrView::FileOpen { dst, path_ptr: folded(path_ptr, known), flags, mode },
            ),
            known: nothing,
        },
        InstrView::FileWrite { dst, fd, ptr, len } => Fold {
            instr: Some(
                InstrView::FileWrite {
                    dst,
                    fd: folded(fd, known),
                    ptr: folded(ptr, known),
                    len: folded(len, known),
                },
            ),
            known: nothing,
        },
        InstrView::FileRead { dst, fd, ptr, len } => Fold {
            instr: Some(
                InstrView::FileRead {
                    dst,
                    fd: folded(fd, known),
                    ptr: folded(ptr, known),
                    len: folded(len, known),
                },
            ),
            known: nothing,
        },
        InstrView::FileClose { fd } => Fold {
            instr: Some(InstrView::FileClose { fd: folded(fd, known) }),
            known: nothing,
        },
        InstrView::PrintConst { .. } => Fold { instr: Some(instr), known },
        InstrView::PrintInt { value, signed, bits } => Fold {
            instr: Some(InstrView::PrintInt { value: folded(value, known), signed, bits }),
            known,
        },
        InstrView::CompareSwap { left, right, .. } => Fold {
            instr: Some(instr),
            known: learn(learn(known, left, None), right, None),
        },
        InstrView::RadixSortFixedInt { slots, .. } => Fold {
            instr: Some(instr),
            known: forget_list(known, slots),
        },
        InstrView::Jump { .. }
        | InstrView::JumpIfZero { .. }
        | InstrView::JumpIfCmpFalse { .. }
        | InstrView::Call { .. }
        | InstrView::ThreadSpawn { .. }
        | InstrView::Return => Fold { instr: Some(instr), known: nothing },
        InstrView::ThreadJoin { dst, handle } => {
            let after = learn(known, dst, None);
            Fold {
                instr: Some(InstrView::ThreadJoin { dst, handle: folded(handle, after) }),
                known: after,
            }
        },
        InstrView::ChannelCreate { dst, capacity, unbounded } => {
            let after = learn(known, dst, None);
            Fold {
                instr: Some(
                    InstrView::ChannelCreate { dst, capacity: folded(capacity, after), unbounded },
                ),
                known: after,
            }
        },
        InstrView::ChannelSend { handle, value } => Fold {
            instr: Some(
                InstrView::ChannelSend {
                    handle: folded(handle, known),
                    value: folded(value, known),
                },
            ),
            known,
        },
        InstrView::ChannelRecv { dst, handle } => {
            let after = learn(known, dst, None);
            Fold {
                instr: Some(InstrView::ChannelRecv { dst, handle: folded(handle, after) }),
                known: after,
            }
        },
        InstrView::ChannelClose { handle, sender } => Fold {
            instr: Some(InstrView::ChannelClose { handle: folded(handle, known), sender }),
            known,
        },
        InstrView::ChannelDestroy { handle } => Fold {
            instr: Some(InstrView::ChannelDestroy { handle: folded(handle, known) }),
            known,
        },
        InstrView::Exit { code } => Fold {
            instr: Some(InstrView::Exit { code: folded(code, known) }),
            known: nothing,
        },
    }
}

/// Whether a join of these sizes takes the adaptive path.
pub open spec fn adaptive_join(build_rows: u64, probe_rows: u64) -> u64 {
    if build_rows >= 128 && probe_rows >= 200_000 {
        1
    } else {
        0
    }
}

/// The value of an operand, where it is known.
pub fn operand_const_value(operand: &RuntimeOperand, const_slots: &Vec<Option<u64>>) -> (value:
    Option<u64>)
    ensures
        value == known_value(*operand, const_slots@),
{
    match operand {
        RuntimeOperand::Imm(value) => Some(*value),
        RuntimeOperand::Slot(slot) => {
            if *slot < const_slots.len() {
                const_slots[*slot]
            } else {
                None
            }
        },
    }
}

/// The operand with a slot of known value replaced by that value.
pub fn fold_operand_const(operand: &RuntimeOperand, const_slots: &Vec<Option<u64>>) -> (result:
    RuntimeOperand)
    ensures
        result == folded(*operand, const_slots@),
{
    match operand_const_value(operand, const_slots) {
        Some(value) => RuntimeOperand::Imm(value),
        None => *operand,
    }
}

/// Forgets every slot.
pub fn clear_const_slots(const_slots: &mut Vec<Option<u64>>)
    ensures
        final(const_slots)@ == nothing_known(old(const_slots)@.len()),
{
    let count: usize = const_slots.len();
    for i in 0..count
        invariant
            count == const_slots@.len(),
            forall|j: int| 0 <= j < i ==> const_slots@[j] is None,
    {
        const_slots.set(i, None);
    }
    assert(const_slots@ =~= nothing_known(count as nat));
}

/// Forgets the slots of a list.
fn forget_slots(const_slots: &mut Vec<Option<u64>>, slots: &Vec<usize>)
    requires
        list_below(slots@, old(const_slots)@.len() as int),
    ensures
        final(const_slots)@ == forget_list(old(const_slots)@, slots@),
{
    let ghost start = const_slots@;
    let count: usize = const_slots.len();
    for i in 0..slots.len()
        invariant
            const_slots@.len() == start.len(),
            start.len() == count,
            list_below(slots@, start.len() as int),
            forall|j: int|
                0 <= j < start.len() ==> #[trigger] const_slots@[j] == if slots@.take(
                    i as int,
                ).contains(j as usize) {
                    None
                } else {
                    start[j]
                },
    {
        let ghost before = const_slots@;
        assert(slots@[i as int] < start.len());
        const_slots.set(slots[i], None);
        proof {
            assert forall|j: int| 0 <= j < start.len() implies #[trigger] const_slots@[j]
                == if slots@.take(i + 1).contains(j as usize) {
                None
            } else {
                start[j]
            } by {
                assert(before[j] == if slots@.take(i as int).contains(j as usize) {
                    None
                } else {
                    start[j]
                });
                lemma_contains_prefix(slots@, i as int, j as usize);
            }
        }
    }
    assert(slots@.take(slots@.len() as int) =~= slots@);
    assert(const_slots@ =~= forget_list(start, slots@));
}

/// The slot of an array that a constant index selects.
fn select_slot(
    base_slots: &Vec<usize>,
    index: &RuntimeOperand,
    const_slots: &Vec<Option<u64>>,
) -> (slot: Option<usize>)
    ensures
        slot == selected_slot(base_slots@, *index, const_slots@),
{
    match operand_const_value(index, const_slots) {
        Some(i) => {
            if i < base_slots.len() as u64 {
                Some(base_slots[i as usize])
            } else {
                None
            }
        },
        None => None,
    }
}

/// Calls the floating-point routine.
fn eval_runtime_float_binop<F: Fn(u16, RuntimeFloatBinOp, u64, u64) -> Option<u64>>(
    eval_float: &F,
    bits: u16,
    op: RuntimeFloatBinOp,
    lhs: u64,
    rhs: u64,
) -> (value: Option<u64>)
    requires
        is_float_unit(*eval_float),
    ensures
        value == float_fn(*eval_float)(bits, op, lhs, rhs),
{
    eval_float(bits, op, lhs, rhs)
}

/// Folding an instruction sets no slot from `bound` on, and looks up none of an
/// array there. Slots that it only reads may be anywhere: nothing is known of
/// one that does not exist.
pub open spec fn fold_room(instr: InstrView, bound: int) -> bool {
    match instr {
        InstrView::Mov { dst, src } => src == RuntimeOperand::Slot(dst) || dst < bound,
        InstrView::BinOpInPlace { dst, op, rhs } => in_place_is_nop(op, rhs) || dst < bound,
        InstrView::NormalizeInt { dst, bits, .. } => bits >= 64 || dst < bound,
        InstrView::LoadSeed { dst, .. }
        | InstrView::BinOp { dst, .. }
        | InstrView::FloatBinOp { dst, .. }
        | InstrView::Cmp { dst, .. }
        | InstrView::HeapLoadInt { dst, .. }
        | InstrView::JoinSelectAdaptive { dst, .. }
        | InstrView::Alloc { dst, .. }
        | InstrView::FileOpen { dst, .. }
        | InstrView::FileWrite { dst, .. }
        | InstrView::FileRead { dst, .. }
        | InstrView::ThreadJoin { dst, .. }
        | InstrView::ChannelRecv { dst, .. }
        | InstrView::ChannelCreate { dst, .. } => dst < bound,
        InstrView::CompareSwap { left, right, .. } => left < bound && right < bound,
        InstrView::RadixSortFixedInt { slots, .. } => list_below(slots, bound),
        InstrView::LoadIndex { dst, base_slots, .. }
        | InstrView::LoadIndexUnchecked { dst, base_slots, .. } => {
            dst < bound && list_below(base_slots, bound)
        },
        InstrView::StoreIndex { base_slots, .. }
        | InstrView::StoreIndexUnchecked { base_slots, .. } => list_below(base_slots, bound),
        InstrView::BloomSplitBlockInsert { filter_slots, .. } => list_below(filter_slots, bound),
        InstrView::BloomSplitBlockCheck { dst, filter_slots, .. } => {
            dst < bound && list_below(filter_slots, bound)
        },
        InstrView::BloomClassic4Check { dst, lanes_checked, filter_slots, .. } => {
            dst < bound && lanes_checked < bound && list_below(filter_slots, bound)
        },
        InstrView::HashCtrlGroupProbe { dst_mask, ctrl_slots, .. } => {
            dst_mask < bound && list_below(ctrl_slots, bound)
        },
        _ => true,
    }
}

/// There is room to fold each of the instructions.
pub open spec fn folds_in_room(instrs: Seq<InstrView>, bound: int) -> bool {
    forall|i: int| 0 <= i < instrs.len() ==> fold_room(#[trigger] instrs[i], bound)
}

/// Folds one instruction with what is known before it and updates what is
/// known. Conditional jumps keep their operands: this pass follows the code in
/// a line and knows nothing of back edges.
#[verifier::rlimit(60)]
#[verifier::spinoff_prover]
pub fn fold_runtime_instr<F: Fn(u16, RuntimeFloatBinOp, u64, u64) -> Option<u64>>(
    instr: &RuntimeInstr,
    const_slots: &mut Vec<Option<u64>>,
    eval_float: &F,
) -> (rewritten: Option<RuntimeInstr>)
    requires
        is_float_unit(*eval_float),
        fold_room(instr@, slot_count(old(const_slots)@)),
    ensures
        ({
            let fold = fold_instr(instr@, old(const_slots)@, float_fn(*eval_float));
            &&& optional_view(rewritten) == fold.instr
            &&& final(const_slots)@ == fold.known
        }),
{
    match instr {
        RuntimeInstr::LoadSeed { dst, .. } => {
            const_slots.set(*dst, None);
            Some(instr.clone())
        },
        RuntimeInstr::Mov { dst, src } => {
            let value = operand_const_value(src, const_slots);
            let src = fold_operand_const(src, const_slots);
            if src == RuntimeOperand::Slot(*dst) {
                return None;
            }
            const_slots.set(*dst, value);
            Some(RuntimeInstr::Mov { dst: *dst, src })
        },
        RuntimeInstr::BinOp { dst, op, lhs, rhs } => {
            let left = operand_const_value(lhs, const_slots);
            let right = operand_const_value(rhs, const_slots);
            let lhs = fold_operand_const(lhs, const_slots);
            let rhs = fold_operand_const(rhs, const_slots);
            if let (Some(l), Some(r)) = (left, right) {
                if let Some(value) = eval_runtime_binop(*op, l, r) {
                    const_slots.set(*dst, Some(value));
                    return Some(RuntimeInstr::Mov { dst: *dst, src: RuntimeOperand::Imm(value) });
                }
            }
            if let Some(identity) = fold_binop_identity(*op, &lhs, &rhs) {
                let value = operand_const_value(&identity, const_slots);
                const_slots.set(*dst, value);
                return Some(RuntimeInstr::Mov { dst: *dst, src: identity });
            }
            const_slots.set(*dst, None);
            Some(RuntimeInstr::BinOp { dst: *dst, op: *op, lhs, rhs })
        },
        RuntimeInstr::BinOpInPlace { dst, op, rhs } => {
            let right = operand_const_value(rhs, const_slots);
            let rhs = fold_operand_const(rhs, const_slots);
            if fold_binop_in_place_is_nop(*op, &rhs) {
                return None;
            }
            if let (Some(l), Some(r)) = (const_slots[*dst], right) {
                if let Some(value) = eval_runtime_binop(*op, l, r) {
                    const_slots.set(*dst, Some(value));
                    return Some(RuntimeInstr::Mov { dst: *dst, src: RuntimeOperand::Imm(value) });
                }
            }
            const_slots.set(*dst, None);
            Some(RuntimeInstr::BinOpInPlace { dst: *dst, op: *op, rhs })
        },
        RuntimeInstr::FloatBinOp { dst, bits, op, lhs, rhs } => {
            let left = operand_const_value(lhs, const_slots);
            let right = operand_const_value(rhs, const_slots);
            let lhs = fold_operand_const(lhs, const_slots);
            let rhs = fold_operand_const(rhs, const_slots);
            if let (Some(l), Some(r)) = (left, right) {
                if let Some(value) = eval_runtime_float_binop(eval_float, *bits, *op, l, r) {
                    const_slots.set(*dst, Some(value));
                    return Some(RuntimeInstr::Mov { dst: *dst, src: RuntimeOperand::Imm(value) });
                }
            }
            const_slots.set(*dst, None);
            Some(RuntimeInstr::FloatBinOp { dst: *dst, bits: *bits, op: *op, lhs, rhs })
        },
        RuntimeInstr::Cmp { dst, op, lhs, rhs } => {
            let left = operand_const_value(lhs, const_slots);
            let right = operand_const_value(rhs, const_slots);
            let lhs = fold_operand_const(lhs, const_slots);
            let rhs = fold_operand_const(rhs, const_slots);
            if let (Some(l), Some(r)) = (left, right) {
                let value: u64 = eval_runtime_comparison(*op, l, r);
                const_slots.set(*dst, Some(value));
                return Some(RuntimeInstr::Mov { dst: *dst, src: RuntimeOperand::Imm(value) });
            }
            const_slots.set(*dst, None);
            Some(RuntimeInstr::Cmp { dst: *dst, op: *op, lhs, rhs })
        },
        RuntimeInstr::NormalizeInt { dst, signed, bits } => {
            if *bits >= 64 {
                return None;
            }
            if let Some(value) = const_slots[*dst] {
                let normal: u64 = normalize_const_int(value, *signed, *bits);
                const_slots.set(*dst, Some(normal));
                return Some(RuntimeInstr::Mov { dst: *dst, src: RuntimeOperand::Imm(normal) });
            }
            Some(instr.clone())
        },
        RuntimeInstr::LoadIndex { dst, base_slots, index } => {
            if let Some(slot) = select_slot(base_slots, index, const_slots) {
                let value = const_slots[slot];
                const_slots.set(*dst, value);
                return Some(RuntimeInstr::Mov { dst: *dst, src: RuntimeOperand::Slot(slot) });
            }
            let index = fold_operand_const(index, const_slots);
            const_slots.set(*dst, None);
            Some(RuntimeInstr::LoadIndex { dst: *dst, base_slots: copy_slots(base_slots), index })
        },
        RuntimeInstr::LoadIndexUnchecked { dst, base_slots, index } => {
            if let Some(slot) = select_slot(base_slots, index, const_slots) {
                let value = const_slots[slot];
                const_slots.set(*dst, value);
                return Some(RuntimeInstr::Mov { dst: *dst, src: RuntimeOperand::Slot(slot) });
            }
            let index = fold_operand_const(index, const_slots);
            const_slots.set(*dst, None);
            Some(
                RuntimeInstr::LoadIndexUnchecked {
                    dst: *dst,
                    base_slots: copy_slots(base_slots),
                    index,
                },
            )
        },
        RuntimeInstr::StoreIndex { base_slots, index, src } => {
            let value = operand_const_value(src, const_slots);
            let src = fold_operand_const(src, const_slots);
            if let Some(slot) = select_slot(base_slots, index, const_slots) {
                const_slots.set(slot, value);
                return Some(RuntimeInstr::Mov { dst: slot, src });
            }
            let index = fold_operand_const(index, const_slots);
            forget_slots(const_slots, base_slots);
            Some(RuntimeInstr::StoreIndex { base_slots: copy_slots(base_slots), index, src })
        },
        RuntimeInstr::StoreIndexUnchecked { base_slots, index, src } => {
            let value = operand_const_value(src, const_slots);
            let src = fold_operand_const(src, const_slots);
            if let Some(slot) = select_slot(base_slots, index, const_slots) {
                const_slots.set(slot, value);
                return Some(RuntimeInstr::Mov { dst: slot, src });
            }
            let index = fold_operand_const(index, const_slots);
            forget_slots(const_slots, base_slots);
            Some(
                RuntimeInstr::StoreIndexUnchecked {
                    base_slots: copy_slots(base_slots),
                    index,
                    src,
                },
            )
        },
        RuntimeInstr::BloomSplitBlockInsert { filter_slots, hash } => {
            let hash = fold_operand_const(hash, const_slots);
            forget_slots(const_slots, filter_slots);
            Some(
                RuntimeInstr::BloomSplitBlockInsert {
                    filter_slots: copy_slots(filter_slots),
                    hash,
                },
            )
        },
        RuntimeInstr::BloomSplitBlockCheck { dst, filter_slots, hash } => {
            let hash = fold_operand_const(hash, const_slots);
            forget_slots(const_slots, filter_slots);
            const_slots.set(*dst, None);
            Some(
                RuntimeInstr::BloomSplitBlockCheck {
                    dst: *dst,
                    filter_slots: copy_slots(filter_slots),
                    hash,
                },
            )
        },
        RuntimeInstr::BloomClassic4Check { dst, lanes_checked, filter_slots, hash } => {
            let hash = fold_operand_const(hash, const_slots);
            forget_slots(const_slots, filter_slots);
            const_slots.set(*dst, None);
            const_slots.set(*lanes_checked, None);
            Some(
                RuntimeInstr::BloomClassic4Check {
                    dst: *dst,
                    lanes_checked: *lanes_checked,
                    filter_slots: copy_slots(filter_slots),
                    hash,
                },
            )
        },
        RuntimeInstr::HashCtrlGroupProbe { dst_mask, ctrl_slots, group_start, fingerprint } => {
            let group_start = fold_operand_const(group_start, const_slots);
            let fingerprint = fold_operand_const(fingerprint, const_slots);
            forget_slots(const_slots, ctrl_slots);
            const_slots.set(*dst_mask, None);
            Some(
                RuntimeInstr::HashCtrlGroupProbe {
                    dst_mask: *dst_mask,
                    ctrl_slots: copy_slots(ctrl_slots),
                    group_start,
                    fingerprint,
                },
            )
        },
        RuntimeInstr::JoinSelectAdaptive { dst, build_rows, probe_rows } => {
            let build_value = operand_const_value(build_rows, const_slots);
            let probe_value = operand_const_value(probe_rows, const_slots);
            let build_rows = fold_operand_const(build_rows, const_slots);
            let probe_rows = fold_operand_const(probe_rows, const_slots);
            if let (Some(build), Some(probe)) = (build_value, probe_value) {
                let selected: u64 = if build >= 128 && probe >= 200_000 { 1 } else { 0 };
                const_slots.set(*dst, Some(selected));
                return Some(RuntimeInstr::Mov { dst: *dst, src: RuntimeOperand::Imm(selected) });
            }
            const_slots.set(*dst, None);
            Some(RuntimeInstr::JoinSelectAdaptive { dst: *dst, build_rows, probe_rows })
        },
        RuntimeInstr::HeapLoadInt { dst, ptr, index, bytes } => {
            let ptr = fold_operand_const(ptr, const_slots);
            let index = fold_operand_const(index, const_slots);
            const_slots.set(*dst, None);
            Some(RuntimeInstr::HeapLoadInt { dst: *dst, ptr, index, bytes: *bytes })
        },
        RuntimeInstr::HeapStoreInt { ptr, index, src, bytes } => Some(
            RuntimeInstr::HeapStoreInt {
                ptr: fold_operand_const(ptr, const_slots),
                index: fold_operand_const(index, const_slots),
                src: fold_operand_const(src, const_slots),
                bytes: *bytes,
            },
        ),
        RuntimeInstr::HeapCopy { dst_ptr, src_ptr, bytes } => Some(
            RuntimeInstr::HeapCopy {
                dst_ptr: fold_operand_const(dst_ptr, const_slots),
                src_ptr: fold_operand_const(src_ptr, const_slots),
                bytes: fold_operand_const(bytes, const_slots),
            },
        ),
        RuntimeInstr::Alloc { dst, size } => {
            let size = fold_operand_const(size, const_slots);
            clear_const_slots(const_slots);
            Some(RuntimeInstr::Alloc { dst: *dst, size })
        },
        RuntimeInstr::Free { ptr, size } => {
            let ptr = fold_operand_const(ptr, const_slots);
            let size = fold_operand_const(size, const_slots);
            clear_const_slots(const_slots);
            Some(RuntimeInstr::Free { ptr, size })
        },
        RuntimeInstr::FileOpen { dst, path_ptr, flags, mode } => {
            let path_ptr = fold_operand_const(path_ptr, const_slots);
            clear_const_slots(const_slots);
            Some(RuntimeInstr::FileOpen { dst: *dst, path_ptr, flags: *flags, mode: *mode })
        },
        RuntimeInstr::FileWrite { dst, fd, ptr, len } => {
            let fd = fold_operand_const(fd, const_slots);
            let ptr = fold_operand_const(ptr, const_slots);
            let len = fold_operand_const(len, const_slots);
            clear_const_slots(const_slots);
            Some(RuntimeInstr::FileWrite { dst: *dst, fd, ptr, len })
        },
        RuntimeInstr::FileRead { dst, fd, ptr, len } => {
            let fd = fold_operand_const(fd, const_slots);
            let ptr = fold_operand_const(ptr, const_slots);
            let len = fold_operand_const(len, const_slots);
            clear_const_slots(const_slots);
            Some(RuntimeInstr::FileRead { dst: *dst, fd, ptr, len })
        },
        RuntimeInstr::FileClose { fd } => {
            let fd = fold_operand_const(fd, const_slots);
            clear_const_slots(const_slots);
            Some(RuntimeInstr::FileClose { fd })
        },
        RuntimeInstr::PrintConst { .. } => Some(instr.clone()),
        RuntimeInstr::PrintInt { value, signed, bits } => {
            let value = fold_operand_const(value, const_slots);
            Some(RuntimeInstr::PrintInt { value, signed: *signed, bits: *bits })
        },
        RuntimeInstr::CompareSwap { left, right, .. } => {
            const_slots.set(*left, None);
            const_slots.set(*right, None);
            Some(instr.clone())
        },
        RuntimeInstr::RadixSortFixedInt { slots, .. } => {
            forget_slots(const_slots, slots);
            Some(instr.clone())
        },
        RuntimeInstr::Jump { .. }
        | RuntimeInstr::JumpIfZero { .. }
        | RuntimeInstr::JumpIfCmpFalse { .. }
        | RuntimeInstr::Call { .. }
        | RuntimeInstr::ThreadSpawn { .. }
        | RuntimeInstr::Return => {
            clear_const_slots(const_slots);
            Some(instr.clone())
        },
        RuntimeInstr::ThreadJoin { dst, handle } => {
            const_slots.set(*dst, None);
            let handle = fold_operand_const(handle, const_slots);
            Some(RuntimeInstr::ThreadJoin { dst: *dst, handle })
        },
        RuntimeInstr::ChannelCreate { dst, capacity, unbounded } => {
            const_slots.set(*dst, None);
            let capacity = fold_operand_const(capacity, const_slots);
            Some(RuntimeInstr::ChannelCreate { dst: *dst, capacity, unbounded: *unbounded })
        },
        RuntimeInstr::ChannelSend { handle, value } => {
            let handle = fold_operand_const(handle, const_slots);
            let value = fold_operand_const(value, const_slots);
            Some(RuntimeInstr::ChannelSend { handle, value })
        },
        RuntimeInstr::ChannelRecv { dst, handle } => {
            const_slots.set(*dst, None);
            let handle = fold_operand_const(handle, const_slots);
            Some(RuntimeInstr::ChannelRecv { dst: *dst, handle })
        },
        RuntimeInstr::ChannelClose { handle, sender } => {
            let handle = fold_operand_const(handle, const_slots);
            Some(RuntimeInstr::ChannelClose { handle, sender: *sender })
        },
        RuntimeInstr::ChannelDestroy { handle } => {
            let handle = fold_operand_const(handle, const_slots);
            Some(RuntimeInstr::ChannelDestroy { handle })
        },
        RuntimeInstr::Exit { code } => {
            let code = fold_operand_const(code, const_slots);
            clear_const_slots(const_slots);
            Some(RuntimeInstr::Exit { code })
        },
    }
}

/// How many slots there are.
pub open spec fn slot_count(known: KnownSlots) -> int {
    known.len() as int
}

/// The instructions a pass has produced and what it knows at its place.
pub struct FoldState {
    pub out: Seq<InstrView>,
    pub known: KnownSlots,
}

/// The state of the pass after the first n instructions. Nothing is known
/// where a branch may arrive.
pub open spec fn fold_prefix(
    instrs: Seq<InstrView>,
    slots: nat,
    floats: FloatFn,
    n: int,
) -> FoldState
    decreases n,
{
    if n <= 0 {
        FoldState { out: seq![], known: nothing_known(slots) }
    } else {
        let before = fold_prefix(instrs, slots, floats, n - 1);
        let known = if is_entered(instrs, n - 1) {
            nothing_known(slots)
        } else {
            before.known
        };
        let fold = fold_instr(instrs[n - 1], known, floats);
        FoldState {
            out: match fold.instr {
                Some(instr) => before.out.push(instr),
                None => before.out,
            },
            known: fold.known,
        }
    }
}

/// Where an instruction goes when the pass drops some; one past the end goes
/// to the new end.
pub open spec fn fold_position(
    instrs: Seq<InstrView>,
    slots: nat,
    floats: FloatFn,
) -> spec_fn(usize) -> usize {
    |target: usize|
        fold_prefix(
            instrs,
            slots,
            floats,
            if target < instrs.len() {
                target as int
            } else {
                instrs.len() as int
            },
        ).out.len() as usize
}

/// The instructions folded, jumps and calls renumbered.
pub open spec fn peephole(instrs: Seq<InstrView>, slots: nat, floats: FloatFn) -> Seq<InstrView> {
    map_branch_targets(
        fold_prefix(instrs, slots, floats, instrs.len() as int).out,
        fold_position(instrs, slots, floats),
    )
}

/// Folding an instruction keeps its slots in range and covers as many slots.
pub proof fn lemma_fold_instr_in_range(instr: InstrView, known: KnownSlots, floats: FloatFn)
    requires
        instr_below(instr, slot_count(known)),
    ensures
        fold_instr(instr, known, floats).known.len() == known.len(),
        fold_instr(instr, known, floats).instr matches Some(next) ==> instr_below(
            next,
            slot_count(known),
        ),
{
    match instr {
        InstrView::LoadSeed { .. } => {},
        InstrView::Mov { .. } => {},
        InstrView::BinOp { .. } => {},
        InstrView::BinOpInPlace { .. } => {},
        InstrView::FloatBinOp { .. } => {},
        InstrView::Cmp { .. } => {},
        InstrView::NormalizeInt { .. } => {},
        InstrView::Jump { .. } => {},
        InstrView::JumpIfZero { .. } => {},
        InstrView::JumpIfCmpFalse { .. } => {},
        InstrView::CompareSwap { .. } => {},
        InstrView::RadixSortFixedInt { .. } => {},
        InstrView::Call { .. } => {},
        InstrView::LoadIndex { .. } => {},
        InstrView::LoadIndexUnchecked { .. } => {},
        InstrView::StoreIndex { .. } => {},
        InstrView::StoreIndexUnchecked { .. } => {},
        InstrView::HeapLoadInt { .. } => {},
        InstrView::HeapStoreInt { .. } => {},
        InstrView::HeapCopy { .. } => {},
        InstrView::BloomSplitBlockInsert { .. } => {},
        InstrView::BloomSplitBlockCheck { .. } => {},
        InstrView::BloomClassic4Check { .. } => {},
        InstrView::HashCtrlGroupProbe { .. } => {},
        InstrView::JoinSelectAdaptive { .. } => {},
        InstrView::Alloc { .. } => {},
        InstrView::Free { .. } => {},
        InstrView::FileOpen { .. } => {},
        InstrView::FileWrite { .. } => {},
        InstrView::FileRead { .. } => {},
        InstrView::FileClose { .. } => {},
        InstrView::ThreadSpawn { .. } => {},
        InstrView::ThreadJoin { .. } => {},
        InstrView::ChannelCreate { .. } => {},
        InstrView::ChannelSend { .. } => {},
        InstrView::ChannelRecv { .. } => {},
        InstrView::ChannelClose { .. } => {},
        InstrView::ChannelDestroy { .. } => {},
        InstrView::PrintConst { .. } => {},
        InstrView::PrintInt { .. } => {},
        InstrView::Return => {},
        InstrView::Exit { .. } => {},
    }
}

/// Folding a prefix covers all slots.
pub proof fn lemma_fold_prefix(instrs: Seq<InstrView>, slots: nat, floats: FloatFn, n: int)
    requires
        0 <= n <= instrs.len(),
        slots_below(instrs, slots as int),
    ensures
        fold_prefix(instrs, slots, floats, n).known.len() == slots,
        fold_prefix(instrs, slots, floats, n).out.len() <= n,
        slots_below(fold_prefix(instrs, slots, floats, n).out, slots as int),
    decreases n,
{
    if n > 0 {
        lemma_fold_prefix(instrs, slots, floats, n - 1);
        let before = fold_prefix(instrs, slots, floats, n - 1);
        let known = if is_entered(instrs, n - 1) {
            nothing_known(slots)
        } else {
            before.known
        };
        assert(instr_below(instrs[n - 1], slots as int));
        lemma_fold_instr_in_range(instrs[n - 1], known, floats);
    }
}

/// Folding an instruction that there is room for covers as many slots.
proof fn lemma_fold_room(instr: InstrView, known: KnownSlots, floats: FloatFn)
    requires
        fold_room(instr, slot_count(known)),
    ensures
        fold_instr(instr, known, floats).known.len() == known.len(),
{
}

/// Folding a prefix that there is room for covers all slots.
proof fn lemma_fold_prefix_room(instrs: Seq<InstrView>, slots: nat, floats: FloatFn, n: int)
    requires
        0 <= n <= instrs.len(),
        folds_in_room(instrs, slots as int),
    ensures
        fold_prefix(instrs, slots, floats, n).known.len() == slots,
    decreases n,
{
    if n > 0 {
        lemma_fold_prefix_room(instrs, slots, floats, n - 1);
        let known = if is_entered(instrs, n - 1) {
            nothing_known(slots)
        } else {
            fold_prefix(instrs, slots, floats, n - 1).known
        };
        lemma_fold_room(instrs[n - 1], known, floats);
    }
}

/// There is room for instructions whose slots are in range.
pub proof fn lemma_below_folds(instrs: Seq<InstrView>, bound: int)
    requires
        slots_below(instrs, bound),
    ensures
        folds_in_room(instrs, bound),
{
    assert forall|i: int| 0 <= i < instrs.len() implies fold_room(#[trigger] instrs[i], bound) by {
        assert(instr_below(instrs[i], bound));
    }
}

/// The pass keeps the program's slots in range and adds no instruction.
pub proof fn lemma_peephole_in_range(instrs: Seq<InstrView>, slots: nat, floats: FloatFn)
    requires
        slots_below(instrs, slots as int),
    ensures
        slots_below(peephole(instrs, slots, floats), slots as int),
        peephole(instrs, slots, floats).len() <= instrs.len(),
{
    lemma_fold_prefix(instrs, slots, floats, instrs.len() as int);
    let out = fold_prefix(instrs, slots, floats, instrs.len() as int).out;
    assert forall|i: int| 0 <= i < out.len() implies #[trigger] instr_below(
        peephole(instrs, slots, floats)[i],
        slots as int,
    ) by {
        assert(instr_below(out[i], slots as int));
    }
}

/// Folds constants along straight-line code.
pub fn peephole_optimize_runtime_instrs<
    F: Fn(u16, RuntimeFloatBinOp, u64, u64) -> Option<u64>,
>(slots: usize, instrs: &[RuntimeInstr], eval_float: &F) -> (folded_instrs: Vec<RuntimeInstr>)
    requires
        is_float_unit(*eval_float),
        folds_in_room(instrs_view(instrs@), slots as int),
    ensures
        instrs_view(folded_instrs@) == peephole(
            instrs_view(instrs@),
            slots as nat,
            float_fn(*eval_float),
        ),
{
    let ghost all = instrs_view(instrs@);
    let ghost floats = float_fn(*eval_float);
    let targets = control_flow_entries(instrs);
    let mut const_slots: Vec<Option<u64>> = vec![None; slots];
    let mut remap: Vec<usize> = Vec::with_capacity(instrs.len());
    let mut out: Vec<RuntimeInstr> = Vec::with_capacity(instrs.len());
    assert(const_slots@ =~= nothing_known(slots as nat));
    for i in 0..instrs.len()
        invariant
            is_float_unit(*eval_float),
            floats == float_fn(*eval_float),
            all == instrs_view(instrs@),
            folds_in_room(all, slots as int),
            targets@.len() == all.len(),
            forall|j: int|
                0 <= j < targets@.len() ==> #[trigger] targets@[j] == is_entered(all, j),
            remap@.len() == i,
            forall|j: int|
                0 <= j < i ==> #[trigger] remap@[j] == fold_prefix(
                    all,
                    slots as nat,
                    floats,
                    j,
                ).out.len(),
            const_slots@ == fold_prefix(all, slots as nat, floats, i as int).known,
            instrs_view(out@) == fold_prefix(all, slots as nat, floats, i as int).out,
    {
        let ghost before = fold_prefix(all, slots as nat, floats, i as int);
        proof {
            lemma_fold_prefix_room(all, slots as nat, floats, i as int);
            assert(targets@[i as int] == is_entered(all, i as int));
            assert(fold_room(all[i as int], slots as int));
        }
        if targets[i] {
            clear_const_slots(&mut const_slots);
        }
        remap.push(out.len());
        if let Some(next) = fold_runtime_instr(&instrs[i], &mut const_slots, eval_float) {
            out.push(next);
            assert(instrs_view(out@) =~= before.out.push(next@));
        }
    }
    remap.push(out.len());
    let ghost kept = instrs_view(out@);
    remap_branches(&mut out, &remap);
    proof {
        let f = clamped_lookup(remap@);
        let g = fold_position(all, slots as nat, floats);
        assert forall|target: usize| #[trigger] f(target) == g(target) by {
            if target < all.len() {
                assert(remap@[target as int] == fold_prefix(
                    all,
                    slots as nat,
                    floats,
                    target as int,
                ).out.len());
            }
        }
        assert forall|i: int| 0 <= i < kept.len() implies map_branch_target(kept[i], f)
            == #[trigger] map_branch_target(kept[i], g) by {}
        assert(instrs_view(out@) =~= peephole(all, slots as nat, floats));
    }
    out
}

/// Every slot of known value holds that value.
pub open spec fn known_holds(known: KnownSlots, state: SlotState) -> bool {
    &&& known.len() == state.len()
    &&& forall|i: int|
        0 <= i < known.len() ==> ((#[trigger] known[i]) matches Some(value) ==> state[i] == value)
}

/// A folded operand evaluates to what the operand does.
pub proof fn lemma_folded_value(operand: RuntimeOperand, known: KnownSlots, state: SlotState)
    requires
        known_holds(known, state),
        operand_below(operand, slot_count(known)),
    ensures
        value_of(folded(operand, known), state) == value_of(operand, state),
        known_value(operand, known) matches Some(value) ==> value_of(operand, state) == value,
        operand_below(folded(operand, known), slot_count(known)),
{
}

/// What is learned of a slot holds after the slot has been set to it.
proof fn lemma_learn_holds(
    known: KnownSlots,
    state: SlotState,
    slot: usize,
    learned: Option<u64>,
    value: u64,
)
    requires
        known_holds(known, state),
        slot < known.len(),
        learned matches Some(v) ==> v == value,
    ensures
        known_holds(learn(known, slot, learned), state.update(slot as int, value)),
{
}

/// Constant folding is sound: where an instruction of slot arithmetic does not
/// trap, the folded instruction has the same effect (a dropped one had none),
/// and what the pass then takes for known is so.
pub proof fn law_folding_preserves_effect(
    instr: InstrView,
    known: KnownSlots,
    floats: FloatFn,
    state: SlotState,
)
    requires
        is_slot_arithmetic(instr),
        instr_below(instr, slot_count(known)),
        known_holds(known, state),
        step(instr, state) is Some,
    ensures
        ({
            let fold = fold_instr(instr, known, floats);
            &&& known_holds(fold.known, step(instr, state)->0)
            &&& match fold.instr {
                Some(next) => step(next, state) == step(instr, state),
                None => step(instr, state) == Some(state),
            }
        }),
{
    let after = step(instr, state)->0;
    match instr {
        InstrView::Mov { dst, src } => {
            lemma_folded_value(src, known, state);
            lemma_learn_holds(known, state, dst, known_value(src, known), value_of(src, state));
            assert(state.update(dst as int, state[dst as int]) =~= state);
        },
        InstrView::BinOp { dst, op, lhs, rhs } => {
            lemma_folded_value(lhs, known, state);
            lemma_folded_value(rhs, known, state);
            let l = folded(lhs, known);
            let r = folded(rhs, known);
            let value = binop_value(op, value_of(lhs, state), value_of(rhs, state))->0;
            lemma_learn_holds(known, state, dst, None, value);
            lemma_learn_holds(known, state, dst, Some(value), value);
            if let Some(same) = identity_operand(op, l, r) {
                let slots = |slot: usize| state[slot as int];
                law_identity_preserves_value(op, l, r, slots);
                assert(value_of(same, state) == value);
                lemma_folded_value(same, known, state);
                lemma_learn_holds(known, state, dst, known_value(same, known), value);
            }
        },
        InstrView::BinOpInPlace { dst, op, rhs } => {
            lemma_folded_value(rhs, known, state);
            let value = binop_value(op, state[dst as int], value_of(rhs, state))->0;
            lemma_learn_holds(known, state, dst, None, value);
            lemma_learn_holds(known, state, dst, Some(value), value);
            if in_place_is_nop(op, folded(rhs, known)) {
                law_dropped_operation_changes_nothing(
                    op,
                    value_of(rhs, state),
                    state[dst as int],
                );
                assert(state.update(dst as int, state[dst as int]) =~= state);
            }
        },
        InstrView::Cmp { dst, op, lhs, rhs } => {
            lemma_folded_value(lhs, known, state);
            lemma_folded_value(rhs, known, state);
            let value = comparison_value(op, value_of(lhs, state), value_of(rhs, state));
            lemma_learn_holds(known, state, dst, None, value);
            lemma_learn_holds(known, state, dst, Some(value), value);
        },
        InstrView::NormalizeInt { dst, signed, bits } => {
            let value = normalized(state[dst as int], signed, bits);
            lemma_learn_holds(known, state, dst, Some(value), value);
            assert(state.update(dst as int, state[dst as int]) =~= state);
        },
        InstrView::LoadIndex { dst, base_slots, index }
        | InstrView::LoadIndexUnchecked { dst, base_slots, index } => {
            lemma_folded_value(index, known, state);
            let slot = base_slots[value_of(index, state) as int];
            lemma_learn_holds(known, state, dst, None, state[slot as int]);
            lemma_learn_holds(known, state, dst, known[slot as int], state[slot as int]);
        },
        InstrView::StoreIndex { base_slots, index, src }
        | InstrView::StoreIndexUnchecked { base_slots, index, src } => {
            lemma_folded_value(index, known, state);
            lemma_folded_value(src, known, state);
            let i = value_of(index, state);
            let slot = base_slots[i as int];
            assert(slot < known.len());
            lemma_learn_holds(known, state, slot, known_value(src, known), value_of(src, state));
            assert(base_slots.contains(slot));
        },
        _ => {},
    }
}

/// Straight-line code is folded to straight-line code.
pub proof fn lemma_folded_is_straight(instr: InstrView, known: KnownSlots, floats: FloatFn)
    requires
        is_straight(instr),
    ensures
        fold_instr(instr, known, floats).instr matches Some(next) ==> is_straight(next)
            && is_slot_arithmetic(next) == is_slot_arithmetic(instr)
            && next is Exit == instr is Exit,
        !is_slot_arithmetic(instr) ==> fold_instr(instr, known, floats).instr is Some,
{
}

/// A print and a leaving are folded to what is seen alike, and what is taken for
/// known then is so.
pub proof fn lemma_folded_is_seen(
    instr: InstrView,
    known: KnownSlots,
    floats: FloatFn,
    state: SlotState,
)
    requires
        is_straight(instr),
        !is_slot_arithmetic(instr),
        instr_below(instr, slot_count(known)),
        known_holds(known, state),
    ensures
        known_holds(fold_instr(instr, known, floats).known, state),
        fold_instr(instr, known, floats).instr matches Some(next) && event(next, state) == event(
            instr,
            state,
        ),
{
    match instr {
        InstrView::PrintInt { value, .. } => {
            lemma_folded_value(value, known, state);
        },
        InstrView::Exit { code } => {
            lemma_folded_value(code, known, state);
        },
        _ => {},
    }
}

/// Folding the first instructions of straight-line code keeps what they do, and
/// what is taken for known then is so.
proof fn lemma_fold_run(
    instrs: Seq<InstrView>,
    slots: nat,
    floats: FloatFn,
    n: int,
    state: SlotState,
)
    requires
        0 <= n <= instrs.len(),
        forall|i: int| 0 <= i < instrs.len() ==> is_straight(#[trigger] instrs[i]),
        slots_below(instrs, slots as int),
        state.len() == slots,
        run(instrs.take(n), state) is Some,
    ensures
        run(fold_prefix(instrs, slots, floats, n).out, state) == run(instrs.take(n), state),
        known_holds(
            fold_prefix(instrs, slots, floats, n).known,
            run(instrs.take(n), state)->0,
        ),
        events(fold_prefix(instrs, slots, floats, n).out, state) == events(instrs.take(n), state),
        fold_prefix(instrs, slots, floats, n).out.len() <= n,
        forall|i: int|
            0 <= i < fold_prefix(instrs, slots, floats, n).out.len() ==> is_straight(
                #[trigger] fold_prefix(instrs, slots, floats, n).out[i],
            ),
    decreases n,
{
    if n > 0 {
        let instr = instrs[n - 1];
        assert(instrs.take(n).drop_last() =~= instrs.take(n - 1));
        assert(instrs.take(n).last() == instr);
        lemma_fold_run(instrs, slots, floats, n - 1, state);
        lemma_fold_prefix(instrs, slots, floats, n - 1);
        let before = fold_prefix(instrs, slots, floats, n - 1);
        assert(is_straight(instr));
        assert forall|i: int| 0 <= i < instrs.len() implies !#[trigger] enters(
            instrs[i],
            n - 1,
        ) by {
            assert(is_straight(instrs[i]));
        }
        assert(!is_entered(instrs, n - 1));
        assert(instr_below(instr, slots as int));
        let middle = run(instrs.take(n - 1), state)->0;
        if is_slot_arithmetic(instr) {
            law_folding_preserves_effect(instr, before.known, floats, middle);
        } else {
            lemma_folded_is_seen(instr, before.known, floats, middle);
        }
        lemma_folded_is_straight(instr, before.known, floats);
        assert(instrs.take(n) =~= instrs.take(n - 1).push(instr));
        lemma_run_push(instrs.take(n - 1), instr, state);
        if let Some(next) = fold_instr(instr, before.known, floats).instr {
            lemma_run_push(before.out, next, state);
        }
    } else {
        assert(instrs.take(0) =~= Seq::empty());
    }
}

/// Constant folding keeps what code does: straight-line code that does not trap
/// leaves the same slots, and the same is seen of it.
pub proof fn law_peephole_preserves_run(
    instrs: Seq<InstrView>,
    slots: nat,
    floats: FloatFn,
    state: SlotState,
)
    requires
        forall|i: int| 0 <= i < instrs.len() ==> is_straight(#[trigger] instrs[i]),
        slots_below(instrs, slots as int),
        state.len() == slots,
        run(instrs, state) is Some,
    ensures
        run(peephole(instrs, slots, floats), state) == run(instrs, state),
        events(peephole(instrs, slots, floats), state) == events(instrs, state),
        peephole(instrs, slots, floats).len() <= instrs.len(),
        forall|i: int|
            0 <= i < peephole(instrs, slots, floats).len() ==> is_straight(
                #[trigger] peephole(instrs, slots, floats)[i],
            ),
{
    assert(instrs.take(instrs.len() as int) =~= instrs);
    lemma_fold_run(instrs, slots, floats, instrs.len() as int, state);
    let out = fold_prefix(instrs, slots, floats, instrs.len() as int).out;
    assert(peephole(instrs, slots, floats) =~= out);
}

} // verus!
