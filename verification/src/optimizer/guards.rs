//! Removal of index checks behind comparisons with constants.

use crate::ir::{instrs_view, InstrView, RuntimeBinOp, RuntimeCmpOp, RuntimeInstr, RuntimeOperand};
use crate::optimizer::checks::{drop_check_at, unchecked};
use crate::optimizer::checks::{lemma_same_but_checks_update, same_but_checks};
use crate::optimizer::facts::{
    compute_runtime_slot_facts_at_instr, facts_at, flow_view, slot_facts, FlowStates, SlotFacts,
};
use crate::optimizer::reaching::{truncate_upper, truncated_upper};
use crate::optimizer::slots::{slot_total, slots_below};
use crate::optimizer::targets::{control_flow_targets, is_branched_to};
use std::collections::HashMap;
use vstd::prelude::*;

verus! {

broadcast use vstd::std_specs::hash::group_hash_axioms;

/// Upper bounds of slots at a place in straight-line code: from what has been
/// computed, and from comparisons that were passed.
pub struct Bounds {
    pub local: Map<usize, u64>,
    pub guarded: Map<usize, u64>,
}

/// The smaller of two bounds, where both are known.
pub open spec fn tighter(a: Option<u64>, b: Option<u64>) -> Option<u64> {
    match (a, b) {
        (Some(x), Some(y)) => Some(
            if x < y {
                x
            } else {
                y
            },
        ),
        (Some(x), None) => Some(x),
        (None, _) => b,
    }
}

/// The bound of a slot in a map.
pub open spec fn bound_in(bounds: Map<usize, u64>, slot: usize) -> Option<u64> {
    if bounds.contains_key(slot) {
        Some(bounds[slot])
    } else {
        None
    }
}

/// The bound of a slot among the facts at an instruction.
pub open spec fn bound_in_facts(states: FlowStates, index: int, slot: usize) -> Option<u64> {
    if 0 <= index < states.len() {
        match states[index] {
            Some(facts) => slot_facts(facts, slot).upper,
            None => None,
        }
    } else {
        None
    }
}

/// The tightest bound of a slot from all sources.
pub open spec fn slot_bound(
    slot: usize,
    bounds: Bounds,
    states: FlowStates,
    index: int,
) -> Option<u64> {
    tighter(
        tighter(bound_in(bounds.local, slot), bound_in(bounds.guarded, slot)),
        bound_in_facts(states, index, slot),
    )
}

/// The tightest bound of an operand from all sources.
pub open spec fn operand_bound(
    operand: RuntimeOperand,
    bounds: Bounds,
    states: FlowStates,
    index: int,
) -> Option<u64> {
    match operand {
        RuntimeOperand::Imm(value) => Some(value),
        RuntimeOperand::Slot(slot) => slot_bound(slot, bounds, states, index),
    }
}

/// The bounds without those of a slot.
pub open spec fn cleared(bounds: Bounds, slot: usize) -> Bounds {
    Bounds { local: bounds.local.remove(slot), guarded: bounds.guarded.remove(slot) }
}

/// The bounds without those of the first n slots of a list.
pub open spec fn cleared_list(bounds: Bounds, slots: Seq<usize>, n: int) -> Bounds
    decreases n,
{
    if n <= 0 {
        bounds
    } else {
        cleared(cleared_list(bounds, slots, n - 1), slots[n - 1])
    }
}

/// The bounds with one learned by computation, if there is one.
pub open spec fn learned(bounds: Bounds, slot: usize, upper: Option<u64>) -> Bounds {
    match upper {
        Some(upper) => Bounds { local: bounds.local.insert(slot, upper), ..bounds },
        None => bounds,
    }
}

/// No bounds.
pub open spec fn no_bounds() -> Bounds {
    Bounds { local: Map::empty(), guarded: Map::empty() }
}

/// A bound of the sum of two bounded numbers.
pub open spec fn sum_bound(a: Option<u64>, b: Option<u64>) -> Option<u64> {
    match (a, b) {
        (Some(x), Some(y)) => x.checked_add(y),
        _ => None,
    }
}

/// A bound of a bounded number shifted left by a constant.
pub open spec fn shifted_bound(a: Option<u64>, shift: RuntimeOperand) -> Option<u64> {
    match (a, shift) {
        (Some(x), RuntimeOperand::Imm(shift)) => if shift < 64 {
            Some(x << shift)
        } else {
            None
        },
        _ => None,
    }
}

/// A bound of a remainder by a constant.
pub open spec fn remainder_bound(modulus: RuntimeOperand) -> Option<u64> {
    match modulus {
        RuntimeOperand::Imm(m) => if m != 0 {
            Some((m - 1) as u64)
        } else {
            None
        },
        RuntimeOperand::Slot(_) => None,
    }
}

/// The bound that holds after a branch has not been taken.
pub open spec fn passed_bound(op: RuntimeCmpOp, limit: u64) -> Option<u64> {
    match op {
        RuntimeCmpOp::LtUnsigned => limit.checked_sub(1),
        RuntimeCmpOp::LeUnsigned => Some(limit),
        _ => None,
    }
}

/// The bounds after an instruction, from those before it.
pub open spec fn bounds_after(
    index: int,
    instr: InstrView,
    bounds: Bounds,
    states: FlowStates,
) -> Bounds {
    match instr {
        InstrView::Mov { dst, src } => {
            let rest = cleared(bounds, dst);
            learned(rest, dst, operand_bound(src, rest, states, index))
        },
        InstrView::BinOp { dst, op, lhs, rhs } => {
            let rest = cleared(bounds, dst);
            let l = operand_bound(lhs, rest, states, index);
            let r = operand_bound(rhs, rest, states, index);
            learned(
                rest,
                dst,
                match op {
                    RuntimeBinOp::Add => sum_bound(l, r),
                    RuntimeBinOp::BitAnd => tighter(l, r),
                    RuntimeBinOp::Shl => shifted_bound(l, rhs),
                    RuntimeBinOp::ModUnsigned => remainder_bound(rhs),
                    _ => None,
                },
            )
        },
        InstrView::BinOpInPlace { dst, op, rhs } => {
            let l = slot_bound(dst, bounds, states, index);
            let r = operand_bound(rhs, bounds, states, index);
            learned(
                cleared(bounds, dst),
                dst,
                match op {
                    RuntimeBinOp::Add => sum_bound(l, r),
                    RuntimeBinOp::BitAnd => if l is Some && r is Some {
                        tighter(l, r)
                    } else {
                        None
                    },
                    RuntimeBinOp::Shl => shifted_bound(l, rhs),
                    RuntimeBinOp::ModUnsigned => remainder_bound(rhs),
                    _ => None,
                },
            )
        },
        InstrView::Cmp { dst, .. } => learned(cleared(bounds, dst), dst, Some(1)),
        InstrView::NormalizeInt { dst, signed, bits } => learned(
            cleared(bounds, dst),
            dst,
            match slot_bound(dst, bounds, states, index) {
                Some(upper) => if signed {
                    None
                } else {
                    Some(truncated_upper(upper, bits))
                },
                None => None,
            },
        ),
        InstrView::JumpIfCmpFalse {
            op,
            lhs: RuntimeOperand::Slot(slot),
            rhs: RuntimeOperand::Imm(limit),
            target,
        } => if target > index {
            match passed_bound(op, limit) {
                Some(upper) => Bounds {
                    guarded: bounds.guarded.insert(
                        slot,
                        tighter(bound_in(bounds.guarded, slot), Some(upper))->0,
                    ),
                    ..bounds
                },
                None => bounds,
            }
        } else {
            bounds
        },
        InstrView::CompareSwap { left, right, .. } => cleared(cleared(bounds, left), right),
        InstrView::RadixSortFixedInt { slots, .. } => {
            cleared_list(bounds, slots, slots.len() as int)
        },
        InstrView::BloomSplitBlockInsert { filter_slots, .. } => {
            cleared_list(bounds, filter_slots, filter_slots.len() as int)
        },
        InstrView::BloomSplitBlockCheck { dst, filter_slots, .. } => {
            cleared_list(cleared(bounds, dst), filter_slots, filter_slots.len() as int)
        },
        InstrView::BloomClassic4Check { dst, lanes_checked, filter_slots, .. } => cleared_list(
            cleared(cleared(bounds, dst), lanes_checked),
            filter_slots,
            filter_slots.len() as int,
        ),
        InstrView::HashCtrlGroupProbe { dst_mask, ctrl_slots, .. } => {
            cleared_list(cleared(bounds, dst_mask), ctrl_slots, ctrl_slots.len() as int)
        },
        InstrView::LoadSeed { dst, .. }
        | InstrView::FloatBinOp { dst, .. }
        | InstrView::LoadIndex { dst, .. }
        | InstrView::LoadIndexUnchecked { dst, .. }
        | InstrView::HeapLoadInt { dst, .. }
        | InstrView::JoinSelectAdaptive { dst, .. }
        | InstrView::Alloc { dst, .. }
        | InstrView::FileOpen { dst, .. }
        | InstrView::FileWrite { dst, .. }
        | InstrView::FileRead { dst, .. }
        | InstrView::ThreadJoin { dst, .. }
        | InstrView::ChannelCreate { dst, .. }
        | InstrView::ChannelRecv { dst, .. } => cleared(bounds, dst),
        InstrView::ThreadSpawn { .. }
        | InstrView::Jump { .. }
        | InstrView::Call { .. }
        | InstrView::Return
        | InstrView::Exit { .. } => no_bounds(),
        _ => bounds,
    }
}

/// The bounds as a mathematical value.
pub open spec fn bounds_view(local: HashMap<usize, u64>, guarded: HashMap<usize, u64>) -> Bounds {
    Bounds { local: local@, guarded: guarded@ }
}

/// The smaller of two bounds, where both are known.
fn tighter_bound(a: Option<u64>, b: Option<u64>) -> (bound: Option<u64>)
    ensures
        bound == tighter(a, b),
{
    match (a, b) {
        (Some(x), Some(y)) => Some(
            if x < y {
                x
            } else {
                y
            },
        ),
        (Some(x), None) => Some(x),
        (None, _) => b,
    }
}

/// The bound of a slot in a map.
fn lookup_bound(bounds: &HashMap<usize, u64>, slot: usize) -> (bound: Option<u64>)
    ensures
        bound == bound_in(bounds@, slot),
{
    match bounds.get(&slot) {
        Some(bound) => Some(*bound),
        None => None,
    }
}

/// The tightest bound of a slot from all sources.
pub fn slot_upper_with_local_context(
    slot: usize,
    local_upper: &HashMap<usize, u64>,
    guarded_upper: &HashMap<usize, u64>,
    facts_at_instr: &Vec<Option<Vec<SlotFacts>>>,
    idx: usize,
) -> (bound: Option<u64>)
    ensures
        bound == slot_bound(
            slot,
            bounds_view(*local_upper, *guarded_upper),
            flow_view(facts_at_instr@),
            idx as int,
        ),
{
    let known = tighter_bound(lookup_bound(local_upper, slot), lookup_bound(guarded_upper, slot));
    let mut from_facts: Option<u64> = None;
    if idx < facts_at_instr.len() {
        assert(flow_view(facts_at_instr@)[idx as int] is Some == facts_at_instr@[idx as int]
            is Some);
        if let Some(facts) = &facts_at_instr[idx] {
            if slot < facts.len() {
                from_facts = facts[slot].upper;
            }
        }
    }
    tighter_bound(known, from_facts)
}

/// The tightest bound of an operand from all sources.
pub fn operand_upper_with_local_context(
    operand: &RuntimeOperand,
    local_upper: &HashMap<usize, u64>,
    guarded_upper: &HashMap<usize, u64>,
    facts_at_instr: &Vec<Option<Vec<SlotFacts>>>,
    idx: usize,
) -> (bound: Option<u64>)
    ensures
        bound == operand_bound(
            *operand,
            bounds_view(*local_upper, *guarded_upper),
            flow_view(facts_at_instr@),
            idx as int,
        ),
{
    match operand {
        RuntimeOperand::Imm(value) => Some(*value),
        RuntimeOperand::Slot(slot) => {
            slot_upper_with_local_context(*slot, local_upper, guarded_upper, facts_at_instr, idx)
        },
    }
}

/// Forgets the bounds of a slot.
pub fn clear_local_slot_facts(
    slot: usize,
    local_upper: &mut HashMap<usize, u64>,
    guarded_upper: &mut HashMap<usize, u64>,
)
    ensures
        bounds_view(*final(local_upper), *final(guarded_upper)) == cleared(
            bounds_view(*old(local_upper), *old(guarded_upper)),
            slot,
        ),
{
    local_upper.remove(&slot);
    guarded_upper.remove(&slot);
}

/// Forgets the bounds of the slots of a list.
fn clear_local_slot_list(
    slots: &Vec<usize>,
    local_upper: &mut HashMap<usize, u64>,
    guarded_upper: &mut HashMap<usize, u64>,
)
    ensures
        bounds_view(*final(local_upper), *final(guarded_upper)) == cleared_list(
            bounds_view(*old(local_upper), *old(guarded_upper)),
            slots@,
            slots@.len() as int,
        ),
{
    let ghost start = bounds_view(*local_upper, *guarded_upper);
    for i in 0..slots.len()
        invariant
            bounds_view(*local_upper, *guarded_upper) == cleared_list(start, slots@, i as int),
    {
        clear_local_slot_facts(slots[i], local_upper, guarded_upper);
    }
}

/// Records a bound learned by computation, if there is one.
fn learn_bound(
    slot: usize,
    upper: Option<u64>,
    local_upper: &mut HashMap<usize, u64>,
    guarded_upper: &HashMap<usize, u64>,
)
    ensures
        bounds_view(*final(local_upper), *guarded_upper) == learned(
            bounds_view(*old(local_upper), *guarded_upper),
            slot,
            upper,
        ),
{
    if let Some(upper) = upper {
        local_upper.insert(slot, upper);
    }
}

/// A bound of the sum of two bounded numbers.
fn add_bounds(a: Option<u64>, b: Option<u64>) -> (bound: Option<u64>)
    ensures
        bound == sum_bound(a, b),
{
    match (a, b) {
        (Some(x), Some(y)) => x.checked_add(y),
        _ => None,
    }
}

/// A bound of a bounded number shifted left by a constant.
fn shift_bound(a: Option<u64>, shift: &RuntimeOperand) -> (bound: Option<u64>)
    ensures
        bound == shifted_bound(a, *shift),
{
    match (a, shift) {
        (Some(x), RuntimeOperand::Imm(shift)) => {
            if *shift < 64 {
                Some(x << *shift)
            } else {
                None
            }
        },
        _ => None,
    }
}

/// A bound of a remainder by a constant.
fn bound_remainder(modulus: &RuntimeOperand) -> (bound: Option<u64>)
    ensures
        bound == remainder_bound(*modulus),
{
    match modulus {
        RuntimeOperand::Imm(m) => {
            if *m != 0 {
                Some(*m - 1)
            } else {
                None
            }
        },
        RuntimeOperand::Slot(_) => None,
    }
}

/// Updates the bounds for one instruction.
#[verifier::rlimit(40)]
pub fn update_local_slot_upper_from_instr(
    idx: usize,
    instr: &RuntimeInstr,
    local_upper: &mut HashMap<usize, u64>,
    guarded_upper: &mut HashMap<usize, u64>,
    facts_at_instr: &Vec<Option<Vec<SlotFacts>>>,
)
    ensures
        bounds_view(*final(local_upper), *final(guarded_upper)) == bounds_after(
            idx as int,
            instr@,
            bounds_view(*old(local_upper), *old(guarded_upper)),
            flow_view(facts_at_instr@),
        ),
{
    match instr {
        RuntimeInstr::Mov { dst, src } => {
            clear_local_slot_facts(*dst, local_upper, guarded_upper);
            let upper = operand_upper_with_local_context(
                src,
                local_upper,
                guarded_upper,
                facts_at_instr,
                idx,
            );
            learn_bound(*dst, upper, local_upper, guarded_upper);
        },
        RuntimeInstr::BinOp { dst, op, lhs, rhs } => {
            clear_local_slot_facts(*dst, local_upper, guarded_upper);
            let lhs_upper = operand_upper_with_local_context(
                lhs,
                local_upper,
                guarded_upper,
                facts_at_instr,
                idx,
            );
            let rhs_upper = operand_upper_with_local_context(
                rhs,
                local_upper,
                guarded_upper,
                facts_at_instr,
                idx,
            );
            let upper = match op {
                RuntimeBinOp::Add => add_bounds(lhs_upper, rhs_upper),
                RuntimeBinOp::BitAnd => tighter_bound(lhs_upper, rhs_upper),
                RuntimeBinOp::Shl => shift_bound(lhs_upper, rhs),
                RuntimeBinOp::ModUnsigned => bound_remainder(rhs),
                _ => None,
            };
            learn_bound(*dst, upper, local_upper, guarded_upper);
        },
        RuntimeInstr::BinOpInPlace { dst, op, rhs } => {
            let lhs_upper = slot_upper_with_local_context(
                *dst,
                local_upper,
                guarded_upper,
                facts_at_instr,
                idx,
            );
            let rhs_upper = operand_upper_with_local_context(
                rhs,
                local_upper,
                guarded_upper,
                facts_at_instr,
                idx,
            );
            let upper = match op {
                RuntimeBinOp::Add => add_bounds(lhs_upper, rhs_upper),
                RuntimeBinOp::BitAnd => {
                    if lhs_upper.is_some() && rhs_upper.is_some() {
                        tighter_bound(lhs_upper, rhs_upper)
                    } else {
                        None
                    }
                },
                RuntimeBinOp::Shl => shift_bound(lhs_upper, rhs),
                RuntimeBinOp::ModUnsigned => bound_remainder(rhs),
                _ => None,
            };
            clear_local_slot_facts(*dst, local_upper, guarded_upper);
            learn_bound(*dst, upper, local_upper, guarded_upper);
        },
        RuntimeInstr::Cmp { dst, .. } => {
            clear_local_slot_facts(*dst, local_upper, guarded_upper);
            learn_bound(*dst, Some(1), local_upper, guarded_upper);
        },
        RuntimeInstr::NormalizeInt { dst, signed, bits } => {
            let prior = slot_upper_with_local_context(
                *dst,
                local_upper,
                guarded_upper,
                facts_at_instr,
                idx,
            );
            let upper = match prior {
                Some(upper) => {
                    if *signed {
                        None
                    } else {
                        Some(truncate_upper(upper, *bits))
                    }
                },
                None => None,
            };
            clear_local_slot_facts(*dst, local_upper, guarded_upper);
            learn_bound(*dst, upper, local_upper, guarded_upper);
        },
        RuntimeInstr::JumpIfCmpFalse {
            op,
            lhs: RuntimeOperand::Slot(slot),
            rhs: RuntimeOperand::Imm(limit),
            target,
        } => {
            if *target > idx {
                let upper = match op {
                    RuntimeCmpOp::LtUnsigned => limit.checked_sub(1),
                    RuntimeCmpOp::LeUnsigned => Some(*limit),
                    _ => None,
                };
                if let Some(upper) = upper {
                    let bound: u64 = match lookup_bound(guarded_upper, *slot) {
                        Some(current) => if current < upper {
                            current
                        } else {
                            upper
                        },
                        None => upper,
                    };
                    guarded_upper.insert(*slot, bound);
                }
            }
        },
        RuntimeInstr::CompareSwap { left, right, .. } => {
            clear_local_slot_facts(*left, local_upper, guarded_upper);
            clear_local_slot_facts(*right, local_upper, guarded_upper);
        },
        RuntimeInstr::RadixSortFixedInt { slots, .. } => {
            clear_local_slot_list(slots, local_upper, guarded_upper);
        },
        RuntimeInstr::BloomSplitBlockInsert { filter_slots, .. } => {
            clear_local_slot_list(filter_slots, local_upper, guarded_upper);
        },
        RuntimeInstr::BloomSplitBlockCheck { dst, filter_slots, .. } => {
            clear_local_slot_facts(*dst, local_upper, guarded_upper);
            clear_local_slot_list(filter_slots, local_upper, guarded_upper);
        },
        RuntimeInstr::BloomClassic4Check { dst, lanes_checked, filter_slots, .. } => {
            clear_local_slot_facts(*dst, local_upper, guarded_upper);
            clear_local_slot_facts(*lanes_checked, local_upper, guarded_upper);
            clear_local_slot_list(filter_slots, local_upper, guarded_upper);
        },
        RuntimeInstr::HashCtrlGroupProbe { dst_mask, ctrl_slots, .. } => {
            clear_local_slot_facts(*dst_mask, local_upper, guarded_upper);
            clear_local_slot_list(ctrl_slots, local_upper, guarded_upper);
        },
        RuntimeInstr::LoadSeed { dst, .. }
        | RuntimeInstr::FloatBinOp { dst, .. }
        | RuntimeInstr::LoadIndex { dst, .. }
        | RuntimeInstr::LoadIndexUnchecked { dst, .. }
        | RuntimeInstr::HeapLoadInt { dst, .. }
        | RuntimeInstr::JoinSelectAdaptive { dst, .. }
        | RuntimeInstr::Alloc { dst, .. }
        | RuntimeInstr::FileOpen { dst, .. }
        | RuntimeInstr::FileWrite { dst, .. }
        | RuntimeInstr::FileRead { dst, .. }
        | RuntimeInstr::ThreadJoin { dst, .. }
        | RuntimeInstr::ChannelCreate { dst, .. }
        | RuntimeInstr::ChannelRecv { dst, .. } => {
            clear_local_slot_facts(*dst, local_upper, guarded_upper);
        },
        RuntimeInstr::ThreadSpawn { .. }
        | RuntimeInstr::Jump { .. }
        | RuntimeInstr::Call { .. }
        | RuntimeInstr::Return
        | RuntimeInstr::Exit { .. } => {
            local_upper.clear();
            guarded_upper.clear();
        },
        _ => {},
    }
}

/// Check removal in progress: the program and the bounds in force.
pub struct Eliding {
    pub instrs: Seq<InstrView>,
    pub bounds: Bounds,
}

/// The array length and the index slot of a checked access by a slot.
pub open spec fn access_by_slot(instr: InstrView) -> Option<(nat, usize)> {
    match instr {
        InstrView::LoadIndex { base_slots, index: RuntimeOperand::Slot(slot), .. } => {
            Some((base_slots.len(), slot))
        },
        InstrView::StoreIndex { base_slots, index: RuntimeOperand::Slot(slot), .. } => {
            Some((base_slots.len(), slot))
        },
        _ => None,
    }
}

/// The state after the first n instructions. Bounds are forgotten where a
/// branch may arrive.
pub open spec fn elide_checks(instrs: Seq<InstrView>, states: FlowStates, n: int) -> Eliding
    decreases n,
{
    if n <= 0 {
        Eliding { instrs, bounds: no_bounds() }
    } else {
        let before = elide_checks(instrs, states, n - 1);
        let bounds = if n > 1 && is_branched_to(instrs, n - 1) {
            no_bounds()
        } else {
            before.bounds
        };
        let instr = match access_by_slot(before.instrs[n - 1]) {
            Some((base_len, slot)) => match slot_bound(slot, bounds, states, n - 1) {
                Some(upper) => if upper < base_len {
                    unchecked(before.instrs[n - 1])
                } else {
                    before.instrs[n - 1]
                },
                None => before.instrs[n - 1],
            },
            None => before.instrs[n - 1],
        };
        Eliding {
            instrs: before.instrs.update(n - 1, instr),
            bounds: bounds_after(n - 1, instr, bounds, states),
        }
    }
}

/// Removing guarded checks changes checks only.
pub proof fn lemma_elide_checks(instrs: Seq<InstrView>, states: FlowStates, n: int)
    requires
        0 <= n <= instrs.len(),
    ensures
        same_but_checks(instrs, elide_checks(instrs, states, n).instrs),
    decreases n,
{
    if n > 0 {
        lemma_elide_checks(instrs, states, n - 1);
        let before = elide_checks(instrs, states, n - 1).instrs;
        lemma_same_but_checks_update(instrs, before, n - 1);
        assert(before.update(n - 1, before[n - 1]) =~= before);
    }
}

/// The program without the checks that bounds along its straight-line code
/// make redundant.
pub open spec fn drop_guarded_checks(instrs: Seq<InstrView>) -> Seq<InstrView> {
    elide_checks(instrs, facts_at(instrs, slot_total(instrs)), instrs.len() as int).instrs
}

/// Drops the checks of accesses whose index computation or a passed comparison
/// bounds.
pub fn elide_guarded_index_checks(instrs: &mut Vec<RuntimeInstr>)
    requires
        slots_below(instrs_view(old(instrs)@), usize::MAX as int),
    ensures
        instrs_view(final(instrs)@) == drop_guarded_checks(instrs_view(old(instrs)@)),
{
    let ghost all = instrs_view(instrs@);
    let ghost states = facts_at(all, slot_total(all));
    let facts_at_instr = compute_runtime_slot_facts_at_instr(instrs);
    let is_target = control_flow_targets(instrs);
    let count: usize = instrs.len();
    let mut local_upper: HashMap<usize, u64> = HashMap::new();
    let mut guarded_upper: HashMap<usize, u64> = HashMap::new();
    for i in 0..count
        invariant
            count == instrs@.len(),
            count == all.len(),
            flow_view(facts_at_instr@) == states,
            is_target@.len() == count,
            forall|j: int|
                0 <= j < is_target@.len() ==> #[trigger] is_target@[j] == is_branched_to(all, j),
            instrs_view(instrs@) == elide_checks(all, states, i as int).instrs,
            bounds_view(local_upper, guarded_upper) == elide_checks(all, states, i as int).bounds,
    {
        let ghost before = instrs_view(instrs@);
        assert(before[i as int] == instrs@[i as int]@);
        assert(is_target@[i as int] == is_branched_to(all, i as int));
        if i != 0 && is_target[i] {
            local_upper.clear();
            guarded_upper.clear();
        }
        let access: Option<(usize, usize)> = match &instrs[i] {
            RuntimeInstr::LoadIndex { base_slots, index: RuntimeOperand::Slot(slot), .. } => {
                Some((base_slots.len(), *slot))
            },
            RuntimeInstr::StoreIndex { base_slots, index: RuntimeOperand::Slot(slot), .. } => {
                Some((base_slots.len(), *slot))
            },
            _ => None,
        };
        let mut proven = false;
        if let Some((base_len, slot)) = access {
            let upper = slot_upper_with_local_context(
                slot,
                &local_upper,
                &guarded_upper,
                &facts_at_instr,
                i,
            );
            if let Some(upper) = upper {
                proven = upper < base_len as u64;
            }
        }
        if proven {
            drop_check_at(instrs, i);
        } else {
            assert(before.update(i as int, before[i as int]) =~= before);
        }
        assert(instrs_view(instrs@)[i as int] == instrs@[i as int]@);
        update_local_slot_upper_from_instr(
            i,
            &instrs[i],
            &mut local_upper,
            &mut guarded_upper,
            &facts_at_instr,
        );
    }
}

} // verus!
