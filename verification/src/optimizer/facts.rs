//! Facts about slots at each instruction, by forward data flow.

use crate::ir::{instrs_view, InstrView, RuntimeBinOp, RuntimeInstr, RuntimeOperand};
use crate::optimizer::consts::{
    binop_value, comparison_value, eval_runtime_binop, eval_runtime_comparison,
};
use crate::optimizer::reaching::{bitmask_upper, mask_above};
use crate::optimizer::checks::{checked_access, unchecked, without_check};
use crate::optimizer::slots::{
    lemma_contains_prefix, runtime_program_slot_count, slot_total, slots_below,
};
use std::collections::VecDeque;
use vstd::prelude::*;

verus! {

/// What is known of a slot: an upper bound, an exact value.
#[derive(Clone, Copy, Debug, PartialEq, Eq, Structural)]
pub struct SlotFacts {
    pub upper: Option<u64>,
    pub exact: Option<u64>,
}

impl SlotFacts {
    /// Nothing is known.
    pub fn unknown() -> (facts: Self)
        ensures
            facts == no_facts(),
    {
        SlotFacts { upper: None, exact: None }
    }

    /// The value is known.
    pub fn imm(value: u64) -> (facts: Self)
        ensures
            facts == exactly(value),
    {
        SlotFacts { upper: Some(value), exact: Some(value) }
    }
}

/// Nothing is known.
pub open spec fn no_facts() -> SlotFacts {
    SlotFacts { upper: None, exact: None }
}

/// The value is known.
pub open spec fn exactly(value: u64) -> SlotFacts {
    SlotFacts { upper: Some(value), exact: Some(value) }
}

/// What is known of a slot; nothing of one that does not exist.
pub open spec fn slot_facts(facts: Seq<SlotFacts>, slot: usize) -> SlotFacts {
    if slot < facts.len() {
        facts[slot as int]
    } else {
        no_facts()
    }
}

/// What is known of an operand.
pub open spec fn operand_facts(facts: Seq<SlotFacts>, operand: RuntimeOperand) -> SlotFacts {
    match operand {
        RuntimeOperand::Imm(value) => exactly(value),
        RuntimeOperand::Slot(slot) => slot_facts(facts, slot),
    }
}

/// The smaller of a bound, if there is one, and a value.
pub open spec fn at_most(upper: Option<u64>, value: u64) -> u64 {
    match upper {
        Some(bound) => if bound < value {
            bound
        } else {
            value
        },
        None => value,
    }
}

/// An upper bound of an operation from what is known of its operands.
pub open spec fn binop_upper_from_facts(
    op: RuntimeBinOp,
    lhs: SlotFacts,
    rhs: SlotFacts,
) -> Option<u64> {
    match op {
        RuntimeBinOp::Sub => if rhs.exact == Some(0u64) {
            lhs.upper
        } else {
            None
        },
        RuntimeBinOp::Mul => match (lhs.upper, rhs.upper) {
            (Some(a), Some(b)) => a.checked_mul(b),
            _ => None,
        },
        RuntimeBinOp::DivUnsigned => match rhs.exact {
            Some(divisor) => if divisor == 0 {
                None
            } else {
                lhs.upper
            },
            None => None,
        },
        RuntimeBinOp::ModUnsigned => match rhs.exact {
            Some(modulus) => if modulus == 0 {
                None
            } else {
                Some((modulus - 1) as u64)
            },
            None => None,
        },
        RuntimeBinOp::BitAnd => match (lhs.exact, rhs.exact) {
            (Some(a), Some(b)) => Some(a & b),
            (None, Some(mask)) => Some(at_most(lhs.upper, mask)),
            (Some(mask), None) => Some(at_most(rhs.upper, mask)),
            (None, None) => None,
        },
        RuntimeBinOp::BitOr => match (lhs.exact, rhs.exact) {
            (Some(a), Some(b)) => Some(a | b),
            (Some(a), None) => match rhs.upper {
                Some(b) => Some(a | mask_above(b)),
                None => None,
            },
            (None, Some(b)) => match lhs.upper {
                Some(a) => Some(mask_above(a) | b),
                None => None,
            },
            (None, None) => match (lhs.upper, rhs.upper) {
                (Some(a), Some(b)) => Some(mask_above(a) | mask_above(b)),
                _ => None,
            },
        },
        RuntimeBinOp::BitXor => match (lhs.exact, rhs.exact) {
            (Some(a), Some(b)) => Some(a ^ b),
            _ => None,
        },
        RuntimeBinOp::Shl => match rhs.exact {
            Some(shift) => if shift >= 64 {
                Some(0)
            } else {
                match lhs.upper {
                    Some(value) => Some(value << shift),
                    None => None,
                }
            },
            None => None,
        },
        RuntimeBinOp::ShrUnsigned => match rhs.exact {
            Some(shift) => if shift >= 64 {
                Some(0)
            } else {
                Some(
                    (match lhs.upper {
                        Some(value) => value,
                        None => u64::MAX,
                    }) >> shift,
                )
            },
            None => None,
        },
        _ => None,
    }
}

/// What is known of an operation from what is known of its operands.
pub open spec fn binop_result_facts(
    op: RuntimeBinOp,
    lhs: SlotFacts,
    rhs: SlotFacts,
) -> SlotFacts {
    let exact = match (lhs.exact, rhs.exact) {
        (Some(l), Some(r)) => binop_value(op, l, r),
        _ => None,
    };
    SlotFacts {
        upper: match exact {
            Some(value) => Some(value),
            None => binop_upper_from_facts(op, lhs, rhs),
        },
        exact,
    }
}

/// What is known where either of two facts may hold.
pub open spec fn merged(a: SlotFacts, b: SlotFacts) -> SlotFacts {
    SlotFacts {
        upper: match (a.upper, b.upper) {
            (Some(x), Some(y)) => Some(
                if x < y {
                    y
                } else {
                    x
                },
            ),
            _ => None,
        },
        exact: match (a.exact, b.exact) {
            (Some(x), Some(y)) => if x == y {
                Some(x)
            } else {
                None
            },
            _ => None,
        },
    }
}

/// Facts merged slot by slot.
pub open spec fn merged_all(a: Seq<SlotFacts>, b: Seq<SlotFacts>) -> Seq<SlotFacts> {
    Seq::new(
        a.len(),
        |i: int|
            if i < b.len() {
                merged(a[i], b[i])
            } else {
                a[i]
            },
    )
}

/// The facts after a slot has been set.
pub open spec fn with_facts(facts: Seq<SlotFacts>, slot: usize, new: SlotFacts) -> Seq<SlotFacts> {
    if slot < facts.len() {
        facts.update(slot as int, new)
    } else {
        facts
    }
}

/// The facts after every slot of a list has been set to something unknown.
pub open spec fn without_facts(facts: Seq<SlotFacts>, slots: Seq<usize>) -> Seq<SlotFacts> {
    Seq::new(
        facts.len(),
        |i: int|
            if slots.contains(i as usize) {
                no_facts()
            } else {
                facts[i]
            },
    )
}

/// What is known of a slot after truncation to a number of bits.
pub open spec fn truncated_facts(prior: SlotFacts, signed: bool, bits: u16) -> SlotFacts {
    if signed {
        no_facts()
    } else if bits >= 64 {
        prior
    } else {
        let max = ((1u64 << bits) - 1) as u64;
        SlotFacts {
            upper: Some(at_most(prior.upper, max)),
            exact: match prior.exact {
                Some(value) => Some(value & max),
                None => None,
            },
        }
    }
}

/// The facts after an instruction, from those before it.
pub open spec fn transfer(
    instr: InstrView,
    facts: Seq<SlotFacts>,
    slot_count: nat,
) -> Seq<SlotFacts> {
    match instr {
        InstrView::Mov { dst, src } => with_facts(facts, dst, operand_facts(facts, src)),
        InstrView::BinOp { dst, op, lhs, rhs } => with_facts(
            facts,
            dst,
            binop_result_facts(op, operand_facts(facts, lhs), operand_facts(facts, rhs)),
        ),
        InstrView::BinOpInPlace { dst, op, rhs } => with_facts(
            facts,
            dst,
            binop_result_facts(op, slot_facts(facts, dst), operand_facts(facts, rhs)),
        ),
        InstrView::Cmp { dst, op, lhs, rhs } => with_facts(
            facts,
            dst,
            SlotFacts {
                upper: Some(1),
                exact: match (operand_facts(facts, lhs).exact, operand_facts(facts, rhs).exact) {
                    (Some(l), Some(r)) => Some(comparison_value(op, l, r)),
                    _ => None,
                },
            },
        ),
        InstrView::NormalizeInt { dst, signed, bits } => with_facts(
            facts,
            dst,
            truncated_facts(slot_facts(facts, dst), signed, bits),
        ),
        InstrView::CompareSwap { left, right, .. } => {
            let either = merged(slot_facts(facts, left), slot_facts(facts, right));
            with_facts(with_facts(facts, left, either), right, either)
        },
        InstrView::Call { .. } => Seq::new(slot_count, |i: int| no_facts()),
        InstrView::LoadSeed { dst, .. }
        | InstrView::FloatBinOp { dst, .. }
        | InstrView::LoadIndex { dst, .. }
        | InstrView::LoadIndexUnchecked { dst, .. }
        | InstrView::HeapLoadInt { dst, .. }
        | InstrView::JoinSelectAdaptive { dst, .. }
        | InstrView::Alloc { dst, .. }
        | InstrView::FileOpen { dst, .. }
        | InstrView::FileWrite { dst, .. }
        | InstrView::FileRead { dst, .. }
        | InstrView::ThreadJoin { dst, .. }
        | InstrView::ChannelCreate { dst, .. }
        | InstrView::ChannelRecv { dst, .. } => with_facts(facts, dst, no_facts()),
        InstrView::ThreadSpawn { handle_dst, .. } => with_facts(facts, handle_dst, no_facts()),
        InstrView::RadixSortFixedInt { slots, .. } => without_facts(facts, slots),
        InstrView::StoreIndex { base_slots, .. }
        | InstrView::StoreIndexUnchecked { base_slots, .. } => without_facts(facts, base_slots),
        InstrView::BloomSplitBlockInsert { filter_slots, .. } => {
            without_facts(facts, filter_slots)
        },
        InstrView::BloomSplitBlockCheck { dst, filter_slots, .. } => without_facts(
            with_facts(facts, dst, no_facts()),
            filter_slots,
        ),
        InstrView::BloomClassic4Check { dst, lanes_checked, filter_slots, .. } => without_facts(
            with_facts(with_facts(facts, dst, no_facts()), lanes_checked, no_facts()),
            filter_slots,
        ),
        InstrView::HashCtrlGroupProbe { dst_mask, ctrl_slots, .. } => without_facts(
            with_facts(facts, dst_mask, no_facts()),
            ctrl_slots,
        ),
        _ => facts,
    }
}

/// What is known of a slot; nothing of one that does not exist.
fn facts_for_slot(facts: &Vec<SlotFacts>, slot: usize) -> (known: SlotFacts)
    ensures
        known == slot_facts(facts@, slot),
{
    if slot < facts.len() {
        facts[slot]
    } else {
        SlotFacts::unknown()
    }
}

/// What is known of an operand.
pub fn facts_for_operand(facts: &Vec<SlotFacts>, operand: &RuntimeOperand) -> (known: SlotFacts)
    ensures
        known == operand_facts(facts@, *operand),
{
    match operand {
        RuntimeOperand::Imm(value) => SlotFacts::imm(*value),
        RuntimeOperand::Slot(slot) => facts_for_slot(facts, *slot),
    }
}

/// The smaller of a bound, if there is one, and a value.
fn bounded_by(upper: Option<u64>, value: u64) -> (bound: u64)
    ensures
        bound == at_most(upper, value),
{
    match upper {
        Some(bound) => {
            if bound < value {
                bound
            } else {
                value
            }
        },
        None => value,
    }
}

/// An upper bound of an operation from what is known of its operands.
pub fn upper_bound_for_binop_facts(op: RuntimeBinOp, lhs: SlotFacts, rhs: SlotFacts) -> (upper:
    Option<u64>)
    ensures
        upper == binop_upper_from_facts(op, lhs, rhs),
{
    match op {
        RuntimeBinOp::Sub => match rhs.exact {
            Some(0) => lhs.upper,
            _ => None,
        },
        RuntimeBinOp::Mul => match (lhs.upper, rhs.upper) {
            (Some(a), Some(b)) => a.checked_mul(b),
            _ => None,
        },
        RuntimeBinOp::DivUnsigned => match rhs.exact {
            Some(0) => None,
            Some(_) => lhs.upper,
            None => None,
        },
        RuntimeBinOp::ModUnsigned => match rhs.exact {
            Some(modulus) => {
                if modulus == 0 {
                    None
                } else {
                    Some(modulus - 1)
                }
            },
            None => None,
        },
        RuntimeBinOp::BitAnd => match (lhs.exact, rhs.exact) {
            (Some(a), Some(b)) => Some(a & b),
            (None, Some(mask)) => Some(bounded_by(lhs.upper, mask)),
            (Some(mask), None) => Some(bounded_by(rhs.upper, mask)),
            (None, None) => None,
        },
        RuntimeBinOp::BitOr => match (lhs.exact, rhs.exact) {
            (Some(a), Some(b)) => Some(a | b),
            (Some(a), None) => match rhs.upper {
                Some(b) => Some(a | bitmask_upper(b)),
                None => None,
            },
            (None, Some(b)) => match lhs.upper {
                Some(a) => Some(bitmask_upper(a) | b),
                None => None,
            },
            (None, None) => match (lhs.upper, rhs.upper) {
                (Some(a), Some(b)) => Some(bitmask_upper(a) | bitmask_upper(b)),
                _ => None,
            },
        },
        RuntimeBinOp::BitXor => match (lhs.exact, rhs.exact) {
            (Some(a), Some(b)) => Some(a ^ b),
            _ => None,
        },
        RuntimeBinOp::Shl => match rhs.exact {
            Some(shift) => {
                if shift >= 64 {
                    Some(0)
                } else {
                    match lhs.upper {
                        Some(value) => Some(value << shift),
                        None => None,
                    }
                }
            },
            None => None,
        },
        RuntimeBinOp::ShrUnsigned => match rhs.exact {
            Some(shift) => {
                if shift >= 64 {
                    Some(0)
                } else {
                    let value: u64 = match lhs.upper {
                        Some(value) => value,
                        None => u64::MAX,
                    };
                    Some(value >> shift)
                }
            },
            None => None,
        },
        RuntimeBinOp::Add
        | RuntimeBinOp::DivSigned
        | RuntimeBinOp::ModSigned
        | RuntimeBinOp::ShrSigned => None,
    }
}

/// What is known of an operation from what is known of its operands.
pub fn binop_facts(op: RuntimeBinOp, lhs: SlotFacts, rhs: SlotFacts) -> (facts: SlotFacts)
    ensures
        facts == binop_result_facts(op, lhs, rhs),
{
    let exact = match (lhs.exact, rhs.exact) {
        (Some(l), Some(r)) => eval_runtime_binop(op, l, r),
        _ => None,
    };
    let upper = match exact {
        Some(value) => Some(value),
        None => upper_bound_for_binop_facts(op, lhs, rhs),
    };
    SlotFacts { upper, exact }
}

/// What is known where either of two facts may hold.
fn merge_facts(a: SlotFacts, b: SlotFacts) -> (either: SlotFacts)
    ensures
        either == merged(a, b),
{
    let upper = match (a.upper, b.upper) {
        (Some(x), Some(y)) => Some(
            if x < y {
                y
            } else {
                x
            },
        ),
        _ => None,
    };
    let exact = match (a.exact, b.exact) {
        (Some(x), Some(y)) => {
            if x == y {
                Some(x)
            } else {
                None
            }
        },
        _ => None,
    };
    SlotFacts { upper, exact }
}

/// Weakens what is known of a slot to what either fact allows; whether it
/// changed.
pub fn merge_slot_facts(dst: &mut SlotFacts, src: SlotFacts) -> (changed: bool)
    ensures
        *final(dst) == merged(*old(dst), src),
        changed == (*final(dst) != *old(dst)),
{
    let before = *dst;
    *dst = merge_facts(before, src);
    *dst != before
}

/// Weakens facts slot by slot; whether any changed.
pub fn merge_fact_vectors(dst: &mut Vec<SlotFacts>, src: &Vec<SlotFacts>) -> (changed: bool)
    ensures
        final(dst)@ == merged_all(old(dst)@, src@),
        changed == (final(dst)@ != old(dst)@),
{
    let ghost start = dst@;
    let count: usize = if dst.len() < src.len() { dst.len() } else { src.len() };
    let mut changed = false;
    for i in 0..count
        invariant
            dst@.len() == start.len(),
            count <= start.len(),
            count <= src@.len(),
            forall|j: int| 0 <= j < i ==> dst@[j] == merged(start[j], src@[j]),
            forall|j: int| i <= j < start.len() ==> dst@[j] == start[j],
            changed == exists|j: int| 0 <= j < i && #[trigger] dst@[j] != start[j],
    {
        let mut facts = dst[i];
        let ghost before = dst@;
        let now = merge_slot_facts(&mut facts, src[i]);
        dst.set(i, facts);
        proof {
            if changed {
                let j = choose|j: int| 0 <= j < i && #[trigger] before[j] != start[j];
                assert(dst@[j] != start[j]);
            }
            if now {
                assert(dst@[i as int] != start[i as int]);
            }
        }
        changed = changed || now;
    }
    assert(dst@ =~= merged_all(start, src@));
    assert(!changed ==> dst@ =~= start);
    changed
}

/// Sets what is known of a slot, if it exists.
fn set_facts(facts: &mut Vec<SlotFacts>, slot: usize, new: SlotFacts)
    ensures
        final(facts)@ == with_facts(old(facts)@, slot, new),
{
    if slot < facts.len() {
        facts.set(slot, new);
    }
}

/// Forgets the slots of a list.
fn drop_facts(facts: &mut Vec<SlotFacts>, slots: &Vec<usize>)
    ensures
        final(facts)@ == without_facts(old(facts)@, slots@),
{
    let ghost start = facts@;
    let count: usize = facts.len();
    for i in 0..slots.len()
        invariant
            facts@.len() == start.len(),
            start.len() == count,
            forall|j: int|
                0 <= j < start.len() ==> #[trigger] facts@[j] == without_facts(
                    start,
                    slots@.take(i as int),
                )[j],
    {
        let ghost before = facts@;
        set_facts(facts, slots[i], SlotFacts::unknown());
        proof {
            assert forall|j: int| 0 <= j < start.len() implies #[trigger] facts@[j]
                == without_facts(start, slots@.take(i + 1))[j] by {
                assert(before[j] == without_facts(start, slots@.take(i as int))[j]);
                lemma_contains_prefix(slots@, i as int, j as usize);
            }
        }
    }
    assert(slots@.take(slots@.len() as int) =~= slots@);
    assert(facts@ =~= without_facts(start, slots@));
}

/// What is known of a slot after truncation to a number of bits.
fn truncate_facts(prior: SlotFacts, signed: bool, bits: u16) -> (facts: SlotFacts)
    ensures
        facts == truncated_facts(prior, signed, bits),
{
    if signed {
        SlotFacts::unknown()
    } else if bits >= 64 {
        prior
    } else {
        assert(1u64 << bits >= 1) by (bit_vector)
            requires
                bits < 64,
        ;
        let max: u64 = (1u64 << bits) - 1;
        let exact = match prior.exact {
            Some(value) => Some(value & max),
            None => None,
        };
        SlotFacts { upper: Some(bounded_by(prior.upper, max)), exact }
    }
}

/// The facts after an instruction, from those before it.
#[verifier::rlimit(30)]
pub fn runtime_transfer_slot_facts(
    instr: &RuntimeInstr,
    in_facts: &Vec<SlotFacts>,
    slot_count: usize,
) -> (out_facts: Vec<SlotFacts>)
    ensures
        out_facts@ == transfer(instr@, in_facts@, slot_count as nat),
{
    let mut out: Vec<SlotFacts> = in_facts.clone();
    assert(out@ =~= in_facts@);
    match instr {
        RuntimeInstr::Mov { dst, src } => {
            let facts = facts_for_operand(in_facts, src);
            set_facts(&mut out, *dst, facts);
        },
        RuntimeInstr::BinOp { dst, op, lhs, rhs } => {
            let lhs = facts_for_operand(in_facts, lhs);
            let rhs = facts_for_operand(in_facts, rhs);
            set_facts(&mut out, *dst, binop_facts(*op, lhs, rhs));
        },
        RuntimeInstr::BinOpInPlace { dst, op, rhs } => {
            let lhs = facts_for_slot(in_facts, *dst);
            let rhs = facts_for_operand(in_facts, rhs);
            set_facts(&mut out, *dst, binop_facts(*op, lhs, rhs));
        },
        RuntimeInstr::Cmp { dst, op, lhs, rhs } => {
            let lhs = facts_for_operand(in_facts, lhs);
            let rhs = facts_for_operand(in_facts, rhs);
            let exact = match (lhs.exact, rhs.exact) {
                (Some(l), Some(r)) => Some(eval_runtime_comparison(*op, l, r)),
                _ => None,
            };
            set_facts(&mut out, *dst, SlotFacts { upper: Some(1), exact });
        },
        RuntimeInstr::NormalizeInt { dst, signed, bits } => {
            let prior = facts_for_slot(in_facts, *dst);
            set_facts(&mut out, *dst, truncate_facts(prior, *signed, *bits));
        },
        RuntimeInstr::CompareSwap { left, right, .. } => {
            let either = merge_facts(
                facts_for_slot(in_facts, *left),
                facts_for_slot(in_facts, *right),
            );
            set_facts(&mut out, *left, either);
            set_facts(&mut out, *right, either);
        },
        RuntimeInstr::Call { .. } => {
            out = vec![SlotFacts::unknown(); slot_count];
            assert(out@ =~= transfer(instr@, in_facts@, slot_count as nat));
        },
        RuntimeInstr::LoadSeed { dst, .. }
        | RuntimeInstr::FloatBinOp { dst, .. }
        | RuntimeInstr::LoadIndex { dst, .. }
        | RuntimeInstr::LoadIndexUnchecked { dst, .. }
        | RuntimeInstr::HeapLoadInt { dst, .. }
        | RuntimeInstr::JoinSelectAdaptive { dst, .. }
        | RuntimeInstr::Alloc { dst, .. }
        | RuntimeInstr::FileOpen { dst, .. }
        | RuntimeInstr::FileWrite { dst, .. }
        | RuntimeInstr::FileRead { dst, .. }
        | RuntimeInstr::ThreadJoin { dst, .. }
        | RuntimeInstr::ChannelCreate { dst, .. }
        | RuntimeInstr::ChannelRecv { dst, .. } => {
            set_facts(&mut out, *dst, SlotFacts::unknown());
        },
        RuntimeInstr::ThreadSpawn { handle_dst, .. } => {
            set_facts(&mut out, *handle_dst, SlotFacts::unknown());
        },
        RuntimeInstr::RadixSortFixedInt { slots, .. } => {
            drop_facts(&mut out, slots);
        },
        RuntimeInstr::StoreIndex { base_slots, .. }
        | RuntimeInstr::StoreIndexUnchecked { base_slots, .. } => {
            drop_facts(&mut out, base_slots);
        },
        RuntimeInstr::BloomSplitBlockInsert { filter_slots, .. } => {
            drop_facts(&mut out, filter_slots);
        },
        RuntimeInstr::BloomSplitBlockCheck { dst, filter_slots, .. } => {
            set_facts(&mut out, *dst, SlotFacts::unknown());
            drop_facts(&mut out, filter_slots);
        },
        RuntimeInstr::BloomClassic4Check { dst, lanes_checked, filter_slots, .. } => {
            set_facts(&mut out, *dst, SlotFacts::unknown());
            set_facts(&mut out, *lanes_checked, SlotFacts::unknown());
            drop_facts(&mut out, filter_slots);
        },
        RuntimeInstr::HashCtrlGroupProbe { dst_mask, ctrl_slots, .. } => {
            set_facts(&mut out, *dst_mask, SlotFacts::unknown());
            drop_facts(&mut out, ctrl_slots);
        },
        _ => {},
    }
    out
}

/// The instruction after `index`, if there is one.
pub open spec fn next_instr(instrs: Seq<InstrView>, index: int) -> Seq<int> {
    if index + 1 < instrs.len() {
        seq![index + 1]
    } else {
        seq![]
    }
}

/// The target, if it is an instruction.
pub open spec fn target_instr(instrs: Seq<InstrView>, target: usize) -> Seq<int> {
    if target < instrs.len() {
        seq![target as int]
    } else {
        seq![]
    }
}

/// The instructions that facts flow to from the one at `index`, targets first.
pub open spec fn flow_successors(instrs: Seq<InstrView>, index: int) -> Seq<int> {
    match instrs[index] {
        InstrView::Jump { target } => target_instr(instrs, target),
        InstrView::JumpIfZero { target, .. }
        | InstrView::JumpIfCmpFalse { target, .. }
        | InstrView::Call { target } => target_instr(instrs, target) + next_instr(instrs, index),
        InstrView::Return | InstrView::Exit { .. } => seq![],
        _ => next_instr(instrs, index),
    }
}

/// The instructions that facts flow to, targets first.
pub fn runtime_succ_targets(instrs: &Vec<RuntimeInstr>, idx: usize) -> (successors: Vec<usize>)
    requires
        idx < instrs@.len(),
    ensures
        successors@.len() == flow_successors(instrs_view(instrs@), idx as int).len(),
        forall|k: int|
            0 <= k < successors@.len() ==> #[trigger] successors@[k] == flow_successors(
                instrs_view(instrs@),
                idx as int,
            )[k] && successors@[k] < instrs@.len(),
{
    let count: usize = instrs.len();
    assert(instrs_view(instrs@)[idx as int] == instrs@[idx as int]@);
    let mut successors: Vec<usize> = Vec::new();
    match &instrs[idx] {
        RuntimeInstr::Jump { target }
        | RuntimeInstr::JumpIfZero { target, .. }
        | RuntimeInstr::JumpIfCmpFalse { target, .. }
        | RuntimeInstr::Call { target } => {
            if *target < count {
                successors.push(*target);
            }
        },
        _ => {},
    }
    let falls_through = match &instrs[idx] {
        RuntimeInstr::Jump { .. } | RuntimeInstr::Return | RuntimeInstr::Exit { .. } => false,
        _ => true,
    };
    if falls_through && idx + 1 < count {
        successors.push(idx + 1);
    }
    successors
}

/// How far an upper bound can still rise, and an exact value be lost.
pub open spec fn fact_rank(facts: SlotFacts) -> nat {
    (match facts.upper {
        Some(bound) => (0x1_0000_0000_0000_0000 - bound) as nat,
        None => 0,
    }) + (match facts.exact {
        Some(_) => 1nat,
        None => 0nat,
    })
}

/// The ranks of the first n slots together.
pub open spec fn facts_rank(facts: Seq<SlotFacts>, n: int) -> nat
    decreases n,
{
    if n <= 0 {
        0
    } else {
        facts_rank(facts, n - 1) + fact_rank(facts[n - 1])
    }
}

/// The facts at each instruction that they have reached.
pub type FlowStates = Seq<Option<Seq<SlotFacts>>>;

/// The rank of the facts at one instruction; higher than that of any facts
/// where none have arrived.
pub open spec fn state_rank(state: Option<Seq<SlotFacts>>, slot_count: nat) -> nat {
    match state {
        Some(facts) => facts_rank(facts, facts.len() as int),
        None => slot_count * 0x1_0000_0000_0000_0001 + 1,
    }
}

/// The ranks at the first n instructions together.
pub open spec fn states_rank(states: FlowStates, slot_count: nat, n: int) -> nat
    decreases n,
{
    if n <= 0 {
        0
    } else {
        states_rank(states, slot_count, n - 1) + state_rank(states[n - 1], slot_count)
    }
}

/// The facts wherever they have arrived are about all slots.
pub open spec fn states_fit(states: FlowStates, slot_count: nat) -> bool {
    forall|i: int|
        0 <= i < states.len() ==> ((#[trigger] states[i]) matches Some(facts) ==> facts.len()
            == slot_count)
}

/// The rank of facts about so many slots is bounded.
proof fn lemma_facts_rank_bound(facts: Seq<SlotFacts>, n: int)
    requires
        0 <= n <= facts.len(),
    ensures
        facts_rank(facts, n) <= n * 0x1_0000_0000_0000_0001,
    decreases n,
{
    if n > 0 {
        lemma_facts_rank_bound(facts, n - 1);
    }
}

/// Merging lowers the rank unless it changes nothing.
proof fn lemma_merge_rank(a: Seq<SlotFacts>, b: Seq<SlotFacts>, n: int)
    requires
        0 <= n <= a.len(),
    ensures
        facts_rank(merged_all(a, b), n) <= facts_rank(a, n),
        (exists|i: int| 0 <= i < n && #[trigger] merged_all(a, b)[i] != a[i]) ==> facts_rank(
            merged_all(a, b),
            n,
        ) < facts_rank(a, n),
    decreases n,
{
    if n > 0 {
        lemma_merge_rank(a, b, n - 1);
        if exists|i: int| 0 <= i < n && #[trigger] merged_all(a, b)[i] != a[i] {
            let i = choose|i: int| 0 <= i < n && #[trigger] merged_all(a, b)[i] != a[i];
            if i < n - 1 {
                assert(exists|i: int| 0 <= i < n - 1 && #[trigger] merged_all(a, b)[i] != a[i]);
            }
        }
    }
}

/// Lowering the rank at one instruction lowers the whole.
proof fn lemma_states_rank_update(
    states: FlowStates,
    slot_count: nat,
    index: int,
    state: Option<Seq<SlotFacts>>,
    n: int,
)
    requires
        0 <= index < states.len(),
        0 <= n <= states.len(),
    ensures
        states_rank(states.update(index, state), slot_count, n) == if index < n {
            states_rank(states, slot_count, n) - state_rank(states[index], slot_count)
                + state_rank(state, slot_count)
        } else {
            states_rank(states, slot_count, n) as int
        },
    decreases n,
{
    if n > 0 {
        lemma_states_rank_update(states, slot_count, index, state, n - 1);
    }
}

/// Propagation in progress: the facts and the instructions to look at again.
pub struct Flow {
    pub states: FlowStates,
    pub queue: Seq<int>,
}

/// The facts that have arrived at an instruction joined by those of a
/// predecessor.
pub open spec fn arrived(
    state: Option<Seq<SlotFacts>>,
    facts: Seq<SlotFacts>,
) -> Option<Seq<SlotFacts>> {
    match state {
        Some(existing) => Some(merged_all(existing, facts)),
        None => Some(facts),
    }
}

/// Facts sent to the first k successors; those they change go on the queue.
pub open spec fn send_facts(
    flow: Flow,
    successors: Seq<int>,
    facts: Seq<SlotFacts>,
    k: int,
) -> Flow
    decreases k,
{
    if k <= 0 {
        flow
    } else {
        let before = send_facts(flow, successors, facts, k - 1);
        let to = successors[k - 1];
        let state = arrived(before.states[to], facts);
        Flow {
            states: before.states.update(to, state),
            queue: if state == before.states[to] {
                before.queue
            } else {
                before.queue.push(to)
            },
        }
    }
}

/// The first instruction of the queue looked at.
pub open spec fn flow_step(instrs: Seq<InstrView>, slot_count: nat, flow: Flow) -> Flow {
    let index = flow.queue[0];
    let rest = Flow { queue: flow.queue.subrange(1, flow.queue.len() as int), ..flow };
    match flow.states[index] {
        Some(facts) => {
            let successors = flow_successors(instrs, index);
            send_facts(
                rest,
                successors,
                transfer(instrs[index], facts, slot_count),
                successors.len() as int,
            )
        },
        None => rest,
    }
}

/// The queue names instructions and the facts fit the program.
pub open spec fn flow_fits(instrs: Seq<InstrView>, slot_count: nat, flow: Flow) -> bool {
    &&& flow.states.len() == instrs.len()
    &&& states_fit(flow.states, slot_count)
    &&& forall|k: int| 0 <= k < flow.queue.len() ==> 0 <= #[trigger] flow.queue[k] < instrs.len()
}

/// Facts flow to instructions of the program.
pub proof fn lemma_flow_successors(instrs: Seq<InstrView>, index: int)
    requires
        0 <= index < instrs.len(),
    ensures
        forall|k: int|
            0 <= k < flow_successors(instrs, index).len() ==> 0 <= #[trigger] flow_successors(
                instrs,
                index,
            )[k] < instrs.len(),
{
}

/// An instruction's facts are about as many slots as those before it.
pub proof fn lemma_transfer_len(instr: InstrView, facts: Seq<SlotFacts>, slot_count: nat)
    requires
        facts.len() == slot_count,
    ensures
        transfer(instr, facts, slot_count).len() == slot_count,
{
}

/// Sending facts never raises the rank, and lowers it for each instruction
/// that goes on the queue.
pub proof fn lemma_send_facts(
    instrs: Seq<InstrView>,
    slot_count: nat,
    flow: Flow,
    successors: Seq<int>,
    facts: Seq<SlotFacts>,
    k: int,
)
    requires
        flow_fits(instrs, slot_count, flow),
        facts.len() == slot_count,
        0 <= k <= successors.len(),
        forall|j: int| 0 <= j < successors.len() ==> 0 <= #[trigger] successors[j] < instrs.len(),
    ensures
        ({
            let after = send_facts(flow, successors, facts, k);
            let n = instrs.len() as int;
            &&& flow_fits(instrs, slot_count, after)
            &&& states_rank(after.states, slot_count, n) + (after.queue.len() - flow.queue.len())
                <= states_rank(flow.states, slot_count, n)
            &&& after.queue.len() >= flow.queue.len()
        }),
    decreases k,
{
    if k > 0 {
        lemma_send_facts(instrs, slot_count, flow, successors, facts, k - 1);
        let before = send_facts(flow, successors, facts, k - 1);
        let to = successors[k - 1];
        let state = arrived(before.states[to], facts);
        lemma_states_rank_update(before.states, slot_count, to, state, instrs.len() as int);
        match before.states[to] {
            Some(existing) => {
                let joined = merged_all(existing, facts);
                lemma_merge_rank(existing, facts, existing.len() as int);
                if joined != existing {
                    assert(!(joined =~= existing));
                    assert(exists|i: int|
                        0 <= i < existing.len() && #[trigger] joined[i] != existing[i]);
                }
            },
            None => {
                lemma_facts_rank_bound(facts, facts.len() as int);
            },
        }
    }
}

/// Each step lowers the rank or shortens the queue.
pub proof fn lemma_flow_step(instrs: Seq<InstrView>, slot_count: nat, flow: Flow)
    requires
        flow_fits(instrs, slot_count, flow),
        flow.queue.len() > 0,
    ensures
        flow_fits(instrs, slot_count, flow_step(instrs, slot_count, flow)),
        states_rank(
            flow_step(instrs, slot_count, flow).states,
            slot_count,
            instrs.len() as int,
        ) < states_rank(flow.states, slot_count, instrs.len() as int) || (states_rank(
            flow_step(instrs, slot_count, flow).states,
            slot_count,
            instrs.len() as int,
        ) == states_rank(flow.states, slot_count, instrs.len() as int) && flow_step(
            instrs,
            slot_count,
            flow,
        ).queue.len() < flow.queue.len()),
{
    let index = flow.queue[0];
    let rest = Flow { queue: flow.queue.subrange(1, flow.queue.len() as int), ..flow };
    assert(flow_fits(instrs, slot_count, rest));
    if let Some(facts) = flow.states[index] {
        lemma_flow_successors(instrs, index);
        lemma_transfer_len(instrs[index], facts, slot_count);
        lemma_send_facts(
            instrs,
            slot_count,
            rest,
            flow_successors(instrs, index),
            transfer(instrs[index], facts, slot_count),
            flow_successors(instrs, index).len() as int,
        );
    }
}

/// The facts once the queue is empty.
pub open spec fn flow_result(
    instrs: Seq<InstrView>,
    slot_count: nat,
    flow: Flow,
) -> FlowStates
    decreases states_rank(flow.states, slot_count, instrs.len() as int), flow.queue.len(),
    when flow_fits(instrs, slot_count, flow)
{
    if flow.queue.len() == 0 {
        flow.states
    } else {
        proof {
            lemma_flow_step(instrs, slot_count, flow);
        }
        flow_result(instrs, slot_count, flow_step(instrs, slot_count, flow))
    }
}

/// The start of propagation: nothing is known at the first instruction.
pub open spec fn flow_start(instrs: Seq<InstrView>, slot_count: nat) -> Flow {
    Flow {
        states: Seq::new(
            instrs.len(),
            |i: int|
                if i == 0 {
                    Some(Seq::new(slot_count, |s: int| no_facts()))
                } else {
                    None
                },
        ),
        queue: if instrs.len() > 0 {
            seq![0]
        } else {
            seq![]
        },
    }
}

/// The facts at each instruction that control may reach.
pub open spec fn facts_at(instrs: Seq<InstrView>, slot_count: nat) -> FlowStates {
    flow_result(instrs, slot_count, flow_start(instrs, slot_count))
}

/// The facts as mathematical values.
pub open spec fn flow_view(states: Seq<Option<Vec<SlotFacts>>>) -> FlowStates {
    Seq::new(
        states.len(),
        |i: int|
            match states[i] {
                Some(facts) => Some(facts@),
                None => None,
            },
    )
}

/// A queue of instructions as mathematical values.
pub open spec fn queue_view(queue: Seq<usize>) -> Seq<int> {
    Seq::new(queue.len(), |i: int| queue[i] as int)
}

/// Sends facts to each successor and queues those that they change.
fn propagate_facts(
    in_states: &mut Vec<Option<Vec<SlotFacts>>>,
    queue: &mut VecDeque<usize>,
    successors: &Vec<usize>,
    out_facts: &Vec<SlotFacts>,
)
    requires
        forall|k: int|
            0 <= k < successors@.len() ==> (#[trigger] successors@[k]) < old(in_states)@.len(),
    ensures
        final(in_states)@.len() == old(in_states)@.len(),
        ({
            let after = send_facts(
                Flow { states: flow_view(old(in_states)@), queue: queue_view(old(queue)@) },
                queue_view(successors@),
                out_facts@,
                successors@.len() as int,
            );
            &&& flow_view(final(in_states)@) == after.states
            &&& queue_view(final(queue)@) == after.queue
        }),
{
    let ghost start = Flow { states: flow_view(in_states@), queue: queue_view(queue@) };
    let ghost targets = queue_view(successors@);
    let count: usize = in_states.len();
    for k in 0..successors.len()
        invariant
            count == in_states@.len(),
            targets == queue_view(successors@),
            forall|j: int| 0 <= j < successors@.len() ==> (#[trigger] successors@[j]) < count,
            flow_view(in_states@) == send_facts(start, targets, out_facts@, k as int).states,
            queue_view(queue@) == send_facts(start, targets, out_facts@, k as int).queue,
    {
        let ghost before = send_facts(start, targets, out_facts@, k as int);
        let ghost states_before = in_states@;
        let succ: usize = successors[k];
        assert(targets[k as int] == succ);
        assert(flow_view(states_before)[succ as int] == before.states[succ as int]);
        let mut facts: Vec<SlotFacts> = out_facts.clone();
        assert(facts@ =~= out_facts@);
        let changed = match &in_states[succ] {
            Some(existing) => {
                facts = existing.clone();
                assert(facts@ =~= existing@);
                merge_fact_vectors(&mut facts, out_facts)
            },
            None => true,
        };
        let ghost now = facts@;
        in_states.set(succ, Some(facts));
        proof {
            assert(Some(now) == arrived(before.states[succ as int], out_facts@));
            assert(flow_view(in_states@) =~= before.states.update(succ as int, Some(now)));
        }
        if changed {
            let ghost queued = queue@;
            queue.push_back(succ);
            assert(queue_view(queue@) =~= queue_view(queued).push(succ as int));
        }
    }
}

/// The facts at each instruction that control may reach.
pub fn compute_runtime_slot_facts_at_instr(instrs: &Vec<RuntimeInstr>) -> (states: Vec<
    Option<Vec<SlotFacts>>,
>)
    requires
        slots_below(instrs_view(instrs@), usize::MAX as int),
    ensures
        states@.len() == instrs@.len(),
        flow_view(states@) == facts_at(
            instrs_view(instrs@),
            slot_total(instrs_view(instrs@)),
        ),
{
    let ghost all = instrs_view(instrs@);
    let slot_count: usize = runtime_program_slot_count(instrs);
    let ghost start = flow_start(all, slot_count as nat);
    let count: usize = instrs.len();
    let mut in_states: Vec<Option<Vec<SlotFacts>>> = Vec::with_capacity(count);
    let mut queue: VecDeque<usize> = VecDeque::new();
    for i in 0..count
        invariant
            in_states@.len() == i,
            forall|j: int| 0 <= j < i ==> (#[trigger] flow_view(in_states@)[j]) == start.states[j],
            start == flow_start(all, slot_count as nat),
            count == all.len(),
    {
        let ghost before = in_states@;
        if i == 0 {
            let first: Vec<SlotFacts> = vec![SlotFacts::unknown(); slot_count];
            assert(first@ =~= Seq::new(slot_count as nat, |s: int| no_facts()));
            in_states.push(Some(first));
        } else {
            in_states.push(None);
        }
        proof {
            assert forall|j: int| 0 <= j < i + 1 implies (#[trigger] flow_view(in_states@)[j])
                == start.states[j] by {
                if j < i {
                    assert(flow_view(before)[j] == start.states[j]);
                }
            }
        }
    }
    if count > 0 {
        queue.push_back(0);
    }
    proof {
        assert(flow_view(in_states@) =~= start.states);
        assert(queue_view(queue@) =~= start.queue);
        assert(flow_fits(all, slot_count as nat, start));
    }
    while queue.len() > 0
        invariant
            all == instrs_view(instrs@),
            count == instrs@.len(),
            in_states@.len() == count,
            flow_fits(
                all,
                slot_count as nat,
                Flow { states: flow_view(in_states@), queue: queue_view(queue@) },
            ),
            flow_result(
                all,
                slot_count as nat,
                Flow { states: flow_view(in_states@), queue: queue_view(queue@) },
            ) == facts_at(all, slot_count as nat),
        decreases
                states_rank(flow_view(in_states@), slot_count as nat, count as int),
                queue@.len(),
    {
        let ghost flow = Flow { states: flow_view(in_states@), queue: queue_view(queue@) };
        let ghost queue_before = queue@;
        proof {
            lemma_flow_step(all, slot_count as nat, flow);
        }
        let popped = queue.pop_front();
        let idx: usize = match popped {
            Some(idx) => idx,
            None => return in_states,
        };
        proof {
            assert(flow.queue[0] == idx);
            assert(queue_view(queue@) =~= flow.queue.subrange(1, flow.queue.len() as int));
            assert(flow_view(in_states@)[idx as int] == flow.states[idx as int]);
            assert(all[idx as int] == instrs@[idx as int]@);
        }
        if let Some(in_facts) = &in_states[idx] {
            let out_facts = runtime_transfer_slot_facts(&instrs[idx], in_facts, slot_count);
            let successors = runtime_succ_targets(instrs, idx);
            assert(queue_view(successors@) =~= flow_successors(all, idx as int));
            propagate_facts(&mut in_states, &mut queue, &successors, &out_facts);
        }
    }
    in_states
}

/// The index is below the length, by its value or by an upper bound among the
/// facts.
pub open spec fn facts_bound_index(
    facts: Seq<SlotFacts>,
    index: RuntimeOperand,
    base_len: nat,
) -> bool {
    &&& base_len > 0
    &&& match index {
        RuntimeOperand::Imm(value) => value < base_len,
        RuntimeOperand::Slot(slot) => slot_facts(facts, slot).upper matches Some(upper) && upper
            < base_len,
    }
}

/// Whether the facts bound the index below the length.
pub fn runtime_index_operand_proven_in_bounds_from_facts(
    facts: &Vec<SlotFacts>,
    index: &RuntimeOperand,
    base_len: usize,
) -> (proven: bool)
    ensures
        proven == facts_bound_index(facts@, *index, base_len as nat),
{
    if base_len == 0 {
        return false;
    }
    match index {
        RuntimeOperand::Imm(value) => *value < base_len as u64,
        RuntimeOperand::Slot(slot) => match facts_for_slot(facts, *slot).upper {
            Some(upper) => upper < base_len as u64,
            None => false,
        },
    }
}

/// The instruction without its check, if the facts at it bound its index.
pub open spec fn check_by_facts(instr: InstrView, state: Option<Seq<SlotFacts>>) -> InstrView {
    match (checked_access(instr), state) {
        (Some((base_slots, index)), Some(facts)) => if facts_bound_index(
            facts,
            index,
            base_slots.len(),
        ) {
            unchecked(instr)
        } else {
            instr
        },
        _ => instr,
    }
}

/// The program without the checks that facts make redundant.
pub open spec fn drop_checks_by_facts(instrs: Seq<InstrView>) -> Seq<InstrView> {
    Seq::new(
        instrs.len(),
        |i: int| check_by_facts(instrs[i], facts_at(instrs, slot_total(instrs))[i]),
    )
}

/// Drops the checks of accesses whose index facts bound.
pub fn eliminate_expr_bounded_index_checks_global(instrs: &mut Vec<RuntimeInstr>)
    requires
        slots_below(instrs_view(old(instrs)@), usize::MAX as int),
    ensures
        instrs_view(final(instrs)@) == drop_checks_by_facts(instrs_view(old(instrs)@)),
{
    let ghost all = instrs_view(instrs@);
    let ghost facts = facts_at(all, slot_total(all));
    let states = compute_runtime_slot_facts_at_instr(instrs);
    let count: usize = instrs.len();
    for i in 0..count
        invariant
            count == instrs@.len(),
            count == all.len(),
            states@.len() == count,
            flow_view(states@) == facts,
            forall|j: int| i <= j < count ==> (#[trigger] instrs@[j])@ == all[j],
            forall|j: int|
                0 <= j < i ==> (#[trigger] instrs@[j])@ == check_by_facts(all[j], facts[j]),
    {
        assert(instrs@[i as int]@ == all[i as int]);
        assert(flow_view(states@)[i as int] == facts[i as int]);
        let proven = match &states[i] {
            Some(known) => match &instrs[i] {
                RuntimeInstr::LoadIndex { base_slots, index, .. }
                | RuntimeInstr::StoreIndex { base_slots, index, .. } => {
                    runtime_index_operand_proven_in_bounds_from_facts(
                        known,
                        index,
                        base_slots.len(),
                    )
                },
                _ => false,
            },
            None => false,
        };
        if proven {
            let bare = without_check(&instrs[i]);
            instrs.set(i, bare);
        }
    }
    assert(instrs_view(instrs@) =~= drop_checks_by_facts(all));
}

} // verus!
