//! Branches whose outcome the code before them settles.

use crate::ir::{instrs_view, InstrView, RuntimeInstr};
use crate::optimizer::consts::{comparison_holds, eval_runtime_comparison};
use crate::optimizer::reaching::{
    operand_const, operand_const_before, slot_const, slot_const_before,
};
use crate::optimizer::slots::{instr_below, slots_below};
use crate::optimizer::targets::{block_start, runtime_basic_block_starts};
use vstd::prelude::*;

verus! {

/// The branch at `index`, made a jump if constants defined in its basic block
/// settle it: to its target if it is taken, else to the next instruction, so
/// that instruction numbers stay as they are.
pub open spec fn settled_branch(instrs: Seq<InstrView>, index: int) -> InstrView {
    let start = block_start(instrs, index);
    let next = InstrView::Jump { target: (index + 1) as usize };
    match instrs[index] {
        InstrView::JumpIfZero { cond_slot, target } => match slot_const(
            instrs,
            start,
            index,
            cond_slot,
            0,
        ) {
            Some(value) => if value == 0 {
                InstrView::Jump { target }
            } else {
                next
            },
            None => instrs[index],
        },
        InstrView::JumpIfCmpFalse { op, lhs, rhs, target } => match (
            operand_const(instrs, start, index, lhs, 0),
            operand_const(instrs, start, index, rhs, 0),
        ) {
            (Some(l), Some(r)) => if comparison_holds(op, l, r) {
                next
            } else {
                InstrView::Jump { target }
            },
            _ => instrs[index],
        },
        _ => instrs[index],
    }
}

/// The instructions with settled branches made jumps.
pub open spec fn settle_branches(instrs: Seq<InstrView>) -> Seq<InstrView> {
    Seq::new(instrs.len(), |i: int| settled_branch(instrs, i))
}

/// Settles the branch at `index`, if it is one.
fn settle_branch(instrs: &Vec<RuntimeInstr>, index: usize, start: usize) -> (settled: RuntimeInstr)
    requires
        index < instrs@.len(),
        start == block_start(instrs_view(instrs@), index as int),
    ensures
        settled@ == settled_branch(instrs_view(instrs@), index as int),
{
    let count: usize = instrs.len();
    assert(index < count);
    assert(instrs_view(instrs@)[index as int] == instrs@[index as int]@);
    match &instrs[index] {
        RuntimeInstr::JumpIfZero { cond_slot, target } => {
            match slot_const_before(instrs, start, index, *cond_slot, 0) {
                Some(value) => {
                    if value == 0 {
                        RuntimeInstr::Jump { target: *target }
                    } else {
                        RuntimeInstr::Jump { target: index + 1 }
                    }
                },
                None => instrs[index].clone(),
            }
        },
        RuntimeInstr::JumpIfCmpFalse { op, lhs, rhs, target } => {
            let left = operand_const_before(instrs, start, index, lhs, 0);
            let right = operand_const_before(instrs, start, index, rhs, 0);
            match (left, right) {
                (Some(l), Some(r)) => {
                    if eval_runtime_comparison(*op, l, r) == 0 {
                        RuntimeInstr::Jump { target: *target }
                    } else {
                        RuntimeInstr::Jump { target: index + 1 }
                    }
                },
                _ => instrs[index].clone(),
            }
        },
        _ => instrs[index].clone(),
    }
}

/// Turns branches that constants in their basic block settle into jumps.
pub fn specialize_runtime_invariant_constants_instrs(instrs: Vec<RuntimeInstr>) -> (settled: Vec<
    RuntimeInstr,
>)
    ensures
        instrs_view(settled@) == settle_branches(instrs_view(instrs@)),
{
    let ghost all = instrs_view(instrs@);
    let starts = runtime_basic_block_starts(&instrs);
    let mut out: Vec<RuntimeInstr> = Vec::with_capacity(instrs.len());
    for i in 0..instrs.len()
        invariant
            all == instrs_view(instrs@),
            starts@.len() == all.len(),
            forall|j: int|
                0 <= j < starts@.len() ==> #[trigger] starts@[j] == block_start(all, j),
            out@.len() == i,
            forall|j: int| 0 <= j < i ==> (#[trigger] out@[j])@ == settled_branch(all, j),
    {
        assert(starts@[i as int] == block_start(all, i as int));
        out.push(settle_branch(&instrs, i, starts[i]));
    }
    assert(instrs_view(out@) =~= settle_branches(all));
    out
}

/// Settling branches keeps the program's slots in range.
pub proof fn lemma_settle_branches_in_range(instrs: Seq<InstrView>, bound: int)
    requires
        slots_below(instrs, bound),
    ensures
        slots_below(settle_branches(instrs), bound),
{
    let out = settle_branches(instrs);
    assert forall|i: int| 0 <= i < out.len() implies #[trigger] instr_below(out[i], bound) by {
        assert(instr_below(instrs[i], bound));
    }
}

} // verus!
