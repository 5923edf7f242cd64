//! A group probe answers the comparison that it stands for.

use crate::ir::{InstrView, RuntimeBinOp, RuntimeOperand};
use crate::optimizer::consts::{binop_value, comparison_holds};
use crate::optimizer::loops::CountedLoopInfo;
use crate::optimizer::machine::{step, value_of, SlotState};
use crate::optimizer::probes::{equality_test, inserted, probe_at, with_probe, GroupProbeView};
use crate::optimizer::targets::{branch_target, map_branch_target, moved_up};
use vstd::prelude::*;

verus! {

/// Where the comparison of a probe goes once three instructions are put in before it.
pub open spec fn probe_target(info: CountedLoopInfo, at: int, target: usize) -> usize {
    let one = moved_up(info.header, 1)(target);
    let two = moved_up((at + 1) as usize, 1)(one);
    moved_up((at + 2) as usize, 1)(two)
}

/// In the round that a bit of the mask is about, the instructions that pick the bit and
/// compare it decide as the comparison of the byte with the fingerprint does: where the
/// bit says whether they are equal, control goes on or to the same place, and no slot but
/// that of the byte is changed. The mask is asked for before the loop, for the table, the
/// group and the fingerprint of the comparison.
pub proof fn law_probes_answer_their_comparison(
    instrs: Seq<InstrView>,
    info: CountedLoopInfo,
    at: int,
    probe: GroupProbeView,
    mask_slot: usize,
    state: SlotState,
    shifted: u64,
)
    requires
        info.header < at < instrs.len() < usize::MAX - 3,
        probe_at(instrs, info, at) == Some(probe),
        branch_target(instrs[at]) matches Some(target) && target < usize::MAX - 3,
        probe.load_slot < state.len(),
        mask_slot < state.len(),
        info.ind_slot < state.len(),
        binop_value(
            RuntimeBinOp::ShrUnsigned,
            state[mask_slot as int],
            state[info.ind_slot as int],
        ) == Some(shifted),
        binop_value(RuntimeBinOp::BitAnd, shifted, 1) == Some(
            if state[probe.load_slot as int] == value_of(probe.fingerprint, state) {
                1u64
            } else {
                0u64
            },
        ),
    ensures
        ({
            let new = with_probe(instrs, info, at, probe, mask_slot);
            &&& new.len() == instrs.len() + 3
            &&& new[info.header as int] == (InstrView::HashCtrlGroupProbe {
                dst_mask: mask_slot,
                ctrl_slots: probe.ctrl_slots,
                group_start: probe.group_start,
                fingerprint: probe.fingerprint,
            })
            &&& step(new[at + 1], state) matches Some(middle)
            && step(new[at + 2], middle) matches Some(
                after,
            ) && {
                &&& after.len() == state.len()
                &&& forall|slot: int|
                    0 <= slot < state.len() && slot != probe.load_slot ==> #[trigger] after[slot]
                        == state[slot]
                &&& (new[at + 3], instrs[at]) matches (
                    InstrView::JumpIfCmpFalse { op, lhs, rhs, target },
                    InstrView::JumpIfCmpFalse {
                        op: old_op,
                        lhs: old_lhs,
                        rhs: old_rhs,
                        target: old,
                    },
                ) && comparison_holds(op, value_of(lhs, after), value_of(rhs, after))
                    == comparison_holds(
                    old_op,
                    value_of(old_lhs, state),
                    value_of(old_rhs, state),
                ) && target == probe_target(info, at, old)
            }
        }),
{
    let header = info.header as int;
    let ask = InstrView::HashCtrlGroupProbe {
        dst_mask: mask_slot,
        ctrl_slots: probe.ctrl_slots,
        group_start: probe.group_start,
        fingerprint: probe.fingerprint,
    };
    let shift = InstrView::BinOp {
        dst: probe.load_slot,
        op: RuntimeBinOp::ShrUnsigned,
        lhs: RuntimeOperand::Slot(mask_slot),
        rhs: RuntimeOperand::Slot(info.ind_slot),
    };
    let pick = InstrView::BinOpInPlace {
        dst: probe.load_slot,
        op: RuntimeBinOp::BitAnd,
        rhs: RuntimeOperand::Imm(1),
    };
    let masked = inserted(instrs, header, ask);
    let second = inserted(masked, at + 1, shift);
    let picked = inserted(second, at + 2, pick);
    assert(masked[at + 1] == map_branch_target(instrs[at], moved_up(info.header, 1)));
    assert(second[at + 1] == map_branch_target(shift, moved_up((at + 1) as usize, 1)));
    assert(second[at + 2] == map_branch_target(masked[at + 1], moved_up((at + 1) as usize, 1)));
    assert(picked[at + 3] == map_branch_target(second[at + 2], moved_up((at + 2) as usize, 1)));
    assert(equality_test(instrs[at]) is Some);
    let new = with_probe(instrs, info, at, probe, mask_slot);
    let middle = step(new[at + 1], state)->0;
    assert(middle =~= state.update(probe.load_slot as int, shifted));
}

} // verus!
