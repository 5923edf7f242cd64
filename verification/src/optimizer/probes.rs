//! Grouped hash probes: a loop that compares sixteen control bytes one by one
//! is given a mask of all matches, computed once before the loop.

use crate::ir::{
    copy_slots, instrs_view, InstrView, ProgramView, RuntimeBinOp, RuntimeCmpOp, RuntimeInstr,
    RuntimeOperand,
};
use crate::optimizer::control_flow::targets_in_bounds;
use crate::optimizer::loops::{
    counted_loop, counted_loops, find_relaxed_counted_loops, is_normalization, is_power_of_two,
    lemma_counted_loops, loop_in_program, slot_written_in_loop, written_in_loop, CountedLoopInfo,
    LoopLimit,
};
use crate::optimizer::slots::{
    instr_below, lemma_below_weaken, list_below, operand_below, slots_below,
};
use crate::optimizer::targets::{
    branch_target, bump_runtime_targets_from, code_target, map_branch_target, map_branch_targets,
    moved_up, runtime_branch_target,
};
use crate::optimizer::uses::{reads, runtime_instr_reads_slot, runtime_instr_writes_slot, writes};
use vstd::arithmetic::power2::is_pow2;
use vstd::prelude::*;

verus! {

/// The last instruction in `from..before` that writes the slot and does more
/// than normalise it.
pub open spec fn last_definition(
    instrs: Seq<InstrView>,
    from: int,
    before: int,
    slot: usize,
) -> Option<int>
    decreases before - from,
{
    if before <= from {
        None
    } else if writes(instrs[before - 1], slot) && !is_normalization(instrs[before - 1], slot) {
        Some(before - 1)
    } else {
        last_definition(instrs, from, before - 1, slot)
    }
}

/// The last instruction of a loop body before its use that defines the slot.
pub fn slot_def_idx_in_loop_body(
    instrs: &Vec<RuntimeInstr>,
    body_start: usize,
    use_idx: usize,
    slot: usize,
) -> (at: Option<usize>)
    requires
        use_idx <= instrs@.len(),
    ensures
        match at {
            Some(at) => last_definition(
                instrs_view(instrs@),
                body_start as int,
                use_idx as int,
                slot,
            ) == Some(at as int) && body_start <= at < use_idx && writes(instrs@[at as int]@, slot),
            None => last_definition(
                instrs_view(instrs@),
                body_start as int,
                use_idx as int,
                slot,
            ) is None,
        },
{
    let ghost all = instrs_view(instrs@);
    let mut at: usize = use_idx;
    while at > body_start
        invariant
            all == instrs_view(instrs@),
            at <= use_idx <= instrs@.len(),
            last_definition(all, body_start as int, at as int, slot) == last_definition(
                all,
                body_start as int,
                use_idx as int,
                slot,
            ),
        decreases at,
    {
        at = at - 1;
        assert(all[at as int] == instrs@[at as int]@);
        if runtime_instr_writes_slot(&instrs[at], slot) {
            match &instrs[at] {
                RuntimeInstr::NormalizeInt { .. } => {},
                _ => {
                    return Some(at);
                },
            }
        }
    }
    None
}

/// The operand has one value throughout the loop.
pub open spec fn is_loop_invariant(
    instrs: Seq<InstrView>,
    info: CountedLoopInfo,
    operand: RuntimeOperand,
) -> bool {
    match operand {
        RuntimeOperand::Imm(_) => true,
        RuntimeOperand::Slot(slot) => !written_in_loop(instrs, info, slot),
    }
}

/// Whether the operand has one value throughout the loop.
pub fn runtime_operand_loop_invariant(
    instrs: &Vec<RuntimeInstr>,
    info: CountedLoopInfo,
    operand: RuntimeOperand,
) -> (invariant_operand: bool)
    ensures
        invariant_operand == is_loop_invariant(instrs_view(instrs@), info, operand),
{
    match operand {
        RuntimeOperand::Imm(_) => true,
        RuntimeOperand::Slot(slot) => !slot_written_in_loop(instrs, info, slot),
    }
}

/// The slot and the mask of a masking by a constant.
pub open spec fn masked_slot(instr: InstrView) -> Option<(usize, u64)> {
    match instr {
        InstrView::BinOp { op: RuntimeBinOp::BitAnd, lhs, rhs, .. } => match (lhs, rhs) {
            (RuntimeOperand::Imm(mask), RuntimeOperand::Slot(slot)) => Some((slot, mask)),
            (RuntimeOperand::Slot(slot), RuntimeOperand::Imm(mask)) => Some((slot, mask)),
            _ => None,
        },
        _ => None,
    }
}

/// What is added to the slot in a sum.
pub open spec fn added_to(instr: InstrView, slot: usize) -> Option<RuntimeOperand> {
    match instr {
        InstrView::BinOp { op: RuntimeBinOp::Add, lhs, rhs, .. } => if lhs == RuntimeOperand::Slot(
            slot,
        ) {
            Some(rhs)
        } else if rhs == RuntimeOperand::Slot(slot) {
            Some(lhs)
        } else {
            None
        },
        _ => None,
    }
}

/// Where the group of sixteen that a loop probes starts: the index is the
/// induction slot itself, or the induction slot plus the start, wrapped to the
/// table by a mask.
pub open spec fn group_start(
    instrs: Seq<InstrView>,
    info: CountedLoopInfo,
    load: int,
    base_len: nat,
    index: RuntimeOperand,
) -> Option<RuntimeOperand> {
    if info.start != 0 || base_len < 16 || !is_pow2(base_len as int) {
        None
    } else {
        match index {
            RuntimeOperand::Imm(_) => None,
            RuntimeOperand::Slot(slot) => if slot == info.ind_slot && base_len == 16 {
                Some(RuntimeOperand::Imm(0))
            } else {
                match last_definition(instrs, info.header + 1, load, slot) {
                    Some(masking) => match masked_slot(instrs[masking]) {
                        Some((sum_slot, mask)) => if mask != base_len - 1 {
                            None
                        } else {
                            match last_definition(instrs, info.header + 1, masking, sum_slot) {
                                Some(sum) => match added_to(instrs[sum], info.ind_slot) {
                                    Some(start) => if is_loop_invariant(instrs, info, start) {
                                        Some(start)
                                    } else {
                                        None
                                    },
                                    None => None,
                                },
                                None => None,
                            }
                        },
                        None => None,
                    },
                    None => None,
                }
            },
        }
    }
}

/// Where the group of sixteen that a loop probes starts.
pub fn derive_group_start_for_grouped_probe(
    instrs: &Vec<RuntimeInstr>,
    info: CountedLoopInfo,
    load_idx: usize,
    base_len: usize,
    index: RuntimeOperand,
) -> (start: Option<RuntimeOperand>)
    requires
        load_idx <= instrs@.len(),
        info.header < usize::MAX,
    ensures
        start == group_start(
            instrs_view(instrs@),
            info,
            load_idx as int,
            base_len as nat,
            index,
        ),
{
    let ghost all = instrs_view(instrs@);
    if info.start != 0 || base_len < 16 || !is_power_of_two(base_len as u64) {
        return None;
    }
    let slot: usize = match index {
        RuntimeOperand::Imm(_) => return None,
        RuntimeOperand::Slot(slot) => slot,
    };
    if slot == info.ind_slot && base_len == 16 {
        return Some(RuntimeOperand::Imm(0));
    }
    let body_start: usize = info.header + 1;
    let masking: usize = match slot_def_idx_in_loop_body(instrs, body_start, load_idx, slot) {
        Some(at) => at,
        None => return None,
    };
    assert(all[masking as int] == instrs@[masking as int]@);
    let (sum_slot, mask): (usize, u64) = match &instrs[masking] {
        RuntimeInstr::BinOp { op: RuntimeBinOp::BitAnd, lhs, rhs, .. } => match (lhs, rhs) {
            (RuntimeOperand::Imm(mask), RuntimeOperand::Slot(slot)) => (*slot, *mask),
            (RuntimeOperand::Slot(slot), RuntimeOperand::Imm(mask)) => (*slot, *mask),
            _ => return None,
        },
        _ => return None,
    };
    if mask != base_len as u64 - 1 {
        return None;
    }
    let sum: usize = match slot_def_idx_in_loop_body(instrs, body_start, masking, sum_slot) {
        Some(at) => at,
        None => return None,
    };
    assert(all[sum as int] == instrs@[sum as int]@);
    let ind = RuntimeOperand::Slot(info.ind_slot);
    let start = match &instrs[sum] {
        RuntimeInstr::BinOp { op: RuntimeBinOp::Add, lhs, rhs, .. } => if *lhs == ind {
            *rhs
        } else if *rhs == ind {
            *lhs
        } else {
            return None;
        },
        _ => return None,
    };
    if runtime_operand_loop_invariant(instrs, info, start) {
        Some(start)
    } else {
        None
    }
}

/// A jump or call from outside the loop enters its header.
pub open spec fn entered_from_outside(instrs: Seq<InstrView>, info: CountedLoopInfo) -> bool {
    exists|i: int|
        0 <= i < instrs.len() && (i < info.header || i > info.latch) && #[trigger] branch_target(
            instrs[i],
        ) == Some(info.header)
}

/// Whether a jump or call from outside the loop enters its header.
pub fn loop_has_external_entry_to_header(
    instrs: &Vec<RuntimeInstr>,
    info: CountedLoopInfo,
) -> (entered: bool)
    ensures
        entered == entered_from_outside(instrs_view(instrs@), info),
{
    let ghost all = instrs_view(instrs@);
    for i in 0..instrs.len()
        invariant
            all == instrs_view(instrs@),
            forall|j: int|
                0 <= j < i && (j < info.header || j > info.latch) ==> #[trigger] branch_target(
                    all[j],
                ) != Some(info.header),
    {
        assert(all[i as int] == instrs@[i as int]@);
        if let Some(target) = runtime_branch_target(&instrs[i]) {
            if target == info.header && (i < info.header || i > info.latch) {
                assert(branch_target(all[i as int]) == Some(info.header));
                return true;
            }
        }
    }
    false
}

/// A comparison of a loaded control byte with the fingerprint looked for: the
/// slot loaded, the fingerprint, the table, and where the group starts.
pub struct GroupProbe {
    pub load_slot: usize,
    pub fingerprint: RuntimeOperand,
    pub ctrl_slots: Vec<usize>,
    pub group_start: RuntimeOperand,
}

/// A group probe in contracts.
#[verifier::ext_equal]
pub struct GroupProbeView {
    pub load_slot: usize,
    pub fingerprint: RuntimeOperand,
    pub ctrl_slots: Seq<usize>,
    pub group_start: RuntimeOperand,
}

impl View for GroupProbe {
    type V = GroupProbeView;

    open spec fn view(&self) -> GroupProbeView {
        GroupProbeView {
            load_slot: self.load_slot,
            fingerprint: self.fingerprint,
            ctrl_slots: self.ctrl_slots@,
            group_start: self.group_start,
        }
    }
}

/// The slot compared for equality and what it is compared with.
pub open spec fn equality_test(instr: InstrView) -> Option<(usize, RuntimeOperand)> {
    match instr {
        InstrView::JumpIfCmpFalse { op: RuntimeCmpOp::Eq, lhs, rhs, .. } => match (lhs, rhs) {
            (RuntimeOperand::Slot(slot), _) => Some((slot, rhs)),
            (_, RuntimeOperand::Slot(slot)) => Some((slot, lhs)),
            _ => None,
        },
        _ => None,
    }
}

/// The array and the index of a load, checked or not.
pub open spec fn indexed_load(instr: InstrView) -> Option<(Seq<usize>, RuntimeOperand)> {
    match instr {
        InstrView::LoadIndex { base_slots, index, .. } => Some((base_slots, index)),
        InstrView::LoadIndexUnchecked { base_slots, index, .. } => Some((base_slots, index)),
        _ => None,
    }
}

/// The probe made by the comparison at `at` in the body of a loop.
pub open spec fn probe_at(
    instrs: Seq<InstrView>,
    info: CountedLoopInfo,
    at: int,
) -> Option<GroupProbeView> {
    match equality_test(instrs[at]) {
        Some((load_slot, fingerprint)) => if fingerprint == RuntimeOperand::Imm(0)
            || !is_loop_invariant(instrs, info, fingerprint) {
            None
        } else {
            match last_definition(instrs, info.header + 1, at, load_slot) {
                Some(load) => match indexed_load(instrs[load]) {
                    Some((ctrl_slots, index)) => match group_start(
                        instrs,
                        info,
                        load,
                        ctrl_slots.len(),
                        index,
                    ) {
                        Some(start) => if (exists|k: int|
                            load < k < at && #[trigger] writes(instrs[k], load_slot)) || (exists|
                            k: int,
                        |
                            at < k < info.update_idx && #[trigger] reads(instrs[k], load_slot)) {
                            None
                        } else {
                            Some(
                                GroupProbeView {
                                    load_slot,
                                    fingerprint,
                                    ctrl_slots,
                                    group_start: start,
                                },
                            )
                        },
                        None => None,
                    },
                    None => None,
                },
                None => None,
            }
        },
        None => None,
    }
}

/// The probe made by the comparison at `at` in the body of a loop.
fn find_probe_at(
    instrs: &Vec<RuntimeInstr>,
    info: CountedLoopInfo,
    at: usize,
) -> (probe: Option<GroupProbe>)
    requires
        loop_in_program(info, instrs@.len()),
        info.header < at < info.update_idx,
    ensures
        match probe {
            Some(probe) => probe_at(instrs_view(instrs@), info, at as int) == Some(probe@),
            None => probe_at(instrs_view(instrs@), info, at as int) is None,
        },
{
    let ghost all = instrs_view(instrs@);
    assert(all[at as int] == instrs@[at as int]@);
    let (load_slot, fingerprint): (usize, RuntimeOperand) = match &instrs[at] {
        RuntimeInstr::JumpIfCmpFalse { op: RuntimeCmpOp::Eq, lhs, rhs, .. } => match (lhs, rhs) {
            (RuntimeOperand::Slot(slot), _) => (*slot, *rhs),
            (_, RuntimeOperand::Slot(slot)) => (*slot, *lhs),
            _ => return None,
        },
        _ => return None,
    };
    if fingerprint == RuntimeOperand::Imm(0) || !runtime_operand_loop_invariant(
        instrs,
        info,
        fingerprint,
    ) {
        return None;
    }
    let load: usize = match slot_def_idx_in_loop_body(instrs, info.header + 1, at, load_slot) {
        Some(load) => load,
        None => return None,
    };
    assert(all[load as int] == instrs@[load as int]@);
    let (ctrl_slots, index): (Vec<usize>, RuntimeOperand) = match &instrs[load] {
        RuntimeInstr::LoadIndex { base_slots, index, .. } => (copy_slots(base_slots), *index),
        RuntimeInstr::LoadIndexUnchecked { base_slots, index, .. } => {
            (copy_slots(base_slots), *index)
        },
        _ => return None,
    };
    let group_start = match derive_group_start_for_grouped_probe(
        instrs,
        info,
        load,
        ctrl_slots.len(),
        index,
    ) {
        Some(start) => start,
        None => return None,
    };
    for k in load + 1..at
        invariant
            all == instrs_view(instrs@),
            load < at < instrs@.len(),
            forall|j: int| load < j < k ==> !#[trigger] writes(all[j], load_slot),
            equality_test(all[at as int]) == Some((load_slot, fingerprint)),
            last_definition(all, info.header + 1, at as int, load_slot) == Some(load as int),
    {
        assert(all[k as int] == instrs@[k as int]@);
        if runtime_instr_writes_slot(&instrs[k], load_slot) {
            assert(writes(all[k as int], load_slot));
            return None;
        }
    }
    for k in at + 1..info.update_idx
        invariant
            all == instrs_view(instrs@),
            loop_in_program(info, instrs@.len()),
            at < info.update_idx,
            forall|j: int| at < j < k ==> !#[trigger] reads(all[j], load_slot),
            equality_test(all[at as int]) == Some((load_slot, fingerprint)),
            last_definition(all, info.header + 1, at as int, load_slot) == Some(load as int),
    {
        assert(all[k as int] == instrs@[k as int]@);
        if runtime_instr_reads_slot(&instrs[k], load_slot) {
            assert(reads(all[k as int], load_slot));
            return None;
        }
    }
    Some(GroupProbe { load_slot, fingerprint, ctrl_slots, group_start })
}

/// The first probe in `from..update` of a loop.
pub open spec fn first_probe(
    instrs: Seq<InstrView>,
    info: CountedLoopInfo,
    from: int,
) -> Option<(int, GroupProbeView)>
    decreases info.update_idx - from,
{
    if from >= info.update_idx {
        None
    } else {
        match probe_at(instrs, info, from) {
            Some(probe) => Some((from, probe)),
            None => first_probe(instrs, info, from + 1),
        }
    }
}

/// The program with an instruction put in at a position; jumps and calls to
/// that position or beyond move up with what they name.
pub open spec fn inserted(instrs: Seq<InstrView>, at: int, instr: InstrView) -> Seq<InstrView> {
    map_branch_targets(instrs.insert(at, instr), moved_up(at as usize, 1))
}

/// Inserting keeps slots and targets in range.
pub proof fn lemma_inserted(instrs: Seq<InstrView>, at: int, instr: InstrView, bound: int)
    requires
        0 <= at <= instrs.len(),
        instrs.len() < usize::MAX,
        code_target(instr) is None,
    ensures
        inserted(instrs, at, instr).len() == instrs.len() + 1,
        slots_below(instrs, bound) && instr_below(instr, bound) ==> slots_below(
            inserted(instrs, at, instr),
            bound,
        ),
        targets_in_bounds(instrs) ==> targets_in_bounds(inserted(instrs, at, instr)),
{
    let wide = instrs.insert(at, instr);
    let f = moved_up(at as usize, 1);
    let out = inserted(instrs, at, instr);
    assert forall|i: int| 0 <= i < wide.len() implies #[trigger] wide[i] == (if i < at {
        instrs[i]
    } else if i == at {
        instr
    } else {
        instrs[i - 1]
    }) by {}
    if slots_below(instrs, bound) && instr_below(instr, bound) {
        assert forall|i: int| 0 <= i < out.len() implies #[trigger] instr_below(out[i], bound) by {
            if i < at {
                assert(instr_below(instrs[i], bound));
            } else if i > at {
                assert(instr_below(instrs[i - 1], bound));
            }
            assert(out[i] == map_branch_target(wide[i], f));
        }
    }
    if targets_in_bounds(instrs) {
        assert forall|i: int| 0 <= i < out.len() implies ((#[trigger] code_target(
            out[i],
        )) matches Some(target) ==> target <= out.len()) by {
            assert(out[i] == map_branch_target(wide[i], f));
            if i < at {
                assert(code_target(instrs[i]) == code_target(wide[i]));
            } else if i > at {
                assert(code_target(instrs[i - 1]) == code_target(wide[i]));
            }
        }
    }
}

/// Puts an instruction in at a position.
fn insert_instr(instrs: &mut Vec<RuntimeInstr>, at: usize, instr: RuntimeInstr)
    requires
        at <= old(instrs)@.len(),
        targets_in_bounds(instrs_view(old(instrs)@)),
        code_target(instr@) is None,
    ensures
        instrs_view(final(instrs)@) == inserted(instrs_view(old(instrs)@), at as int, instr@),
        targets_in_bounds(instrs_view(final(instrs)@)),
        final(instrs)@.len() == old(instrs)@.len() + 1,
{
    let ghost before = instrs_view(instrs@);
    let ghost added = instr@;
    instrs.insert(at, instr);
    let count: usize = instrs.len();
    let ghost wide = instrs_view(instrs@);
    proof {
        assert(wide =~= before.insert(at as int, added));
        assert forall|i: int| 0 <= i < wide.len() implies ((#[trigger] branch_target(
            wide[i],
        )) matches Some(target) ==> target + 1 <= usize::MAX) by {
            if i < at {
                assert(wide[i] == before[i]);
                assert(code_target(before[i]) == code_target(wide[i]));
            } else if i > at {
                assert(wide[i] == before[i - 1]);
                assert(code_target(before[i - 1]) == code_target(wide[i]));
            }
        }
        lemma_inserted(before, at as int, added, 0);
    }
    bump_runtime_targets_from(instrs, at, 1);
}

/// The program with the comparison at `at` answered by a mask that is computed
/// once before the loop: bit i of it says whether the i-th byte of the group
/// matches.
pub open spec fn with_probe(
    instrs: Seq<InstrView>,
    info: CountedLoopInfo,
    at: int,
    probe: GroupProbeView,
    mask_slot: usize,
) -> Seq<InstrView> {
    let masked = inserted(
        instrs,
        info.header as int,
        InstrView::HashCtrlGroupProbe {
            dst_mask: mask_slot,
            ctrl_slots: probe.ctrl_slots,
            group_start: probe.group_start,
            fingerprint: probe.fingerprint,
        },
    );
    let shifted = inserted(
        masked,
        at + 1,
        InstrView::BinOp {
            dst: probe.load_slot,
            op: RuntimeBinOp::ShrUnsigned,
            lhs: RuntimeOperand::Slot(mask_slot),
            rhs: RuntimeOperand::Slot(info.ind_slot),
        },
    );
    let picked = inserted(
        shifted,
        at + 2,
        InstrView::BinOpInPlace {
            dst: probe.load_slot,
            op: RuntimeBinOp::BitAnd,
            rhs: RuntimeOperand::Imm(1),
        },
    );
    match branch_target(picked[at + 3]) {
        Some(target) => picked.update(
            at + 3,
            InstrView::JumpIfCmpFalse {
                op: RuntimeCmpOp::Eq,
                lhs: RuntimeOperand::Slot(probe.load_slot),
                rhs: RuntimeOperand::Imm(1),
                target,
            },
        ),
        None => picked,
    }
}

/// The program with a group probe for the loop, if it has one: a loop over
/// exactly sixteen bytes that only its own jump back enters.
pub open spec fn select_probe(program: ProgramView, info: CountedLoopInfo) -> Option<ProgramView> {
    if info.limit != LoopLimit::Imm(16) || info.start != 0 || entered_from_outside(
        program.instrs,
        info,
    ) || !(info.header < info.update_idx <= info.latch < program.instrs.len()) {
        None
    } else {
        match first_probe(program.instrs, info, info.header + 1) {
            Some((at, probe)) => Some(
                ProgramView {
                    slots: (program.slots + 1) as usize,
                    instrs: with_probe(program.instrs, info, at, probe, program.slots),
                },
            ),
            None => None,
        }
    }
}

/// A probe found lies in the body and speaks of slots of the program.
pub proof fn lemma_first_probe(
    instrs: Seq<InstrView>,
    info: CountedLoopInfo,
    from: int,
    bound: int,
)
    requires
        info.header < from,
        info.update_idx <= instrs.len(),
    ensures
        first_probe(instrs, info, from) matches Some((at, probe)) ==> {
            &&& from <= at < info.update_idx
            &&& probe_at(instrs, info, at) == Some(probe)
            &&& slots_below(instrs, bound) ==> {
                &&& probe.load_slot < bound
                &&& operand_below(probe.fingerprint, bound)
                &&& operand_below(probe.group_start, bound)
                &&& list_below(probe.ctrl_slots, bound)
            }
        },
    decreases info.update_idx - from,
{
    if from < info.update_idx {
        match probe_at(instrs, info, from) {
            Some(probe) => {
                if slots_below(instrs, bound) {
                    assert(instr_below(instrs[from], bound));
                    let load = last_definition(
                        instrs,
                        info.header + 1,
                        from,
                        probe.load_slot,
                    )->0;
                    lemma_last_definition(instrs, info.header + 1, from, probe.load_slot);
                    assert(instr_below(instrs[load], bound));
                    let (_, index) = indexed_load(instrs[load])->0;
                    if probe.group_start != RuntimeOperand::Imm(0) {
                        let slot = index->Slot_0;
                        lemma_last_definition(instrs, info.header + 1, load, slot);
                        let masking = last_definition(instrs, info.header + 1, load, slot)->0;
                        let (sum_slot, _) = masked_slot(instrs[masking])->0;
                        lemma_last_definition(instrs, info.header + 1, masking, sum_slot);
                        let sum = last_definition(instrs, info.header + 1, masking, sum_slot)->0;
                        assert(instr_below(instrs[sum], bound));
                    }
                }
            },
            None => {
                lemma_first_probe(instrs, info, from + 1, bound);
            },
        }
    }
}

/// A definition lies in the range.
proof fn lemma_last_definition(instrs: Seq<InstrView>, from: int, before: int, slot: usize)
    ensures
        last_definition(instrs, from, before, slot) matches Some(at) ==> from <= at < before,
    decreases before - from,
{
    if before > from {
        lemma_last_definition(instrs, from, before - 1, slot);
    }
}

/// A group probe keeps slots and targets in range, with one slot more.
pub proof fn lemma_select_probe(program: ProgramView, info: CountedLoopInfo)
    requires
        program.slots < usize::MAX,
        program.instrs.len() + 3 <= usize::MAX,
        info.ind_slot < program.slots,
        slots_below(program.instrs, program.slots as int),
        targets_in_bounds(program.instrs),
    ensures
        select_probe(program, info) matches Some(after) ==> {
            &&& after.slots == program.slots + 1
            &&& after.instrs.len() == program.instrs.len() + 3
            &&& slots_below(after.instrs, after.slots as int)
            &&& targets_in_bounds(after.instrs)
        },
{
    if let Some(after) = select_probe(program, info) {
        let instrs = program.instrs;
        let bound = program.slots + 1;
        assert forall|i: int| 0 <= i < instrs.len() implies #[trigger] instr_below(
            instrs[i],
            bound,
        ) by {
            assert(instr_below(instrs[i], program.slots as int));
            lemma_below_weaken(instrs[i], program.slots as int, bound);
        }
        lemma_first_probe(instrs, info, info.header + 1, bound);
        let (at, probe) = first_probe(instrs, info, info.header + 1)->0;
        let mask = InstrView::HashCtrlGroupProbe {
            dst_mask: program.slots,
            ctrl_slots: probe.ctrl_slots,
            group_start: probe.group_start,
            fingerprint: probe.fingerprint,
        };
        let shift = InstrView::BinOp {
            dst: probe.load_slot,
            op: RuntimeBinOp::ShrUnsigned,
            lhs: RuntimeOperand::Slot(program.slots),
            rhs: RuntimeOperand::Slot(info.ind_slot),
        };
        let pick = InstrView::BinOpInPlace {
            dst: probe.load_slot,
            op: RuntimeBinOp::BitAnd,
            rhs: RuntimeOperand::Imm(1),
        };
        let masked = inserted(instrs, info.header as int, mask);
        lemma_inserted(instrs, info.header as int, mask, bound);
        let shifted = inserted(masked, at + 1, shift);
        lemma_inserted(masked, at + 1, shift, bound);
        let picked = inserted(shifted, at + 2, pick);
        lemma_inserted(shifted, at + 2, pick, bound);
        assert forall|i: int| 0 <= i < after.instrs.len() implies #[trigger] instr_below(
            after.instrs[i],
            bound,
        ) by {
            assert(instr_below(picked[i], bound));
        }
        assert forall|i: int| 0 <= i < after.instrs.len() implies ((#[trigger] code_target(
            after.instrs[i],
        )) matches Some(target) ==> target <= after.instrs.len()) by {
            assert(code_target(picked[i]) matches Some(target) ==> target <= picked.len());
        }
    }
}

/// Gives a loop a group probe, if it has one.
pub fn try_select_grouped_hash_probe_loop(
    instrs: &mut Vec<RuntimeInstr>,
    slots: &mut usize,
    info: CountedLoopInfo,
) -> (selected: bool)
    requires
        *old(slots) < usize::MAX,
        targets_in_bounds(instrs_view(old(instrs)@)),
        loop_in_program(info, old(instrs)@.len()),
    ensures
        match select_probe(
            (ProgramView { slots: *old(slots), instrs: instrs_view(old(instrs)@) }),
            info,
        ) {
            Some(program) => selected && *final(slots) == program.slots && instrs_view(
                final(instrs)@,
            ) == program.instrs && final(instrs)@.len() == old(instrs)@.len() + 3,
            None => !selected && *final(slots) == *old(slots) && *final(instrs) == *old(instrs),
        },
{
    let ghost all = instrs_view(instrs@);
    if info.limit != LoopLimit::Imm(16) || info.start != 0 || loop_has_external_entry_to_header(
        instrs,
        info,
    ) {
        return false;
    }
    let mut at: usize = info.header + 1;
    while at < info.update_idx
        invariant
            instrs == old(instrs),
            slots == old(slots),
            all == instrs_view(instrs@),
            *slots < usize::MAX,
            targets_in_bounds(all),
            loop_in_program(info, instrs@.len()),
            info.limit == LoopLimit::Imm(16),
            info.start == 0,
            !entered_from_outside(all, info),
            info.header < at <= info.update_idx,
            first_probe(all, info, info.header + 1) == first_probe(all, info, at as int),
        decreases info.update_idx - at,
    {
        if let Some(probe) = find_probe_at(instrs, info, at) {
            let mask_slot: usize = *slots;
            *slots = mask_slot + 1;
            let GroupProbe { load_slot, fingerprint, ctrl_slots, group_start } = probe;
            insert_instr(
                instrs,
                info.header,
                RuntimeInstr::HashCtrlGroupProbe {
                    dst_mask: mask_slot,
                    ctrl_slots,
                    group_start,
                    fingerprint,
                },
            );
            insert_instr(
                instrs,
                at + 1,
                RuntimeInstr::BinOp {
                    dst: load_slot,
                    op: RuntimeBinOp::ShrUnsigned,
                    lhs: RuntimeOperand::Slot(mask_slot),
                    rhs: RuntimeOperand::Slot(info.ind_slot),
                },
            );
            insert_instr(
                instrs,
                at + 2,
                RuntimeInstr::BinOpInPlace {
                    dst: load_slot,
                    op: RuntimeBinOp::BitAnd,
                    rhs: RuntimeOperand::Imm(1),
                },
            );
            let ghost picked = instrs_view(instrs@);
            assert(picked[at + 3] == instrs@[at + 3]@);
            let target = runtime_branch_target(&instrs[at + 3]);
            if let Some(target) = target {
                instrs.set(
                    at + 3,
                    RuntimeInstr::JumpIfCmpFalse {
                        op: RuntimeCmpOp::Eq,
                        lhs: RuntimeOperand::Slot(load_slot),
                        rhs: RuntimeOperand::Imm(1),
                        target,
                    },
                );
            }
            assert(instrs_view(instrs@) =~= with_probe(all, info, at as int, probe@, mask_slot));
            return true;
        }
        at = at + 1;
    }
    false
}

/// The program after the first of the loops from `from` on that has a group
/// probe is given it.
pub open spec fn select_first(
    program: ProgramView,
    loops: Seq<CountedLoopInfo>,
    from: int,
) -> Option<ProgramView>
    decreases loops.len() - from,
{
    if from >= loops.len() {
        None
    } else {
        match select_probe(program, loops[from]) {
            Some(after) => Some(after),
            None => select_first(program, loops, from + 1),
        }
    }
}

/// How many group probes one program is given at most.
pub const MAX_GROUP_PROBES: u8 = 8;

/// The program with group probes for its first loops that have one, at most
/// `rounds` of them.
pub open spec fn select_probes(program: ProgramView, rounds: nat) -> ProgramView
    decreases rounds,
{
    if rounds == 0 {
        program
    } else {
        match select_first(
            program,
            counted_loops(program.instrs, false, program.instrs.len() as int),
            0,
        ) {
            Some(after) => select_probes(after, (rounds - 1) as nat),
            None => program,
        }
    }
}

/// The induction slots of loops that were found are slots of the program.
proof fn lemma_loop_slots(instrs: Seq<InstrView>, canonical: bool, n: int, bound: int)
    requires
        0 <= n <= instrs.len(),
        instrs.len() <= usize::MAX,
        slots_below(instrs, bound),
    ensures
        forall|i: int|
            0 <= i < counted_loops(instrs, canonical, n).len() ==> (#[trigger] counted_loops(
                instrs,
                canonical,
                n,
            )[i]).ind_slot < bound,
    decreases n,
{
    if n > 0 {
        lemma_loop_slots(instrs, canonical, n - 1, bound);
        let before = counted_loops(instrs, canonical, n - 1);
        let after = counted_loops(instrs, canonical, n);
        if let Some(info) = counted_loop(instrs, n - 1, canonical) {
            assert(instr_below(instrs[info.header as int], bound));
        }
        assert forall|i: int| 0 <= i < after.len() implies (#[trigger] after[i]).ind_slot
            < bound by {
            if i < before.len() {
                assert(after[i] == before[i]);
            }
        }
    }
}

/// Gives the loops of a program group probes, one after the other.
pub fn select_grouped_hash_probe_loops(instrs: &mut Vec<RuntimeInstr>, slots: &mut usize)
    requires
        *old(slots) + MAX_GROUP_PROBES <= usize::MAX,
        slots_below(instrs_view(old(instrs)@), *old(slots) as int),
        targets_in_bounds(instrs_view(old(instrs)@)),
    ensures
        (ProgramView { slots: *final(slots), instrs: instrs_view(final(instrs)@) })
            == select_probes(
            (ProgramView { slots: *old(slots), instrs: instrs_view(old(instrs)@) }),
            MAX_GROUP_PROBES as nat,
        ),
        slots_below(instrs_view(final(instrs)@), *final(slots) as int),
        targets_in_bounds(instrs_view(final(instrs)@)),
        *old(slots) <= *final(slots) <= *old(slots) + MAX_GROUP_PROBES,
{
    let ghost start = ProgramView { slots: *slots, instrs: instrs_view(instrs@) };
    let mut rounds: u8 = MAX_GROUP_PROBES;
    let mut changed = true;
    while changed && rounds > 0
        invariant
            rounds <= MAX_GROUP_PROBES,
            start.slots + MAX_GROUP_PROBES <= usize::MAX,
            start.slots <= *slots <= start.slots + MAX_GROUP_PROBES - rounds,
            slots_below(instrs_view(instrs@), *slots as int),
            targets_in_bounds(instrs_view(instrs@)),
            changed ==> select_probes(start, MAX_GROUP_PROBES as nat) == select_probes(
                (ProgramView { slots: *slots, instrs: instrs_view(instrs@) }),
                rounds as nat,
            ),
            !changed ==> select_probes(start, MAX_GROUP_PROBES as nat) == (ProgramView {
                slots: *slots,
                instrs: instrs_view(instrs@),
            }),
        decreases rounds,
    {
        let ghost program = ProgramView { slots: *slots, instrs: instrs_view(instrs@) };
        let ghost count = instrs@.len();
        let loops = find_relaxed_counted_loops(instrs);
        let count_now: usize = instrs.len();
        proof {
            lemma_counted_loops(program.instrs, false, program.instrs.len() as int);
            lemma_loop_slots(
                program.instrs,
                false,
                program.instrs.len() as int,
                program.slots as int,
            );
        }
        changed = false;
        let mut next: usize = 0;
        while next < loops.len() && !changed
            invariant
                next <= loops@.len(),
                program.instrs.len() == count,
                loops@ == counted_loops(program.instrs, false, program.instrs.len() as int),
                forall|i: int|
                    0 <= i < loops@.len() ==> loop_in_program(#[trigger] loops@[i], count),
                forall|i: int|
                    0 <= i < loops@.len() ==> (#[trigger] loops@[i]).ind_slot < program.slots,
                slots_below(program.instrs, program.slots as int),
                targets_in_bounds(program.instrs),
                program.slots < usize::MAX,
                !changed ==> program == (ProgramView {
                    slots: *slots,
                    instrs: instrs_view(instrs@),
                })
                    && select_first(program, loops@, 0) == select_first(
                    program,
                    loops@,
                    next as int,
                ),
                changed ==> select_first(program, loops@, 0) == Some(
                    ProgramView { slots: *slots, instrs: instrs_view(instrs@) },
                ) && *slots == program.slots + 1 && slots_below(
                    instrs_view(instrs@),
                    *slots as int,
                ) && targets_in_bounds(instrs_view(instrs@)),
            decreases loops@.len() - next + (if changed { 0int } else { 1int }),
        {
            let info = loops[next];
            changed = try_select_grouped_hash_probe_loop(instrs, slots, info);
            if changed {
                let longer: usize = instrs.len();
                proof {
                    lemma_select_probe(program, info);
                }
            } else {
                next = next + 1;
            }
        }
        rounds = rounds - 1;
    }
}

} // verus!
