//! Where control may go: branch targets, basic blocks, and the renumbering of
//! targets when instructions move.

use crate::ir::{instrs_view, InstrView, RuntimeInstr};
use vstd::prelude::*;

verus! {

/// The instruction that a jump or call names.
pub open spec fn branch_target(instr: InstrView) -> Option<usize> {
    match instr {
        InstrView::Jump { target }
        | InstrView::JumpIfZero { target, .. }
        | InstrView::JumpIfCmpFalse { target, .. }
        | InstrView::Call { target } => Some(target),
        _ => None,
    }
}

/// The instruction that a jump, a call or a thread start names.
pub open spec fn code_target(instr: InstrView) -> Option<usize> {
    match instr {
        InstrView::ThreadSpawn { target, .. } => Some(target),
        _ => branch_target(instr),
    }
}

/// A jump or call made to name another instruction.
pub open spec fn with_branch_target(instr: InstrView, to: usize) -> InstrView {
    match instr {
        InstrView::Jump { .. } => InstrView::Jump { target: to },
        InstrView::JumpIfZero { cond_slot, .. } => InstrView::JumpIfZero { cond_slot, target: to },
        InstrView::JumpIfCmpFalse { op, lhs, rhs, .. } => {
            InstrView::JumpIfCmpFalse { op, lhs, rhs, target: to }
        },
        InstrView::Call { .. } => InstrView::Call { target: to },
        _ => instr,
    }
}

/// A jump, call or thread start made to name another instruction.
pub open spec fn with_code_target(instr: InstrView, to: usize) -> InstrView {
    match instr {
        InstrView::ThreadSpawn { handle_dst, return_slot, .. } => {
            InstrView::ThreadSpawn { handle_dst, target: to, return_slot }
        },
        _ => with_branch_target(instr, to),
    }
}

/// The jumps and calls of an instruction renumbered by `f`.
pub open spec fn map_branch_target(instr: InstrView, f: spec_fn(usize) -> usize) -> InstrView {
    match branch_target(instr) {
        Some(target) => with_branch_target(instr, f(target)),
        None => instr,
    }
}

/// The jumps, calls and thread starts of an instruction renumbered by `f`.
pub open spec fn map_code_target(instr: InstrView, f: spec_fn(usize) -> usize) -> InstrView {
    match code_target(instr) {
        Some(target) => with_code_target(instr, f(target)),
        None => instr,
    }
}

/// Every instruction's jumps and calls renumbered by `f`.
pub open spec fn map_branch_targets(
    instrs: Seq<InstrView>,
    f: spec_fn(usize) -> usize,
) -> Seq<InstrView> {
    Seq::new(instrs.len(), |i: int| map_branch_target(instrs[i], f))
}

/// Every instruction's jumps, calls and thread starts renumbered by `f`.
pub open spec fn map_code_targets(
    instrs: Seq<InstrView>,
    f: spec_fn(usize) -> usize,
) -> Seq<InstrView> {
    Seq::new(instrs.len(), |i: int| map_code_target(instrs[i], f))
}

/// Every jump and call names an instruction or the end.
pub open spec fn branches_in_bounds(instrs: Seq<InstrView>) -> bool {
    forall|i: int|
        0 <= i < instrs.len() ==> ((#[trigger] branch_target(instrs[i])) matches Some(target)
            ==> target <= instrs.len())
}

/// The instruction may send control elsewhere than to the next instruction.
pub open spec fn is_boundary(instr: InstrView) -> bool {
    match instr {
        InstrView::Jump { .. }
        | InstrView::JumpIfZero { .. }
        | InstrView::JumpIfCmpFalse { .. }
        | InstrView::Call { .. }
        | InstrView::Return
        | InstrView::Exit { .. } => true,
        _ => false,
    }
}

/// The instruction is a jump or call that names the one at `index`.
pub open spec fn branches_to(instr: InstrView, index: int) -> bool {
    branch_target(instr) matches Some(target) && target == index
}

/// Some jump or call names the instruction at `index`.
pub open spec fn is_branched_to(instrs: Seq<InstrView>, index: int) -> bool {
    exists|i: int| 0 <= i < instrs.len() && #[trigger] branches_to(instrs[i], index)
}

/// The instruction is a jump, call or thread start that names the one at
/// `index`.
pub open spec fn enters(instr: InstrView, index: int) -> bool {
    code_target(instr) matches Some(target) && target == index
}

/// Some jump, call or thread start names the instruction at `index`: control may
/// arrive there from elsewhere than the instruction before it.
pub open spec fn is_entered(instrs: Seq<InstrView>, index: int) -> bool {
    exists|i: int| 0 <= i < instrs.len() && #[trigger] enters(instrs[i], index)
}

/// Where the basic block of the instruction at `index` starts: at the start of
/// the program, at a branch target, or after an instruction that may branch.
pub open spec fn block_start(instrs: Seq<InstrView>, index: int) -> int
    decreases index,
{
    if index <= 0 || is_branched_to(instrs, index) || is_boundary(instrs[index - 1]) {
        index
    } else {
        block_start(instrs, index - 1)
    }
}

/// A basic block starts at or before each of its instructions.
pub proof fn lemma_block_start(instrs: Seq<InstrView>, index: int)
    requires
        0 <= index,
    ensures
        0 <= block_start(instrs, index) <= index,
    decreases index,
{
    if !(index <= 0 || is_branched_to(instrs, index) || is_boundary(instrs[index - 1])) {
        lemma_block_start(instrs, index - 1);
    }
}

/// The instruction that a jump or call names.
pub fn runtime_branch_target(instr: &RuntimeInstr) -> (target: Option<usize>)
    ensures
        target == branch_target(instr@),
{
    match instr {
        RuntimeInstr::Jump { target }
        | RuntimeInstr::JumpIfZero { target, .. }
        | RuntimeInstr::JumpIfCmpFalse { target, .. }
        | RuntimeInstr::Call { target } => Some(*target),
        _ => None,
    }
}

/// The instruction that a jump, a call or a thread start names.
pub fn runtime_code_target(instr: &RuntimeInstr) -> (target: Option<usize>)
    ensures
        target == code_target(instr@),
{
    match instr {
        RuntimeInstr::ThreadSpawn { target, .. } => Some(*target),
        _ => runtime_branch_target(instr),
    }
}

/// A jump or call made to name another instruction.
pub fn retarget_branch(instr: &RuntimeInstr, to: usize) -> (moved: RuntimeInstr)
    ensures
        moved@ == with_branch_target(instr@, to),
{
    match instr {
        RuntimeInstr::Jump { .. } => RuntimeInstr::Jump { target: to },
        RuntimeInstr::JumpIfZero { cond_slot, .. } => {
            RuntimeInstr::JumpIfZero { cond_slot: *cond_slot, target: to }
        },
        RuntimeInstr::JumpIfCmpFalse { op, lhs, rhs, .. } => {
            RuntimeInstr::JumpIfCmpFalse { op: *op, lhs: *lhs, rhs: *rhs, target: to }
        },
        RuntimeInstr::Call { .. } => RuntimeInstr::Call { target: to },
        _ => instr.clone(),
    }
}

/// A jump, call or thread start made to name another instruction.
pub fn retarget_code(instr: &RuntimeInstr, to: usize) -> (moved: RuntimeInstr)
    ensures
        moved@ == with_code_target(instr@, to),
{
    match instr {
        RuntimeInstr::ThreadSpawn { handle_dst, return_slot, .. } => {
            RuntimeInstr::ThreadSpawn {
                handle_dst: *handle_dst,
                target: to,
                return_slot: *return_slot,
            }
        },
        _ => retarget_branch(instr, to),
    }
}

/// Whether the instruction may send control elsewhere than to the next one.
pub fn runtime_instr_is_cfg_boundary(instr: &RuntimeInstr) -> (boundary: bool)
    ensures
        boundary == is_boundary(instr@),
{
    match instr {
        RuntimeInstr::Jump { .. }
        | RuntimeInstr::JumpIfZero { .. }
        | RuntimeInstr::JumpIfCmpFalse { .. }
        | RuntimeInstr::Call { .. }
        | RuntimeInstr::Return
        | RuntimeInstr::Exit { .. } => true,
        _ => false,
    }
}

/// A prefix extended by one instruction branches to `index` if it did before
/// or the instruction does.
proof fn lemma_branched_to_prefix(instrs: Seq<InstrView>, n: int, index: int)
    requires
        0 <= n < instrs.len(),
    ensures
        is_branched_to(instrs.take(n + 1), index) <==> is_branched_to(instrs.take(n), index)
            || branches_to(instrs[n], index),
{
    let longer = instrs.take(n + 1);
    let shorter = instrs.take(n);
    assert(branches_to(longer[n], index) == branches_to(instrs[n], index));
    if is_branched_to(shorter, index) {
        let k = choose|k: int| 0 <= k < shorter.len() && #[trigger] branches_to(shorter[k], index);
        assert(branches_to(longer[k], index));
    }
    if is_branched_to(longer, index) {
        let k = choose|k: int| 0 <= k < longer.len() && #[trigger] branches_to(longer[k], index);
        if k < n {
            assert(branches_to(shorter[k], index));
        }
    }
}

/// A prefix extended by one instruction enters `index` if it did before
/// or the instruction does.
proof fn lemma_entered_prefix(instrs: Seq<InstrView>, n: int, index: int)
    requires
        0 <= n < instrs.len(),
    ensures
        is_entered(instrs.take(n + 1), index) <==> is_entered(instrs.take(n), index)
            || enters(instrs[n], index),
{
    let longer = instrs.take(n + 1);
    let shorter = instrs.take(n);
    assert(enters(longer[n], index) == enters(instrs[n], index));
    if is_entered(shorter, index) {
        let k = choose|k: int| 0 <= k < shorter.len() && #[trigger] enters(shorter[k], index);
        assert(enters(longer[k], index));
    }
    if is_entered(longer, index) {
        let k = choose|k: int| 0 <= k < longer.len() && #[trigger] enters(longer[k], index);
        if k < n {
            assert(enters(shorter[k], index));
        }
    }
}

/// For each instruction, whether some jump or call names it.
pub fn control_flow_targets(instrs: &[RuntimeInstr]) -> (flags: Vec<bool>)
    ensures
        flags@.len() == instrs@.len(),
        forall|i: int|
            0 <= i < flags@.len() ==> #[trigger] flags@[i] == is_branched_to(
                instrs_view(instrs@),
                i,
            ),
{
    let ghost all = instrs_view(instrs@);
    let mut flags: Vec<bool> = vec![false; instrs.len()];
    for i in 0..instrs.len()
        invariant
            all == instrs_view(instrs@),
            flags@.len() == instrs@.len(),
            forall|j: int|
                0 <= j < flags@.len() ==> #[trigger] flags@[j] == is_branched_to(
                    all.take(i as int),
                    j,
                ),
    {
        let ghost before = flags@;
        let target = runtime_branch_target(&instrs[i]);
        if let Some(target) = target {
            if target < flags.len() {
                flags.set(target, true);
            }
        }
        proof {
            assert(all[i as int] == instrs@[i as int]@);
            assert forall|j: int| 0 <= j < flags@.len() implies #[trigger] flags@[j]
                == is_branched_to(all.take(i + 1), j) by {
                lemma_branched_to_prefix(all, i as int, j);
                assert(before[j] == is_branched_to(all.take(i as int), j));
            }
        }
    }
    assert(all.take(instrs@.len() as int) =~= all);
    flags
}

/// For each instruction, whether some jump, call or thread start names it.
pub fn control_flow_entries(instrs: &[RuntimeInstr]) -> (flags: Vec<bool>)
    ensures
        flags@.len() == instrs@.len(),
        forall|i: int|
            0 <= i < flags@.len() ==> #[trigger] flags@[i] == is_entered(
                instrs_view(instrs@),
                i,
            ),
{
    let ghost all = instrs_view(instrs@);
    let mut flags: Vec<bool> = vec![false; instrs.len()];
    for i in 0..instrs.len()
        invariant
            all == instrs_view(instrs@),
            flags@.len() == instrs@.len(),
            forall|j: int|
                0 <= j < flags@.len() ==> #[trigger] flags@[j] == is_entered(
                    all.take(i as int),
                    j,
                ),
    {
        let ghost before = flags@;
        let target = runtime_code_target(&instrs[i]);
        if let Some(target) = target {
            if target < flags.len() {
                flags.set(target, true);
            }
        }
        proof {
            assert(all[i as int] == instrs@[i as int]@);
            assert forall|j: int| 0 <= j < flags@.len() implies #[trigger] flags@[j]
                == is_entered(all.take(i + 1), j) by {
                lemma_entered_prefix(all, i as int, j);
                assert(before[j] == is_entered(all.take(i as int), j));
            }
        }
    }
    assert(all.take(instrs@.len() as int) =~= all);
    flags
}

/// For each instruction, where its basic block starts.
pub fn runtime_basic_block_starts(instrs: &[RuntimeInstr]) -> (starts: Vec<usize>)
    ensures
        starts@.len() == instrs@.len(),
        forall|i: int|
            0 <= i < starts@.len() ==> #[trigger] starts@[i] == block_start(
                instrs_view(instrs@),
                i,
            ),
{
    let ghost all = instrs_view(instrs@);
    let is_target = control_flow_targets(instrs);
    let mut starts: Vec<usize> = Vec::with_capacity(instrs.len());
    let mut current: usize = 0;
    for i in 0..instrs.len()
        invariant
            all == instrs_view(instrs@),
            is_target@.len() == instrs@.len(),
            starts@.len() == i,
            forall|j: int|
                0 <= j < is_target@.len() ==> #[trigger] is_target@[j] == is_branched_to(all, j),
            forall|j: int| 0 <= j < i ==> #[trigger] starts@[j] == block_start(all, j),
            i == 0 ==> current == 0,
            0 < i < instrs@.len() && is_boundary(all[i - 1]) ==> current == i,
            0 < i < instrs@.len() && !is_boundary(all[i - 1]) ==> current == block_start(
                all,
                i - 1,
            ),
    {
        assert(is_target@[i as int] == is_branched_to(all, i as int));
        assert(all[i as int] == instrs@[i as int]@);
        if is_target[i] {
            current = i;
        }
        starts.push(current);
        if runtime_instr_is_cfg_boundary(&instrs[i]) && i + 1 < instrs.len() {
            current = i + 1;
        }
    }
    starts
}

/// Targets at or after `from` moved up by `delta`.
pub open spec fn moved_up(from: usize, delta: usize) -> spec_fn(usize) -> usize {
    |target: usize|
        if target >= from {
            (target + delta) as usize
        } else {
            target
        }
}

/// Every jump and call target can be moved up by `delta`.
pub open spec fn branch_room(instrs: Seq<InstrView>, delta: int) -> bool {
    forall|i: int|
        0 <= i < instrs.len() ==> ((#[trigger] branch_target(instrs[i])) matches Some(target)
            ==> target + delta <= usize::MAX)
}

/// Every jump, call and thread start target can be moved up by `delta`.
pub open spec fn code_room(instrs: Seq<InstrView>, delta: int) -> bool {
    forall|i: int|
        0 <= i < instrs.len() ==> ((#[trigger] code_target(instrs[i])) matches Some(target)
            ==> target + delta <= usize::MAX)
}

/// Moves the jump and call targets at or after `from` up by `delta`.
pub fn bump_runtime_targets_from(instrs: &mut Vec<RuntimeInstr>, from: usize, delta: usize)
    requires
        branch_room(instrs_view(old(instrs)@), delta as int),
    ensures
        instrs_view(final(instrs)@) == map_branch_targets(
            instrs_view(old(instrs)@),
            moved_up(from, delta),
        ),
{
    let ghost start = instrs_view(instrs@);
    let ghost f = moved_up(from, delta);
    let count: usize = instrs.len();
    for i in 0..count
        invariant
            count == instrs@.len(),
            start.len() == count,
            f == moved_up(from, delta),
            branch_room(start, delta as int),
            forall|j: int| i <= j < count ==> (#[trigger] instrs@[j])@ == start[j],
            forall|j: int|
                0 <= j < i ==> (#[trigger] instrs@[j])@ == map_branch_target(start[j], f),
    {
        assert(instrs@[i as int]@ == start[i as int]);
        if let Some(target) = runtime_branch_target(&instrs[i]) {
            assert(branch_target(start[i as int]) == Some(target));
            let to: usize = if target >= from { target + delta } else { target };
            let moved = retarget_branch(&instrs[i], to);
            instrs.set(i, moved);
        }
    }
    assert(instrs_view(instrs@) =~= map_branch_targets(start, f));
}

/// Moves every jump, call and thread start target at or after `at` up by
/// `amount`.
pub fn shift_runtime_targets_for_insert(
    instrs: &mut Vec<RuntimeInstr>,
    at: usize,
    amount: usize,
)
    requires
        code_room(instrs_view(old(instrs)@), amount as int),
    ensures
        instrs_view(final(instrs)@) == map_code_targets(
            instrs_view(old(instrs)@),
            moved_up(at, amount),
        ),
{
    let ghost start = instrs_view(instrs@);
    let ghost f = moved_up(at, amount);
    let count: usize = instrs.len();
    for i in 0..count
        invariant
            count == instrs@.len(),
            start.len() == count,
            f == moved_up(at, amount),
            code_room(start, amount as int),
            forall|j: int| i <= j < count ==> (#[trigger] instrs@[j])@ == start[j],
            forall|j: int|
                0 <= j < i ==> (#[trigger] instrs@[j])@ == map_code_target(start[j], f),
    {
        assert(instrs@[i as int]@ == start[i as int]);
        if let Some(target) = runtime_code_target(&instrs[i]) {
            assert(code_target(start[i as int]) == Some(target));
            let to: usize = if target >= at { target + amount } else { target };
            let moved = retarget_code(&instrs[i], to);
            instrs.set(i, moved);
        }
    }
    assert(instrs_view(instrs@) =~= map_code_targets(start, f));
}

/// Moves every target after the call at `call_idx` up by `delta`.
pub fn remap_instr_targets_after_inline(
    instrs: &mut Vec<RuntimeInstr>,
    call_idx: usize,
    delta: usize,
)
    requires
        call_idx < usize::MAX,
        code_room(instrs_view(old(instrs)@), delta as int),
    ensures
        instrs_view(final(instrs)@) == map_code_targets(
            instrs_view(old(instrs)@),
            moved_up((call_idx + 1) as usize, delta),
        ),
{
    shift_runtime_targets_for_insert(instrs, call_idx + 1, delta);
}

/// Looks a target up in a table; targets past its end count as its end.
pub open spec fn clamped_lookup(table: Seq<usize>) -> spec_fn(usize) -> usize {
    |target: usize|
        if target < table.len() {
            table[target as int]
        } else {
            table.last()
        }
}

/// Renumbers every jump and call by a table.
pub fn remap_branches(instrs: &mut Vec<RuntimeInstr>, table: &Vec<usize>)
    requires
        table@.len() > 0,
    ensures
        instrs_view(final(instrs)@) == map_branch_targets(
            instrs_view(old(instrs)@),
            clamped_lookup(table@),
        ),
{
    let ghost start = instrs_view(instrs@);
    let ghost f = clamped_lookup(table@);
    let count: usize = instrs.len();
    for i in 0..count
        invariant
            count == instrs@.len(),
            start.len() == count,
            table@.len() > 0,
            f == clamped_lookup(table@),
            forall|j: int| i <= j < count ==> (#[trigger] instrs@[j])@ == start[j],
            forall|j: int|
                0 <= j < i ==> (#[trigger] instrs@[j])@ == map_branch_target(start[j], f),
    {
        assert(instrs@[i as int]@ == start[i as int]);
        if let Some(target) = runtime_branch_target(&instrs[i]) {
            let to: usize = if target < table.len() {
                table[target]
            } else {
                table[table.len() - 1]
            };
            let moved = retarget_branch(&instrs[i], to);
            instrs.set(i, moved);
        }
    }
    assert(instrs_view(instrs@) =~= map_branch_targets(start, f));
}

/// Renumbers every jump, call and thread start by a table.
pub fn remap_code(instrs: &mut Vec<RuntimeInstr>, table: &Vec<usize>)
    requires
        table@.len() > 0,
    ensures
        instrs_view(final(instrs)@) == map_code_targets(
            instrs_view(old(instrs)@),
            clamped_lookup(table@),
        ),
{
    let ghost start = instrs_view(instrs@);
    let ghost f = clamped_lookup(table@);
    let count: usize = instrs.len();
    for i in 0..count
        invariant
            count == instrs@.len(),
            start.len() == count,
            table@.len() > 0,
            f == clamped_lookup(table@),
            forall|j: int| i <= j < count ==> (#[trigger] instrs@[j])@ == start[j],
            forall|j: int|
                0 <= j < i ==> (#[trigger] instrs@[j])@ == map_code_target(start[j], f),
    {
        assert(instrs@[i as int]@ == start[i as int]);
        if let Some(target) = runtime_code_target(&instrs[i]) {
            let to: usize = if target < table.len() {
                table[target]
            } else {
                table[table.len() - 1]
            };
            let moved = retarget_code(&instrs[i], to);
            instrs.set(i, moved);
        }
    }
    assert(instrs_view(instrs@) =~= map_code_targets(start, f));
}

} // verus!
