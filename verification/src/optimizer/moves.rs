//! Removal of moves whose value is overwritten before it is read.

use crate::ir::{instrs_view, InstrView, ProgramView, RuntimeInstr, RuntimeOperand, RuntimeProgram};
use crate::optimizer::machine::{
    events, is_straight, lemma_run_push, run, step, value_of, SlotState,
};
use crate::optimizer::slots::{instr_below, slots_below};
use crate::optimizer::targets::{
    branch_target, branches_in_bounds, clamped_lookup, is_boundary, map_branch_target,
    map_branch_targets, remap_branches, runtime_instr_is_cfg_boundary,
};
use crate::optimizer::uses::{reads, runtime_instr_reads_slot, runtime_instr_writes_slot, writes};
use vstd::prelude::*;

verus! {

/// After the instruction at `index`, straight-line code overwrites the slot
/// before it reads it.
pub open spec fn is_dead_after(instrs: Seq<InstrView>, index: int, slot: usize) -> bool {
    exists|end: int| #[trigger] overwrites_at(instrs, index, end, slot)
}

/// The instruction at `end` is the first after `index` to touch the slot, it
/// overwrites it, and control cannot leave or skip the code between.
pub open spec fn overwrites_at(
    instrs: Seq<InstrView>,
    index: int,
    end: int,
    slot: usize,
) -> bool {
    &&& index < end < instrs.len()
    &&& writes(instrs[end], slot)
    &&& !reads(instrs[end], slot)
    &&& forall|k: int|
        #![trigger instrs[k]]
        index < k < end ==> !reads(instrs[k], slot) && !writes(instrs[k], slot) && !is_boundary(
            instrs[k],
        )
}

/// The instruction at `index` is a move that is overwritten before it is read.
pub open spec fn is_overwritten_move(instrs: Seq<InstrView>, index: int) -> bool {
    instrs[index] matches InstrView::Mov { dst, .. } && is_dead_after(instrs, index, dst)
}

/// The first n instructions without the overwritten moves.
pub open spec fn kept_instrs(instrs: Seq<InstrView>, n: int) -> Seq<InstrView>
    decreases n,
{
    if n <= 0 {
        seq![]
    } else if is_overwritten_move(instrs, n - 1) {
        kept_instrs(instrs, n - 1)
    } else {
        kept_instrs(instrs, n - 1).push(instrs[n - 1])
    }
}

/// Where an instruction goes when overwritten moves are removed; one past the
/// end goes to the new end.
pub open spec fn kept_position(instrs: Seq<InstrView>) -> spec_fn(usize) -> usize {
    |target: usize|
        kept_instrs(
            instrs,
            if target < instrs.len() {
                target as int
            } else {
                instrs.len() as int
            },
        ).len() as usize
}

/// The instructions without overwritten moves, jumps and calls renumbered.
pub open spec fn drop_overwritten_moves(instrs: Seq<InstrView>) -> Seq<InstrView> {
    map_branch_targets(kept_instrs(instrs, instrs.len() as int), kept_position(instrs))
}

/// No more instructions are kept than there are.
pub proof fn lemma_kept_len(instrs: Seq<InstrView>, n: int)
    requires
        0 <= n,
    ensures
        kept_instrs(instrs, n).len() <= n,
    decreases n,
{
    if n > 0 {
        lemma_kept_len(instrs, n - 1);
    }
}

/// No more of the first instructions are kept than of all.
proof fn lemma_kept_grows(instrs: Seq<InstrView>, n: int, m: int)
    requires
        0 <= n <= m,
    ensures
        kept_instrs(instrs, n).len() <= kept_instrs(instrs, m).len(),
    decreases m - n,
{
    if n < m {
        lemma_kept_grows(instrs, n, m - 1);
    }
}

/// Without the overwritten moves every jump and call names an instruction or the
/// end, whatever it named before.
pub proof fn law_dropped_moves_branches_in_bounds(instrs: Seq<InstrView>)
    requires
        instrs.len() <= usize::MAX,
    ensures
        branches_in_bounds(drop_overwritten_moves(instrs)),
{
    let count = instrs.len() as int;
    let kept = kept_instrs(instrs, count);
    let out = drop_overwritten_moves(instrs);
    let f = kept_position(instrs);
    lemma_kept_len(instrs, count);
    assert forall|i: int| 0 <= i < out.len() implies ((#[trigger] branch_target(
        out[i],
    )) matches Some(target) ==> target <= out.len()) by {
        if let Some(target) = branch_target(kept[i]) {
            let n = if target < instrs.len() {
                target as int
            } else {
                count
            };
            lemma_kept_grows(instrs, n, count);
            assert(branch_target(out[i]) == Some(f(target)));
        }
    }
}

/// Whether straight-line code after `index` overwrites the slot before reading it.
fn slot_is_dead_after(instrs: &Vec<RuntimeInstr>, index: usize, slot: usize) -> (dead: bool)
    requires
        index < instrs@.len(),
    ensures
        dead == is_dead_after(instrs_view(instrs@), index as int, slot),
{
    let ghost all = instrs_view(instrs@);
    for j in index + 1..instrs.len()
        invariant
            all == instrs_view(instrs@),
            index < j,
            forall|k: int|
                #![trigger all[k]]
                index < k < j ==> !reads(all[k], slot) && !writes(all[k], slot) && !is_boundary(
                    all[k],
                ),
    {
        assert(all[j as int] == instrs@[j as int]@);
        let read = runtime_instr_reads_slot(&instrs[j], slot);
        let written = runtime_instr_writes_slot(&instrs[j], slot);
        if read || written || runtime_instr_is_cfg_boundary(&instrs[j]) {
            let dead = written && !read;
            proof {
                if dead {
                    assert(overwrites_at(all, index as int, j as int, slot));
                }
                assert forall|end: int| overwrites_at(all, index as int, end, slot) implies dead by {
                    assert(end >= j) by {
                        if index < end < j {
                            assert(!writes(all[end], slot));
                        }
                    }
                    if end > j {
                        assert(!reads(all[j as int], slot));
                    }
                }
            }
            return dead;
        }
    }
    assert forall|end: int| !#[trigger] overwrites_at(all, index as int, end, slot) by {
        if overwrites_at(all, index as int, end, slot) {
            assert(!writes(all[end], slot));
        }
    }
    false
}

/// Removes the overwritten moves of one program.
pub fn drop_overwritten_moves_in_program(program: RuntimeProgram) -> (smaller: RuntimeProgram)
    ensures
        smaller@ == (ProgramView {
            slots: program@.slots,
            instrs: drop_overwritten_moves(program@.instrs),
        }),
        branches_in_bounds(smaller@.instrs),
{
    let ghost all = instrs_view(program.instrs@);
    let count: usize = program.instrs.len();
    let mut remap: Vec<usize> = Vec::with_capacity(count);
    let mut instrs: Vec<RuntimeInstr> = Vec::with_capacity(count);
    for i in 0..count
        invariant
            count == program.instrs@.len(),
            all == instrs_view(program.instrs@),
            instrs_view(instrs@) == kept_instrs(all, i as int),
            remap@.len() == i,
            forall|j: int| 0 <= j < i ==> #[trigger] remap@[j] == kept_instrs(all, j).len(),
    {
        let ghost before = instrs_view(instrs@);
        assert(all[i as int] == program.instrs@[i as int]@);
        remap.push(instrs.len());
        let removable = match &program.instrs[i] {
            RuntimeInstr::Mov { dst, .. } => slot_is_dead_after(&program.instrs, i, *dst),
            _ => false,
        };
        if !removable {
            instrs.push(program.instrs[i].clone());
            assert(instrs_view(instrs@) =~= before.push(all[i as int]));
        }
    }
    remap.push(instrs.len());
    let ghost kept = instrs_view(instrs@);
    remap_branches(&mut instrs, &remap);
    proof {
        let f = clamped_lookup(remap@);
        let g = kept_position(all);
        assert forall|target: usize| #[trigger] f(target) == g(target) by {
            if target < all.len() {
                assert(remap@[target as int] == kept_instrs(all, target as int).len());
            }
        }
        assert forall|i: int| 0 <= i < kept.len() implies map_branch_target(kept[i], f)
            == #[trigger] map_branch_target(kept[i], g) by {}
        assert(instrs_view(instrs@) =~= drop_overwritten_moves(all));
        law_dropped_moves_branches_in_bounds(all);
    }
    RuntimeProgram { slots: program.slots, instrs }
}

/// The instructions kept have slots in range.
proof fn lemma_kept_in_range(instrs: Seq<InstrView>, n: int, bound: int)
    requires
        0 <= n <= instrs.len(),
        slots_below(instrs, bound),
    ensures
        slots_below(kept_instrs(instrs, n), bound),
    decreases n,
{
    if n > 0 {
        lemma_kept_in_range(instrs, n - 1, bound);
        let before = kept_instrs(instrs, n - 1);
        let after = kept_instrs(instrs, n);
        assert forall|i: int| 0 <= i < after.len() implies #[trigger] instr_below(
            after[i],
            bound,
        ) by {
            if i < before.len() {
                assert(instr_below(before[i], bound));
            } else {
                assert(instr_below(instrs[n - 1], bound));
            }
        }
    }
}

/// Removing overwritten moves keeps slots in range.
pub proof fn lemma_drop_moves_in_range(instrs: Seq<InstrView>, bound: int)
    requires
        slots_below(instrs, bound),
    ensures
        slots_below(drop_overwritten_moves(instrs), bound),
{
    lemma_kept_in_range(instrs, instrs.len() as int, bound);
    let kept = kept_instrs(instrs, instrs.len() as int);
    let out = drop_overwritten_moves(instrs);
    assert forall|i: int| 0 <= i < out.len() implies #[trigger] instr_below(out[i], bound) by {
        assert(instr_below(kept[i], bound));
    }
}

/// A move before `n` was dropped whose value is overwritten at `n` or later.
pub open spec fn is_pending(instrs: Seq<InstrView>, n: int, slot: int) -> bool {
    exists|index: int, end: int|
        #![trigger is_pending_from(instrs, n, slot, index, end)]
        is_pending_from(instrs, n, slot, index, end)
}

/// The move at `index` was dropped, and its value is overwritten at `end`.
pub open spec fn is_pending_from(
    instrs: Seq<InstrView>,
    n: int,
    slot: int,
    index: int,
    end: int,
) -> bool {
    &&& 0 <= index < n <= end
    &&& instrs[index] matches InstrView::Mov { dst, .. } && dst == slot && overwrites_at(
        instrs,
        index,
        end,
        dst,
    )
}

/// The slots agree where no dropped move is pending.
pub open spec fn agree_but_pending(instrs: Seq<InstrView>, n: int, a: SlotState, b: SlotState) -> bool {
    &&& a.len() == b.len()
    &&& forall|slot: int|
        0 <= slot < a.len() ==> #[trigger] a[slot] == b[slot] || is_pending(instrs, n, slot)
}

/// A pending slot is not read, and it is no longer pending once it is written.
pub proof fn lemma_pending(instrs: Seq<InstrView>, n: int, slot: int)
    requires
        0 <= n < instrs.len(),
        is_pending(instrs, n, slot),
    ensures
        0 <= slot <= usize::MAX,
        !reads(instrs[n], slot as usize),
        writes(instrs[n], slot as usize) || is_pending(instrs, n + 1, slot),
{
    let (index, end) = choose|index: int, end: int|
        #![trigger is_pending_from(instrs, n, slot, index, end)]
        is_pending_from(instrs, n, slot, index, end);
    let dst = instrs[index]->Mov_dst;
    if n < end {
        assert(!reads(instrs[n], dst));
        assert(is_pending_from(instrs, n + 1, slot, index, end));
    }
}

/// An instruction of straight-line code does the same on slots that agree where it
/// reads, and leaves them agreeing where they did and where it writes without
/// reading.
pub proof fn lemma_step_on_agreeing(instr: InstrView, a: SlotState, b: SlotState)
    requires
        is_straight(instr),
        instr_below(instr, a.len() as int),
        a.len() == b.len(),
        forall|slot: usize| reads(instr, slot) ==> #[trigger] a[slot as int] == b[slot as int],
        step(instr, b) is Some,
    ensures
        step(instr, a) is Some,
        step(instr, a)->0.len() == a.len(),
        step(instr, b)->0.len() == b.len(),
        forall|slot: usize|
            slot < a.len() && (a[slot as int] == b[slot as int] || writes(instr, slot))
                ==> #[trigger] step(instr, a)->0[slot as int] == step(instr, b)->0[slot as int],
{
    match instr {
        InstrView::Mov { src, .. } => {
            lemma_same_operand(instr, src, a, b);
        },
        InstrView::BinOp { lhs, rhs, .. } => {
            lemma_same_operand(instr, lhs, a, b);
            lemma_same_operand(instr, rhs, a, b);
        },
        InstrView::BinOpInPlace { dst, rhs, .. } => {
            assert(reads(instr, dst));
            lemma_same_operand(instr, rhs, a, b);
        },
        InstrView::Cmp { lhs, rhs, .. } => {
            lemma_same_operand(instr, lhs, a, b);
            lemma_same_operand(instr, rhs, a, b);
        },
        InstrView::NormalizeInt { dst, .. } => {
            assert(reads(instr, dst));
        },
        InstrView::LoadIndex { base_slots, index, .. }
        | InstrView::LoadIndexUnchecked { base_slots, index, .. } => {
            lemma_same_operand(instr, index, a, b);
            let i = value_of(index, b) as int;
            assert(base_slots.contains(base_slots[i]));
            assert(reads(instr, base_slots[i]));
        },
        InstrView::StoreIndex { base_slots, index, src }
        | InstrView::StoreIndexUnchecked { base_slots, index, src } => {
            lemma_same_operand(instr, index, a, b);
            lemma_same_operand(instr, src, a, b);
            let i = value_of(index, b) as int;
            assert(base_slots.contains(base_slots[i]));
            assert forall|slot: usize|
                slot < a.len() && (a[slot as int] == b[slot as int] || writes(
                    instr,
                    slot,
                )) implies #[trigger] step(instr, a)->0[slot as int] == step(
                instr,
                b,
            )->0[slot as int] by {
                if writes(instr, slot) {
                    assert(reads(instr, slot));
                }
            }
        },
        _ => {},
    }
}

/// An operand that an instruction has evaluates alike.
pub proof fn lemma_same_operand(
    instr: InstrView,
    operand: RuntimeOperand,
    a: SlotState,
    b: SlotState,
)
    requires
        forall|slot: usize| reads(instr, slot) ==> #[trigger] a[slot as int] == b[slot as int],
        operand matches RuntimeOperand::Slot(slot) ==> reads(instr, slot),
    ensures
        value_of(operand, a) == value_of(operand, b),
{
}

/// The code without overwritten moves and the code leave slots that agree but
/// where a dropped move is pending.
proof fn lemma_kept_run(instrs: Seq<InstrView>, n: int, state: SlotState)
    requires
        0 <= n <= instrs.len(),
        instrs.len() <= usize::MAX,
        state.len() <= usize::MAX,
        forall|i: int| 0 <= i < instrs.len() ==> is_straight(#[trigger] instrs[i]),
        slots_below(instrs, state.len() as int),
        run(instrs.take(n), state) is Some,
    ensures
        run(kept_instrs(instrs, n), state) is Some,
        agree_but_pending(
            instrs,
            n,
            run(kept_instrs(instrs, n), state)->0,
            run(instrs.take(n), state)->0,
        ),
        run(instrs.take(n), state)->0.len() == state.len(),
        events(kept_instrs(instrs, n), state) == events(instrs.take(n), state),
    decreases n,
{
    if n > 0 {
        let at = n - 1;
        let instr = instrs[at];
        assert(instrs.take(n).drop_last() =~= instrs.take(at));
        assert(instrs.take(n).last() == instr);
        lemma_kept_run(instrs, at, state);
        let a = run(kept_instrs(instrs, at), state)->0;
        let b = run(instrs.take(at), state)->0;
        let next = run(instrs.take(n), state)->0;
        assert(instr_below(instr, state.len() as int));
        assert(is_straight(instr));
        assert(instrs.take(n) =~= instrs.take(at).push(instr));
        lemma_run_push(instrs.take(at), instr, state);
        if is_overwritten_move(instrs, at) {
            let dst = instr->Mov_dst;
            let end = choose|end: int| #[trigger] overwrites_at(instrs, at, end, dst);
            assert(is_pending_from(instrs, n, dst as int, at, end));
            assert forall|slot: int| 0 <= slot < a.len() implies #[trigger] a[slot] == next[slot]
                || is_pending(instrs, n, slot) by {
                if slot != dst && is_pending(instrs, at, slot) {
                    lemma_pending(instrs, at, slot);
                }
            }
        } else {
            let kept = kept_instrs(instrs, n);
            assert(kept.drop_last() =~= kept_instrs(instrs, at));
            assert forall|slot: usize| reads(instr, slot) implies #[trigger] a[slot as int]
                == b[slot as int] by {
                lemma_read_is_below(instr, slot, state.len() as int);
                if is_pending(instrs, at, slot as int) {
                    lemma_pending(instrs, at, slot as int);
                }
            }
            lemma_step_on_agreeing(instr, a, b);
            lemma_run_push(kept_instrs(instrs, at), instr, state);
            match instr {
                InstrView::PrintInt { value, .. } => {
                    lemma_same_operand(instr, value, a, b);
                },
                InstrView::Exit { code } => {
                    lemma_same_operand(instr, code, a, b);
                },
                _ => {},
            }
            let after = step(instr, a)->0;
            assert(run(kept, state) == Some(after));
            assert forall|slot: int| 0 <= slot < after.len() implies #[trigger] after[slot]
                == next[slot] || is_pending(instrs, n, slot) by {
                if a[slot] != b[slot] {
                    lemma_pending(instrs, at, slot);
                }
                let place = slot as usize;
                assert(a[place as int] == b[place as int] || writes(instr, place) || is_pending(
                    instrs,
                    n,
                    slot,
                ));
                if a[place as int] == b[place as int] || writes(instr, place) {
                    assert(step(instr, a)->0[place as int] == step(instr, b)->0[place as int]);
                }
            }
        }
    } else {
        assert(instrs.take(0) =~= Seq::empty());
    }
}

/// What an instruction reads is in range.
pub proof fn lemma_read_is_below(instr: InstrView, slot: usize, bound: int)
    requires
        is_straight(instr),
        instr_below(instr, bound),
        reads(instr, slot),
    ensures
        slot < bound,
{
}

/// Removing overwritten moves keeps what code does: straight-line code that does
/// not trap leaves the same slots, and the same is seen of it.
pub proof fn law_dropped_moves_preserve_run(instrs: Seq<InstrView>, state: SlotState)
    requires
        instrs.len() <= usize::MAX,
        state.len() <= usize::MAX,
        forall|i: int| 0 <= i < instrs.len() ==> is_straight(#[trigger] instrs[i]),
        slots_below(instrs, state.len() as int),
        run(instrs, state) is Some,
    ensures
        run(drop_overwritten_moves(instrs), state) == run(instrs, state),
        events(drop_overwritten_moves(instrs), state) == events(instrs, state),
        forall|i: int|
            0 <= i < drop_overwritten_moves(instrs).len() ==> is_straight(
                #[trigger] drop_overwritten_moves(instrs)[i],
            ),
{
    let count = instrs.len() as int;
    assert(instrs.take(count) =~= instrs);
    lemma_kept_run(instrs, count, state);
    let kept = kept_instrs(instrs, count);
    lemma_kept_are_straight(instrs, count);
    assert(drop_overwritten_moves(instrs) =~= kept);
    let a = run(kept, state)->0;
    let b = run(instrs, state)->0;
    assert forall|slot: int| 0 <= slot < a.len() implies a[slot] == b[slot] by {
        assert(a[slot] == b[slot] || is_pending(instrs, count, slot));
    }
    assert(a =~= b);
}

/// The instructions kept of straight-line code are straight-line code.
proof fn lemma_kept_are_straight(instrs: Seq<InstrView>, n: int)
    requires
        0 <= n <= instrs.len(),
        forall|i: int| 0 <= i < instrs.len() ==> is_straight(#[trigger] instrs[i]),
    ensures
        forall|i: int|
            0 <= i < kept_instrs(instrs, n).len() ==> is_straight(
                #[trigger] kept_instrs(instrs, n)[i],
            ),
    decreases n,
{
    if n > 0 {
        lemma_kept_are_straight(instrs, n - 1);
        assert(is_straight(instrs[n - 1]));
        let before = kept_instrs(instrs, n - 1);
        assert forall|i: int| 0 <= i < kept_instrs(instrs, n).len() implies is_straight(
            #[trigger] kept_instrs(instrs, n)[i],
        ) by {
            if i < before.len() {
                assert(is_straight(before[i]));
            }
        }
    }
}

} // verus!
