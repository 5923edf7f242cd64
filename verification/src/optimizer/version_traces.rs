//! Versioning of loops keeps what is seen of programs with branches whose limits
//! fit.

use crate::ir::{InstrView, RuntimeCmpOp, RuntimeOperand};
use crate::optimizer::checks::unchecked;
use crate::optimizer::control_flow::targets_in_bounds;
use crate::optimizer::loops::{loop_in_program, CountedLoopInfo, LoopLimit};
use crate::optimizer::machine::{is_plain, SlotState, World};
use crate::optimizer::slots::slots_below;
use crate::optimizer::targets::{code_target, map_code_target, map_code_targets, moved_up};
use crate::optimizer::traces::{after, is_branch, is_branching, moved, next, nowhere, started};
use crate::optimizer::versions::{
    least_room, lemma_version_loop, limits_below, slot_limit_below, uncheck_loop, version_loop,
    version_loops, Versioning,
};
use vstd::prelude::*;

verus! {

/// The limit of a loop fits what the accesses of its body allow, whenever the
/// program comes to the loop.
pub open spec fn limit_fits(
    before: Versioning,
    info: CountedLoopInfo,
    state: SlotState,
    world: World,
) -> bool {
    match (info.limit, least_room(before.instrs, info, info.update_idx as int)) {
        (LoopLimit::Slot(limit), Some(room)) => forall|n: nat|
            (#[trigger] after(before.instrs, started(state, world), n)) matches Some(run) ==> run.at
                == info.header ==> run.state[limit as int] <= room as u64,
        _ => true,
    }
}

/// The limits of the last n loops fit.
pub open spec fn limits_fit(
    instrs: Seq<InstrView>,
    loops: Seq<CountedLoopInfo>,
    n: int,
    state: SlotState,
    world: World,
) -> bool {
    forall|k: int|
        0 <= k < n ==> limit_fits(
            #[trigger] version_loops(instrs, loops, k),
            loops[loops.len() - 1 - k],
            state, world,
        )
}

/// A versioned loop: a comparison stands before it, and checks are gone.
proof fn lemma_versioned(before: Versioning, info: CountedLoopInfo, at: int)
    requires
        is_branching(before.instrs),
        0 <= at < before.instrs.len(),
        info.header < before.instrs.len(),
        version_loop(before, info) != before,
    ensures
        ({
            let new = version_loop(before, info).instrs;
            let place = if at < info.header {
                at
            } else {
                at + 1
            };
            let f = moved_up(info.header, 1);
            &&& 0 <= place < new.len()
            &&& new[place] == map_code_target(before.instrs[at], f) || new[place]
                == map_code_target(unchecked(before.instrs[at]), f)
            &&& info.limit matches LoopLimit::Slot(limit) && least_room(
                before.instrs,
                info,
                info.update_idx as int,
            ) matches Some(room) && new[info.header as int] matches InstrView::JumpIfCmpFalse {
                op: RuntimeCmpOp::LeUnsigned,
                lhs: RuntimeOperand::Slot(slot),
                rhs: RuntimeOperand::Imm(most),
                ..
            } && slot == limit && most == room as u64
            &&& is_branching(new)
        }),
{
    let instrs = before.instrs;
    let f = moved_up(info.header, 1);
    let bare = uncheck_loop(instrs, info);
    let new = version_loop(before, info).instrs;
    let wide = match before.exit_at {
        Some(_) => bare,
        None => bare.push(InstrView::Exit { code: RuntimeOperand::Imm(255) }),
    };
    let header = info.header as int;
    let mapped = map_code_targets(wide, f);
    assert(new =~= mapped.insert(header, new[header]));
    assert(mapped[at] == map_code_target(bare[at], f));
    assert forall|i: int| 0 <= i < new.len() implies is_plain(#[trigger] new[i]) || is_branch(
        new[i],
    ) by {
        if i != header {
            let j = if i < header {
                i
            } else {
                i - 1
            };
            assert(new[i] == map_code_target(wide[j], f));
            if j < instrs.len() {
                assert(is_plain(instrs[j]) || is_branch(instrs[j]));
                assert(wide[j] == instrs[j] || wide[j] == unchecked(instrs[j]));
            }
        }
    }
}

/// Where a program comes whose loop's limit fits, it comes with the loop versioned.
proof fn lemma_version_keeps_traces(
    before: Versioning,
    info: CountedLoopInfo,
    state: SlotState,
    world: World,
    n: nat,
) -> (m: nat)
    requires
        is_branching(before.instrs),
        targets_in_bounds(before.instrs),
        before.instrs.len() < usize::MAX,
        0 < info.header < before.instrs.len(),
        version_loop(before, info) != before,
        limit_fits(before, info, state, world),
    ensures
        after(before.instrs, started(state, world), n) matches Some(run) ==> nowhere() <= run.at
            <= before.instrs.len() && after(
            version_loop(before, info).instrs,
            started(state, world),
            m,
        ) == Some(moved(run, moved_up(info.header, 1))),
    decreases n,
{
    let instrs = before.instrs;
    let f = moved_up(info.header, 1);
    let out = version_loop(before, info).instrs;
    if n == 0 {
        0
    } else {
        let m = lemma_version_keeps_traces(before, info, state, world, (n - 1) as nat);
        if let Some(run) = after(instrs, started(state, world), n) {
            let from = after(instrs, started(state, world), (n - 1) as nat)->0;
            let at = from.at;
            let instr = instrs[at];
            let new = moved(from, f);
            lemma_versioned(before, info, at);
            assert(is_plain(instr) || is_branch(instr));
            assert(code_target(instr) matches Some(target) ==> target <= instrs.len());
            let there = next(out, new)->0;
            assert(next(out, new) is Some);
            assert(after(out, started(state, world), m + 1) == Some(there));
            if there == moved(run, f) {
                m + 1
            } else {
                assert(run.at == info.header && there.at == info.header);
                assert(after(instrs, started(state, world), n) == Some(run));
                assert(after(out, started(state, world), m + 2) == next(out, there));
                m + 2
            }
        } else {
            0
        }
    }
}

/// Versioning drops no instruction.
proof fn lemma_versions_grow(instrs: Seq<InstrView>, loops: Seq<CountedLoopInfo>, count: int)
    requires
        forall|i: int| 0 <= i < loops.len() ==> loop_in_program(#[trigger] loops[i], instrs.len()),
        0 <= count <= loops.len(),
    ensures
        instrs.len() <= version_loops(instrs, loops, count).instrs.len(),
        count > 0 ==> version_loops(instrs, loops, count - 1).instrs.len() <= version_loops(
            instrs,
            loops,
            count,
        ).instrs.len(),
    decreases count,
{
    if count > 0 {
        lemma_versions_grow(instrs, loops, count - 1);
        assert(loop_in_program(loops[loops.len() - count], instrs.len()));
    }
}

/// Versioning keeps what is seen where limits fit: where a program comes, it comes
/// with the last loops versioned, with the same slots and having shown the same, and
/// it leaves where it left.
pub proof fn law_versioning_keeps_traces(
    instrs: Seq<InstrView>,
    loops: Seq<CountedLoopInfo>,
    count: int,
    state: SlotState,
    world: World,
    n: nat,
) -> (m: nat)
    requires
        is_branching(instrs),
        targets_in_bounds(instrs),
        slots_below(instrs, state.len() as int),
        limits_below(loops, state.len() as int),
        forall|i: int| 0 <= i < loops.len() ==> loop_in_program(#[trigger] loops[i], instrs.len()),
        0 <= count <= loops.len(),
        version_loops(instrs, loops, count).instrs.len() < usize::MAX,
        limits_fit(instrs, loops, count, state, world),
    ensures
        is_branching(version_loops(instrs, loops, count).instrs),
        targets_in_bounds(version_loops(instrs, loops, count).instrs),
        slots_below(version_loops(instrs, loops, count).instrs, state.len() as int),
        instrs.len() <= version_loops(instrs, loops, count).instrs.len(),
        version_loops(instrs, loops, count).exit_at matches Some(at) ==> instrs.len() <= at
            < version_loops(instrs, loops, count).instrs.len(),
        after(instrs, started(state, world), n) matches Some(run) ==> (after(
            version_loops(instrs, loops, count).instrs,
            started(state, world),
            m,
        ) matches Some(new) && new.seen == run.seen && new.state == run.state && (run.at
            == nowhere() ==> new.at == nowhere())),
    decreases count,
{
    if count == 0 {
        n
    } else {
        let before = version_loops(instrs, loops, count - 1);
        let info = loops[loops.len() - count];
        assert(version_loops(instrs, loops, count) == version_loop(before, info));
        assert(loop_in_program(info, instrs.len()));
        assert(slot_limit_below(info, state.len() as int));
        lemma_versions_grow(instrs, loops, count);
        assert(limits_fit(instrs, loops, count - 1, state, world));
        let middle = law_versioning_keeps_traces(instrs, loops, count - 1, state, world, n);
        lemma_version_loop(before, info, state.len() as int, instrs.len() as int);
        if version_loop(before, info) != before {
            assert(limit_fits(before, loops[loops.len() - 1 - (count - 1)], state, world));
            lemma_versioned(before, info, 0);
            lemma_version_keeps_traces(before, info, state, world, middle)
        } else {
            middle
        }
    }
}

} // verus!
