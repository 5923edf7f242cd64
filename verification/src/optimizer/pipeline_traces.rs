//! The whole optimizer on programs with branches: what is seen of a program stays
//! as it is, and it leaves with the slots that it left with, each under its new
//! number.

use crate::ir::{InstrView, ProgramView};
use crate::optimizer::arrivals::{aliases_at, known_at};
use crate::optimizer::checks::{lemma_same_but_checks_in_range, same_but_checks, unchecked};
use crate::optimizer::control_flow::{law_simplified_targets_in_bounds, simplify, targets_in_bounds};
use crate::optimizer::copies::{
    copy_position, copy_prefix, copy_propagate, lemma_copied_is_straight,
    lemma_copy_propagate_in_range,
};
use crate::optimizer::inline::{inline_leaf_calls, Inlining};
use crate::optimizer::loops::{counted_loops, lemma_counted_loops, CountedLoopInfo};
use crate::optimizer::lookahead::{lemma_look_ahead, look_ahead};
use crate::optimizer::machine::{is_plain, is_straight, Event, SlotState, World};
use crate::optimizer::moves::{
    drop_overwritten_moves, kept_instrs, kept_position, lemma_drop_moves_in_range,
};
use crate::optimizer::peephole::{
    fold_position, fold_prefix, lemma_folded_is_straight, lemma_peephole_in_range, peephole,
    FloatFn,
};
use crate::optimizer::pipeline::{
    copy_pass, inline_pass, is_optimizable, optimized_program, simplify_pass, specialize_pass,
    tail_call_pass,
};
use crate::optimizer::probes::{select_probes, MAX_GROUP_PROBES};
use crate::optimizer::rewrite_traces::{
    law_compaction_keeps_traces, law_dropped_moves_keep_traces, law_lookahead_keeps_traces,
};
use crate::optimizer::simplify_traces::{
    law_simplification_keeps_traces, lemma_simplified_is_branching,
};
use crate::optimizer::slots::{by_rank, compact_slots, instr_below, slot_is_used, slots_below};
use crate::optimizer::specialize::{settle_branches, settled_branch};
use crate::optimizer::straight_laws::{
    before_compaction, is_renumbered, lemma_no_inlining, lemma_no_tail_calls, lemma_rank_in_range,
};
use crate::optimizer::targets::{map_branch_targets, map_code_targets};
use crate::optimizer::traces::{
    after, is_branch, is_branching, is_read_right_in_blocks, law_copy_propagation_keeps_traces,
    law_dropped_checks_keep_traces, law_folding_keeps_traces, law_settling_keeps_traces, nowhere,
    started,
};
use crate::optimizer::unroll::unroll_loops;
use crate::optimizer::unroll_traces::{
    law_unrolling_keeps_traces, lemma_unrolled_is_branching, loops_are_closed,
};
use crate::optimizer::version_traces::{law_versioning_keeps_traces, limits_fit};
use crate::optimizer::versions::{
    drop_redundant_checks, lemma_loop_limits, lemma_same_but_checks_targets, lemma_slot_limited,
    loop_checks, slot_limit_below, slot_limited, version_slot_loops,
};
use vstd::prelude::*;

verus! {

/// Copy propagation leaves branches branches.
proof fn lemma_copied_is_branching(instrs: Seq<InstrView>, slots: nat, n: int)
    requires
        is_branching(instrs),
        0 <= n <= instrs.len(),
    ensures
        is_branching(copy_prefix(instrs, slots, n).out),
    decreases n,
{
    if n > 0 {
        lemma_copied_is_branching(instrs, slots, n - 1);
        let instr = instrs[n - 1];
        let before = copy_prefix(instrs, slots, n - 1).out;
        let out = copy_prefix(instrs, slots, n).out;
        let aliases = aliases_at(instrs, slots, n - 1);
        assert(is_plain(instr) || is_branch(instr));
        if is_straight(instr) {
            lemma_copied_is_straight(instr, aliases);
        }
        assert forall|i: int| 0 <= i < out.len() implies is_plain(#[trigger] out[i])
            || is_branch(out[i]) by {
            if i < before.len() {
                assert(out[i] == before[i]);
                assert(is_plain(before[i]) || is_branch(before[i]));
            }
        }
    }
}

/// Constant folding leaves branches branches.
proof fn lemma_folded_is_branching(instrs: Seq<InstrView>, slots: nat, floats: FloatFn, n: int)
    requires
        is_branching(instrs),
        0 <= n <= instrs.len(),
    ensures
        is_branching(fold_prefix(instrs, slots, floats, n).out),
        fold_prefix(instrs, slots, floats, n).out.len() <= n,
    decreases n,
{
    if n > 0 {
        lemma_folded_is_branching(instrs, slots, floats, n - 1);
        let instr = instrs[n - 1];
        let before = fold_prefix(instrs, slots, floats, n - 1).out;
        let out = fold_prefix(instrs, slots, floats, n).out;
        let known = known_at(instrs, slots, floats, n - 1);
        assert(is_plain(instr) || is_branch(instr));
        if is_straight(instr) {
            lemma_folded_is_straight(instr, known, floats);
        }
        assert forall|i: int| 0 <= i < out.len() implies is_plain(#[trigger] out[i])
            || is_branch(out[i]) by {
            if i < before.len() {
                assert(out[i] == before[i]);
                assert(is_plain(before[i]) || is_branch(before[i]));
            }
        }
    }
}

/// What is kept of branches is branches.
proof fn lemma_kept_is_branching(instrs: Seq<InstrView>, n: int)
    requires
        is_branching(instrs),
        0 <= n <= instrs.len(),
    ensures
        is_branching(kept_instrs(instrs, n)),
    decreases n,
{
    if n > 0 {
        lemma_kept_is_branching(instrs, n - 1);
        let before = kept_instrs(instrs, n - 1);
        let out = kept_instrs(instrs, n);
        assert(is_plain(instrs[n - 1]) || is_branch(instrs[n - 1]));
        assert forall|i: int| 0 <= i < out.len() implies is_plain(#[trigger] out[i])
            || is_branch(out[i]) by {
            if i < before.len() {
                assert(out[i] == before[i]);
                assert(is_plain(before[i]) || is_branch(before[i]));
            }
        }
    }
}

/// Renumbered branches are branches.
proof fn lemma_mapped_is_branching(instrs: Seq<InstrView>, f: spec_fn(usize) -> usize)
    requires
        is_branching(instrs),
    ensures
        is_branching(map_branch_targets(instrs, f)),
        is_branching(map_code_targets(instrs, f)),
{
    let out = map_branch_targets(instrs, f);
    let other = map_code_targets(instrs, f);
    assert forall|i: int| 0 <= i < out.len() implies is_plain(#[trigger] out[i]) || is_branch(
        out[i],
    ) by {
        assert(is_plain(instrs[i]) || is_branch(instrs[i]));
    }
    assert forall|i: int| 0 <= i < other.len() implies is_plain(#[trigger] other[i])
        || is_branch(other[i]) by {
        assert(is_plain(instrs[i]) || is_branch(instrs[i]));
    }
}

/// Settled branches are branches on slots in range.
proof fn lemma_settled_is_branching(instrs: Seq<InstrView>, bound: int)
    requires
        is_branching(instrs),
        slots_below(instrs, bound),
    ensures
        is_branching(settle_branches(instrs)),
        slots_below(settle_branches(instrs), bound),
{
    let out = settle_branches(instrs);
    assert forall|i: int| 0 <= i < out.len() implies (is_plain(#[trigger] out[i]) || is_branch(
        out[i],
    )) && instr_below(out[i], bound) by {
        assert(is_plain(instrs[i]) || is_branch(instrs[i]));
        assert(instr_below(instrs[i], bound));
        assert(out[i] == settled_branch(instrs, i));
    }
}

/// What the optimizer makes of a program before it looks at its loops.
pub open spec fn before_loops(program: ProgramView) -> ProgramView {
    let inlined = tail_call_pass()(inline_pass()(program));
    simplify_pass()(specialize_pass()(copy_pass()(simplify_pass()(inlined))))
}

/// What the optimizer makes of a program whose loops it has looked at, but for
/// unrolling.
pub open spec fn before_unrolling(program: ProgramView) -> ProgramView {
    loop_checks(before_loops(program))
}

/// No loop is given a probe, no search a closed form, and the limits of loops that are
/// versioned fit whenever the program comes to them. Loops that are unrolled are
/// entered from before them only. What comes out has a length that a machine can hold.
pub open spec fn loops_are_plain(program: ProgramView, state: SlotState, world: World) -> bool {
    let settled = before_loops(program);
    let bare = drop_redundant_checks(settled.instrs);
    let loops = slot_loops(bare);
    let versioned = before_unrolling(program).instrs;
    &&& select_probes(settled, MAX_GROUP_PROBES as nat) == settled
    &&& same_but_checks(settled.instrs, bare)
    &&& limits_fit(bare, loops, loops.len() as int, state, world)
    &&& versioned.len() < usize::MAX
    &&& loops_are_closed(versioned)
    &&& unroll_loops(versioned).len() <= usize::MAX
}

/// The loops of a program whose limit is a slot.
pub open spec fn slot_loops(instrs: Seq<InstrView>) -> Seq<CountedLoopInfo> {
    let loops = counted_loops(instrs, true, instrs.len() as int);
    slot_limited(loops, loops.len() as int)
}

/// Where branches are settled, what is read off the instructions is what they do.
pub open spec fn is_settled_right(program: ProgramView) -> bool {
    let inlined = tail_call_pass()(inline_pass()(program));
    is_read_right_in_blocks(copy_pass()(simplify_pass()(inlined)).instrs)
}

/// The first half of the optimizer keeps what is seen.
proof fn lemma_before_loops(
    program: ProgramView,
    state: SlotState,
    world: World,
    n: nat,
) -> (m: nat)
    requires
        is_optimizable()(program),
        is_branching(program.instrs),
        is_settled_right(program),
        state.len() == program.slots,
    ensures
        before_loops(program).slots == program.slots,
        is_branching(before_loops(program).instrs),
        slots_below(before_loops(program).instrs, program.slots as int),
        targets_in_bounds(before_loops(program).instrs),
        before_loops(program).instrs.len() <= program.instrs.len(),
        after(program.instrs, started(state, world), n) matches Some(run) ==> (after(
            before_loops(program).instrs,
            started(state, world),
            m,
        ) matches Some(new) && new.seen == run.seen && new.state == run.state && (run.at
            == nowhere() ==> new.at == nowhere())),
{
    let slots = program.slots as nat;
    let bound = slots as int;
    let instrs = program.instrs;
    assert forall|i: int| 0 <= i < instrs.len() implies !(#[trigger] instrs[i] is Call) by {
        assert(is_plain(instrs[i]) || is_branch(instrs[i]));
    }
    lemma_no_inlining(Inlining { instrs, added: 0, changed: false, stopped: false }, 0);
    assert(inline_leaf_calls(instrs) == instrs);
    lemma_no_tail_calls(instrs);
    lemma_simplified_is_branching(instrs, bound);
    let simple = simplify(instrs);
    let first = law_simplification_keeps_traces(instrs, slots, state, world, n);
    let second = law_copy_propagation_keeps_traces(simple, slots, state, world, first);
    lemma_copied_is_branching(simple, slots, simple.len() as int);
    lemma_mapped_is_branching(
        copy_prefix(simple, slots, simple.len() as int).out,
        copy_position(simple, slots),
    );
    lemma_copy_propagate_in_range(simple, slots);
    let copied = copy_propagate(simple, slots);
    law_settling_keeps_traces(copied, slots, state, world, second);
    lemma_settled_is_branching(copied, bound);
    let settled = settle_branches(copied);
    lemma_simplified_is_branching(settled, bound);
    law_simplified_targets_in_bounds(settled);
    law_simplification_keeps_traces(settled, slots, state, world, second)
}

/// Code with branches without checks is code with branches.
proof fn lemma_bare_is_branching(instrs: Seq<InstrView>, bare: Seq<InstrView>)
    requires
        is_branching(instrs),
        same_but_checks(instrs, bare),
    ensures
        is_branching(bare),
{
    assert forall|i: int| 0 <= i < bare.len() implies is_plain(#[trigger] bare[i]) || is_branch(
        bare[i],
    ) by {
        assert(is_plain(instrs[i]) || is_branch(instrs[i]));
        assert(bare[i] == instrs[i] || bare[i] == unchecked(instrs[i]));
    }
}

/// The passes on loops but unrolling keep what is seen.
proof fn lemma_before_unrolling(
    program: ProgramView,
    state: SlotState,
    world: World,
    n: nat,
) -> (m: nat)
    requires
        is_optimizable()(program),
        is_branching(program.instrs),
        is_settled_right(program),
        loops_are_plain(program, state, world),
        state.len() == program.slots,
    ensures
        before_unrolling(program).slots == program.slots,
        is_branching(before_unrolling(program).instrs),
        slots_below(before_unrolling(program).instrs, program.slots as int),
        after(program.instrs, started(state, world), n) matches Some(run) ==> (after(
            before_unrolling(program).instrs,
            started(state, world),
            m,
        ) matches Some(new) && new.seen == run.seen && new.state == run.state && (run.at
            == nowhere() ==> new.at == nowhere())),
{
    let bound = program.slots as int;
    let first = lemma_before_loops(program, state, world, n);
    let settled = before_loops(program);
    let bare = drop_redundant_checks(settled.instrs);
    law_dropped_checks_keep_traces(settled.instrs, bare, started(state, world), first);
    lemma_same_but_checks_in_range(settled.instrs, bare, bound);
    lemma_same_but_checks_targets(settled.instrs, bare);
    lemma_bare_is_branching(settled.instrs, bare);
    let all = counted_loops(bare, true, bare.len() as int);
    let loops = slot_loops(bare);
    lemma_counted_loops(bare, true, bare.len() as int);
    lemma_slot_limited(all, all.len() as int, bare.len());
    lemma_loop_limits(bare, bare.len() as int, bound);
    assert forall|i: int| 0 <= i < loops.len() implies slot_limit_below(
        #[trigger] loops[i],
        bound,
    ) by {
        assert(all.contains(loops[i]));
        let k = choose|k: int| 0 <= k < all.len() && all[k] == loops[i];
        assert(slot_limit_below(all[k], bound));
    }
    assert(before_unrolling(program).instrs == version_slot_loops(bare, all));
    law_versioning_keeps_traces(bare, loops, loops.len() as int, state, world, first)
}

/// The passes before compaction declare no slot and keep those of the program in
/// range.
proof fn lemma_keeps_slots(program: ProgramView, floats: FloatFn, state: SlotState, world: World)
    requires
        is_optimizable()(program),
        is_branching(program.instrs),
        is_settled_right(program),
        loops_are_plain(program, state, world),
        state.len() == program.slots,
    ensures
        before_compaction(floats)(program).slots == program.slots,
        slots_below(before_compaction(floats)(program).instrs, program.slots as int),
{
    let slots = program.slots as nat;
    let bound = slots as int;
    lemma_before_unrolling(program, state, world, 0);
    let bare = before_unrolling(program).instrs;
    let flat = unroll_loops(bare);
    lemma_unrolled_is_branching(bare, bound);
    lemma_look_ahead(flat, flat.len() as int, bound);
    let ahead = look_ahead(flat, flat.len() as int);
    lemma_peephole_in_range(ahead, slots, floats);
    let folded = peephole(ahead, slots, floats);
    lemma_drop_moves_in_range(folded, bound);
    assert(before_compaction(floats)(program).instrs == drop_overwritten_moves(folded));
}

/// The optimizer keeps what programs with branches do: on slots that hold the same
/// under their new numbers a program shows, once optimized, what it showed, and
/// where it left it leaves, with slots that hold the same under their new numbers.
pub proof fn law_optimizer_keeps_traces(
    program: ProgramView,
    floats: FloatFn,
    state: SlotState,
    world: World,
    small: SlotState,
    n: nat,
) -> (m: nat)
    requires
        is_optimizable()(program),
        is_branching(program.instrs),
        is_settled_right(program),
        loops_are_plain(program, state, world),
        state.len() == program.slots,
        is_renumbered(before_compaction(floats)(program), state, small),
    ensures
        after(program.instrs, started(state, world), n) matches Some(run) ==> (after(
            optimized_program(floats)(program).instrs,
            started(small, world),
            m,
        ) matches Some(new) && new.seen == run.seen && (run.at == nowhere() ==> new.at == nowhere()
            && is_renumbered(before_compaction(floats)(program), run.state, new.state))),
{
    let slots = program.slots as nat;
    let bound = slots as int;
    let first = lemma_before_unrolling(program, state, world, n);
    let bare = before_unrolling(program).instrs;
    let flat = unroll_loops(bare);
    let middle = law_unrolling_keeps_traces(bare, state, world, first);
    lemma_unrolled_is_branching(bare, bound);
    law_lookahead_keeps_traces(flat, flat.len() as int, state, world, middle);
    lemma_look_ahead(flat, flat.len() as int, bound);
    let ahead = look_ahead(flat, flat.len() as int);
    let second = law_folding_keeps_traces(ahead, slots, floats, state, world, middle);
    lemma_folded_is_branching(ahead, slots, floats, ahead.len() as int);
    lemma_mapped_is_branching(
        fold_prefix(ahead, slots, floats, ahead.len() as int).out,
        fold_position(ahead, slots, floats),
    );
    lemma_peephole_in_range(ahead, slots, floats);
    let folded = peephole(ahead, slots, floats);
    let third = law_dropped_moves_keep_traces(folded, state, world, second);
    lemma_drop_moves_in_range(folded, bound);
    lemma_kept_is_branching(folded, folded.len() as int);
    lemma_mapped_is_branching(kept_instrs(folded, folded.len() as int), kept_position(folded));
    let before = before_compaction(floats)(program);
    assert(before.instrs == drop_overwritten_moves(folded));
    assert(before.slots == program.slots);
    law_compaction_keeps_traces(before, state, world, small, third);
    third
}

/// A program on slots of zero shows this before it leaves.
pub open spec fn leaves_having_shown(
    program: ProgramView,
    world: World,
    seen: Seq<Event>,
) -> bool {
    exists|n: nat| #[trigger]
        after(program.instrs, started(zeros(program.slots as nat), world), n) matches Some(run)
            && run.at
            == nowhere() && run.seen == seen
}

/// Slots of zero.
pub open spec fn zeros(slots: nat) -> SlotState {
    Seq::new(slots, |i: int| 0u64)
}

/// A program with branches that leaves does so once it is optimized, having shown
/// the same.
pub proof fn law_optimized_programs_show_the_same(
    program: ProgramView,
    floats: FloatFn,
    world: World,
    seen: Seq<Event>,
)
    requires
        is_optimizable()(program),
        is_branching(program.instrs),
        is_settled_right(program),
        loops_are_plain(program, zeros(program.slots as nat), world),
        leaves_having_shown(program, world, seen),
    ensures
        leaves_having_shown(optimized_program(floats)(program), world, seen),
{
    let state = zeros(program.slots as nat);
    let n = choose|n: nat| #[trigger]
        after(program.instrs, started(state, world), n) matches Some(run) && run.at == nowhere()
            && run.seen == seen;
    let before = before_compaction(floats)(program);
    let optimized = optimized_program(floats)(program);
    let small = zeros(optimized.slots as nat);
    lemma_keeps_slots(program, floats, state, world);
    assert(compact_slots(before) == optimized);
    assert forall|slot: usize| #[trigger] slot_is_used(before.instrs, slot) implies small[by_rank(
        before.instrs,
    )(slot) as int] == state[slot as int] by {
        lemma_rank_in_range(before, slot);
    }
    let m = law_optimizer_keeps_traces(program, floats, state, world, small, n);
    assert(after(optimized.instrs, started(small, world), m) is Some);
}

} // verus!
