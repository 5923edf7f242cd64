//! The whole optimizer on straight-line code: what is seen of a program stays as
//! it is, and its slots end as they did, each under its new number.

use crate::ir::{InstrView, ProgramView, RuntimeOperand};
use crate::optimizer::checks::{
    blocks_of, drop_bounded_checks, lemma_drop_bounded_checks, lemma_drop_repeated_checks,
    lemma_same_but_checks_in_range, same_but_checks, unchecked,
};
use crate::optimizer::control_flow::{
    effective_instrs, effective_position, flagged_instrs, flagged_position, is_path, is_reachable,
    lemma_reachable_step, may_follow, reachable_flags, shorten_returns, simplify, threading,
};
use crate::optimizer::copies::{
    copy_propagate, law_copy_propagation_preserves_run, lemma_copy_propagate_in_range,
};
use crate::optimizer::facts::{drop_checks_by_facts, facts_at};
use crate::optimizer::guards::{drop_guarded_checks, lemma_elide_checks};
use crate::optimizer::inline::{
    inline_leaf_calls, inline_round, tail_calls, Inlining, MAX_INLINE_EXPANSION,
};
use crate::optimizer::lookahead::{law_lookahead_preserves_run, lemma_look_ahead, look_ahead};
use crate::optimizer::loops::counted_loops;
use crate::optimizer::machine::{
    event, events, is_plain, is_straight, leaves_at_end, lemma_run_push, run, step, value_of,
    SlotState,
};
use crate::optimizer::moves::{law_dropped_moves_preserve_run, lemma_drop_moves_in_range};
use crate::optimizer::peephole::{
    law_peephole_preserves_run, lemma_peephole_in_range, peephole, FloatFn,
};
use crate::optimizer::pipeline::{
    copy_pass, inline_pass, is_optimizable, lookahead_pass, loop_checks_pass, optimized_program,
    overwritten_moves_pass, peephole_pass, simplify_pass, specialize_pass, tail_call_pass,
    unroll_pass,
};
use crate::optimizer::probes::{select_probes, MAX_GROUP_PROBES};
use crate::optimizer::search::{is_search, rewrite_searches, search_at};
use crate::optimizer::slots::{
    by_rank, compact_slots, has_unused_slot, law_compaction_is_order_preserving, lemma_slot_rank,
    lemma_used_slot_below, rename, rename_list, rename_operand, slot_is_used, slot_total,
    slots_below,
};
use crate::optimizer::slots_laws::lemma_rank_of_used;
use crate::optimizer::specialize::settle_branches;
use crate::optimizer::targets::{map_branch_targets, map_code_targets};
use crate::optimizer::traces::is_branch;
use crate::optimizer::unroll::{plan_at, unroll_loops};
use crate::optimizer::uses::mentions;
use crate::optimizer::versions::{
    drop_checks_of_loops, drop_redundant_checks, loop_checks, slot_limited, version_slot_loops,
};
use vstd::prelude::*;

verus! {

/// Straight-line code.
pub open spec fn is_straight_code(instrs: Seq<InstrView>) -> bool {
    forall|i: int| 0 <= i < instrs.len() ==> is_straight(#[trigger] instrs[i])
}

/// There is nothing to renumber.
proof fn lemma_no_targets(instrs: Seq<InstrView>, f: spec_fn(usize) -> usize)
    requires
        is_straight_code(instrs),
    ensures
        map_code_targets(instrs, f) == instrs,
        map_branch_targets(instrs, f) == instrs,
{
    assert forall|i: int| 0 <= i < instrs.len() implies map_code_targets(instrs, f)[i] == instrs[i]
        && map_branch_targets(instrs, f)[i] == instrs[i] by {
        assert(is_straight(instrs[i]));
    }
    assert(map_code_targets(instrs, f) =~= instrs);
    assert(map_branch_targets(instrs, f) =~= instrs);
}

/// There is no call.
pub open spec fn has_no_calls(instrs: Seq<InstrView>) -> bool {
    forall|i: int| 0 <= i < instrs.len() ==> !(#[trigger] instrs[i] is Call)
}

/// There is no call to inline.
pub proof fn lemma_no_inlining(state: Inlining, index: int)
    requires
        has_no_calls(state.instrs),
        0 <= index,
        state.added <= MAX_INLINE_EXPANSION,
    ensures
        inline_round(state, index) == state,
    decreases state.instrs.len() - index,
{
    if index < state.instrs.len() {
        assert(!(state.instrs[index] is Call));
        lemma_no_inlining(state, index + 1);
    }
}

/// There is no call to turn into a jump.
pub proof fn lemma_no_tail_calls(instrs: Seq<InstrView>)
    requires
        has_no_calls(instrs),
    ensures
        tail_calls(instrs) == instrs,
{
    assert forall|i: int| 0 <= i < instrs.len() implies tail_calls(instrs)[i] == instrs[i] by {
        assert(!(instrs[i] is Call));
    }
    assert(tail_calls(instrs) =~= instrs);
}

/// There is no jump to shorten.
proof fn lemma_no_returns(instrs: Seq<InstrView>, n: int)
    requires
        is_straight_code(instrs),
        0 <= n <= instrs.len(),
    ensures
        shorten_returns(instrs, n) == instrs,
    decreases n,
{
    if n > 0 {
        lemma_no_returns(instrs, n - 1);
        assert(is_straight(instrs[n - 1]));
    }
}

/// Control gets to every instruction.
proof fn lemma_all_reachable(instrs: Seq<InstrView>, index: int)
    requires
        is_straight_code(instrs),
        leaves_at_end(instrs),
        0 <= index < instrs.len(),
    ensures
        is_reachable(instrs, index),
    decreases index,
{
    if index == 0 {
        let path = seq![0int];
        assert(is_path(instrs, path));
        assert(path.last() == 0);
    } else {
        lemma_all_reachable(instrs, index - 1);
        assert(is_straight(instrs[index - 1]));
        assert(!(instrs[index - 1] is Exit));
        assert(may_follow(instrs, index - 1, index));
        lemma_reachable_step(instrs, index - 1, index);
    }
}

/// What is flagged throughout stays.
proof fn lemma_all_flagged(instrs: Seq<InstrView>, flags: Seq<bool>, n: int)
    requires
        0 <= n <= instrs.len(),
        forall|i: int| 0 <= i < instrs.len() ==> #[trigger] flags[i],
    ensures
        flagged_instrs(instrs, flags, n) == instrs.take(n),
    decreases n,
{
    if n > 0 {
        lemma_all_flagged(instrs, flags, n - 1);
        assert(flags[n - 1]);
        assert(instrs.take(n - 1).push(instrs[n - 1]) =~= instrs.take(n));
    } else {
        assert(instrs.take(0) =~= Seq::empty());
    }
}

/// There is no idle jump.
proof fn lemma_all_effective(instrs: Seq<InstrView>, n: int)
    requires
        is_straight_code(instrs),
        0 <= n <= instrs.len(),
    ensures
        effective_instrs(instrs, n) == instrs.take(n),
    decreases n,
{
    if n > 0 {
        lemma_all_effective(instrs, n - 1);
        assert(is_straight(instrs[n - 1]));
        assert(instrs.take(n - 1).push(instrs[n - 1]) =~= instrs.take(n));
    } else {
        assert(instrs.take(0) =~= Seq::empty());
    }
}

/// There is no control flow to simplify.
proof fn lemma_nothing_to_simplify(instrs: Seq<InstrView>)
    requires
        is_straight_code(instrs),
        leaves_at_end(instrs),
    ensures
        simplify(instrs) == instrs,
{
    let count = instrs.len() as int;
    lemma_no_targets(instrs, threading(instrs));
    lemma_no_returns(instrs, count);
    let flags = reachable_flags(instrs);
    assert forall|i: int| 0 <= i < instrs.len() implies #[trigger] flags[i] by {
        lemma_all_reachable(instrs, i);
    }
    lemma_all_flagged(instrs, flags, count);
    lemma_all_effective(instrs, count);
    assert(instrs.take(count) =~= instrs);
    lemma_no_targets(instrs, flagged_position(instrs, flags));
    lemma_no_targets(instrs, effective_position(instrs));
}

/// There is no branch to settle.
proof fn lemma_nothing_to_settle(instrs: Seq<InstrView>)
    requires
        is_straight_code(instrs),
    ensures
        settle_branches(instrs) == instrs,
{
    assert forall|i: int| 0 <= i < instrs.len() implies settle_branches(instrs)[i] == instrs[i] by {
        assert(is_straight(instrs[i]));
    }
    assert(settle_branches(instrs) =~= instrs);
}

/// There is no loop.
proof fn lemma_no_loops(instrs: Seq<InstrView>, canonical: bool, n: int)
    requires
        is_straight_code(instrs),
        n <= instrs.len(),
    ensures
        counted_loops(instrs, canonical, n).len() == 0,
    decreases n,
{
    if n > 0 {
        lemma_no_loops(instrs, canonical, n - 1);
        assert(is_straight(instrs[n - 1]));
    }
}

/// There is no search.
proof fn lemma_no_searches(instrs: Seq<InstrView>, n: int)
    requires
        is_straight_code(instrs),
    ensures
        rewrite_searches(instrs, n) == instrs,
    decreases n,
{
    if n > 2 {
        lemma_no_searches(instrs, n - 1);
        if let Some(search) = search_at(instrs, n - 1) {
            assert(is_search(instrs, n - 1, search));
            assert(is_straight(instrs[n - 1]));
        }
    }
}

/// What differs at most in checks from what does from a program, does from it.
proof fn lemma_same_but_checks_transitive(
    a: Seq<InstrView>,
    b: Seq<InstrView>,
    c: Seq<InstrView>,
)
    requires
        same_but_checks(a, b),
        same_but_checks(b, c),
    ensures
        same_but_checks(a, c),
{
    assert forall|i: int| 0 <= i < a.len() implies #[trigger] c[i] == a[i] || c[i]
        == unchecked(a[i]) by {
        assert(b[i] == a[i] || b[i] == unchecked(a[i]));
        assert(c[i] == b[i] || c[i] == unchecked(b[i]));
    }
}

/// Only checks are dropped.
proof fn lemma_only_checks_go(program: ProgramView)
    requires
        is_straight_code(program.instrs),
    ensures
        same_but_checks(program.instrs, loop_checks(program).instrs),
        loop_checks(program).slots == program.slots,
{
    let instrs = program.instrs;
    let count = instrs.len() as int;
    lemma_no_loops(instrs, false, count);
    lemma_no_loops(instrs, true, count);
    assert(select_probes(program, MAX_GROUP_PROBES as nat) == program);
    let loops = counted_loops(instrs, true, count);
    assert(drop_checks_of_loops(instrs, loops, loops.len() as int) == instrs);
    lemma_no_searches(instrs, count - 11);
    let by_facts = drop_checks_by_facts(instrs);
    assert(same_but_checks(instrs, by_facts));
    let guarded = drop_guarded_checks(by_facts);
    lemma_elide_checks(by_facts, facts_at(by_facts, slot_total(by_facts)), count);
    lemma_same_but_checks_transitive(instrs, by_facts, guarded);
    let bounded = drop_bounded_checks(guarded, blocks_of(guarded), count);
    lemma_drop_bounded_checks(guarded, blocks_of(guarded), count);
    lemma_same_but_checks_transitive(instrs, guarded, bounded);
    lemma_drop_repeated_checks(bounded, blocks_of(bounded), count);
    let bare = drop_redundant_checks(instrs);
    lemma_same_but_checks_transitive(instrs, bounded, bare);
    assert(is_straight_code(bare)) by {
        assert forall|i: int| 0 <= i < bare.len() implies is_straight(#[trigger] bare[i]) by {
            assert(is_straight(instrs[i]));
        }
    }
    lemma_no_loops(bare, true, count);
    let left = counted_loops(bare, true, count);
    assert(slot_limited(left, left.len() as int).len() == 0);
    assert(version_slot_loops(bare, left) == bare);
}

/// Code that differs at most in checks does the same.
proof fn lemma_checks_are_unseen(a: Seq<InstrView>, b: Seq<InstrView>, state: SlotState)
    requires
        same_but_checks(a, b),
    ensures
        run(b, state) == run(a, state),
        events(b, state) == events(a, state),
    decreases a.len(),
{
    if a.len() > 0 {
        assert(b.last() == a.last() || b.last() == unchecked(a.last()));
        let (c, d) = (a.drop_last(), b.drop_last());
        assert(same_but_checks(c, d)) by {
            assert forall|i: int| 0 <= i < c.len() implies #[trigger] d[i] == c[i] || d[i]
                == unchecked(c[i]) by {
                assert(b[i] == a[i] || b[i] == unchecked(a[i]));
            }
        }
        lemma_checks_are_unseen(c, d, state);
    }
}

/// There is no loop to unroll.
proof fn lemma_nothing_to_unroll(instrs: Seq<InstrView>)
    requires
        is_straight_code(instrs),
    ensures
        unroll_loops(instrs) == instrs,
{
    lemma_no_loops(instrs, true, instrs.len() as int);
    assert forall|header: int| 0 <= header < instrs.len() implies #[trigger] plan_at(
        instrs,
        header,
    ) is None by {}
}

/// What the optimizer makes of a program before it closes the gaps in the slot
/// numbering.
pub open spec fn before_compaction(floats: FloatFn) -> spec_fn(ProgramView) -> ProgramView {
    |program: ProgramView|
        {
            let inlined = tail_call_pass()(inline_pass()(program));
            let simple = simplify_pass()(inlined);
            let settled = simplify_pass()(specialize_pass()(copy_pass()(simple)));
            let unrolled = unroll_pass()(loop_checks_pass()(settled));
            overwritten_moves_pass()(peephole_pass(floats)(lookahead_pass()(unrolled)))
        }
}

/// Straight-line code that does not trap does the same after all passes but slot
/// compaction: it leaves the same slots, and the same is seen of it.
pub proof fn law_passes_keep_straight_code(
    program: ProgramView,
    floats: FloatFn,
    state: SlotState,
)
    requires
        is_optimizable()(program),
        is_straight_code(program.instrs),
        leaves_at_end(program.instrs),
        state.len() == program.slots,
        run(program.instrs, state) is Some,
    ensures
        before_compaction(floats)(program).slots == program.slots,
        run(before_compaction(floats)(program).instrs, state) == run(program.instrs, state),
        events(before_compaction(floats)(program).instrs, state) == events(program.instrs, state),
        is_straight_code(before_compaction(floats)(program).instrs),
        slots_below(before_compaction(floats)(program).instrs, program.slots as int),
{
    let slots = program.slots as nat;
    let instrs = program.instrs;
    assert forall|i: int| 0 <= i < instrs.len() implies !(#[trigger] instrs[i] is Call) by {
        assert(is_straight(instrs[i]));
    }
    lemma_no_inlining(Inlining { instrs, added: 0, changed: false, stopped: false }, 0);
    assert(inline_leaf_calls(instrs) == instrs);
    lemma_no_tail_calls(instrs);
    lemma_nothing_to_simplify(instrs);
    law_copy_propagation_preserves_run(instrs, slots, state);
    lemma_copy_propagate_in_range(instrs, slots);
    let copied = copy_propagate(instrs, slots);
    assert(is_straight_code(copied));
    lemma_nothing_to_settle(copied);
    lemma_nothing_to_simplify(copied);
    let settled = ProgramView { slots: program.slots, instrs: copied };
    lemma_only_checks_go(settled);
    let bare = loop_checks(settled).instrs;
    lemma_checks_are_unseen(copied, bare, state);
    lemma_same_but_checks_in_range(copied, bare, slots as int);
    assert(is_straight_code(bare)) by {
        assert forall|i: int| 0 <= i < bare.len() implies is_straight(#[trigger] bare[i]) by {
            assert(is_straight(copied[i]));
        }
    }
    lemma_nothing_to_unroll(bare);
    law_lookahead_preserves_run(bare, bare.len() as int, state);
    lemma_look_ahead(bare, bare.len() as int, slots as int);
    let ahead = look_ahead(bare, bare.len() as int);
    assert(is_straight_code(ahead)) by {
        assert forall|i: int| 0 <= i < ahead.len() implies is_straight(#[trigger] ahead[i]) by {
            assert(is_straight(bare[i]));
        }
    }
    law_peephole_preserves_run(ahead, slots, floats, state);
    lemma_peephole_in_range(ahead, slots, floats);
    let folded = peephole(ahead, slots, floats);
    law_dropped_moves_preserve_run(folded, state);
    lemma_drop_moves_in_range(folded, slots as int);
}

/// Slots under their numbers and under those that compaction gives the used ones
/// hold the same.
pub open spec fn is_renumbered(program: ProgramView, state: SlotState, small: SlotState) -> bool {
    &&& state.len() == program.slots
    &&& small.len() == compact_slots(program).slots
    &&& forall|slot: usize| #[trigger]
        slot_is_used(program.instrs, slot) ==> small[by_rank(program.instrs)(slot) as int]
            == state[slot as int]
}

/// The number that compaction gives a used slot is in range.
pub proof fn lemma_rank_in_range(program: ProgramView, slot: usize)
    requires
        slots_below(program.instrs, program.slots as int),
        slot_is_used(program.instrs, slot),
    ensures
        slot < program.slots,
        by_rank(program.instrs)(slot) < compact_slots(program).slots,
{
    let instrs = program.instrs;
    lemma_used_slot_below(instrs, slot, program.slots as int);
    lemma_slot_rank(instrs, slot as nat, program.slots as nat);
    lemma_slot_rank(instrs, slot as nat + 1, program.slots as nat);
    lemma_slot_rank(instrs, program.slots as nat, program.slots as nat);
}

/// Where no slot is unused, slots keep their numbers.
pub proof fn lemma_all_used(program: ProgramView, i: int)
    requires
        slots_below(program.instrs, program.slots as int),
        !has_unused_slot(program),
        0 <= i < program.instrs.len(),
        is_plain(program.instrs[i]) || is_branch(program.instrs[i]),
    ensures
        rename(program.instrs[i], by_rank(program.instrs)) == program.instrs[i],
{
    let instrs = program.instrs;
    let f = by_rank(instrs);
    assert forall|slot: usize| #[trigger] mentions(instrs[i], slot) implies f(slot) == slot by {
        assert(slot_is_used(instrs, slot));
        lemma_used_slot_below(instrs, slot, program.slots as int);
        assert forall|other: usize| other < slot implies #[trigger] slot_is_used(
            instrs,
            other,
        ) by {}
        lemma_rank_of_used(instrs, slot as nat);
    }
    lemma_renamed_to_itself(instrs[i], f);
}

/// Names that stay as they are leave the instruction as it is.
proof fn lemma_renamed_to_itself(instr: InstrView, f: spec_fn(usize) -> usize)
    requires
        is_plain(instr) || is_branch(instr),
        forall|slot: usize| #[trigger] mentions(instr, slot) ==> f(slot) == slot,
    ensures
        rename(instr, f) == instr,
{
    assert forall|operand: RuntimeOperand|
        (operand matches RuntimeOperand::Slot(slot) ==> mentions(instr, slot)) implies
        #[trigger] rename_operand(operand, f) == operand by {
        if let RuntimeOperand::Slot(slot) = operand {
            assert(mentions(instr, slot));
        }
    }
    match instr {
        InstrView::Mov { dst, .. }
        | InstrView::BinOp { dst, .. }
        | InstrView::BinOpInPlace { dst, .. }
        | InstrView::Cmp { dst, .. }
        | InstrView::NormalizeInt { dst, .. } => {
            assert(mentions(instr, dst));
        },
        InstrView::LoadIndex { dst, base_slots, .. }
        | InstrView::LoadIndexUnchecked { dst, base_slots, .. } => {
            assert(mentions(instr, dst));
            assert forall|k: int| 0 <= k < base_slots.len() implies f(base_slots[k])
                == base_slots[k] by {
                assert(base_slots.contains(base_slots[k]));
                assert(mentions(instr, base_slots[k]));
            }
            assert(rename_list(base_slots, f) =~= base_slots);
        },
        InstrView::StoreIndex { base_slots, .. }
        | InstrView::StoreIndexUnchecked { base_slots, .. } => {
            assert forall|k: int| 0 <= k < base_slots.len() implies f(base_slots[k])
                == base_slots[k] by {
                assert(base_slots.contains(base_slots[k]));
                assert(mentions(instr, base_slots[k]));
            }
            assert(rename_list(base_slots, f) =~= base_slots);
        },
        InstrView::JumpIfZero { cond_slot, .. } => {
            assert(mentions(instr, cond_slot));
        },
        InstrView::LoadSeed { dst, input, .. } => {
            assert(mentions(instr, dst));
            if let Some(operand) = input {
                assert(rename_operand(operand, f) == operand);
            }
        },
        InstrView::HeapLoadInt { dst, .. }
        | InstrView::Alloc { dst, .. }
        | InstrView::FileOpen { dst, .. }
        | InstrView::FileWrite { dst, .. }
        | InstrView::FileRead { dst, .. }
        | InstrView::ChannelCreate { dst, .. }
        | InstrView::ChannelRecv { dst, .. } => {
            assert(mentions(instr, dst));
        },
        _ => {},
    }
}

/// A used slot is set under both numbers.
pub proof fn lemma_renumbered_update(
    program: ProgramView,
    state: SlotState,
    small: SlotState,
    slot: usize,
    value: u64,
)
    requires
        slots_below(program.instrs, program.slots as int),
        is_renumbered(program, state, small),
        slot_is_used(program.instrs, slot),
    ensures
        is_renumbered(
            program,
            state.update(slot as int, value),
            small.update(by_rank(program.instrs)(slot) as int, value),
        ),
{
    let f = by_rank(program.instrs);
    lemma_rank_in_range(program, slot);
    assert forall|other: usize| #[trigger] slot_is_used(program.instrs, other) implies small.update(
        f(slot) as int,
        value,
    )[f(other) as int] == state.update(slot as int, value)[other as int] by {
        lemma_rank_in_range(program, other);
        if other < slot {
            law_compaction_is_order_preserving(program, other, slot);
        } else if slot < other {
            law_compaction_is_order_preserving(program, slot, other);
        }
    }
}

/// An instruction computes the same on renumbered slots.
#[verifier::rlimit(60)]
proof fn lemma_renumbered_arithmetic(
    program: ProgramView,
    i: int,
    state: SlotState,
    small: SlotState,
)
    requires
        slots_below(program.instrs, program.slots as int),
        is_renumbered(program, state, small),
        0 <= i < program.instrs.len(),
        is_straight(program.instrs[i]),
    ensures
        match (
            step(program.instrs[i], state),
            step(rename(program.instrs[i], by_rank(program.instrs)), small),
        ) {
            (Some(after), Some(small_after)) => is_renumbered(program, after, small_after),
            (None, None) => true,
            _ => false,
        },
{
    let instr = program.instrs[i];
    let f = by_rank(program.instrs);
    assert forall|slot: usize| #[trigger] mentions(instr, slot) implies slot_is_used(
        program.instrs,
        slot,
    ) by {}
    assert forall|operand: RuntimeOperand|
        (operand matches RuntimeOperand::Slot(slot) ==> mentions(instr, slot)) implies
        #[trigger] value_of(rename_operand(operand, f), small) == value_of(operand, state) by {
        if let RuntimeOperand::Slot(slot) = operand {
            assert(slot_is_used(program.instrs, slot));
        }
    }
    match instr {
        InstrView::Mov { dst, src } => {
            assert(mentions(instr, dst));
            assert(value_of(rename_operand(src, f), small) == value_of(src, state));
            lemma_renumbered_update(program, state, small, dst, value_of(src, state));
        },
        InstrView::BinOp { dst, lhs, rhs, .. } => {
            assert(mentions(instr, dst));
            assert(value_of(rename_operand(lhs, f), small) == value_of(lhs, state));
            assert(value_of(rename_operand(rhs, f), small) == value_of(rhs, state));
            if let Some(after) = step(instr, state) {
                lemma_rank_in_range(program, dst);
                lemma_renumbered_update(program, state, small, dst, after[dst as int]);
            }
        },
        InstrView::BinOpInPlace { dst, rhs, .. } => {
            assert(mentions(instr, dst));
            assert(slot_is_used(program.instrs, dst));
            assert(value_of(rename_operand(rhs, f), small) == value_of(rhs, state));
            if let Some(after) = step(instr, state) {
                lemma_rank_in_range(program, dst);
                lemma_renumbered_update(program, state, small, dst, after[dst as int]);
            }
        },
        InstrView::Cmp { dst, lhs, rhs, .. } => {
            assert(mentions(instr, dst));
            assert(value_of(rename_operand(lhs, f), small) == value_of(lhs, state));
            assert(value_of(rename_operand(rhs, f), small) == value_of(rhs, state));
            lemma_rank_in_range(program, dst);
            lemma_renumbered_update(program, state, small, dst, step(instr, state)->0[dst as int]);
        },
        InstrView::NormalizeInt { dst, .. } => {
            assert(mentions(instr, dst));
            assert(slot_is_used(program.instrs, dst));
            lemma_rank_in_range(program, dst);
            lemma_renumbered_update(program, state, small, dst, step(instr, state)->0[dst as int]);
        },
        InstrView::LoadIndex { dst, base_slots, index }
        | InstrView::LoadIndexUnchecked { dst, base_slots, index } => {
            assert(mentions(instr, dst));
            assert(value_of(rename_operand(index, f), small) == value_of(index, state));
            let at = value_of(index, state) as int;
            if at < base_slots.len() {
                assert(base_slots.contains(base_slots[at]));
                assert(mentions(instr, base_slots[at]));
                assert(slot_is_used(program.instrs, base_slots[at]));
                lemma_renumbered_update(program, state, small, dst, state[base_slots[at] as int]);
            }
        },
        InstrView::StoreIndex { base_slots, index, src }
        | InstrView::StoreIndexUnchecked { base_slots, index, src } => {
            assert(value_of(rename_operand(index, f), small) == value_of(index, state));
            assert(value_of(rename_operand(src, f), small) == value_of(src, state));
            let at = value_of(index, state) as int;
            if at < base_slots.len() {
                assert(base_slots.contains(base_slots[at]));
                assert(mentions(instr, base_slots[at]));
                lemma_renumbered_update(
                    program,
                    state,
                    small,
                    base_slots[at],
                    value_of(src, state),
                );
            }
        },
        _ => {},
    }
}

/// An instruction does the same on renumbered slots.
pub proof fn lemma_renumbered_step(program: ProgramView, i: int, state: SlotState, small: SlotState)
    requires
        slots_below(program.instrs, program.slots as int),
        is_renumbered(program, state, small),
        0 <= i < program.instrs.len(),
        is_straight(program.instrs[i]),
    ensures
        event(rename(program.instrs[i], by_rank(program.instrs)), small) == event(
            program.instrs[i],
            state,
        ),
        match (
            step(program.instrs[i], state),
            step(rename(program.instrs[i], by_rank(program.instrs)), small),
        ) {
            (Some(after), Some(small_after)) => is_renumbered(program, after, small_after),
            (None, None) => true,
            _ => false,
        },
{
    lemma_renumbered_arithmetic(program, i, state, small);
    let instr = program.instrs[i];
    match instr {
        InstrView::PrintInt { value: RuntimeOperand::Slot(slot), .. } => {
            assert(mentions(instr, slot));
            assert(slot_is_used(program.instrs, slot));
        },
        InstrView::Exit { code: RuntimeOperand::Slot(slot) } => {
            assert(mentions(instr, slot));
            assert(slot_is_used(program.instrs, slot));
        },
        _ => {},
    }
}

/// The first n instructions do the same on renumbered slots.
proof fn lemma_renumbered_run(program: ProgramView, n: int, state: SlotState, small: SlotState)
    requires
        slots_below(program.instrs, program.slots as int),
        is_straight_code(program.instrs),
        is_renumbered(program, state, small),
        0 <= n <= program.instrs.len(),
    ensures
        events(compact_slots(program).instrs.take(n), small) == events(
            program.instrs.take(n),
            state,
        ),
        match (
            run(program.instrs.take(n), state),
            run(compact_slots(program).instrs.take(n), small),
        ) {
            (Some(after), Some(small_after)) => is_renumbered(program, after, small_after),
            (None, None) => true,
            _ => false,
        },
    decreases n,
{
    let instrs = program.instrs;
    let compact = compact_slots(program).instrs;
    if n > 0 {
        lemma_renumbered_run(program, n - 1, state, small);
        assert(is_straight(instrs[n - 1]));
        assert(instrs.take(n) =~= instrs.take(n - 1).push(instrs[n - 1]));
        assert(compact.take(n) =~= compact.take(n - 1).push(compact[n - 1]));
        lemma_run_push(instrs.take(n - 1), instrs[n - 1], state);
        lemma_run_push(compact.take(n - 1), compact[n - 1], small);
        if !has_unused_slot(program) {
            lemma_all_used(program, n - 1);
        }
        assert(compact[n - 1] == rename(instrs[n - 1], by_rank(instrs)));
        if let Some(middle) = run(instrs.take(n - 1), state) {
            let small_middle = run(compact.take(n - 1), small)->0;
            lemma_renumbered_step(program, n - 1, middle, small_middle);
        }
    } else {
        assert(instrs.take(0) =~= Seq::empty());
        assert(compact.take(0) =~= Seq::empty());
    }
}

/// Slot compaction keeps what straight-line code does: on slots that hold the same
/// under their new numbers it traps where it did, leaves slots that do so too, and
/// the same is seen of it.
pub proof fn law_compaction_keeps_straight_code(
    program: ProgramView,
    state: SlotState,
    small: SlotState,
)
    requires
        slots_below(program.instrs, program.slots as int),
        is_straight_code(program.instrs),
        is_renumbered(program, state, small),
    ensures
        events(compact_slots(program).instrs, small) == events(program.instrs, state),
        match (run(program.instrs, state), run(compact_slots(program).instrs, small)) {
            (Some(after), Some(small_after)) => is_renumbered(program, after, small_after),
            (None, None) => true,
            _ => false,
        },
{
    let count = program.instrs.len() as int;
    lemma_renumbered_run(program, count, state, small);
    assert(program.instrs.take(count) =~= program.instrs);
    assert(compact_slots(program).instrs.take(count) =~= compact_slots(program).instrs);
}

/// The optimizer keeps what straight-line code does that does not trap: on slots
/// that hold the same under their new numbers it prints the same, leaves with the
/// same code, and ends with slots that hold the same under their new numbers.
pub proof fn law_optimizer_keeps_straight_code(
    program: ProgramView,
    floats: FloatFn,
    state: SlotState,
    small: SlotState,
)
    requires
        is_optimizable()(program),
        is_straight_code(program.instrs),
        leaves_at_end(program.instrs),
        run(program.instrs, state) is Some,
        state.len() == program.slots,
        is_renumbered(before_compaction(floats)(program), state, small),
    ensures
        events(optimized_program(floats)(program).instrs, small) == events(program.instrs, state),
        run(optimized_program(floats)(program).instrs, small) matches Some(end) && is_renumbered(
            before_compaction(floats)(program),
            run(program.instrs, state)->0,
            end,
        ),
{
    law_passes_keep_straight_code(program, floats, state);
    law_compaction_keeps_straight_code(before_compaction(floats)(program), state, small);
}

/// What is seen of straight-line code that starts on slots of zero and does not
/// trap is seen of what the optimizer makes of it.
pub proof fn law_optimizer_keeps_events(program: ProgramView, floats: FloatFn)
    requires
        is_optimizable()(program),
        is_straight_code(program.instrs),
        leaves_at_end(program.instrs),
        run(program.instrs, Seq::new(program.slots as nat, |i: int| 0u64)) is Some,
    ensures
        ({
            let optimized = optimized_program(floats)(program);
            events(optimized.instrs, Seq::new(optimized.slots as nat, |i: int| 0u64)) == events(
                program.instrs,
                Seq::new(program.slots as nat, |i: int| 0u64),
            )
        }),
{
    let state = Seq::new(program.slots as nat, |i: int| 0u64);
    law_passes_keep_straight_code(program, floats, state);
    let before = before_compaction(floats)(program);
    let small = Seq::new(optimized_program(floats)(program).slots as nat, |i: int| 0u64);
    assert(compact_slots(before) == optimized_program(floats)(program));
    assert forall|slot: usize| #[trigger] slot_is_used(before.instrs, slot) implies small[by_rank(
        before.instrs,
    )(slot) as int] == state[slot as int] by {
        lemma_rank_in_range(before, slot);
    }
    law_optimizer_keeps_straight_code(program, floats, state, small);
}

} // verus!
