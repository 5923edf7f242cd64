//! Lookahead, the removal of overwritten moves and slot compaction keep what is
//! seen of programs with branches.

use crate::ir::{InstrView, ProgramView, RuntimeOperand};
use crate::optimizer::lookahead::{
    is_entered_at_start, lcg_step, lemma_look_ahead, lemma_rewritten_run, lemma_run_is_arithmetic,
    lemma_run_length, look_ahead, look_ahead_at, run_length, with_run_in_one,
};
use crate::optimizer::machine;
use crate::optimizer::machine::{
    effect, event, is_plain, is_request, is_slot_arithmetic, is_straight, lemma_run_push, step,
    SlotState, World,
};
use crate::optimizer::moves::{
    agree_but_pending, drop_overwritten_moves, is_overwritten_move, is_pending, is_pending_from,
    kept_instrs, kept_position, lemma_kept_len, lemma_pending, lemma_read_is_below,
    lemma_same_operand, lemma_step_on_agreeing, overwrites_at,
};
use crate::optimizer::request_laws::{
    law_renumbered_requests_ask_the_same, law_requests_depend_on_what_is_read,
};
use crate::optimizer::slots::{
    by_rank, compact_slots, has_unused_slot, instr_below, rename, slot_is_used, slots_below,
};
use crate::optimizer::straight_laws::{is_renumbered, lemma_all_used, lemma_renumbered_step};
use crate::optimizer::targets::{enters, is_boundary, is_entered, map_branch_target};
use crate::optimizer::traces::{
    after, goes_to, is_branch, is_branching, lemma_world_stays, moved, next, nowhere, seen_after,
    started,
};
use crate::optimizer::uses::{mentions, reads, writes};
use vstd::prelude::*;

verus! {

/// What is kept only grows.
proof fn lemma_kept_prefix(instrs: Seq<InstrView>, n: int, m: int)
    requires
        0 <= n <= m,
    ensures
        kept_instrs(instrs, n).is_prefix_of(kept_instrs(instrs, m)),
    decreases m,
{
    if n < m {
        lemma_kept_prefix(instrs, n, m - 1);
        assert(kept_instrs(instrs, m - 1).is_prefix_of(kept_instrs(instrs, m)));
    }
}

/// No dropped move is pending at a branch or behind the end.
proof fn lemma_nothing_pending(instrs: Seq<InstrView>, at: int, slot: int)
    requires
        0 <= at,
        at < instrs.len() ==> is_boundary(instrs[at]),
    ensures
        !is_pending(instrs, at, slot),
{
    if is_pending(instrs, at, slot) {
        let (index, end) = choose|index: int, end: int|
            #![trigger is_pending_from(instrs, at, slot, index, end)]
            is_pending_from(instrs, at, slot, index, end);
        assert(overwrites_at(instrs, index, end, instrs[index]->Mov_dst));
        if at < end {
            assert(!is_boundary(instrs[at]));
        }
    }
}

/// Slots that agree but where a dropped move is pending are the same where none
/// is.
proof fn lemma_agree(instrs: Seq<InstrView>, at: int, a: SlotState, b: SlotState)
    requires
        agree_but_pending(instrs, at, a, b),
        0 <= at,
        at < instrs.len() ==> is_boundary(instrs[at]),
    ensures
        a == b,
{
    assert forall|slot: int| 0 <= slot < a.len() implies a[slot] == b[slot] by {
        lemma_nothing_pending(instrs, at, slot);
    }
    assert(a =~= b);
}

/// What an instruction reads is in range.
proof fn lemma_reads_below(instr: InstrView, slot: usize, bound: int)
    requires
        is_plain(instr),
        instr_below(instr, bound),
        reads(instr, slot),
    ensures
        slot < bound,
{
    if is_straight(instr) {
        lemma_read_is_below(instr, slot, bound);
    }
}

/// One instruction that falls through or leaves without the overwritten moves.
proof fn lemma_kept_step(
    instrs: Seq<InstrView>,
    at: int,
    a: SlotState,
    b: SlotState,
    answer: u64,
)
    requires
        0 <= at < instrs.len(),
        is_plain(instrs[at]),
        b.len() <= usize::MAX,
        slots_below(instrs, b.len() as int),
        agree_but_pending(instrs, at, a, b),
        effect(instrs[at], b, answer) is Some,
    ensures
        effect(instrs[at], b, answer)->0.len() == b.len(),
        is_overwritten_move(instrs, at) ==> agree_but_pending(
            instrs,
            at + 1,
            a,
            effect(instrs[at], b, answer)->0,
        ) && event(instrs[at], b) is None,
        !is_overwritten_move(instrs, at) ==> event(instrs[at], a) == event(instrs[at], b)
            && (effect(
            instrs[at],
            a,
            answer,
        ) matches Some(
            after,
        ) && agree_but_pending(instrs, at + 1, after, effect(instrs[at], b, answer)->0)),
{
    let instr = instrs[at];
    let n = at + 1;
    let next = effect(instr, b, answer)->0;
    assert(instr_below(instr, b.len() as int));
    if is_overwritten_move(instrs, at) {
        let dst = instr->Mov_dst;
        let end = choose|end: int| #[trigger] overwrites_at(instrs, at, end, dst);
        assert(is_pending_from(instrs, n, dst as int, at, end));
        assert forall|slot: int| 0 <= slot < a.len() implies #[trigger] a[slot] == next[slot]
            || is_pending(instrs, n, slot) by {
            if slot != dst && is_pending(instrs, at, slot) {
                lemma_pending(instrs, at, slot);
            }
        }
    } else {
        assert forall|slot: usize| reads(instr, slot) implies #[trigger] a[slot as int]
            == b[slot as int] by {
            lemma_reads_below(instr, slot, b.len() as int);
            if is_pending(instrs, at, slot as int) {
                lemma_pending(instrs, at, slot as int);
            }
        }
        if is_request(instr) {
            law_requests_depend_on_what_is_read(instr, a, b);
        } else {
            lemma_step_on_agreeing(instr, a, b);
        }
        match instr {
            InstrView::PrintInt { value, .. } => {
                lemma_same_operand(instr, value, a, b);
            },
            InstrView::Exit { code } => {
                lemma_same_operand(instr, code, a, b);
            },
            _ => {},
        }
        let after = effect(instr, a, answer)->0;
        assert forall|slot: int| 0 <= slot < after.len() implies #[trigger] after[slot]
            == next[slot] || is_pending(instrs, n, slot) by {
            if a[slot] != b[slot] {
                lemma_pending(instrs, at, slot);
            }
            let place = slot as usize;
            assert(a[place as int] == b[place as int] || writes(instr, place) || is_pending(
                instrs,
                n,
                slot,
            ));
            if a[place as int] == b[place as int] || writes(instr, place) {
                assert(effect(
                    instr,
                    a,
                    answer,
                )->0[place as int] == effect(instr, b, answer)->0[place as int]);
            }
        }
    }
}

/// Removing overwritten moves keeps what is seen: where a program comes, it comes
/// without them, having shown the same, with slots that agree but where a move is
/// about to be overwritten. It leaves with the same slots.
pub proof fn law_dropped_moves_keep_traces(
    instrs: Seq<InstrView>,
    state: SlotState,
    world: World,
    n: nat,
) -> (m: nat)
    requires
        is_branching(instrs),
        instrs.len() <= usize::MAX,
        state.len() <= usize::MAX,
        slots_below(instrs, state.len() as int),
    ensures
        after(instrs, started(state, world), n) matches Some(run) ==> run.at >= nowhere()
            && run.state.len() == state.len() && (after(
            drop_overwritten_moves(instrs),
            started(state, world),
            m,
        ) matches Some(new) && new.seen == run.seen && new.at == moved(
            run,
            kept_position(instrs),
        ).at && new.state.len() == state.len() && (if run.at >= 0 {
            agree_but_pending(instrs, run.at, new.state, run.state)
        } else {
            new.state == run.state
        })),
    decreases n,
{
    let f = kept_position(instrs);
    let out = drop_overwritten_moves(instrs);
    if n == 0 {
        0
    } else {
        let m = law_dropped_moves_keep_traces(instrs, state, world, (n - 1) as nat);
        if let Some(run) = after(instrs, started(state, world), n) {
            let before = after(instrs, started(state, world), (n - 1) as nat)->0;
            let new = after(out, started(state, world), m)->0;
            lemma_world_stays(instrs, started(state, world), (n - 1) as nat);
            lemma_world_stays(out, started(state, world), m);
            let at = before.at;
            let instr = instrs[at];
            assert(is_plain(instr) || is_branch(instr));
            lemma_kept_prefix(instrs, at, at + 1);
            lemma_kept_prefix(instrs, at + 1, instrs.len() as int);
            lemma_kept_len(instrs, at + 1);
            lemma_kept_len(instrs, instrs.len() as int);
            let place = kept_instrs(instrs, at).len() as int;
            if is_branch(instr) || instr is Exit {
                lemma_agree(instrs, at, new.state, before.state);
            }
            if !is_branch(instr) {
                let answer = (before.world)(seen_after(instr, before));
                lemma_kept_step(instrs, at, new.state, before.state, answer);
            }
            if is_overwritten_move(instrs, at) {
                m
            } else {
                assert(kept_instrs(instrs, at + 1)[place] == instr);
                assert(out[place] == map_branch_target(instr, f));
                m + 1
            }
        } else {
            0
        }
    }
}

/// Between a run's first instruction and the one behind it.
spec fn is_inside(at: int, from: int, to: int) -> bool {
    from < at < to
}

/// Where a program comes, it comes with one run rewritten: outside of the run with
/// the same slots, and inside of it with what the rewritten part makes of the slots
/// at the start of the run.
proof fn lemma_run_in_one_keeps_traces(
    instrs: Seq<InstrView>,
    from: int,
    slot: usize,
    length: nat,
    state: SlotState,
    world: World,
    n: nat,
) -> (start: SlotState)
    requires
        is_branching(instrs),
        0 <= from < instrs.len(),
        slots_below(instrs, state.len() as int),
        lcg_step(instrs, from) matches Some((dst, _, _)) && dst == slot,
        length == run_length(instrs, from, slot),
        length > 0,
        is_entered_at_start(instrs, from, from + 2 * length),
    ensures
        after(instrs, started(state, world), n) matches Some(run) ==> run.state.len() == state.len()
            && (
        after(
            with_run_in_one(instrs, from, slot, length),
            started(state, world),
            n,
        ) matches Some(new)
            && new.at == run.at && new.seen == run.seen && (if is_inside(
            run.at,
            from,
            from + 2 * length,
        ) {
            &&& start.len() == state.len()
            &&& machine::run(instrs.subrange(from, run.at), start) == Some(
                run.state,
            )
            &&& machine::run(
                with_run_in_one(instrs, from, slot, length).subrange(from, run.at),
                start,
            ) == Some(new.state)
        } else {
            new.state == run.state
        })),
    decreases n,
{
    let to = from + 2 * length;
    let other = with_run_in_one(instrs, from, slot, length);
    lemma_run_length(instrs, from, slot);
    if n == 0 {
        state
    } else {
        let start = lemma_run_in_one_keeps_traces(
            instrs,
            from,
            slot,
            length,
            state, world,
            (n - 1) as nat,
        );
        if let Some(run) = after(instrs, started(state, world), n) {
            let before = after(instrs, started(state, world), (n - 1) as nat)->0;
            let new = after(other, started(state, world), (n - 1) as nat)->0;
            lemma_world_stays(instrs, started(state, world), (n - 1) as nat);
            lemma_world_stays(other, started(state, world), (n - 1) as nat);
            let at = before.at;
            assert(is_plain(instrs[at]) || is_branch(instrs[at]));
            assert(instr_below(instrs[at], state.len() as int));
            if from <= at < to {
                lemma_run_is_arithmetic(instrs, from, slot, length);
                assert(is_slot_arithmetic(instrs[at]) && is_slot_arithmetic(other[at]));
                let first = if at == from {
                    before.state
                } else {
                    start
                };
                if at == from {
                    assert(instrs.subrange(from, at) =~= Seq::empty());
                    assert(other.subrange(from, at) =~= Seq::empty());
                }
                assert(instrs.subrange(from, at + 1) =~= instrs.subrange(from, at).push(
                    instrs[at],
                ));
                assert(other.subrange(from, at + 1) =~= other.subrange(from, at).push(other[at]));
                lemma_run_push(instrs.subrange(from, at), instrs[at], first);
                lemma_run_push(other.subrange(from, at), other[at], first);
                assert(instr_below(instrs[from], state.len() as int));
                lemma_rewritten_run(instrs, from, slot, length, first);
                assert(step(other[at], new.state) is Some);
                first
            } else {
                assert(other[at] == instrs[at]);
                if is_inside(run.at, from, to) {
                    assert(!is_entered(instrs, run.at));
                    assert(!enters(instrs[at], run.at));
                }
                start
            }
        } else {
            start
        }
    }
}

/// Lookahead keeps what is seen: where a program comes, it comes with the runs at the
/// first positions rewritten, having shown the same, and it leaves with the same
/// slots.
pub proof fn law_lookahead_keeps_traces(
    instrs: Seq<InstrView>,
    count: int,
    state: SlotState,
    world: World,
    n: nat,
)
    requires
        is_branching(instrs),
        0 <= count <= instrs.len(),
        slots_below(instrs, state.len() as int),
    ensures
        is_branching(look_ahead(instrs, count)),
        after(instrs, started(state, world), n) matches Some(run) ==> (after(
            look_ahead(instrs, count),
            started(state, world),
            n,
        ) matches Some(new) && new.at == run.at && new.seen == run.seen && (run.at == nowhere()
            ==> new.state == run.state)),
    decreases count,
{
    if count > 0 {
        let from = count - 1;
        law_lookahead_keeps_traces(instrs, from, state, world, n);
        lemma_look_ahead(instrs, from, state.len() as int);
        let before = look_ahead(instrs, from);
        if look_ahead_at(before, from) != before {
            let (slot, _, _) = lcg_step(before, from)->0;
            let length = run_length(before, from, slot);
            lemma_run_in_one_keeps_traces(before, from, slot, length, state, world, n);
            lemma_run_is_arithmetic(before, from, slot, length);
            let other = with_run_in_one(before, from, slot, length);
            assert forall|i: int| 0 <= i < other.len() implies is_plain(#[trigger] other[i])
                || is_branch(other[i]) by {
                assert(is_plain(before[i]) || is_branch(before[i]));
                if from <= i < from + 2 * length {
                    assert(is_slot_arithmetic(other[i]));
                } else {
                    assert(other[i] == before[i]);
                }
            }
        }
    }
}

/// A branch goes the same way on renumbered slots.
proof fn lemma_renumbered_branch(program: ProgramView, i: int, state: SlotState, small: SlotState)
    requires
        is_renumbered(program, state, small),
        0 <= i < program.instrs.len(),
        is_branch(program.instrs[i]),
    ensures
        is_branch(rename(program.instrs[i], by_rank(program.instrs))),
        goes_to(rename(program.instrs[i], by_rank(program.instrs)), i, small) == goes_to(
            program.instrs[i],
            i,
            state,
        ),
{
    let instr = program.instrs[i];
    assert forall|slot: usize| #[trigger] mentions(instr, slot) implies slot_is_used(
        program.instrs,
        slot,
    ) by {}
    match instr {
        InstrView::JumpIfZero { cond_slot, .. } => {
            assert(mentions(instr, cond_slot));
        },
        InstrView::JumpIfCmpFalse { lhs, rhs, .. } => {
            if let RuntimeOperand::Slot(slot) = lhs {
                assert(mentions(instr, slot));
            }
            if let RuntimeOperand::Slot(slot) = rhs {
                assert(mentions(instr, slot));
            }
        },
        _ => {},
    }
}

/// Slot compaction keeps what is seen: on slots that hold the same under their new
/// numbers a program comes to where it came, with slots that do so too, and having
/// shown the same.
pub proof fn law_compaction_keeps_traces(
    program: ProgramView,
    state: SlotState,
    world: World,
    small: SlotState,
    n: nat,
)
    requires
        is_branching(program.instrs),
        slots_below(program.instrs, program.slots as int),
        is_renumbered(program, state, small),
    ensures
        after(program.instrs, started(state, world), n) matches Some(run) ==> (after(
            compact_slots(program).instrs,
            started(small, world),
            n,
        ) matches Some(new) && new.at == run.at && new.seen == run.seen && is_renumbered(
            program,
            run.state,
            new.state,
        )),
    decreases n,
{
    let instrs = program.instrs;
    let compact = compact_slots(program).instrs;
    if n > 0 {
        law_compaction_keeps_traces(program, state, world, small, (n - 1) as nat);
        if let Some(run) = after(instrs, started(state, world), n) {
            let before = after(instrs, started(state, world), (n - 1) as nat)->0;
            let new = after(compact, started(small, world), (n - 1) as nat)->0;
            lemma_world_stays(instrs, started(state, world), (n - 1) as nat);
            lemma_world_stays(compact, started(small, world), (n - 1) as nat);
            let at = before.at;
            assert(is_plain(instrs[at]) || is_branch(instrs[at]));
            if !has_unused_slot(program) {
                lemma_all_used(program, at);
            }
            assert(compact[at] == rename(instrs[at], by_rank(instrs)));
            if is_branch(instrs[at]) {
                lemma_renumbered_branch(program, at, before.state, new.state);
            } else {
                let answer = (before.world)(seen_after(instrs[at], before));
                if is_request(instrs[at]) {
                    law_renumbered_requests_ask_the_same(
                        program,
                        at,
                        before.state,
                        new.state,
                        answer,
                    );
                } else {
                    lemma_renumbered_step(program, at, before.state, new.state);
                }
                assert(!is_branch(compact[at]));
            }
        }
    }
}

} // verus!
