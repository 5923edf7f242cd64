//! What is seen of programs with branches: what they print and ask of the machine that
//! they run on, in order, and with what they leave.

use crate::ir::{InstrView, RuntimeOperand};
use crate::optimizer::arrivals::{
    aliases_at, arrives, is_path, known_at, law_aliases_hold_on_arrival,
    law_known_slots_hold_on_arrival, may_become, may_pass,
};
use crate::optimizer::blocks_arrive::{
    are_read_right, law_settled_branches_go_where_they_went, threads_start_blocks,
};
use crate::optimizer::checks::{same_but_checks, unchecked};
use crate::optimizer::consts::comparison_holds;
use crate::optimizer::copies::{
    aliases_hold, copy_instr, copy_position, copy_prefix, copy_propagate,
    law_copy_propagation_preserves_effect, lemma_copied_is_seen, lemma_copied_is_straight,
    lemma_copy_prefix, lemma_renamed_value, Aliases,
};
use crate::optimizer::machine::{
    effect, event, is_plain, is_request, is_slot_arithmetic, value_of, Event, SlotState, World,
};
use crate::optimizer::peephole::{
    fold_instr, fold_position, fold_prefix, law_folding_preserves_effect, lemma_fold_prefix,
    lemma_folded_is_seen, lemma_folded_is_straight, peephole, FloatFn,
};
use crate::optimizer::request_laws::{
    law_copied_requests_ask_the_same, law_folded_requests_ask_the_same,
};
use crate::optimizer::slots::{instr_below, slots_below};
use crate::optimizer::specialize::{settle_branches, settled_branch};
use crate::optimizer::targets::{block_start, code_target, map_branch_target, map_code_target};
use crate::optimizer::ways::lemma_way_on;
use vstd::prelude::*;

verus! {

/// A program that runs: where control stands, the slots, what was seen so far, and the
/// machine. One that has left stands nowhere.
pub struct Running {
    pub at: int,
    pub state: SlotState,
    pub seen: Seq<Event>,
    pub world: World,
}

/// Where a program stands that has left.
pub open spec fn nowhere() -> int {
    -1
}

/// A branch.
pub open spec fn is_branch(instr: InstrView) -> bool {
    instr is Jump || instr is JumpIfZero || instr is JumpIfCmpFalse
}

/// A program of straight-line code, requests and branches.
pub open spec fn is_branching(instrs: Seq<InstrView>) -> bool {
    forall|i: int|
        0 <= i < instrs.len() ==> is_plain(#[trigger] instrs[i]) || is_branch(instrs[i])
}

/// What is seen after an instruction.
pub open spec fn seen_after(instr: InstrView, run: Running) -> Seq<Event> {
    match event(instr, run.state) {
        Some(seen) => run.seen.push(seen),
        None => run.seen,
    }
}

/// Where a branch goes.
pub open spec fn goes_to(instr: InstrView, at: int, state: SlotState) -> int {
    match instr {
        InstrView::Jump { target } => target as int,
        InstrView::JumpIfZero { cond_slot, target } => if state[cond_slot as int] == 0 {
            target as int
        } else {
            at + 1
        },
        InstrView::JumpIfCmpFalse { op, lhs, rhs, target } => if comparison_holds(
            op,
            value_of(lhs, state),
            value_of(rhs, state),
        ) {
            at + 1
        } else {
            target as int
        },
        InstrView::Exit { .. } => nowhere(),
        _ => at + 1,
    }
}

/// The program after one instruction, or nothing if it has ended or traps.
pub open spec fn next(instrs: Seq<InstrView>, run: Running) -> Option<Running> {
    if 0 <= run.at < instrs.len() {
        let instr = instrs[run.at];
        let to = goes_to(instr, run.at, run.state);
        if is_branch(instr) {
            Some(Running { at: to, ..run })
        } else {
            let seen = seen_after(instr, run);
            match effect(instr, run.state, (run.world)(seen)) {
                Some(state) => Some(Running { at: to, state, seen, ..run }),
                None => None,
            }
        }
    } else {
        None
    }
}

/// The program after n instructions, or nothing if it has ended or trapped before.
pub open spec fn after(instrs: Seq<InstrView>, run: Running, n: nat) -> Option<Running>
    decreases n,
{
    if n == 0 {
        Some(run)
    } else {
        match after(instrs, run, (n - 1) as nat) {
            Some(middle) => next(instrs, middle),
            None => None,
        }
    }
}

/// A program that starts.
pub open spec fn started(state: SlotState, world: World) -> Running {
    Running { at: 0, state, seen: Seq::empty(), world }
}

/// The machine stays the same.
pub proof fn lemma_world_stays(instrs: Seq<InstrView>, run: Running, n: nat)
    ensures
        after(instrs, run, n) matches Some(there) ==> there.world == run.world,
    decreases n,
{
    if n > 0 {
        lemma_world_stays(instrs, run, (n - 1) as nat);
    }
}

/// Where a program comes, control arrives.
pub proof fn lemma_running_arrives(
    instrs: Seq<InstrView>,
    slots: nat,
    floats: FloatFn,
    state: SlotState,
    world: World,
    n: nat,
)
    requires
        is_branching(instrs),
        slots_below(instrs, slots as int),
        state.len() == slots,
    ensures
        after(instrs, started(state, world), n) matches Some(run) ==> run.state.len() == slots
            && (run.at
            != nowhere() ==> run.at >= 0 && arrives(instrs, slots, floats, run.at, run.state)),
    decreases n,
{
    if let Some(run) = after(instrs, started(state, world), n) {
        if n == 0 {
            let way = seq![(0int, state)];
            assert(is_path(instrs, slots, floats, way));
            assert(way.last() == (run.at, run.state));
        } else {
            lemma_running_arrives(instrs, slots, floats, state, world, (n - 1) as nat);
            let before = after(instrs, started(state, world), (n - 1) as nat)->0;
            let instr = instrs[before.at];
            assert(is_plain(instr) || is_branch(instr));
            assert(instr_below(instr, slots as int));
            if is_request(instr) {
                assert(may_become(instr, floats, before.state, run.state));
            }
            if run.at != nowhere() {
                let way = choose|way: Seq<(int, SlotState)>| #[trigger]
                    is_path(instrs, slots, floats, way) && way.last() == (before.at, before.state);
                assert(may_pass(instrs, floats, before.at, before.state, run.at, run.state));
                lemma_way_on(instrs, slots, floats, way, run.at, run.state);
                assert(way.push((run.at, run.state)).last() == (run.at, run.state));
            }
        }
    }
}

/// A program that runs, renumbered.
pub open spec fn moved(run: Running, f: spec_fn(usize) -> usize) -> Running {
    Running {
        at: if run.at < 0 {
            run.at
        } else {
            f(run.at as usize) as int
        },
        ..run
    }
}

/// What comes out of copy propagation only grows.
proof fn lemma_copied_prefix(instrs: Seq<InstrView>, slots: nat, n: int, m: int)
    requires
        0 <= n <= m,
    ensures
        copy_prefix(instrs, slots, n).out.is_prefix_of(copy_prefix(instrs, slots, m).out),
    decreases m,
{
    if n < m {
        lemma_copied_prefix(instrs, slots, n, m - 1);
        assert(copy_prefix(instrs, slots, m - 1).out.is_prefix_of(
            copy_prefix(instrs, slots, m).out,
        ));
    }
}

/// A branch with its operands renamed goes where it went.
proof fn lemma_copied_branch(
    instr: InstrView,
    aliases: Aliases,
    at: int,
    state: SlotState,
)
    requires
        is_branch(instr),
        instr_below(instr, aliases.len() as int),
        aliases_hold(aliases, state),
    ensures
        copy_instr(instr, aliases).instr matches Some(next) && is_branch(next) && goes_to(
            next,
            at,
            state,
        ) == goes_to(instr, at, state) && code_target(next)
            == code_target(instr),
{
    match instr {
        InstrView::JumpIfZero { cond_slot, .. } => {
            lemma_renamed_value(RuntimeOperand::Slot(cond_slot), aliases, state);
        },
        InstrView::JumpIfCmpFalse { lhs, rhs, .. } => {
            lemma_renamed_value(lhs, aliases, state);
            lemma_renamed_value(rhs, aliases, state);
        },
        _ => {},
    }
}

/// One instruction with copies propagated: what is dropped changes nothing.
proof fn lemma_copied_next(instrs: Seq<InstrView>, slots: nat, floats: FloatFn, run: Running)
    requires
        is_branching(instrs),
        instrs.len() <= usize::MAX,
        slots <= usize::MAX,
        slots_below(instrs, slots as int),
        0 <= run.at < instrs.len(),
        arrives(instrs, slots, floats, run.at, run.state),
        next(instrs, run) is Some,
    ensures
        ({
            let f = copy_position(instrs, slots);
            let to = moved(next(instrs, run)->0, f);
            to == moved(run, f) || next(copy_propagate(instrs, slots), moved(run, f)) == Some(to)
        }),
{
    let f = copy_position(instrs, slots);
    let out = copy_propagate(instrs, slots);
    let at = run.at;
    let instr = instrs[at];
    let aliases = aliases_at(instrs, slots, at);
    assert(is_plain(instr) || is_branch(instr));
    assert(instr_below(instr, slots as int));
    law_aliases_hold_on_arrival(instrs, slots, floats, at, run.state);
    lemma_copy_prefix(instrs, slots, at);
    lemma_copy_prefix(instrs, slots, at + 1);
    lemma_copied_prefix(instrs, slots, at + 1, instrs.len() as int);
    let copied = copy_instr(instr, aliases).instr;
    if is_branch(instr) {
        lemma_copied_branch(instr, aliases, at, run.state);
    } else {
        if is_request(instr) {
            law_copied_requests_ask_the_same(instr, aliases, run.state);
        } else {
            lemma_copied_is_straight(instr, aliases);
            if is_slot_arithmetic(instr) {
                law_copy_propagation_preserves_effect(instr, aliases, run.state);
            } else {
                lemma_copied_is_seen(instr, aliases, run.state);
            }
        }
    }
    if let Some(new) = copied {
        let place = copy_prefix(instrs, slots, at).out.len() as int;
        assert(copy_prefix(instrs, slots, at + 1).out[place] == new);
        assert(out[place] == map_code_target(new, f));
    }
}

/// Copy propagation keeps what is seen: where a program comes, it comes with
/// copies propagated, with the same slots and having shown the same.
pub proof fn law_copy_propagation_keeps_traces(
    instrs: Seq<InstrView>,
    slots: nat,
    state: SlotState,
    world: World,
    n: nat,
) -> (m: nat)
    requires
        is_branching(instrs),
        instrs.len() <= usize::MAX,
        slots <= usize::MAX,
        slots_below(instrs, slots as int),
        state.len() == slots,
    ensures
        after(instrs, started(state, world), n) matches Some(run) ==> after(
            copy_propagate(instrs, slots),
            started(state, world),
            m,
        ) == Some(moved(run, copy_position(instrs, slots))),
    decreases n,
{
    let floats: FloatFn = |bits, op, a, b| None;
    let f = copy_position(instrs, slots);
    if n == 0 {
        0
    } else {
        let m = law_copy_propagation_keeps_traces(instrs, slots, state, world, (n - 1) as nat);
        if let Some(run) = after(instrs, started(state, world), n) {
            let before = after(instrs, started(state, world), (n - 1) as nat)->0;
            lemma_running_arrives(instrs, slots, floats, state, world, (n - 1) as nat);
            lemma_copied_next(instrs, slots, floats, before);
            if moved(run, f) == moved(before, f) {
                m
            } else {
                m + 1
            }
        } else {
            0
        }
    }
}

/// What comes out of constant folding only grows.
proof fn lemma_folded_prefix(instrs: Seq<InstrView>, slots: nat, floats: FloatFn, n: int, m: int)
    requires
        0 <= n <= m,
    ensures
        fold_prefix(instrs, slots, floats, n).out.is_prefix_of(
            fold_prefix(instrs, slots, floats, m).out,
        ),
    decreases m,
{
    if n < m {
        lemma_folded_prefix(instrs, slots, floats, n, m - 1);
        assert(fold_prefix(instrs, slots, floats, m - 1).out.is_prefix_of(
            fold_prefix(instrs, slots, floats, m).out,
        ));
    }
}

/// One instruction folded: what is dropped changes nothing.
proof fn lemma_folded_next(instrs: Seq<InstrView>, slots: nat, floats: FloatFn, run: Running)
    requires
        is_branching(instrs),
        instrs.len() <= usize::MAX,
        slots <= usize::MAX,
        slots_below(instrs, slots as int),
        0 <= run.at < instrs.len(),
        arrives(instrs, slots, floats, run.at, run.state),
        next(instrs, run) is Some,
    ensures
        ({
            let f = fold_position(instrs, slots, floats);
            let to = moved(next(instrs, run)->0, f);
            to == moved(run, f) || next(peephole(instrs, slots, floats), moved(run, f)) == Some(to)
        }),
{
    let f = fold_position(instrs, slots, floats);
    let out = peephole(instrs, slots, floats);
    let at = run.at;
    let instr = instrs[at];
    let known = known_at(instrs, slots, floats, at);
    assert(is_plain(instr) || is_branch(instr));
    assert(instr_below(instr, slots as int));
    law_known_slots_hold_on_arrival(instrs, slots, floats, at, run.state);
    lemma_fold_prefix(instrs, slots, floats, at);
    lemma_fold_prefix(instrs, slots, floats, at + 1);
    lemma_folded_prefix(instrs, slots, floats, at + 1, instrs.len() as int);
    let fold = fold_instr(instr, known, floats).instr;
    if !is_branch(instr) {
        if is_request(instr) {
            law_folded_requests_ask_the_same(instr, known, floats, run.state);
        } else {
            lemma_folded_is_straight(instr, known, floats);
            if is_slot_arithmetic(instr) {
                law_folding_preserves_effect(instr, known, floats, run.state);
            } else {
                lemma_folded_is_seen(instr, known, floats, run.state);
            }
        }
    }
    if let Some(new) = fold {
        let place = fold_prefix(instrs, slots, floats, at).out.len() as int;
        assert(fold_prefix(instrs, slots, floats, at + 1).out[place] == new);
        assert(out[place] == map_branch_target(new, f));
    }
}

/// Constant folding keeps what is seen: where a program comes, it comes folded,
/// with the same slots and having shown the same.
pub proof fn law_folding_keeps_traces(
    instrs: Seq<InstrView>,
    slots: nat,
    floats: FloatFn,
    state: SlotState,
    world: World,
    n: nat,
) -> (m: nat)
    requires
        is_branching(instrs),
        instrs.len() <= usize::MAX,
        slots <= usize::MAX,
        slots_below(instrs, slots as int),
        state.len() == slots,
    ensures
        after(instrs, started(state, world), n) matches Some(run) ==> after(
            peephole(instrs, slots, floats),
            started(state, world),
            m,
        ) == Some(moved(run, fold_position(instrs, slots, floats))),
    decreases n,
{
    let f = fold_position(instrs, slots, floats);
    if n == 0 {
        0
    } else {
        let m = law_folding_keeps_traces(instrs, slots, floats, state, world, (n - 1) as nat);
        if let Some(run) = after(instrs, started(state, world), n) {
            let before = after(instrs, started(state, world), (n - 1) as nat)->0;
            lemma_running_arrives(instrs, slots, floats, state, world, (n - 1) as nat);
            lemma_folded_next(instrs, slots, floats, before);
            if moved(run, f) == moved(before, f) {
                m
            } else {
                m + 1
            }
        } else {
            0
        }
    }
}

/// Every instruction is read right in its basic block.
pub open spec fn is_read_right_in_blocks(instrs: Seq<InstrView>) -> bool {
    forall|at: int|
        0 <= at < instrs.len() ==> #[trigger] are_read_right(
            instrs,
            block_start(instrs, at),
            at,
        )
}

/// Settling branches keeps what is seen: where a program comes, it comes with the
/// branches settled.
pub proof fn law_settling_keeps_traces(
    instrs: Seq<InstrView>,
    slots: nat,
    state: SlotState,
    world: World,
    n: nat,
)
    requires
        is_branching(instrs),
        instrs.len() <= usize::MAX,
        slots_below(instrs, slots as int),
        is_read_right_in_blocks(instrs),
        state.len() == slots,
    ensures
        after(instrs, started(state, world), n) matches Some(run) ==> after(
            settle_branches(instrs),
            started(state, world),
            n,
        ) == Some(run),
    decreases n,
{
    if n > 0 {
        law_settling_keeps_traces(instrs, slots, state, world, (n - 1) as nat);
        if let Some(run) = after(instrs, started(state, world), n) {
            let floats: FloatFn = |bits, op, a, b| None;
            let before = after(instrs, started(state, world), (n - 1) as nat)->0;
            let at = before.at;
            lemma_running_arrives(instrs, slots, floats, state, world, (n - 1) as nat);
            assert(is_plain(instrs[at]) || is_branch(instrs[at]));
            assert(settle_branches(instrs)[at] == settled_branch(instrs, at));
            if is_branch(instrs[at]) {
                assert(threads_start_blocks(instrs)) by {
                    assert forall|i: int| 0 <= i < instrs.len() implies !((#[trigger] instrs[i])
                        is ThreadSpawn) by {
                        assert(is_plain(instrs[i]) || is_branch(instrs[i]));
                    }
                }
                assert(are_read_right(
                    instrs,
                    block_start(instrs, at),
                    at,
                ));
                law_settled_branches_go_where_they_went(
                    instrs,
                    slots,
                    floats,
                    at,
                    before.state,
                    run.at,
                    run.state,
                );
                assert(may_pass(instrs, floats, at, before.state, run.at, run.state));
            }
        }
    }
}

/// Dropping checks keeps what is seen.
pub proof fn law_dropped_checks_keep_traces(
    instrs: Seq<InstrView>,
    bare: Seq<InstrView>,
    run: Running,
    n: nat,
)
    requires
        same_but_checks(instrs, bare),
    ensures
        after(bare, run, n) == after(instrs, run, n),
    decreases n,
{
    if n > 0 {
        law_dropped_checks_keep_traces(instrs, bare, run, (n - 1) as nat);
        if let Some(before) = after(instrs, run, (n - 1) as nat) {
            if 0 <= before.at < instrs.len() {
                assert(bare[before.at] == instrs[before.at] || bare[before.at] == unchecked(
                    instrs[before.at],
                ));
            }
        }
    }
}

} // verus!
