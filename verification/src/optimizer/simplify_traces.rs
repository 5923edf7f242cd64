//! Simplification of control flow keeps what is seen of programs with branches.

use crate::ir::InstrView;
use crate::optimizer::control_flow::{
    drop_idle_jumps, effective_instrs, effective_position, flagged_instrs, flagged_position,
    jumps_to_next, keep_flagged, reachable_flags, shorten_returns, simplify, threading,
};
use crate::optimizer::machine::{is_plain, SlotState, World};
use crate::optimizer::peephole::FloatFn;
use crate::optimizer::reach_laws::{
    jumps_lead, law_control_arrives_within_reach, lemma_threaded_by_jumps,
};
use crate::optimizer::slots::{instr_below, slots_below};
use crate::optimizer::targets::{
    map_branch_target, map_branch_targets, map_code_target, map_code_targets,
};
use crate::optimizer::traces::{
    after, is_branch, is_branching, lemma_running_arrives, lemma_world_stays, moved, next, nowhere,
    started, Running,
};
use crate::optimizer::versions::lemma_range_weaken;
use vstd::prelude::*;

verus! {

/// Threading keeps what is seen: where a program comes, it comes once branches are
/// threaded, some jumps ahead.
proof fn lemma_threading_keeps_traces(instrs: Seq<InstrView>, run: Running, n: nat) -> (found: (
    nat,
    nat,
))
    requires
        is_branching(instrs),
    ensures
        after(instrs, run, n) matches Some(there) ==> (after(
            map_branch_targets(instrs, threading(instrs)),
            run,
            found.0,
        ) matches Some(new) && new.state == there.state && new.seen == there.seen && jumps_lead(
            instrs,
            there.at,
            new.at,
            found.1,
        )),
    decreases n,
{
    let threaded_instrs = map_branch_targets(instrs, threading(instrs));
    if n == 0 {
        (0, 0)
    } else {
        let (m, jumps) = lemma_threading_keeps_traces(instrs, run, (n - 1) as nat);
        if let Some(there) = after(instrs, run, n) {
            let before = after(instrs, run, (n - 1) as nat)->0;
            let new = after(threaded_instrs, run, m)->0;
            lemma_world_stays(instrs, run, (n - 1) as nat);
            lemma_world_stays(threaded_instrs, run, m);
            assert(jumps_lead(instrs, before.at, new.at, jumps));
            if jumps > 0 {
                (m, (jumps - 1) as nat)
            } else {
                let instr = instrs[before.at];
                assert(is_plain(instr) || is_branch(instr));
                assert(threaded_instrs[before.at] == map_branch_target(instr, threading(instrs)));
                let to = next(threaded_instrs, new)->0;
                assert(after(threaded_instrs, run, m + 1) == Some(to));
                if to.at == there.at {
                    assert(jumps_lead(instrs, there.at, to.at, 0));
                    (m + 1, 0)
                } else {
                    let more = lemma_threaded_by_jumps(
                        instrs,
                        there.at as usize,
                        instrs.len() + 2,
                    );
                    (m + 1, more)
                }
            }
        } else {
            (0, 0)
        }
    }
}

/// Branches that are threaded are branches.
proof fn lemma_threaded_is_branching(instrs: Seq<InstrView>, bound: int)
    requires
        is_branching(instrs),
        slots_below(instrs, bound),
    ensures
        is_branching(map_branch_targets(instrs, threading(instrs))),
        slots_below(map_branch_targets(instrs, threading(instrs)), bound),
        shorten_returns(map_branch_targets(instrs, threading(instrs)), instrs.len() as int)
            == map_branch_targets(instrs, threading(instrs)),
{
    let out = map_branch_targets(instrs, threading(instrs));
    assert forall|i: int| 0 <= i < out.len() implies (is_plain(#[trigger] out[i]) || is_branch(
        out[i],
    )) && instr_below(out[i], bound) by {
        assert(is_plain(instrs[i]) || is_branch(instrs[i]));
        assert(instr_below(instrs[i], bound));
    }
    lemma_no_returns(out, instrs.len() as int);
}

/// There is no jump to shorten.
proof fn lemma_no_returns(instrs: Seq<InstrView>, n: int)
    requires
        is_branching(instrs),
        0 <= n <= instrs.len(),
    ensures
        shorten_returns(instrs, n) == instrs,
    decreases n,
{
    if n > 0 {
        lemma_no_returns(instrs, n - 1);
        if let InstrView::Jump { target } = instrs[n - 1] {
            if target < instrs.len() {
                assert(is_plain(instrs[target as int]) || is_branch(instrs[target as int]));
            }
        }
    }
}

/// What is kept only grows, and is branching where all is.
proof fn lemma_flagged_prefix(
    instrs: Seq<InstrView>,
    flags: Seq<bool>,
    n: int,
    m: int,
    bound: int,
)
    requires
        is_branching(instrs),
        slots_below(instrs, bound),
        0 <= n <= m <= instrs.len(),
    ensures
        flagged_instrs(instrs, flags, n).is_prefix_of(flagged_instrs(instrs, flags, m)),
        flagged_instrs(instrs, flags, m).len() <= m,
        is_branching(flagged_instrs(instrs, flags, m)),
        slots_below(flagged_instrs(instrs, flags, m), bound),
    decreases m,
{
    if m > 0 {
        let middle = if n < m {
            n
        } else {
            m - 1
        };
        lemma_flagged_prefix(instrs, flags, middle, m - 1, bound);
        assert(is_plain(instrs[m - 1]) || is_branch(instrs[m - 1]));
        assert(instr_below(instrs[m - 1], bound));
        let before = flagged_instrs(instrs, flags, m - 1);
        let all = flagged_instrs(instrs, flags, m);
        assert(before.is_prefix_of(all));
        assert forall|i: int| 0 <= i < all.len() implies (is_plain(#[trigger] all[i])
            || is_branch(all[i])) && instr_below(all[i], bound) by {
            if i < before.len() {
                assert(all[i] == before[i]);
                assert(is_plain(before[i]) || is_branch(before[i]));
                assert(instr_below(before[i], bound));
            }
        }
    }
}

/// Dropping what is out of reach keeps what is seen.
proof fn lemma_reach_keeps_traces(
    instrs: Seq<InstrView>,
    slots: nat,
    state: SlotState,
    world: World,
    n: nat,
)
    requires
        is_branching(instrs),
        instrs.len() <= usize::MAX,
        slots_below(instrs, slots as int),
        state.len() == slots,
    ensures
        after(instrs, started(state, world), n) matches Some(run) ==> after(
            keep_flagged(instrs, reachable_flags(instrs)),
            started(state, world),
            n,
        ) == Some(moved(run, flagged_position(instrs, reachable_flags(instrs)))),
    decreases n,
{
    let flags = reachable_flags(instrs);
    let f = flagged_position(instrs, flags);
    let out = keep_flagged(instrs, flags);
    let floats: FloatFn = |bits, op, a, b| None;
    lemma_running_arrives(instrs, slots, floats, state, world, n);
    if n == 0 {
        if instrs.len() > 0 {
            law_control_arrives_within_reach(instrs, slots, floats, 0, state);
        }
    } else if let Some(run) = after(instrs, started(state, world), n) {
        lemma_reach_keeps_traces(instrs, slots, state, world, (n - 1) as nat);
        lemma_running_arrives(instrs, slots, floats, state, world, (n - 1) as nat);
        let before = after(instrs, started(state, world), (n - 1) as nat)->0;
        let at = before.at;
        law_control_arrives_within_reach(instrs, slots, floats, at, before.state);
        if 0 <= run.at < instrs.len() {
            law_control_arrives_within_reach(instrs, slots, floats, run.at, run.state);
        }
        assert(is_plain(instrs[at]) || is_branch(instrs[at]));
        lemma_flagged_prefix(instrs, flags, at, at + 1, slots as int);
        lemma_flagged_prefix(instrs, flags, at + 1, instrs.len() as int, slots as int);
        assert(flags[at]);
        let place = flagged_instrs(instrs, flags, at).len() as int;
        assert(flagged_instrs(instrs, flags, at + 1)[place] == instrs[at]);
        assert(out[place] == map_code_target(instrs[at], f));
    }
}

/// What is left without idle jumps only grows, and is branching where all is.
proof fn lemma_effective_prefix(instrs: Seq<InstrView>, n: int, m: int, bound: int)
    requires
        is_branching(instrs),
        slots_below(instrs, bound),
        0 <= n <= m <= instrs.len(),
    ensures
        effective_instrs(instrs, n).is_prefix_of(effective_instrs(instrs, m)),
        effective_instrs(instrs, m).len() <= m,
        is_branching(effective_instrs(instrs, m)),
        slots_below(effective_instrs(instrs, m), bound),
    decreases m,
{
    if m > 0 {
        let middle = if n < m {
            n
        } else {
            m - 1
        };
        lemma_effective_prefix(instrs, middle, m - 1, bound);
        assert(is_plain(instrs[m - 1]) || is_branch(instrs[m - 1]));
        assert(instr_below(instrs[m - 1], bound));
        let before = effective_instrs(instrs, m - 1);
        let all = effective_instrs(instrs, m);
        assert(before.is_prefix_of(all));
        assert forall|i: int| 0 <= i < all.len() implies (is_plain(#[trigger] all[i])
            || is_branch(all[i])) && instr_below(all[i], bound) by {
            if i < before.len() {
                assert(all[i] == before[i]);
                assert(is_plain(before[i]) || is_branch(before[i]));
                assert(instr_below(before[i], bound));
            }
        }
    }
}

/// Dropping idle jumps keeps what is seen.
proof fn lemma_idle_jumps_keep_traces(
    instrs: Seq<InstrView>,
    state: SlotState,
    world: World,
    n: nat,
) -> (m: nat)
    requires
        is_branching(instrs),
        instrs.len() <= usize::MAX,
        slots_below(instrs, usize::MAX + 1),
    ensures
        after(instrs, started(state, world), n) matches Some(run) ==> after(
            drop_idle_jumps(instrs),
            started(state, world),
            m,
        ) == Some(moved(run, effective_position(instrs))) && run.at >= nowhere(),
    decreases n,
{
    let f = effective_position(instrs);
    let out = drop_idle_jumps(instrs);
    if n == 0 {
        0
    } else {
        let m = lemma_idle_jumps_keep_traces(instrs, state, world, (n - 1) as nat);
        if let Some(run) = after(instrs, started(state, world), n) {
            let before = after(instrs, started(state, world), (n - 1) as nat)->0;
            let at = before.at;
            assert(is_plain(instrs[at]) || is_branch(instrs[at]));
            lemma_effective_prefix(instrs, at, at + 1, usize::MAX + 1);
            lemma_effective_prefix(instrs, at + 1, instrs.len() as int, usize::MAX + 1);
            let place = effective_instrs(instrs, at).len() as int;
            if jumps_to_next(instrs, at) {
                assert(moved(run, f) == moved(before, f));
                m
            } else {
                assert(effective_instrs(instrs, at + 1)[place] == instrs[at]);
                assert(out[place] == map_code_target(instrs[at], f));
                m + 1
            }
        } else {
            0
        }
    }
}

/// Renumbering leaves branches branches.
pub proof fn lemma_renumbered_is_branching(
    instrs: Seq<InstrView>,
    f: spec_fn(usize) -> usize,
    bound: int,
)
    requires
        is_branching(instrs),
        slots_below(instrs, bound),
    ensures
        is_branching(map_code_targets(instrs, f)),
        slots_below(map_code_targets(instrs, f), bound),
{
    let out = map_code_targets(instrs, f);
    assert forall|i: int| 0 <= i < out.len() implies (is_plain(#[trigger] out[i]) || is_branch(
        out[i],
    )) && instr_below(out[i], bound) by {
        assert(is_plain(instrs[i]) || is_branch(instrs[i]));
        assert(instr_below(instrs[i], bound));
    }
}

/// Programs with branches stay such when they are simplified.
pub proof fn lemma_simplified_is_branching(instrs: Seq<InstrView>, bound: int)
    requires
        is_branching(instrs),
        slots_below(instrs, bound),
    ensures
        is_branching(simplify(instrs)),
        slots_below(simplify(instrs), bound),
        simplify(instrs).len() <= instrs.len(),
{
    lemma_threaded_is_branching(instrs, bound);
    let jumps = map_branch_targets(instrs, threading(instrs));
    let count = instrs.len() as int;
    let flags = reachable_flags(jumps);
    lemma_flagged_prefix(jumps, flags, count, count, bound);
    lemma_renumbered_is_branching(
        flagged_instrs(jumps, flags, count),
        flagged_position(jumps, flags),
        bound,
    );
    let kept = keep_flagged(jumps, flags);
    lemma_effective_prefix(kept, kept.len() as int, kept.len() as int, bound);
    lemma_renumbered_is_branching(
        effective_instrs(kept, kept.len() as int),
        effective_position(kept),
        bound,
    );
}

/// Simplification of control flow keeps what is seen: where a program comes, it
/// comes simplified with the same slots and having shown the same, and it leaves
/// where it left.
pub proof fn law_simplification_keeps_traces(
    instrs: Seq<InstrView>,
    slots: nat,
    state: SlotState,
    world: World,
    n: nat,
) -> (m: nat)
    requires
        is_branching(instrs),
        instrs.len() <= usize::MAX,
        slots <= usize::MAX,
        slots_below(instrs, slots as int),
        state.len() == slots,
    ensures
        after(instrs, started(state, world), n) matches Some(run) ==> (after(
            simplify(instrs),
            started(state, world),
            m,
        ) matches Some(new) && new.state == run.state && new.seen == run.seen && (run.at
            == nowhere() ==> new.at == nowhere())),
{
    let bound = slots as int;
    let count = instrs.len() as int;
    lemma_threaded_is_branching(instrs, bound);
    let jumps = map_branch_targets(instrs, threading(instrs));
    let (first, _) = lemma_threading_keeps_traces(instrs, started(state, world), n);
    lemma_reach_keeps_traces(jumps, slots, state, world, first);
    let flags = reachable_flags(jumps);
    lemma_flagged_prefix(jumps, flags, count, count, bound);
    lemma_renumbered_is_branching(
        flagged_instrs(jumps, flags, count),
        flagged_position(jumps, flags),
        bound,
    );
    let kept = keep_flagged(jumps, flags);
    lemma_range_weaken(kept, bound, usize::MAX + 1);
    lemma_idle_jumps_keep_traces(kept, state, world, first)
}

} // verus!
