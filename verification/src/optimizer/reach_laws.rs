//! What simplification of control flow leaves: targets inside the program, and
//! nothing out of reach.

use crate::ir::InstrView;
use crate::optimizer::arrivals;
use crate::optimizer::arrivals::{
    arrives, comes_back_to, is_kept, lemma_holds_on_arrival, may_pass, passes_at,
};
use crate::optimizer::control_flow::{
    drop_idle_jumps, effective_instrs, effective_position, flagged_instrs, flagged_position,
    is_path, is_reachable, jumps_to_next, keep_flagged, law_simplified_targets_in_bounds,
    lemma_effective_len, lemma_flagged_len, lemma_reachable_step, lemma_shorten_len, may_follow,
    reachable_flags, shorten_returns, simplify, threaded, threading,
};
use crate::optimizer::machine::SlotState;
use crate::optimizer::peephole::FloatFn;
use crate::optimizer::targets::{
    code_target, map_branch_target, map_branch_targets, map_code_target,
};
use vstd::prelude::*;

verus! {

/// Every jump, call and thread start names an instruction.
pub open spec fn targets_inside(instrs: Seq<InstrView>) -> bool {
    forall|i: int|
        0 <= i < instrs.len() ==> ((#[trigger] code_target(instrs[i])) matches Some(target)
            ==> target < instrs.len())
}

/// To follow jumps inside the program ends inside the program.
proof fn lemma_threaded_inside(instrs: Seq<InstrView>, target: usize, hops: nat)
    requires
        targets_inside(instrs),
        target < instrs.len(),
    ensures
        threaded(instrs, target, hops) < instrs.len(),
    decreases hops,
{
    if hops > 0 {
        if let InstrView::Jump { target: next } = instrs[target as int] {
            assert(code_target(instrs[target as int]) == Some(next));
            lemma_threaded_inside(instrs, next, (hops - 1) as nat);
        }
    }
}

/// Threaded branches stay inside the program.
pub proof fn lemma_threading_inside(instrs: Seq<InstrView>)
    requires
        targets_inside(instrs),
    ensures
        targets_inside(map_branch_targets(instrs, threading(instrs))),
{
    let f = threading(instrs);
    let out = map_branch_targets(instrs, f);
    assert forall|i: int| 0 <= i < out.len() implies ((#[trigger] code_target(
        out[i],
    )) matches Some(target) ==> target < out.len()) by {
        assert(out[i] == map_branch_target(instrs[i], f));
        if let Some(target) = code_target(instrs[i]) {
            lemma_threaded_inside(instrs, target, instrs.len() + 2);
            assert(f(target) < instrs.len());
        }
    }
}

/// Shortened jumps leave the others inside the program.
pub proof fn lemma_shorten_inside(instrs: Seq<InstrView>, n: int)
    requires
        0 <= n <= instrs.len(),
        targets_inside(instrs),
    ensures
        targets_inside(shorten_returns(instrs, n)),
    decreases n,
{
    if n > 0 {
        lemma_shorten_inside(instrs, n - 1);
        lemma_shorten_len(instrs, n - 1);
        lemma_shorten_len(instrs, n);
        let before = shorten_returns(instrs, n - 1);
        let after = shorten_returns(instrs, n);
        assert forall|i: int| 0 <= i < after.len() implies ((#[trigger] code_target(
            after[i],
        )) matches Some(target) ==> target < after.len()) by {
            assert(after[i] == before[i] || after[i] == InstrView::Return);
            assert(code_target(before[i]) matches Some(target) ==> target < before.len());
        }
    }
}

/// Where a flagged instruction stands among the flagged ones.
pub proof fn lemma_flagged_at(instrs: Seq<InstrView>, flags: Seq<bool>, at: int, n: int)
    requires
        0 <= at < n,
        flags[at],
    ensures
        flagged_instrs(instrs, flags, at).len() < flagged_instrs(instrs, flags, n).len(),
        flagged_instrs(instrs, flags, n)[flagged_instrs(instrs, flags, at).len() as int]
            == instrs[at],
    decreases n,
{
    if at < n - 1 {
        lemma_flagged_at(instrs, flags, at, n - 1);
    }
}

/// Each of the flagged instructions comes from one.
proof fn lemma_flagged_from(instrs: Seq<InstrView>, flags: Seq<bool>, n: int, i: int) -> (at: int)
    requires
        0 <= n,
        0 <= i < flagged_instrs(instrs, flags, n).len(),
    ensures
        0 <= at < n,
        flags[at],
        flagged_instrs(instrs, flags, at).len() == i,
    decreases n,
{
    if n <= 0 {
        0
    } else if flags[n - 1] && i == flagged_instrs(instrs, flags, n - 1).len() {
        n - 1
    } else {
        lemma_flagged_from(instrs, flags, n - 1, i)
    }
}

/// Where an effective instruction stands among the effective ones.
pub proof fn lemma_effective_at(instrs: Seq<InstrView>, at: int, n: int)
    requires
        0 <= at < n,
        !jumps_to_next(instrs, at),
    ensures
        effective_instrs(instrs, at).len() < effective_instrs(instrs, n).len(),
        effective_instrs(instrs, n)[effective_instrs(instrs, at).len() as int] == instrs[at],
    decreases n,
{
    if at < n - 1 {
        lemma_effective_at(instrs, at, n - 1);
    }
}

/// Each of the effective instructions comes from one.
proof fn lemma_effective_from(instrs: Seq<InstrView>, n: int, i: int) -> (at: int)
    requires
        0 <= n,
        0 <= i < effective_instrs(instrs, n).len(),
    ensures
        0 <= at < n,
        !jumps_to_next(instrs, at),
        effective_instrs(instrs, at).len() == i,
    decreases n,
{
    if n <= 0 {
        0
    } else if !jumps_to_next(instrs, n - 1) && i == effective_instrs(instrs, n - 1).len() {
        n - 1
    } else {
        lemma_effective_from(instrs, n - 1, i)
    }
}

/// The first instruction is within reach.
pub proof fn lemma_first_reachable(instrs: Seq<InstrView>)
    requires
        instrs.len() > 0,
    ensures
        is_reachable(instrs, 0),
{
    let path = seq![0int];
    assert(is_path(instrs, path));
    assert(path.last() == 0);
}

/// What control passes to when only what is within reach stays.
proof fn lemma_kept_step(instrs: Seq<InstrView>, from: int, to: int)
    requires
        instrs.len() <= usize::MAX,
        is_reachable(instrs, from),
        may_follow(instrs, from, to),
    ensures
        may_follow(
            keep_flagged(instrs, reachable_flags(instrs)),
            flagged_instrs(instrs, reachable_flags(instrs), from).len() as int,
            flagged_instrs(instrs, reachable_flags(instrs), to).len() as int,
        ),
{
    let flags = reachable_flags(instrs);
    let kept = keep_flagged(instrs, flags);
    let f = flagged_position(instrs, flags);
    let n = instrs.len() as int;
    lemma_reachable_step(instrs, from, to);
    lemma_flagged_at(instrs, flags, from, n);
    lemma_flagged_at(instrs, flags, to, n);
    lemma_flagged_len(instrs, flags, to, n);
    lemma_flagged_len(instrs, flags, n, n);
    let at = flagged_instrs(instrs, flags, from).len() as int;
    assert(kept[at] == map_code_target(instrs[from], f));
    assert(f(to as usize) == flagged_instrs(instrs, flags, to).len());
    if to == from + 1 {
        assert(flagged_instrs(instrs, flags, to).len() == at + 1);
    }
}

/// What is within reach stays within reach when the rest goes.
proof fn lemma_kept_path(instrs: Seq<InstrView>, path: Seq<int>, k: int)
    requires
        0 < instrs.len() <= usize::MAX,
        is_path(instrs, path),
        0 <= k < path.len(),
    ensures
        is_reachable(instrs, path[k]),
        is_reachable(
            keep_flagged(instrs, reachable_flags(instrs)),
            flagged_instrs(instrs, reachable_flags(instrs), path[k]).len() as int,
        ),
    decreases k,
{
    let flags = reachable_flags(instrs);
    let kept = keep_flagged(instrs, flags);
    if k == 0 {
        lemma_first_reachable(instrs);
        lemma_flagged_at(instrs, flags, 0, instrs.len() as int);
        lemma_first_reachable(kept);
    } else {
        lemma_kept_path(instrs, path, k - 1);
        assert(may_follow(instrs, path[k - 1], path[k]));
        lemma_kept_step(instrs, path[k - 1], path[k]);
        lemma_reachable_step(instrs, path[k - 1], path[k]);
        lemma_reachable_step(
            kept,
            flagged_instrs(instrs, flags, path[k - 1]).len() as int,
            flagged_instrs(instrs, flags, path[k]).len() as int,
        );
    }
}

/// When only what is within reach stays, all of it is within reach, and targets
/// stay inside.
pub proof fn lemma_kept(instrs: Seq<InstrView>)
    requires
        instrs.len() <= usize::MAX,
        targets_inside(instrs),
    ensures
        targets_inside(keep_flagged(instrs, reachable_flags(instrs))),
        forall|i: int|
            0 <= i < keep_flagged(instrs, reachable_flags(instrs)).len()
                ==> #[trigger] is_reachable(keep_flagged(instrs, reachable_flags(instrs)), i),
{
    let flags = reachable_flags(instrs);
    let kept = keep_flagged(instrs, flags);
    let f = flagged_position(instrs, flags);
    let n = instrs.len() as int;
    lemma_flagged_len(instrs, flags, n, n);
    assert forall|i: int| 0 <= i < kept.len() implies #[trigger] is_reachable(kept, i) by {
        let at = lemma_flagged_from(instrs, flags, n, i);
        let path = choose|path: Seq<int>| #[trigger] is_path(instrs, path) && path.last() == at;
        lemma_kept_path(instrs, path, path.len() - 1);
    }
    assert forall|i: int| 0 <= i < kept.len() implies ((#[trigger] code_target(
        kept[i],
    )) matches Some(target) ==> target < kept.len()) by {
        let at = lemma_flagged_from(instrs, flags, n, i);
        lemma_flagged_at(instrs, flags, at, n);
        assert(kept[i] == map_code_target(instrs[at], f));
        if let Some(target) = code_target(instrs[at]) {
            assert(target < instrs.len());
            assert(may_follow(instrs, at, target as int));
            lemma_reachable_step(instrs, at, target as int);
            lemma_flagged_at(instrs, flags, target as int, n);
            assert(f(target) < kept.len());
        }
    }
}

/// What control passes to when jumps to the next go.
proof fn lemma_effective_path(instrs: Seq<InstrView>, path: Seq<int>, k: int)
    requires
        0 < instrs.len() <= usize::MAX,
        targets_inside(instrs),
        is_path(instrs, path),
        0 <= k < path.len(),
    ensures
        0 <= path[k] < instrs.len(),
        is_reachable(drop_idle_jumps(instrs), effective_instrs(instrs, path[k]).len() as int),
    decreases k,
{
    let out = drop_idle_jumps(instrs);
    let f = effective_position(instrs);
    let n = instrs.len() as int;
    lemma_last_effective(instrs);
    if k == 0 {
        lemma_first_reachable(out);
    } else {
        let from = path[k - 1];
        let to = path[k];
        lemma_effective_path(instrs, path, k - 1);
        assert(may_follow(instrs, from, to));
        if jumps_to_next(instrs, from) {
            assert(effective_instrs(instrs, to) == effective_instrs(instrs, from));
        } else {
            let at = effective_instrs(instrs, from).len() as int;
            let next = effective_instrs(instrs, to).len() as int;
            lemma_effective_at(instrs, from, n);
            lemma_effective_len(instrs, to, n - 1);
            lemma_effective_len(instrs, n, n);
            assert(out[at] == map_code_target(instrs[from], f));
            assert(f(to as usize) == next);
            if to == from + 1 {
                assert(next == at + 1);
            }
            assert(may_follow(out, at, next));
            lemma_reachable_step(out, at, next);
        }
    }
}

/// The last instruction of a program whose targets are inside is no jump to the
/// next.
pub proof fn lemma_last_effective(instrs: Seq<InstrView>)
    requires
        0 < instrs.len() <= usize::MAX,
        targets_inside(instrs),
    ensures
        effective_instrs(instrs, instrs.len() - 1).len() < effective_instrs(
            instrs,
            instrs.len() as int,
        ).len(),
{
    let last = instrs.len() - 1;
    assert(code_target(instrs[last]) matches Some(target) ==> target < instrs.len());
    assert(!jumps_to_next(instrs, last));
}

/// When jumps to the next go, what is left is within reach if all was, and
/// targets stay inside.
proof fn lemma_effective(instrs: Seq<InstrView>)
    requires
        instrs.len() <= usize::MAX,
        targets_inside(instrs),
        forall|i: int| 0 <= i < instrs.len() ==> #[trigger] is_reachable(instrs, i),
    ensures
        targets_inside(drop_idle_jumps(instrs)),
        forall|i: int|
            0 <= i < drop_idle_jumps(instrs).len() ==> #[trigger] is_reachable(
                drop_idle_jumps(instrs),
                i,
            ),
{
    let out = drop_idle_jumps(instrs);
    let f = effective_position(instrs);
    let n = instrs.len() as int;
    lemma_effective_len(instrs, n, n);
    assert forall|i: int| 0 <= i < out.len() implies #[trigger] is_reachable(out, i) by {
        let at = lemma_effective_from(instrs, n, i);
        assert(is_reachable(instrs, at));
        let path = choose|path: Seq<int>| #[trigger] is_path(instrs, path) && path.last() == at;
        lemma_effective_path(instrs, path, path.len() - 1);
    }
    assert forall|i: int| 0 <= i < out.len() implies ((#[trigger] code_target(
        out[i],
    )) matches Some(target) ==> target < out.len()) by {
        let at = lemma_effective_from(instrs, n, i);
        lemma_effective_at(instrs, at, n);
        assert(out[i] == map_code_target(instrs[at], f));
        if let Some(target) = code_target(instrs[at]) {
            assert(target < instrs.len());
            lemma_last_effective(instrs);
            lemma_effective_len(instrs, target as int, n - 1);
            assert(f(target) < out.len());
        }
    }
}

/// Simplification of a program whose targets are inside leaves them inside, is
/// no longer than the program, and leaves nothing that is out of reach.
pub proof fn law_simplification_leaves_what_is_reached(instrs: Seq<InstrView>)
    requires
        instrs.len() <= usize::MAX,
        targets_inside(instrs),
    ensures
        targets_inside(simplify(instrs)),
        simplify(instrs).len() <= instrs.len(),
        forall|i: int|
            0 <= i < simplify(instrs).len() ==> #[trigger] is_reachable(simplify(instrs), i),
{
    law_simplified_targets_in_bounds(instrs);
    let jumps = map_branch_targets(instrs, threading(instrs));
    lemma_threading_inside(instrs);
    lemma_shorten_inside(jumps, instrs.len() as int);
    lemma_shorten_len(jumps, instrs.len() as int);
    let short = shorten_returns(jumps, instrs.len() as int);
    lemma_kept(short);
    lemma_flagged_len(short, reachable_flags(short), short.len() as int, short.len() as int);
    lemma_effective(keep_flagged(short, reachable_flags(short)));
}

/// Some jumps in a row lead from one instruction to another.
pub open spec fn jumps_lead(instrs: Seq<InstrView>, from: int, to: int, jumps: nat) -> bool
    decreases jumps,
{
    if jumps == 0 {
        from == to
    } else {
        &&& 0 <= from < instrs.len()
        &&& instrs[from] matches InstrView::Jump { target }
        &&& jumps_lead(instrs, target as int, to, (jumps - 1) as nat)
    }
}

/// Jumps lead from where a branch went to where it goes once it is threaded.
pub proof fn lemma_threaded_by_jumps(instrs: Seq<InstrView>, target: usize, hops: nat) -> (jumps:
    nat)
    ensures
        jumps_lead(instrs, target as int, threaded(instrs, target, hops) as int, jumps),
    decreases hops,
{
    if hops == 0 || target >= instrs.len() {
        0
    } else {
        match instrs[target as int] {
            InstrView::Jump { target: next } => if next == target {
                0
            } else {
                let rest = lemma_threaded_by_jumps(instrs, next, (hops - 1) as nat);
                assert(jumps_lead(
                    instrs,
                    next as int,
                    threaded(instrs, next, (hops - 1) as nat) as int,
                    rest,
                ));
                rest + 1
            },
            _ => 0,
        }
    }
}

/// Where control arrives, it arrives wherever jumps lead from there, with the
/// same slots.
proof fn lemma_arrives_by_jumps(
    instrs: Seq<InstrView>,
    slots: nat,
    floats: FloatFn,
    from: int,
    to: int,
    jumps: nat,
    state: SlotState,
)
    requires
        jumps_lead(instrs, from, to, jumps),
        arrives(instrs, slots, floats, from, state),
    ensures
        arrives(instrs, slots, floats, to, state),
    decreases jumps,
{
    if jumps > 0 {
        let target = instrs[from]->Jump_target as int;
        let path = choose|path: Seq<(int, SlotState)>| #[trigger]
            arrivals::is_path(instrs, slots, floats, path) && path.last() == (from, state);
        let longer = path.push((target, state));
        assert forall|i: int| 0 < i < longer.len() implies #[trigger] passes_at(
            instrs,
            floats,
            longer,
            i,
        ) by {
            if i < path.len() {
                assert(passes_at(instrs, floats, path, i));
                assert(longer[i] == path[i] && longer[i - 1] == path[i - 1]);
                if instrs[path[i - 1].0] is Return {
                    let j = choose|j: int|
                        0 <= j < i && #[trigger] comes_back_to(instrs, path, j, path[i].0);
                    assert(longer[j] == path[j]);
                    assert(comes_back_to(instrs, longer, j, longer[i].0));
                }
            } else {
                assert(longer[i - 1] == path.last());
            }
        }
        assert(arrivals::is_path(instrs, slots, floats, longer));
        assert(longer.last() == (target, state));
        lemma_arrives_by_jumps(
            instrs,
            slots,
            floats,
            target,
            to,
            (jumps - 1) as nat,
            state,
        );
    }
}

/// A branch that is threaded ends where the jumps behind it led: control that
/// arrives at its target arrives, with the same slots, at its new one.
pub proof fn law_threading_follows_jumps(
    instrs: Seq<InstrView>,
    slots: nat,
    floats: FloatFn,
    target: usize,
    state: SlotState,
)
    requires
        arrives(instrs, slots, floats, target as int, state),
    ensures
        arrives(instrs, slots, floats, threading(instrs)(target) as int, state),
{
    let hops = instrs.len() + 2;
    let jumps = lemma_threaded_by_jumps(instrs, target, hops);
    let to = threaded(instrs, target, hops) as int;
    lemma_arrives_by_jumps(instrs, slots, floats, target as int, to, jumps, state);
}

/// Control arrives only at what is within reach, so nothing that is dropped as
/// out of reach would have run.
pub proof fn law_control_arrives_within_reach(
    instrs: Seq<InstrView>,
    slots: nat,
    floats: FloatFn,
    at: int,
    state: SlotState,
)
    requires
        0 <= at < instrs.len(),
        arrives(instrs, slots, floats, at, state),
    ensures
        is_reachable(instrs, at),
{
    let holds = |at: int, state: SlotState| 0 <= at < instrs.len() ==> is_reachable(instrs, at);
    if instrs.len() > 0 {
        lemma_first_reachable(instrs);
    }
    assert forall|at: int, state: SlotState, to: int, next: SlotState|
        0 <= at < instrs.len() && #[trigger] holds(at, state) && may_pass(
            instrs,
            floats,
            at,
            state,
            to,
            next,
        ) implies #[trigger] holds(to, next) by {
        if 0 <= to < instrs.len() {
            assert(may_follow(instrs, at, to));
            lemma_reachable_step(instrs, at, to);
        }
    }
    assert forall|call: int, before: SlotState, at: int, state: SlotState|
        0 <= call < instrs.len() && instrs[call] is Call && #[trigger] holds(call, before) && 0
            <= at < instrs.len() && instrs[at] is Return && #[trigger] holds(
            at,
            state,
        ) implies holds(call + 1, state) by {
        if call + 1 < instrs.len() {
            assert(may_follow(instrs, call, call + 1));
            lemma_reachable_step(instrs, call, call + 1);
        }
    }
    assert(is_kept(instrs, floats, holds));
    lemma_holds_on_arrival(instrs, slots, floats, holds, at, state);
}

} // verus!
