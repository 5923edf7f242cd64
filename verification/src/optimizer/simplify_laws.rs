//! Simplified control flow keeps the ways of control: what arrives at an
//! instruction arrives at its new place.

use crate::ir::InstrView;
use crate::optimizer::arrivals;
use crate::optimizer::arrivals::{arrives, comes_back_to, may_pass, passes_at};
use crate::optimizer::control_flow::{
    drop_idle_jumps, effective_instrs, effective_position, flagged_instrs, flagged_position,
    jumps_to_next, keep_flagged, lemma_effective_len, lemma_flagged_len, lemma_shorten_len,
    reachable_flags, shorten_returns, simplify, threaded, threading,
};
use crate::optimizer::machine::SlotState;
use crate::optimizer::peephole::FloatFn;
use crate::optimizer::reach_laws::{
    jumps_lead, law_control_arrives_within_reach, lemma_effective_at, lemma_flagged_at, lemma_kept,
    lemma_last_effective, lemma_shorten_inside, lemma_threaded_by_jumps, lemma_threading_inside,
    targets_inside,
};
use crate::optimizer::targets::{
    code_target, map_branch_target, map_branch_targets, map_code_target,
};
use crate::optimizer::ways::{lemma_still_passes, lemma_way_on, passes_through};
use vstd::prelude::*;

verus! {

/// The way passes through each call of another.
spec fn has_calls(
    instrs: Seq<InstrView>,
    path: Seq<(int, SlotState)>,
    n: int,
    way: Seq<(int, SlotState)>,
    place: spec_fn(int) -> int,
) -> bool {
    forall|j: int|
        0 <= j <= n && 0 <= path[j].0 < instrs.len() && instrs[path[j].0] is Call
            ==> passes_through(way, place((#[trigger] path[j]).0))
}

/// Each instruction stays in its place.
spec fn same_place() -> spec_fn(int) -> int {
    |at: int| at
}

/// A way with one more step has the calls of the other with one more step, where
/// its own end is the place of the other's.
proof fn lemma_calls_on(
    instrs: Seq<InstrView>,
    path: Seq<(int, SlotState)>,
    n: int,
    way: Seq<(int, SlotState)>,
    place: spec_fn(int) -> int,
    end: (int, SlotState),
)
    requires
        0 < n < path.len(),
        has_calls(instrs, path, n - 1, way, place),
        0 <= path[n].0 < instrs.len() && instrs[path[n].0] is Call ==> end.0 == place(path[n].0),
    ensures
        has_calls(instrs, path, n, way.push(end), place),
{
    let longer = way.push(end);
    lemma_still_passes(way, end);
    assert(longer[way.len() as int].0 == end.0);
    assert forall|j: int|
        0 <= j <= n && 0 <= path[j].0 < instrs.len()
            && instrs[path[j].0] is Call implies passes_through(
        longer,
        place((#[trigger] path[j]).0),
    ) by {
        if j < n {
            assert(passes_through(way, place(path[j].0)));
        }
    }
}

/// The way that control takes with threaded branches: it is as far as jumps lead
/// from where it would be.
proof fn lemma_threaded_way(
    instrs: Seq<InstrView>,
    slots: nat,
    floats: FloatFn,
    path: Seq<(int, SlotState)>,
    n: int,
) -> (ahead: (Seq<(int, SlotState)>, nat))
    requires
        arrivals::is_path(instrs, slots, floats, path),
        0 <= n < path.len(),
    ensures
        arrivals::is_path(
            map_branch_targets(instrs, threading(instrs)),
            slots,
            floats,
            ahead.0,
        ),
        ahead.0.last().1 == path[n].1,
        jumps_lead(instrs, path[n].0, ahead.0.last().0, ahead.1),
        has_calls(instrs, path, n, ahead.0, same_place()),
    decreases n,
{
    let f = threading(instrs);
    let new = map_branch_targets(instrs, f);
    if n == 0 {
        let way = seq![path[0]];
        assert(way[0].0 == path[0].0);
        (way, 0)
    } else {
        let (before, jumps) = lemma_threaded_way(instrs, slots, floats, path, n - 1);
        let (at, state) = path[n - 1];
        let (to, next) = path[n];
        let here = before.last().0;
        assert(passes_at(instrs, floats, path, n));
        if jumps > 0 {
            let rest = (jumps - 1) as nat;
            assert(jumps_lead(instrs, to, here, rest));
            assert(before[before.len() - 1].0 == here);
            assert(has_calls(instrs, path, n, before, same_place())) by {
                assert forall|j: int|
                    0 <= j <= n && 0 <= path[j].0 < instrs.len()
                        && instrs[path[j].0] is Call implies passes_through(
                    before,
                    same_place()((#[trigger] path[j]).0),
                ) by {
                    if j < n {
                        assert(passes_through(before, same_place()(path[j].0)));
                    }
                }
            }
            (before, rest)
        } else {
            assert(here == at);
            assert(new[at] == map_branch_target(instrs[at], f));
            let target = match instrs[at] {
                InstrView::Jump { target } => Some(target),
                InstrView::Call { target } => Some(target),
                InstrView::JumpIfZero { target, .. } => if to == at + 1 && may_pass(
                    new,
                    floats,
                    at,
                    state,
                    at + 1,
                    next,
                ) {
                    None
                } else {
                    Some(target)
                },
                InstrView::JumpIfCmpFalse { target, .. } => if to == at + 1 && may_pass(
                    new,
                    floats,
                    at,
                    state,
                    at + 1,
                    next,
                ) {
                    None
                } else {
                    Some(target)
                },
                _ => None,
            };
            if instrs[at] is Return {
                let j = choose|j: int| 0 <= j < n && #[trigger] comes_back_to(instrs, path, j, to);
                let call = path[j].0;
                assert(passes_through(before, same_place()(path[j].0)));
                assert(new[call] == map_branch_target(instrs[call], f));
                lemma_way_on(new, slots, floats, before, to, next);
                lemma_calls_on(instrs, path, n, before, same_place(), (to, next));
                (before.push((to, next)), 0)
            } else if let Some(target) = target {
                let hops = instrs.len() + 2;
                let end = threaded(instrs, target, hops) as int;
                let more = lemma_threaded_by_jumps(instrs, target, hops);
                assert(to == target);
                assert(f(target) == end);
                lemma_way_on(new, slots, floats, before, end, next);
                if 0 <= to < instrs.len() && instrs[to] is Call {
                    assert(more == 0);
                }
                lemma_calls_on(instrs, path, n, before, same_place(), (end, next));
                (before.push((end, next)), more)
            } else {
                lemma_way_on(new, slots, floats, before, to, next);
                lemma_calls_on(instrs, path, n, before, same_place(), (to, next));
                (before.push((to, next)), 0)
            }
        }
    }
}

/// A shortened instruction was a jump to what is a return now.
proof fn lemma_shortened(instrs: Seq<InstrView>, n: int)
    requires
        0 <= n <= instrs.len(),
    ensures
        shorten_returns(instrs, n).len() == instrs.len(),
        forall|i: int|
            0 <= i < instrs.len() ==> (#[trigger] shorten_returns(instrs, n)[i] == instrs[i] || (
            shorten_returns(instrs, n)[i] is Return && instrs[i] is Jump && instrs[i]->Jump_target
                < instrs.len() && shorten_returns(instrs, n)[instrs[i]->Jump_target as int]
                is Return)),
    decreases n,
{
    if n > 0 {
        lemma_shortened(instrs, n - 1);
        let before = shorten_returns(instrs, n - 1);
        let after = shorten_returns(instrs, n);
        assert(before[n - 1] == before[n - 1]);
        assert forall|i: int| 0 <= i < instrs.len() implies (#[trigger] after[i] == instrs[i] || (
        after[i] is Return && instrs[i] is Jump && instrs[i]->Jump_target < instrs.len()
            && after[instrs[i]->Jump_target as int] is Return)) by {
            assert(before[i] == instrs[i] || before[i] is Return);
        }
    }
}

/// The way that control takes with jumps to returns shortened: it is where it
/// would be, or both are at returns.
proof fn lemma_shortened_way(
    instrs: Seq<InstrView>,
    slots: nat,
    floats: FloatFn,
    path: Seq<(int, SlotState)>,
    n: int,
) -> (way: Seq<(int, SlotState)>)
    requires
        arrivals::is_path(instrs, slots, floats, path),
        0 <= n < path.len(),
    ensures
        ({
            let new = shorten_returns(instrs, instrs.len() as int);
            &&& arrivals::is_path(new, slots, floats, way)
            &&& way.last().1 == path[n].1
            &&& way.last().0 == path[n].0 || (0 <= way.last().0 < new.len() && 0 <= path[n].0
                < new.len() && new[way.last().0] is Return && new[path[n].0] is Return)
            &&& has_calls(instrs, path, n, way, same_place())
        }),
    decreases n,
{
    let new = shorten_returns(instrs, instrs.len() as int);
    lemma_shortened(instrs, instrs.len() as int);
    if n == 0 {
        let way = seq![path[0]];
        assert(way[0].0 == path[0].0);
        way
    } else {
        let before = lemma_shortened_way(instrs, slots, floats, path, n - 1);
        let (at, state) = path[n - 1];
        let (to, next) = path[n];
        let here = before.last().0;
        assert(passes_at(instrs, floats, path, n));
        assert(new[at] == instrs[at] || new[at] is Return);
        if new[at] is Return && instrs[at] is Jump {
            assert(new[to] is Return);
            assert(has_calls(instrs, path, n, before, same_place())) by {
                assert forall|j: int|
                    0 <= j <= n && 0 <= path[j].0 < instrs.len()
                        && instrs[path[j].0] is Call implies passes_through(
                    before,
                    same_place()((#[trigger] path[j]).0),
                ) by {
                    if j < n {
                        assert(passes_through(before, same_place()(path[j].0)));
                    } else {
                        assert(new[to] == instrs[to] || instrs[to] is Jump);
                    }
                }
            }
            before
        } else {
            if instrs[at] is Return {
                let j = choose|j: int| 0 <= j < n && #[trigger] comes_back_to(instrs, path, j, to);
                let call = path[j].0;
                assert(passes_through(before, same_place()(path[j].0)));
                assert(new[call] == instrs[call]);
            }
            lemma_way_on(new, slots, floats, before, to, next);
            lemma_calls_on(instrs, path, n, before, same_place(), (to, next));
            before.push((to, next))
        }
    }
}

/// Where an instruction goes when only what is within reach stays.
spec fn kept_place(instrs: Seq<InstrView>) -> spec_fn(int) -> int {
    |at: int| flagged_instrs(instrs, reachable_flags(instrs), at).len() as int
}

/// A part of a way is a way.
pub proof fn lemma_part_of_way(
    instrs: Seq<InstrView>,
    slots: nat,
    floats: FloatFn,
    path: Seq<(int, SlotState)>,
    n: int,
)
    requires
        arrivals::is_path(instrs, slots, floats, path),
        0 <= n < path.len(),
    ensures
        arrives(instrs, slots, floats, path[n].0, path[n].1),
{
    let part = path.take(n + 1);
    assert forall|i: int| 0 < i < part.len() implies #[trigger] passes_at(
        instrs,
        floats,
        part,
        i,
    ) by {
        assert(passes_at(instrs, floats, path, i));
        assert(part[i] == path[i] && part[i - 1] == path[i - 1]);
        if instrs[path[i - 1].0] is Return {
            let j = choose|j: int|
                0 <= j < i && #[trigger] comes_back_to(instrs, path, j, path[i].0);
            assert(part[j] == path[j]);
            assert(comes_back_to(instrs, part, j, part[i].0));
        }
    }
    assert(arrivals::is_path(instrs, slots, floats, part));
    assert(part.last() == path[n]);
}

/// The way that control takes when only what is within reach stays.
proof fn lemma_kept_way(
    instrs: Seq<InstrView>,
    slots: nat,
    floats: FloatFn,
    path: Seq<(int, SlotState)>,
    n: int,
) -> (way: Seq<(int, SlotState)>)
    requires
        instrs.len() <= usize::MAX,
        arrivals::is_path(instrs, slots, floats, path),
        0 <= n < path.len(),
        0 <= path[n].0 < instrs.len(),
    ensures
        arrivals::is_path(keep_flagged(instrs, reachable_flags(instrs)), slots, floats, way),
        way.last() == (kept_place(instrs)(path[n].0), path[n].1),
        has_calls(instrs, path, n, way, kept_place(instrs)),
    decreases n,
{
    let flags = reachable_flags(instrs);
    let f = flagged_position(instrs, flags);
    let new = keep_flagged(instrs, flags);
    let place = kept_place(instrs);
    let count = instrs.len() as int;
    let (to, next) = path[n];
    lemma_part_of_way(instrs, slots, floats, path, n);
    law_control_arrives_within_reach(instrs, slots, floats, to, next);
    lemma_flagged_at(instrs, flags, to, count);
    lemma_flagged_len(instrs, flags, count, count);
    if n == 0 {
        let way = seq![(place(path[0].0), path[0].1)];
        assert(way[0].0 == place(path[0].0));
        way
    } else {
        let (at, state) = path[n - 1];
        assert(passes_at(instrs, floats, path, n));
        let before = lemma_kept_way(instrs, slots, floats, path, n - 1);
        lemma_part_of_way(instrs, slots, floats, path, n - 1);
        law_control_arrives_within_reach(instrs, slots, floats, at, state);
        lemma_flagged_at(instrs, flags, at, count);
        assert(new[place(at)] == map_code_target(instrs[at], f));
        assert(f(to as usize) == place(to));
        if to == at + 1 {
            assert(place(to) == place(at) + 1);
        }
        if instrs[at] is Return {
            let j = choose|j: int| 0 <= j < n && #[trigger] comes_back_to(instrs, path, j, to);
            let call = path[j].0;
            lemma_part_of_way(instrs, slots, floats, path, j);
            law_control_arrives_within_reach(instrs, slots, floats, call, path[j].1);
            lemma_flagged_at(instrs, flags, call, count);
            assert(new[place(call)] == map_code_target(instrs[call], f));
            assert(passes_through(before, place(path[j].0)));
            assert(place(to) == place(call) + 1);
        } else {
            lemma_placed_step(instrs, new, floats, at, state, to, next, place, f);
        }
        lemma_way_on(new, slots, floats, before, place(to), next);
        lemma_calls_on(instrs, path, n, before, place, (place(to), next));
        before.push((place(to), next))
    }
}

/// A step between instructions that have new places is a step between these.
proof fn lemma_placed_step(
    instrs: Seq<InstrView>,
    new: Seq<InstrView>,
    floats: FloatFn,
    at: int,
    state: SlotState,
    to: int,
    next: SlotState,
    place: spec_fn(int) -> int,
    f: spec_fn(usize) -> usize,
)
    requires
        0 <= at < instrs.len(),
        0 <= to < instrs.len() <= usize::MAX,
        0 <= place(at) < new.len(),
        new[place(at)] == map_code_target(instrs[at], f),
        f(to as usize) == place(to),
        to == at + 1 ==> place(to) == place(at) + 1,
        may_pass(instrs, floats, at, state, to, next),
    ensures
        may_pass(new, floats, place(at), state, place(to), next),
{
    match instrs[at] {
        InstrView::JumpIfZero { .. } => {},
        InstrView::JumpIfCmpFalse { .. } => {},
        InstrView::ThreadSpawn { .. } => {},
        _ => {},
    }
}

/// Where an instruction goes when jumps to the next go.
spec fn effective_place(instrs: Seq<InstrView>) -> spec_fn(int) -> int {
    |at: int| effective_instrs(instrs, at).len() as int
}

/// The way that control takes when jumps to the next go.
proof fn lemma_effective_way(
    instrs: Seq<InstrView>,
    slots: nat,
    floats: FloatFn,
    path: Seq<(int, SlotState)>,
    n: int,
) -> (way: Seq<(int, SlotState)>)
    requires
        instrs.len() <= usize::MAX,
        targets_inside(instrs),
        arrivals::is_path(instrs, slots, floats, path),
        0 <= n < path.len(),
        0 <= path[n].0 < instrs.len(),
    ensures
        arrivals::is_path(drop_idle_jumps(instrs), slots, floats, way),
        way.last() == (effective_place(instrs)(path[n].0), path[n].1),
        has_calls(instrs, path, n, way, effective_place(instrs)),
    decreases n,
{
    let f = effective_position(instrs);
    let new = drop_idle_jumps(instrs);
    let place = effective_place(instrs);
    let count = instrs.len() as int;
    let (to, next) = path[n];
    lemma_last_effective(instrs);
    lemma_effective_len(instrs, count, count);
    lemma_effective_len(instrs, to, count - 1);
    if n == 0 {
        let way = seq![(place(path[0].0), path[0].1)];
        assert(way[0].0 == place(path[0].0));
        way
    } else {
        let (at, state) = path[n - 1];
        assert(passes_at(instrs, floats, path, n));
        let before = lemma_effective_way(instrs, slots, floats, path, n - 1);
        if jumps_to_next(instrs, at) {
            assert(place(to) == place(at));
            assert(before[before.len() - 1].0 == place(to));
            assert(has_calls(instrs, path, n, before, place)) by {
                assert forall|j: int|
                    0 <= j <= n && 0 <= path[j].0 < instrs.len()
                        && instrs[path[j].0] is Call implies passes_through(
                    before,
                    place((#[trigger] path[j]).0),
                ) by {
                    if j < n {
                        assert(passes_through(before, place(path[j].0)));
                    }
                }
            }
            before
        } else {
            lemma_effective_at(instrs, at, count);
            assert(new[place(at)] == map_code_target(instrs[at], f));
            assert(f(to as usize) == place(to));
            if to == at + 1 {
                assert(place(to) == place(at) + 1);
            }
            if instrs[at] is Return {
                let j = choose|j: int| 0 <= j < n && #[trigger] comes_back_to(instrs, path, j, to);
                let call = path[j].0;
                lemma_effective_at(instrs, call, count);
                assert(new[place(call)] == map_code_target(instrs[call], f));
                assert(passes_through(before, place(path[j].0)));
                assert(place(to) == place(call) + 1);
            } else {
                lemma_placed_step(instrs, new, floats, at, state, to, next, place, f);
            }
            lemma_way_on(new, slots, floats, before, place(to), next);
            lemma_calls_on(instrs, path, n, before, place, (place(to), next));
            before.push((place(to), next))
        }
    }
}

/// Where simplification puts an instruction that stays.
pub closed spec fn simplified_place(instrs: Seq<InstrView>, at: int) -> int {
    let jumps = map_branch_targets(instrs, threading(instrs));
    let short = shorten_returns(jumps, instrs.len() as int);
    let kept = keep_flagged(short, reachable_flags(short));
    effective_place(kept)(kept_place(short)(at))
}

/// Simplification keeps the ways of control: what arrives at an instruction that
/// is no jump and no return arrives, with the same slots, at its place in the
/// simplified program, where the same instruction stands but for its target.
pub proof fn law_simplification_keeps_arrivals(
    instrs: Seq<InstrView>,
    slots: nat,
    floats: FloatFn,
    at: int,
    state: SlotState,
)
    requires
        instrs.len() <= usize::MAX,
        targets_inside(instrs),
        0 <= at < instrs.len(),
        !(instrs[at] is Jump),
        !(instrs[at] is Return),
        arrives(instrs, slots, floats, at, state),
    ensures
        ({
            let place = simplified_place(instrs, at);
            &&& 0 <= place < simplify(instrs).len()
            &&& arrives(simplify(instrs), slots, floats, place, state)
            &&& code_target(instrs[at]) is None ==> simplify(instrs)[place] == instrs[at]
        }),
{
    let jumps = map_branch_targets(instrs, threading(instrs));
    let short = shorten_returns(jumps, instrs.len() as int);
    let flags = reachable_flags(short);
    let kept = keep_flagged(short, flags);
    let count = instrs.len() as int;
    let first = choose|path: Seq<(int, SlotState)>| #[trigger]
        arrivals::is_path(instrs, slots, floats, path) && path.last() == (at, state);
    assert(first[first.len() - 1] == first.last());
    let (second, ahead) = lemma_threaded_way(instrs, slots, floats, first, first.len() - 1);
    assert(ahead == 0);
    assert(second[second.len() - 1] == (at, state));
    assert(jumps[at] == map_branch_target(instrs[at], threading(instrs)));
    let third = lemma_shortened_way(jumps, slots, floats, second, second.len() - 1);
    lemma_shortened(jumps, count);
    assert(short[at] == jumps[at]);
    assert(third[third.len() - 1] == (at, state));
    lemma_threading_inside(instrs);
    lemma_shorten_inside(jumps, count);
    lemma_shorten_len(jumps, count);
    let fourth = lemma_kept_way(short, slots, floats, third, third.len() - 1);
    lemma_kept(short);
    lemma_part_of_way(short, slots, floats, third, third.len() - 1);
    law_control_arrives_within_reach(short, slots, floats, at, state);
    lemma_flagged_at(short, flags, at, count);
    lemma_flagged_len(short, flags, count, count);
    let middle = kept_place(short)(at);
    assert(kept[middle] == map_code_target(short[at], flagged_position(short, flags)));
    assert(fourth[fourth.len() - 1] == (middle, state));
    let fifth = lemma_effective_way(kept, slots, floats, fourth, fourth.len() - 1);
    lemma_effective_at(kept, middle, kept.len() as int);
    let place = effective_place(kept)(middle);
    assert(drop_idle_jumps(kept)[place] == map_code_target(
        kept[middle],
        effective_position(kept),
    ));
    assert(fifth.last() == (place, state));
}

} // verus!
