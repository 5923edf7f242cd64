//! Unrolling keeps what is seen of programs with branches.

use crate::ir::{InstrView, RuntimeCmpOp, RuntimeOperand};
use crate::optimizer::consts::normalized;
use crate::optimizer::loops::{
    counted_loop, counted_loops, is_increment, is_normalization, keeps_count, loop_in_program,
    CountedLoopInfo, LoopLimit,
};
use crate::optimizer::machine::{
    effect, event, is_plain, is_request, is_slot_arithmetic, SlotState, World,
};
use crate::optimizer::request_laws::law_unrolled_requests_ask_the_same;
use crate::optimizer::slots::{instr_below, slots_below};
use crate::optimizer::targets::{branches_to, is_boundary, is_branched_to, map_code_target};
use crate::optimizer::traces::{
    after, is_branch, is_branching, lemma_world_stays, next, nowhere, seen_after, started, Running,
};
use crate::optimizer::unroll::{
    expansion, has_plan, is_unrollable, law_unrolled_instr_has_same_effect,
    lemma_distance_in_bounds, lemma_increment, lemma_plan_among, lemma_plan_at,
    lemma_unrolled_in_range, plan_at, trip_count, unroll_loops, unrolled_distance, unrolled_from,
    unrolled_instr, unrolled_iteration, unrolled_iterations, unrolled_position,
};
use crate::optimizer::uses::writes;
use vstd::prelude::*;

verus! {

/// Where a loop that is unrolled brings its count to a width, that leaves every
/// number up to its limit as it is.
pub open spec fn keeps_its_count(instrs: Seq<InstrView>, info: CountedLoopInfo) -> bool {
    instrs[info.latch - 1] matches InstrView::NormalizeInt { signed, bits, .. } ==> forall|count:
        u64|
        info.start <= count <= info.start + trip_count(info) ==> #[trigger] normalized(
            count,
            signed,
            bits,
        ) == count
}

/// Loops that are unrolled are entered from the instruction before them only, and
/// keep their count.
pub open spec fn loops_are_closed(instrs: Seq<InstrView>) -> bool {
    forall|header: int|
        (#[trigger] plan_at(instrs, header)) matches Some(info) ==> keeps_its_count(instrs, info)
            && forall|i: int|
            0 <= i < instrs.len() && i != info.latch ==> !branches_to(#[trigger] instrs[i], header)
}

/// A loop that was found is the one that ends at its jump back.
proof fn lemma_found_loops(instrs: Seq<InstrView>, n: int)
    requires
        0 <= n <= instrs.len(),
        instrs.len() <= usize::MAX,
    ensures
        forall|i: int|
            0 <= i < counted_loops(instrs, true, n).len() ==> counted_loop(
                instrs,
                (#[trigger] counted_loops(instrs, true, n)[i]).latch as int,
                true,
            ) == Some(counted_loops(instrs, true, n)[i]),
    decreases n,
{
    if n > 0 {
        lemma_found_loops(instrs, n - 1);
        let before = counted_loops(instrs, true, n - 1);
        let loops = counted_loops(instrs, true, n);
        assert forall|i: int| 0 <= i < loops.len() implies counted_loop(
            instrs,
            (#[trigger] loops[i]).latch as int,
            true,
        ) == Some(loops[i]) by {
            if i < before.len() {
                assert(loops[i] == before[i]);
            }
        }
    }
}

/// What a loop that is unrolled looks like.
proof fn lemma_plan(instrs: Seq<InstrView>, header: int)
    requires
        is_branching(instrs),
        instrs.len() <= usize::MAX,
    ensures
        plan_at(instrs, header) matches Some(info) ==> {
            &&& info.header == header
            &&& loop_in_program(info, instrs.len())
            &&& is_unrollable(instrs, info)
            &&& counted_loop(instrs, info.latch as int, true) == Some(info)
            &&& info.limit matches LoopLimit::Imm(limit) && limit == info.start + trip_count(info)
                && goes_to_body(instrs[header], info, limit)
            &&& instrs[header - 1] == (InstrView::Mov {
                dst: info.ind_slot,
                src: RuntimeOperand::Imm(info.start),
            })
            &&& instrs[info.latch as int] == (InstrView::Jump { target: info.header })
            &&& is_increment(instrs[info.update_idx as int], info.ind_slot)
            &&& info.update_idx == info.latch - 1 || info.update_idx == info.latch - 2
                && is_normalization(instrs[info.latch - 1], info.ind_slot)
            &&& forall|i: int|
                header < i < info.update_idx ==> is_plain(#[trigger] instrs[i])
                    && !is_boundary(instrs[i]) && !writes(instrs[i], info.ind_slot)
        },
{
    if let Some(info) = plan_at(instrs, header) {
        let loops = counted_loops(instrs, true, instrs.len() as int);
        lemma_plan_at(instrs, header);
        lemma_plan_among(instrs, loops, header, loops.len() as int);
        lemma_found_loops(instrs, instrs.len() as int);
        let k = choose|k: int| 0 <= k < loops.len() && loops[k] == info;
        assert(counted_loop(instrs, loops[k].latch as int, true) == Some(loops[k]));
        assert forall|i: int| header < i < info.update_idx implies is_plain(#[trigger] instrs[i])
            && !is_boundary(instrs[i]) && !writes(instrs[i], info.ind_slot) by {
            assert(keeps_count(instrs[i], info.ind_slot, info.limit, true));
            assert(is_plain(instrs[i]) || is_branch(instrs[i]));
        }
    }
}

/// The test of a counted loop.
spec fn goes_to_body(instr: InstrView, info: CountedLoopInfo, limit: u64) -> bool {
    instr == (InstrView::JumpIfCmpFalse {
        op: RuntimeCmpOp::LtUnsigned,
        lhs: RuntimeOperand::Slot(info.ind_slot),
        rhs: RuntimeOperand::Imm(limit),
        target: info.exit_target,
    })
}

/// An instruction is inside of a loop that is unrolled, behind its header.
spec fn spans(instrs: Seq<InstrView>, header: int, at: int) -> bool {
    plan_at(instrs, header) matches Some(info) && header < at <= info.latch
}

/// No loop that is unrolled has the instruction inside of it.
spec fn is_stop(instrs: Seq<InstrView>, at: int) -> bool {
    forall|header: int| !#[trigger] spans(instrs, header, at)
}

/// Behind a loop that is unrolled, and behind an instruction outside of such, is no
/// inside of one.
proof fn lemma_next_stop(instrs: Seq<InstrView>, at: int)
    requires
        is_branching(instrs),
        instrs.len() <= usize::MAX,
        is_stop(instrs, at),
        0 <= at < instrs.len(),
    ensures
        plan_at(instrs, at) matches Some(info) ==> is_stop(instrs, info.latch + 1),
        plan_at(instrs, at) is None ==> is_stop(instrs, at + 1),
{
    if let Some(info) = plan_at(instrs, at) {
        lemma_plan(instrs, at);
        assert forall|header: int| !#[trigger] spans(instrs, header, info.latch + 1) by {
            lemma_plan(instrs, header);
            if spans(instrs, header, info.latch + 1) {
                let other = plan_at(instrs, header)->0;
                let latch = info.latch as int;
                assert(header != latch);
                assert(header < latch < other.latch);
                if latch < other.update_idx {
                    assert(!is_boundary(instrs[latch]));
                }
            }
        }
    } else {
        assert forall|header: int| !#[trigger] spans(instrs, header, at + 1) by {
            assert(!spans(instrs, header, at));
        }
    }
}

/// Distances add up, and what stands behind a distance is what is unrolled from
/// there on.
proof fn lemma_distances(instrs: Seq<InstrView>, from: int, at: int, to: int)
    requires
        is_branching(instrs),
        instrs.len() <= usize::MAX,
        0 <= from <= at <= to <= instrs.len(),
        is_stop(instrs, from),
        is_stop(instrs, at),
        is_stop(instrs, to),
    ensures
        0 <= unrolled_distance(instrs, from, at) <= unrolled_from(instrs, from).len(),
        unrolled_from(instrs, from).skip(unrolled_distance(instrs, from, at)) == unrolled_from(
            instrs,
            at,
        ),
        unrolled_distance(instrs, from, to) == unrolled_distance(instrs, from, at)
            + unrolled_distance(instrs, at, to),
        unrolled_distance(instrs, at, at) == 0,
    decreases instrs.len() - from,
{
    if at < instrs.len() {
        lemma_plan(instrs, at);
    }
    let all = unrolled_from(instrs, from);
    if from == at {
        assert(all.skip(0) =~= all);
    } else {
        lemma_plan(instrs, from);
        lemma_next_stop(instrs, from);
        match plan_at(instrs, from) {
            Some(info) => {
                assert(!spans(instrs, from, at) && !spans(instrs, from, to));
                lemma_distances(instrs, info.latch + 1, at, to);
                let rest = unrolled_from(instrs, info.latch + 1);
                let whole = expansion(instrs, info);
                let d = unrolled_distance(instrs, info.latch + 1, at);
                assert(all.skip(whole.len() + d) =~= rest.skip(d));
            },
            None => {
                lemma_distances(instrs, from + 1, at, to);
                let rest = unrolled_from(instrs, from + 1);
                let d = unrolled_distance(instrs, from + 1, at);
                assert(all.skip(1 + d) =~= rest.skip(d));
            },
        }
    }
}

/// Where the first instruction stands nothing is inside of a loop, and so is where
/// the program ends.
proof fn lemma_ends_are_stops(instrs: Seq<InstrView>)
    requires
        is_branching(instrs),
        instrs.len() <= usize::MAX,
    ensures
        is_stop(instrs, 0),
        is_stop(instrs, instrs.len() as int),
{
    assert forall|header: int| !#[trigger] spans(instrs, header, 0) by {
        lemma_plan(instrs, header);
    }
    assert forall|header: int| !#[trigger] spans(instrs, header, instrs.len() as int) by {
        lemma_plan(instrs, header);
    }
}

/// An instruction outside of loops stands where it is brought, with the next one
/// behind it.
proof fn lemma_outside(instrs: Seq<InstrView>, at: int)
    requires
        is_branching(instrs),
        instrs.len() <= usize::MAX,
        0 <= at < instrs.len(),
        is_stop(instrs, at),
        plan_at(instrs, at) is None,
    ensures
        is_stop(instrs, at + 1),
        0 <= unrolled_distance(instrs, 0, at) < unrolled_from(instrs, 0).len(),
        unrolled_from(instrs, 0)[unrolled_distance(instrs, 0, at)] == instrs[at],
        unrolled_distance(instrs, 0, at + 1) == unrolled_distance(instrs, 0, at) + 1,
{
    lemma_ends_are_stops(instrs);
    lemma_next_stop(instrs, at);
    lemma_distances(instrs, 0, at, at + 1);
    lemma_distances(instrs, at + 1, at + 1, at + 1);
    let d = unrolled_distance(instrs, 0, at);
    let all = unrolled_from(instrs, 0);
    assert(all.skip(d).len() == all.len() - d);
    assert(unrolled_from(instrs, at)[0] == instrs[at]);
    assert(unrolled_from(instrs, at).len() > 0);
    assert(all.skip(d)[0] == all[d]);
}

/// A loop stands unrolled where it is brought.
proof fn lemma_loop_unrolled(instrs: Seq<InstrView>, header: int, i: int)
    requires
        is_branching(instrs),
        instrs.len() <= usize::MAX,
        0 <= header < instrs.len(),
        is_stop(instrs, header),
        plan_at(instrs, header) matches Some(info) && 0 <= i < expansion(instrs, info).len(),
    ensures
        0 <= unrolled_distance(instrs, 0, header),
        unrolled_distance(instrs, 0, header) + i < unrolled_from(instrs, 0).len(),
        unrolled_from(instrs, 0)[unrolled_distance(instrs, 0, header) + i] == expansion(
            instrs,
            plan_at(instrs, header)->0,
        )[i],
{
    lemma_ends_are_stops(instrs);
    lemma_plan(instrs, header);
    lemma_distances(instrs, 0, header, header);
    let d = unrolled_distance(instrs, 0, header);
    let all = unrolled_from(instrs, 0);
    let whole = expansion(instrs, plan_at(instrs, header)->0);
    assert(all.skip(d).len() == all.len() - d);
    assert(unrolled_from(instrs, header).len() >= whole.len());
    assert(unrolled_from(instrs, header)[i] == whole[i]);
    assert(all.skip(d)[i] == all[d + i]);
}

/// The header of a loop is not inside of another.
proof fn lemma_header_is_stop(instrs: Seq<InstrView>, header: int)
    requires
        is_branching(instrs),
        instrs.len() <= usize::MAX,
        plan_at(instrs, header) is Some,
    ensures
        is_stop(instrs, header),
{
    lemma_plan(instrs, header);
    assert forall|other: int| !#[trigger] spans(instrs, other, header) by {
        lemma_plan(instrs, other);
        if spans(instrs, other, header) {
            let info = plan_at(instrs, other)->0;
            assert(header < info.latch);
            if header < info.update_idx {
                assert(!is_boundary(instrs[header]));
            }
        }
    }
}

/// How long one unrolled iteration is.
spec fn round_len(info: CountedLoopInfo) -> int {
    info.update_idx - info.header
}

/// The j-th instruction of the k-th unrolled iteration.
proof fn lemma_iteration(instrs: Seq<InstrView>, info: CountedLoopInfo, n: nat, k: int, j: int)
    requires
        loop_in_program(info, instrs.len()),
        0 <= k < n,
        0 <= j < round_len(info),
    ensures
        unrolled_iterations(instrs, info, n).len() == n * round_len(info),
        0 <= k * round_len(info) + j < n * round_len(info),
        unrolled_iterations(instrs, info, n)[k * round_len(info) + j] == unrolled_iteration(
            instrs,
            info,
            (info.start + k) as u64,
        )[j],
    decreases n,
{
    let size = round_len(info);
    let before = unrolled_iterations(instrs, info, (n - 1) as nat);
    let last = unrolled_iteration(instrs, info, (info.start + (n - 1)) as u64);
    assert(last.len() == size);
    assert(n * size == (n - 1) * size + size) by (nonlinear_arith);
    assert(k * size >= 0) by (nonlinear_arith)
        requires
            k >= 0,
            size >= 0,
    ;
    if n > 1 {
        lemma_iteration(instrs, info, (n - 1) as nat, if k < n - 1 { k } else { 0 }, j);
    } else {
        assert(before.len() == 0);
        assert(0 * size == 0);
    }
    if k == n - 1 {
        assert((before + last)[(n - 1) * size + j] == last[j]);
    } else {
        assert((before + last)[k * size + j] == before[k * size + j]);
    }
}

/// Where what replaces a loop has its instructions.
proof fn lemma_expansion(instrs: Seq<InstrView>, info: CountedLoopInfo, k: int, j: int)
    requires
        loop_in_program(info, instrs.len()),
        trip_count(info) > 0,
        0 <= k <= trip_count(info),
        0 <= j < round_len(info),
    ensures
        k < trip_count(info) ==> 0 <= k * round_len(info) + j < expansion(instrs, info).len()
            && expansion(instrs, info)[k * round_len(info) + j] == unrolled_iteration(
            instrs,
            info,
            (info.start + k) as u64,
        )[j],
        k == trip_count(info) ==> 0 <= k * round_len(info) && k * round_len(info) + 2 == expansion(
            instrs,
            info,
        ).len() && expansion(instrs, info)[k * round_len(info)] == (InstrView::Mov {
            dst: info.ind_slot,
            src: RuntimeOperand::Imm((info.start + trip_count(info)) as u64),
        }) && expansion(instrs, info)[k * round_len(info) + 1] == (InstrView::Jump {
            target: info.exit_target,
        }),
        (k + 1) * round_len(info) == k * round_len(info) + round_len(info),
{
    let n = trip_count(info) as nat;
    let size = round_len(info);
    lemma_iteration(instrs, info, n, if k < n { k } else { 0 }, j);
    assert((k + 1) * size == k * size + size) by (nonlinear_arith);
    assert(k * size >= 0) by (nonlinear_arith)
        requires
            k >= 0,
            size >= 0,
    ;
}

/// An instruction of a body does the same once it is unrolled, and is seen alike.
proof fn lemma_unrolled_is_seen(
    instr: InstrView,
    slot: usize,
    value: u64,
    state: SlotState,
    answer: u64,
)
    requires
        is_plain(instr),
        !is_boundary(instr),
        !writes(instr, slot),
        instr_below(instr, state.len() as int),
        slot < state.len(),
        state[slot as int] == value,
    ensures
        is_plain(unrolled_instr(instr, slot, value)),
        !(unrolled_instr(instr, slot, value) is Exit),
        event(unrolled_instr(instr, slot, value), state) == event(instr, state),
        effect(unrolled_instr(instr, slot, value), state, answer) == effect(instr, state, answer),
        effect(instr, state, answer) matches Some(next) ==> next.len() == state.len()
            && next[slot as int]
            == value,
{
    if is_slot_arithmetic(instr) {
        law_unrolled_instr_has_same_effect(instr, slot, value, state);
    } else if is_request(instr) {
        law_unrolled_requests_ask_the_same(instr, slot, value, state);
    }
}

/// Where a program and the program with its loops unrolled stand: outside of loops,
/// or in a loop in its k-th iteration.
struct Rolling {
    header: int,
    k: int,
}

/// The program outside of loops stands where it is brought.
spec fn is_outside(instrs: Seq<InstrView>, run: Running, new: Running) -> bool {
    &&& new.state == run.state
    &&& if run.at < 0 {
        run.at == nowhere() && new.at == nowhere()
    } else {
        &&& is_stop(instrs, run.at)
        &&& run.at < instrs.len() ==> plan_at(instrs, run.at) is None
        &&& new.at == unrolled_position(instrs)(run.at as usize)
        &&& run.at <= usize::MAX
    }
}

/// The program in a loop stands in the iteration that it is in; the count is set
/// when an iteration starts.
spec fn is_rolling(instrs: Seq<InstrView>, run: Running, new: Running, place: Rolling) -> bool {
    &&& plan_at(instrs, place.header) matches Some(info) && {
        let count = (info.start + place.k) as u64;
        let base = unrolled_distance(instrs, 0, place.header);
        let slot = info.ind_slot as int;
        &&& 0 <= place.k <= trip_count(info)
        &&& place.header <= run.at <= info.latch
        &&& place.k < trip_count(info) || run.at == place.header
        &&& new.state.len() == run.state.len()
        &&& if run.at == place.header {
            &&& new.at == base + place.k * round_len(info)
            &&& run.state[slot] == count
            &&& new.state.update(slot, count) == run.state
        } else if run.at <= info.update_idx {
            &&& new.at == base + place.k * round_len(info) + (run.at - place.header)
            &&& run.state[slot] == count
            &&& new.state == run.state
        } else {
            &&& new.at == base + (place.k + 1) * round_len(info)
            &&& run.state[slot] == count + 1
            &&& new.state.update(slot, (count + 1) as u64) == run.state
        }
    }
}

/// A step outside of loops.
proof fn lemma_outside_step(instrs: Seq<InstrView>, run: Running, new: Running) -> (place: Rolling)
    requires
        is_branching(instrs),
        instrs.len() <= usize::MAX,
        unrolled_from(instrs, 0).len() <= usize::MAX,
        has_plan(instrs),
        loops_are_closed(instrs),
        slots_below(instrs, run.state.len() as int),
        0 <= run.at < instrs.len(),
        is_outside(instrs, run, new),
        new.seen == run.seen,
        new.world == run.world,
        next(instrs, run) is Some,
    ensures
        next(unroll_loops(instrs), new) matches Some(there) && there.seen == next(
            instrs,
            run,
        )->0.seen && (is_outside(instrs, next(instrs, run)->0, there) || is_rolling(
            instrs,
            next(instrs, run)->0,
            there,
            place,
        )),
{
    let at = run.at;
    let instr = instrs[at];
    let f = unrolled_position(instrs);
    let out = unroll_loops(instrs);
    lemma_outside(instrs, at);
    lemma_ends_are_stops(instrs);
    assert(out[new.at] == map_code_target(instr, f));
    assert(is_plain(instr) || is_branch(instr));
    assert(instr_below(instr, run.state.len() as int));
    let to = next(instrs, run)->0;
    let there = next(out, new)->0;
    lemma_distance_in_bounds(instrs, 0, at + 1);
    if to.at == at + 1 && at + 1 < instrs.len() && plan_at(instrs, at + 1) is Some {
        lemma_plan(instrs, at + 1);
        let info = plan_at(instrs, at + 1)->0;
        assert(instrs[at + 1 - 1] == instr);
        assert(round_len(info) * 0 == 0);
        assert(there.state.update(info.ind_slot as int, info.start) =~= to.state);
        Rolling { header: at + 1, k: 0 }
    } else {
        if to.at >= 0 && to.at < instrs.len() && to.at != at + 1 {
            let target = to.at;
            assert(branches_to(instr, target));
            assert(is_branched_to(instrs, target));
            if let Some(info) = plan_at(instrs, target) {
                lemma_plan(instrs, target);
                assert(at == info.latch);
                assert(!spans(instrs, target, at));
            }
            assert forall|header: int| !#[trigger] spans(instrs, header, target) by {
                lemma_plan(instrs, header);
            }
        } else if to.at > instrs.len() {
            assert forall|header: int| !#[trigger] spans(instrs, header, to.at) by {
                lemma_plan(instrs, header);
            }
        }
        Rolling { header: 0, k: 0 }
    }
}

/// A step in a loop: an iteration that is unrolled sets the count, runs the body, and
/// does nothing for the update, the jump back and the test; where the loop leaves,
/// the count is set and control jumps.
proof fn lemma_rolling_step(
    instrs: Seq<InstrView>,
    run: Running,
    new: Running,
    place: Rolling,
) -> (found: (nat, Rolling))
    requires
        is_branching(instrs),
        instrs.len() <= usize::MAX,
        unrolled_from(instrs, 0).len() <= usize::MAX,
        has_plan(instrs),
        loops_are_closed(instrs),
        slots_below(instrs, run.state.len() as int),
        is_rolling(instrs, run, new, place),
        new.seen == run.seen,
        new.world == run.world,
        next(instrs, run) is Some,
    ensures
        after(unroll_loops(instrs), new, found.0) matches Some(there) && there.seen == next(
            instrs,
            run,
        )->0.seen && (is_outside(instrs, next(instrs, run)->0, there) || is_rolling(
            instrs,
            next(instrs, run)->0,
            there,
            found.1,
        )),
{
    let header = place.header;
    let k = place.k;
    let info = plan_at(instrs, header)->0;
    let slot = info.ind_slot as int;
    let count = (info.start + k) as u64;
    let base = unrolled_distance(instrs, 0, header);
    let size = round_len(info);
    let f = unrolled_position(instrs);
    let out = unroll_loops(instrs);
    let at = run.at;
    let instr = instrs[at];
    let to = next(instrs, run)->0;
    lemma_plan(instrs, header);
    lemma_header_is_stop(instrs, header);
    assert(keeps_its_count(instrs, info));
    assert(instr_below(instrs[header], run.state.len() as int));
    assert(instr_below(instr, run.state.len() as int));
    assert(info.start + trip_count(info) <= u64::MAX);
    assert(after(out, new, 0) == Some(new));
    assert(after(out, new, 1) == next(out, new));
    if at == header {
        lemma_expansion(instrs, info, k, 0);
        lemma_loop_unrolled(instrs, header, k * size);
        let set = expansion(instrs, info)[k * size];
        assert(set == (InstrView::Mov { dst: info.ind_slot, src: RuntimeOperand::Imm(count) }));
        assert(out[new.at] == map_code_target(set, f));
        let there = next(out, new)->0;
        assert(there == Running { at: new.at + 1, state: run.state, ..new });
        if k < trip_count(info) {
            assert(to.at == header + 1);
            (1, place)
        } else {
            lemma_loop_unrolled(instrs, header, k * size + 1);
            let leave = expansion(instrs, info)[k * size + 1];
            assert(out[there.at] == map_code_target(leave, f));
            assert(after(out, new, 2) == next(out, there));
            let target = info.exit_target as int;
            assert(to.at == target);
            assert(branches_to(instr, target));
            if target < instrs.len() {
                assert(is_branched_to(instrs, target));
                if let Some(other) = plan_at(instrs, target) {
                    lemma_plan(instrs, target);
                    assert(at == other.latch);
                }
            }
            assert forall|other: int| !#[trigger] spans(instrs, other, target) by {
                lemma_plan(instrs, other);
            }
            (2, place)
        }
    } else if at < info.update_idx {
        let j = at - header;
        lemma_expansion(instrs, info, k, j);
        lemma_loop_unrolled(instrs, header, k * size + j);
        let body = unrolled_iteration(instrs, info, count)[j];
        assert(body == unrolled_instr(instr, info.ind_slot, count));
        let answer = (run.world)(seen_after(instr, run));
        lemma_unrolled_is_seen(instr, info.ind_slot, count, run.state, answer);
        assert(out[new.at] == map_code_target(body, f));
        assert(out[new.at] == body);
        (1, place)
    } else if at == info.update_idx {
        lemma_increment(instr, info.ind_slot, count, run.state);
        lemma_expansion(instrs, info, k, 0);
        assert(to.state == run.state.update(slot, (count + 1) as u64));
        (0, place)
    } else if at < info.latch {
        assert(at == info.latch - 1);
        assert(to.state =~= run.state);
        (0, place)
    } else {
        lemma_expansion(instrs, info, k, 0);
        (0, Rolling { header, k: k + 1 })
    }
}

/// Steps one after the other.
proof fn lemma_after_after(instrs: Seq<InstrView>, run: Running, n: nat, m: nat)
    requires
        after(instrs, run, n) is Some,
    ensures
        after(instrs, run, n + m) == after(instrs, after(instrs, run, n)->0, m),
    decreases m,
{
    if m > 0 {
        lemma_after_after(instrs, run, n, (m - 1) as nat);
        assert((n + m - 1) as nat == n + (m - 1) as nat);
    }
}

/// Steps keep the number of slots.
proof fn lemma_after_keeps_count(instrs: Seq<InstrView>, state: SlotState, world: World, n: nat)
    requires
        is_branching(instrs),
        slots_below(instrs, state.len() as int),
    ensures
        after(
            instrs,
            started(state, world),
            n,
        ) matches Some(run) ==> run.state.len() == state.len(),
    decreases n,
{
    if n > 0 {
        lemma_after_keeps_count(instrs, state, world, (n - 1) as nat);
        if let Some(run) = after(instrs, started(state, world), n) {
            let before = after(instrs, started(state, world), (n - 1) as nat)->0;
            assert(is_plain(instrs[before.at]) || is_branch(instrs[before.at]));
            assert(instr_below(instrs[before.at], state.len() as int));
        }
    }
}

/// Where a program comes, it comes with its loops unrolled.
proof fn lemma_unrolling_keeps_traces(
    instrs: Seq<InstrView>,
    state: SlotState,
    world: World,
    n: nat,
) -> (found: (
    nat,
    Rolling,
))
    requires
        is_branching(instrs),
        instrs.len() <= usize::MAX,
        unrolled_from(instrs, 0).len() <= usize::MAX,
        has_plan(instrs),
        loops_are_closed(instrs),
        slots_below(instrs, state.len() as int),
    ensures
        after(instrs, started(state, world), n) matches Some(run) ==> (after(
            unroll_loops(instrs),
            started(state, world),
            found.0,
        ) matches Some(new) && new.seen == run.seen && (is_outside(instrs, run, new) || is_rolling(
            instrs,
            run,
            new,
            found.1,
        ))),
    decreases n,
{
    let out = unroll_loops(instrs);
    let nothing = Rolling { header: 0, k: 0 };
    if n == 0 {
        lemma_ends_are_stops(instrs);
        lemma_plan(instrs, 0);
        lemma_distances(instrs, 0, 0, 0);
        (0, nothing)
    } else {
        let (m, place) = lemma_unrolling_keeps_traces(instrs, state, world, (n - 1) as nat);
        if let Some(run) = after(instrs, started(state, world), n) {
            let before = after(instrs, started(state, world), (n - 1) as nat)->0;
            let new = after(out, started(state, world), m)->0;
            lemma_world_stays(instrs, started(state, world), (n - 1) as nat);
            lemma_world_stays(out, started(state, world), m);
            lemma_after_keeps_count(instrs, state, world, (n - 1) as nat);
            if is_outside(instrs, before, new) {
                let next_place = lemma_outside_step(instrs, before, new);
                (m + 1, next_place)
            } else {
                let (steps, next_place) = lemma_rolling_step(instrs, before, new, place);
                lemma_after_after(out, started(state, world), m, steps);
                (m + steps, next_place)
            }
        } else {
            (0, nothing)
        }
    }
}

/// Unrolling keeps what is seen: where a program comes, it comes with its loops
/// unrolled, having shown the same, and it leaves with the same slots.
pub proof fn law_unrolling_keeps_traces(
    instrs: Seq<InstrView>,
    state: SlotState,
    world: World,
    n: nat,
) -> (m:
    nat)
    requires
        is_branching(instrs),
        instrs.len() <= usize::MAX,
        unroll_loops(instrs).len() <= usize::MAX,
        loops_are_closed(instrs),
        slots_below(instrs, state.len() as int),
    ensures
        after(instrs, started(state, world), n) matches Some(run) ==> (after(
            unroll_loops(instrs),
            started(state, world),
            m,
        ) matches Some(new) && new.seen == run.seen && (run.at == nowhere() ==> new.at == nowhere()
            && new.state == run.state)),
{
    if has_plan(instrs) {
        let (m, place) = lemma_unrolling_keeps_traces(instrs, state, world, n);
        if let Some(run) = after(instrs, started(state, world), n) {
            let new = after(unroll_loops(instrs), started(state, world), m)->0;
            if run.at == nowhere() && !is_outside(instrs, run, new) {
                lemma_plan(instrs, place.header);
            }
        }
        m
    } else {
        n
    }
}

/// Unrolled iterations are straight-line code.
proof fn lemma_iterations_are_straight(instrs: Seq<InstrView>, header: int, n: nat)
    requires
        is_branching(instrs),
        instrs.len() <= usize::MAX,
        plan_at(instrs, header) is Some,
    ensures
        is_branching(unrolled_iterations(instrs, plan_at(instrs, header)->0, n)),
    decreases n,
{
    if n > 0 {
        let info = plan_at(instrs, header)->0;
        lemma_plan(instrs, header);
        lemma_iterations_are_straight(instrs, header, (n - 1) as nat);
        let before = unrolled_iterations(instrs, info, (n - 1) as nat);
        let value = (info.start + (n - 1)) as u64;
        let last = unrolled_iteration(instrs, info, value);
        let all = unrolled_iterations(instrs, info, n);
        assert forall|i: int| 0 <= i < all.len() implies is_plain(#[trigger] all[i])
            || is_branch(all[i]) by {
            if i < before.len() {
                assert(all[i] == before[i]);
                assert(is_plain(before[i]) || is_branch(before[i]));
            } else {
                let j = i - before.len();
                assert(all[i] == last[j]);
                if j > 0 {
                    assert(last[j] == unrolled_instr(instrs[header + j], info.ind_slot, value));
                    assert(is_plain(instrs[header + j]));
                }
            }
        }
    }
}

/// Unrolled code with branches is code with branches.
proof fn lemma_unrolled_from_is_branching(instrs: Seq<InstrView>, from: int)
    requires
        is_branching(instrs),
        instrs.len() <= usize::MAX,
    ensures
        is_branching(unrolled_from(instrs, from)),
    decreases instrs.len() - from,
{
    if 0 <= from < instrs.len() {
        lemma_plan(instrs, from);
        let all = unrolled_from(instrs, from);
        match plan_at(instrs, from) {
            Some(info) => {
                lemma_unrolled_from_is_branching(instrs, info.latch + 1);
                lemma_iterations_are_straight(instrs, from, trip_count(info) as nat);
                let rolled = unrolled_iterations(instrs, info, trip_count(info) as nat);
                let whole = expansion(instrs, info);
                let rest = unrolled_from(instrs, info.latch + 1);
                assert forall|i: int| 0 <= i < all.len() implies is_plain(#[trigger] all[i])
                    || is_branch(all[i]) by {
                    if i < rolled.len() {
                        assert(all[i] == rolled[i]);
                        assert(is_plain(rolled[i]) || is_branch(rolled[i]));
                    } else if i < whole.len() {
                        assert(all[i] == whole[i]);
                    } else {
                        assert(all[i] == rest[i - whole.len()]);
                        assert(is_plain(rest[i - whole.len()]) || is_branch(
                            rest[i - whole.len()],
                        ));
                    }
                }
            },
            None => {
                lemma_unrolled_from_is_branching(instrs, from + 1);
                let rest = unrolled_from(instrs, from + 1);
                assert forall|i: int| 0 <= i < all.len() implies is_plain(#[trigger] all[i])
                    || is_branch(all[i]) by {
                    if i == 0 {
                        assert(is_plain(instrs[from]) || is_branch(instrs[from]));
                    } else {
                        assert(all[i] == rest[i - 1]);
                        assert(is_plain(rest[i - 1]) || is_branch(rest[i - 1]));
                    }
                }
            },
        }
    }
}

/// A program with branches stays such when its loops are unrolled, and its slots
/// stay in range.
pub proof fn lemma_unrolled_is_branching(instrs: Seq<InstrView>, bound: int)
    requires
        is_branching(instrs),
        instrs.len() <= usize::MAX,
        slots_below(instrs, bound),
    ensures
        is_branching(unroll_loops(instrs)),
        slots_below(unroll_loops(instrs), bound),
{
    if has_plan(instrs) {
        lemma_unrolled_from_is_branching(instrs, 0);
        lemma_unrolled_in_range(instrs, 0, bound);
        let flat = unrolled_from(instrs, 0);
        let out = unroll_loops(instrs);
        assert forall|i: int| 0 <= i < out.len() implies (is_plain(#[trigger] out[i])
            || is_branch(out[i])) && instr_below(out[i], bound) by {
            assert(is_plain(flat[i]) || is_branch(flat[i]));
            assert(instr_below(flat[i], bound));
            assert(out[i] == map_code_target(flat[i], unrolled_position(instrs)));
        }
    }
}

} // verus!
