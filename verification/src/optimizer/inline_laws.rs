//! Inlined calls keep the ways of control.

use crate::ir::InstrView;
use crate::optimizer::arrivals::{changes_written_only, may_become, may_pass};
use crate::optimizer::inline::{
    blocks_inlining, call_count, inline_leaf_calls, inline_room, inline_round, inline_rounds,
    leaf_end, lemma_inline_round_calls, lemma_leaf_end, lemma_splice_room, spliced, Inlining,
    MAX_INLINE_EXPANSION,
};
use crate::optimizer::machine::SlotState;
use crate::optimizer::peephole::FloatFn;
use crate::optimizer::stacks::{
    comes_to, is_run, lemma_comes_on, lemma_comes_to_start, may_go, reaches, Standing,
};
use crate::optimizer::targets::{
    code_room, code_target, map_code_target, moved_up, with_code_target,
};
use crate::optimizer::uses::writes;
use vstd::prelude::*;

verus! {

/// Two instructions are the same but for what they name.
pub open spec fn is_same_but_target(a: InstrView, b: InstrView) -> bool {
    with_code_target(a, 0) == with_code_target(b, 0)
}

/// The instruction does more than to pass control on.
pub open spec fn does_something(instr: InstrView) -> bool {
    !(instr is Jump) && !(instr is Call) && !(instr is Return)
}

/// A call that is inlined: where it stands, the routine that it calls, and where
/// that ends.
pub struct Inlined {
    pub index: int,
    pub target: int,
    pub end: int,
}

/// The call is one of a leaf routine.
spec fn is_leaf_call(instrs: Seq<InstrView>, call: Inlined) -> bool {
    &&& 0 <= call.index < instrs.len() < usize::MAX
    &&& instrs[call.index] matches InstrView::Call { target } && target == call.target
    &&& 0 <= call.target <= call.end < instrs.len()
    &&& instrs[call.end] is Return
    &&& forall|i: int|
        call.target <= i < call.end ==> !blocks_inlining(#[trigger] instrs[i]) && !(instrs[i]
            is Return)
}

/// How many instructions stand in the place of the call.
spec fn inlined_len(call: Inlined) -> int {
    if call.end > call.target {
        call.end - call.target
    } else {
        1
    }
}

/// Where an instruction goes when the call is inlined.
spec fn inlined_place(call: Inlined, at: int) -> int {
    if at <= call.index {
        at
    } else {
        at + inlined_len(call) - 1
    }
}

/// The program with the call inlined.
spec fn with_inlined(instrs: Seq<InstrView>, call: Inlined) -> Seq<InstrView> {
    if call.end > call.target {
        spliced(instrs, call.index, instrs.subrange(call.target, call.end))
    } else {
        instrs.update(call.index, InstrView::Jump { target: (call.index + 1) as usize })
    }
}

/// There is room for the call to be inlined.
spec fn has_room(instrs: Seq<InstrView>, call: Inlined) -> bool {
    instrs.len() + inlined_len(call) <= usize::MAX && code_room(instrs, inlined_len(call) - 1)
}

/// Nothing changes where targets stay.
proof fn lemma_same_targets(instr: InstrView, f: spec_fn(usize) -> usize)
    requires
        forall|target: usize| #[trigger] f(target) == target,
    ensures
        map_code_target(instr, f) == instr,
{
}

/// What stands where when the call is inlined.
proof fn lemma_inlined(instrs: Seq<InstrView>, call: Inlined)
    requires
        is_leaf_call(instrs, call),
        has_room(instrs, call),
    ensures
        with_inlined(instrs, call).len() == instrs.len() + inlined_len(call) - 1,
        forall|i: int|
            0 <= i < instrs.len() && i != call.index
                ==> #[trigger] with_inlined(instrs, call)[inlined_place(call, i)]
                == map_code_target(
                instrs[i],
                moved_up((call.index + 1) as usize, (inlined_len(call) - 1) as usize),
            ),
        forall|k: int|
            0 <= k < call.end - call.target ==> #[trigger] with_inlined(instrs, call)[call.index
                + k] == instrs[call.target + k],
        call.end == call.target ==> with_inlined(instrs, call)[call.index] == (InstrView::Jump {
            target: (call.index + 1) as usize,
        }),
{
    let new = with_inlined(instrs, call);
    let body = instrs.subrange(call.target, call.end);
    let f = moved_up((call.index + 1) as usize, (inlined_len(call) - 1) as usize);
    let longer = instrs.take(call.index) + body + instrs.skip(call.index + 1);
    assert forall|i: int| 0 <= i < instrs.len() && i != call.index implies #[trigger] new[
        inlined_place(call, i)] == map_code_target(instrs[i], f) by {
        if inlined_len(call) == 1 {
            lemma_same_targets(instrs[i], f);
        } else {
            assert(longer[inlined_place(call, i)] == instrs[i]);
        }
    }
    assert forall|k: int| 0 <= k < call.end - call.target implies #[trigger] new[call.index + k]
        == instrs[call.target + k] by {
        assert(!blocks_inlining(instrs[call.target + k]));
        assert(longer[call.index + k] == body[k]);
    }
}

/// The calls around, once the call is inlined.
spec fn inlined_calls(call: Inlined, calls: Seq<int>) -> Seq<int> {
    Seq::new(calls.len(), |k: int| inlined_place(call, calls[k]))
}

/// None of the calls around is the one that is inlined, and all are calls.
spec fn are_others(instrs: Seq<InstrView>, call: Inlined, calls: Seq<int>) -> bool {
    forall|k: int|
        0 <= k < calls.len() ==> 0 <= #[trigger] calls[k] < instrs.len() && calls[k] != call.index
}

/// Control stands inside of the routine that the inlined call has called.
spec fn stands_inside(call: Inlined, place: Standing) -> bool {
    place.calls.len() > 0 && place.calls.last() == call.index
}

/// One control stands with the call inlined where the other stands without.
spec fn stands_alike(
    instrs: Seq<InstrView>,
    call: Inlined,
    place: Standing,
    new: Standing,
) -> bool {
    &&& new.state == place.state
    &&& if stands_inside(call, place) {
        &&& are_others(instrs, call, place.calls.drop_last())
        &&& call.target <= place.at <= call.end
        &&& new.at == call.index + (place.at - call.target)
        &&& new.calls == inlined_calls(call, place.calls.drop_last())
    } else {
        &&& are_others(instrs, call, place.calls)
        &&& new.at == inlined_place(call, place.at)
        &&& new.calls == inlined_calls(call, place.calls)
    }
}

/// What an instruction may make of the slots does not depend on what it names.
proof fn lemma_same_becoming(
    instr: InstrView,
    f: spec_fn(usize) -> usize,
    floats: FloatFn,
    state: SlotState,
    next: SlotState,
)
    ensures
        may_become(map_code_target(instr, f), floats, state, next) == may_become(
            instr,
            floats,
            state,
            next,
        ),
{
    let other = map_code_target(instr, f);
    assert(forall|slot: usize| #[trigger] writes(other, slot) == writes(instr, slot));
    assert(changes_written_only(other, state, next) == changes_written_only(instr, state, next));
}

/// A step of an instruction other than the inlined call, outside of the routine
/// that it calls, is a step with the call inlined.
proof fn lemma_step_outside(
    instrs: Seq<InstrView>,
    floats: FloatFn,
    call: Inlined,
    from: Standing,
    to: Standing,
    new: Standing,
) -> (next: Standing)
    requires
        is_leaf_call(instrs, call),
        has_room(instrs, call),
        !stands_inside(call, from),
        from.at != call.index,
        stands_alike(instrs, call, from, new),
        may_go(instrs, floats, from, to),
    ensures
        may_go(with_inlined(instrs, call), floats, new, next),
        stands_alike(instrs, call, to, next),
        !stands_inside(call, to),
{
    lemma_inlined(instrs, call);
    let f = moved_up((call.index + 1) as usize, (inlined_len(call) - 1) as usize);
    let next = Standing {
        at: inlined_place(call, to.at),
        calls: inlined_calls(call, to.calls),
        state: to.state,
    };
    let instr = instrs[from.at];
    assert(code_target(instr) matches Some(target) ==> target + inlined_len(call) - 1
        <= usize::MAX);
    assert(with_inlined(instrs, call)[new.at] == map_code_target(instr, f));
    assert forall|k: int| 0 <= k < to.calls.len() implies 0 <= #[trigger] to.calls[k]
        < instrs.len() && to.calls[k] != call.index by {
        if k < from.calls.len() {
            assert(from.calls[k] != call.index);
        }
    }
    match instr {
        InstrView::Call { target } => {
            assert(next.calls =~= new.calls.push(new.at));
        },
        InstrView::Return => {
            let c = from.calls.last();
            assert(from.calls[from.calls.len() - 1] == c);
            assert(new.calls.last() == inlined_place(call, c));
            assert(next.calls =~= new.calls.drop_last());
        },
        InstrView::ThreadSpawn { .. } => {
            lemma_same_becoming(instr, f, floats, from.state, to.state);
            if to.calls == Seq::<int>::empty() {
                assert(next.calls =~= Seq::<int>::empty());
            }
        },
        InstrView::Jump { .. } => {},
        InstrView::JumpIfZero { .. } => {},
        InstrView::JumpIfCmpFalse { .. } => {},
        _ => {},
    }
    next
}

/// A step inside of the routine is a step of its copy.
proof fn lemma_step_inside(
    instrs: Seq<InstrView>,
    floats: FloatFn,
    call: Inlined,
    from: Standing,
    to: Standing,
    new: Standing,
)
    requires
        is_leaf_call(instrs, call),
        has_room(instrs, call),
        stands_inside(call, from),
        from.at < call.end,
        stands_alike(instrs, call, from, new),
    ensures
        may_go(instrs, floats, from, to) == (to.at == from.at + 1 && to.calls == from.calls
            && may_go(
            with_inlined(instrs, call),
            floats,
            new,
            Standing { at: new.at + 1, calls: new.calls, state: to.state },
        )),
        to.at == from.at + 1 && to.calls == from.calls ==> stands_alike(
            instrs,
            call,
            to,
            Standing { at: new.at + 1, calls: new.calls, state: to.state },
        ),
{
    lemma_inlined(instrs, call);
    let k = from.at - call.target;
    assert(with_inlined(instrs, call)[call.index + k] == instrs[call.target + k]);
    assert(!blocks_inlining(instrs[from.at]));
    assert(!(instrs[from.at] is Return));
}

/// Where control stands without the call inlined, it stands alike with it
/// inlined.
proof fn lemma_inlined_way(
    instrs: Seq<InstrView>,
    slots: nat,
    floats: FloatFn,
    call: Inlined,
    way: Seq<Standing>,
    n: int,
) -> (new: Standing)
    requires
        is_leaf_call(instrs, call),
        has_room(instrs, call),
        is_run(instrs, slots, floats, way),
        0 <= n < way.len(),
    ensures
        comes_to(with_inlined(instrs, call), slots, floats, new),
        stands_alike(instrs, call, way[n], new),
    decreases n,
{
    let inlined = with_inlined(instrs, call);
    lemma_inlined(instrs, call);
    if n == 0 {
        let new = Standing { at: 0, calls: Seq::empty(), state: way[0].state };
        lemma_comes_to_start(inlined, slots, floats, way[0].state);
        assert(inlined_calls(call, way[0].calls) =~= Seq::<int>::empty());
        new
    } else {
        let from = way[n - 1];
        let to = way[n];
        assert(may_go(instrs, floats, way[n - 1], way[n - 1 + 1]));
        let before = lemma_inlined_way(instrs, slots, floats, call, way, n - 1);
        if stands_inside(call, from) {
            if from.at < call.end {
                lemma_step_inside(instrs, floats, call, from, to, before);
                let new = Standing { at: before.at + 1, calls: before.calls, state: to.state };
                lemma_comes_on(inlined, slots, floats, before, new);
                new
            } else {
                let outer = from.calls.drop_last();
                if outer.len() > 0 {
                    assert(outer[outer.len() - 1] != call.index);
                }
                if call.end > call.target {
                    before
                } else {
                    let new = Standing {
                        at: call.index + 1,
                        calls: before.calls,
                        state: before.state,
                    };
                    lemma_comes_on(inlined, slots, floats, before, new);
                    new
                }
            }
        } else if from.at == call.index {
            assert(to.calls.drop_last() =~= from.calls);
            assert(to.calls.last() == call.index);
            before
        } else {
            let new = lemma_step_outside(instrs, floats, call, from, to, before);
            lemma_comes_on(inlined, slots, floats, before, new);
            new
        }
    }
}

/// One control stands with the call inlined where the other stands without: at
/// the call before it is made, and behind it once the routine has returned.
spec fn stands_for(
    instrs: Seq<InstrView>,
    call: Inlined,
    place: Standing,
    new: Standing,
) -> bool {
    &&& stands_alike(instrs, call, place, new)
    &&& stands_inside(call, place) ==> call.target < place.at < call.end
}

/// A step with the call inlined of an instruction that was there before is a step
/// without.
proof fn lemma_step_back_outside(
    instrs: Seq<InstrView>,
    floats: FloatFn,
    call: Inlined,
    place: Standing,
    new: Standing,
    next: Standing,
) -> (to: Standing)
    requires
        is_leaf_call(instrs, call),
        has_room(instrs, call),
        !stands_inside(call, place),
        place.at != call.index,
        0 <= place.at,
        stands_alike(instrs, call, place, new),
        may_go(with_inlined(instrs, call), floats, new, next),
    ensures
        may_go(instrs, floats, place, to),
        stands_alike(instrs, call, to, next),
        !stands_inside(call, to),
        0 <= to.at,
{
    lemma_inlined(instrs, call);
    let f = moved_up((call.index + 1) as usize, (inlined_len(call) - 1) as usize);
    let instr = instrs[place.at];
    assert(code_target(instr) matches Some(target) ==> target + inlined_len(call) - 1
        <= usize::MAX);
    assert(with_inlined(instrs, call)[new.at] == map_code_target(instr, f));
    let fall = Standing { at: place.at + 1, calls: place.calls, state: next.state };
    lemma_same_becoming(instr, f, floats, place.state, next.state);
    let to = match instr {
        InstrView::Call { target } => Standing {
            at: target as int,
            calls: place.calls.push(place.at),
            state: place.state,
        },
        InstrView::Return => Standing {
            at: place.calls.last() + 1,
            calls: place.calls.drop_last(),
            state: place.state,
        },
        InstrView::Jump { target } => Standing {
            at: target as int,
            calls: place.calls,
            state: next.state,
        },
        InstrView::JumpIfZero { target, .. } | InstrView::JumpIfCmpFalse { target, .. } => {
            if may_pass(instrs, floats, place.at, place.state, place.at + 1, place.state) {
                fall
            } else {
                Standing { at: target as int, calls: place.calls, state: next.state }
            }
        },
        InstrView::ThreadSpawn { target, .. } => {
            if next.at == new.at + 1 && next.calls == new.calls && may_become(
                instr,
                floats,
                place.state,
                next.state,
            ) {
                fall
            } else {
                Standing { at: target as int, calls: Seq::empty(), state: next.state }
            }
        },
        _ => fall,
    };
    assert forall|k: int| 0 <= k < to.calls.len() implies 0 <= #[trigger] to.calls[k]
        < instrs.len() && to.calls[k] != call.index by {
        if k < place.calls.len() {
            assert(place.calls[k] != call.index);
        }
    }
    if instr is Return {
        let c = place.calls.last();
        assert(new.calls.len() == place.calls.len());
        assert(place.calls[place.calls.len() - 1] == c);
        assert(new.calls.last() == inlined_place(call, c));
    }
    assert(inlined_calls(call, to.calls) =~= next.calls);
    to
}

/// Where control stands with the call inlined, it stands for one without.
proof fn lemma_way_back(
    instrs: Seq<InstrView>,
    slots: nat,
    floats: FloatFn,
    call: Inlined,
    way: Seq<Standing>,
    n: int,
) -> (place: Standing)
    requires
        is_leaf_call(instrs, call),
        has_room(instrs, call),
        is_run(with_inlined(instrs, call), slots, floats, way),
        0 <= n < way.len(),
    ensures
        comes_to(instrs, slots, floats, place),
        0 <= place.at,
        stands_for(instrs, call, place, way[n]),
    decreases n,
{
    let inlined = with_inlined(instrs, call);
    lemma_inlined(instrs, call);
    if n == 0 {
        let place = Standing { at: 0, calls: Seq::empty(), state: way[0].state };
        lemma_comes_to_start(instrs, slots, floats, way[0].state);
        assert(inlined_calls(call, place.calls) =~= Seq::<int>::empty());
        place
    } else {
        let new = way[n - 1];
        let next = way[n];
        assert(may_go(inlined, floats, way[n - 1], way[n - 1 + 1]));
        let place = lemma_way_back(instrs, slots, floats, call, way, n - 1);
        if stands_inside(call, place) {
            let to = Standing { at: place.at + 1, calls: place.calls, state: next.state };
            lemma_step_inside(instrs, floats, call, place, to, new);
            lemma_copied_step(instrs, floats, call, place, new, next);
            lemma_comes_on(instrs, slots, floats, place, to);
            lemma_leave(instrs, slots, floats, call, to, next)
        } else if place.at == call.index {
            let inside = Standing {
                at: call.target,
                calls: place.calls.push(call.index),
                state: place.state,
            };
            assert(inside.calls.drop_last() =~= place.calls);
            lemma_comes_on(instrs, slots, floats, place, inside);
            if call.end > call.target {
                let to = Standing { at: inside.at + 1, calls: inside.calls, state: next.state };
                lemma_step_inside(instrs, floats, call, inside, to, new);
                lemma_copied_step(instrs, floats, call, inside, new, next);
                lemma_comes_on(instrs, slots, floats, inside, to);
                lemma_leave(instrs, slots, floats, call, to, next)
            } else {
                let back = Standing {
                    at: call.index + 1,
                    calls: place.calls,
                    state: place.state,
                };
                lemma_comes_on(instrs, slots, floats, inside, back);
                back
            }
        } else {
            let to = lemma_step_back_outside(instrs, floats, call, place, new, next);
            lemma_comes_on(instrs, slots, floats, place, to);
            to
        }
    }
}

/// A step of the copy of the routine goes to its next instruction.
proof fn lemma_copied_step(
    instrs: Seq<InstrView>,
    floats: FloatFn,
    call: Inlined,
    inside: Standing,
    new: Standing,
    next: Standing,
)
    requires
        is_leaf_call(instrs, call),
        has_room(instrs, call),
        stands_inside(call, inside),
        inside.at < call.end,
        stands_alike(instrs, call, inside, new),
        may_go(with_inlined(instrs, call), floats, new, next),
    ensures
        next == (Standing { at: new.at + 1, calls: new.calls, state: next.state }),
{
    lemma_inlined(instrs, call);
    let k = inside.at - call.target;
    assert(with_inlined(instrs, call)[call.index + k] == instrs[call.target + k]);
    assert(!blocks_inlining(instrs[inside.at]));
}

/// Control at the end of the routine goes back behind the call.
proof fn lemma_leave(
    instrs: Seq<InstrView>,
    slots: nat,
    floats: FloatFn,
    call: Inlined,
    to: Standing,
    next: Standing,
) -> (place: Standing)
    requires
        is_leaf_call(instrs, call),
        comes_to(instrs, slots, floats, to),
        stands_inside(call, to),
        call.target < to.at <= call.end,
        stands_alike(instrs, call, to, next),
    ensures
        comes_to(instrs, slots, floats, place),
        0 <= place.at,
        stands_for(instrs, call, place, next),
{
    if to.at < call.end {
        to
    } else {
        let outer = to.calls.drop_last();
        let back = Standing { at: call.index + 1, calls: outer, state: to.state };
        if outer.len() > 0 {
            assert(outer[outer.len() - 1] != call.index);
        }
        lemma_comes_on(instrs, slots, floats, to, back);
        back
    }
}

/// Control comes to the same doings: where it comes to an instruction of one
/// program that does something, it comes with the same slots to the same
/// instruction, but for what it names, of the other.
pub open spec fn has_doings_of(
    new: Seq<InstrView>,
    instrs: Seq<InstrView>,
    slots: nat,
    floats: FloatFn,
) -> bool {
    forall|at: int, state: SlotState|
        0 <= at < instrs.len() && does_something(instrs[at]) && #[trigger] reaches(
            instrs,
            slots,
            floats,
            at,
            state,
        ) ==> exists|to: int|
            0 <= to < new.len() && #[trigger] is_same_but_target(new[to], instrs[at]) && reaches(
                new,
                slots,
                floats,
                to,
                state,
            )
}

/// One inlined call keeps what control comes to do.
proof fn lemma_inlined_doings(
    instrs: Seq<InstrView>,
    slots: nat,
    floats: FloatFn,
    call: Inlined,
)
    requires
        is_leaf_call(instrs, call),
        has_room(instrs, call),
    ensures
        has_doings_of(with_inlined(instrs, call), instrs, slots, floats),
        has_doings_of(instrs, with_inlined(instrs, call), slots, floats),
{
    let inlined = with_inlined(instrs, call);
    lemma_inlined(instrs, call);
    let f = moved_up((call.index + 1) as usize, (inlined_len(call) - 1) as usize);
    assert forall|at: int, state: SlotState|
        0 <= at < instrs.len() && does_something(instrs[at]) && #[trigger] reaches(
            instrs,
            slots,
            floats,
            at,
            state,
        ) implies exists|to: int|
        0 <= to < inlined.len() && #[trigger] is_same_but_target(inlined[to], instrs[at])
            && reaches(inlined, slots, floats, to, state) by {
        let calls = choose|calls: Seq<int>| #[trigger]
            comes_to(instrs, slots, floats, Standing { at, calls, state });
        let way = choose|way: Seq<Standing>| #[trigger]
            is_run(instrs, slots, floats, way) && way.last() == (Standing { at, calls, state });
        let new = lemma_inlined_way(instrs, slots, floats, call, way, way.len() - 1);
        assert(way[way.len() - 1] == way.last());
        assert(new == Standing { at: new.at, calls: new.calls, state });
        assert(reaches(inlined, slots, floats, new.at, state));
        if stands_inside(call, way.last()) {
            assert(at < call.end);
            let k = at - call.target;
            assert(inlined[call.index + k] == instrs[call.target + k]);
        } else {
            assert(inlined[inlined_place(call, at)] == map_code_target(instrs[at], f));
        }
        assert(is_same_but_target(inlined[new.at], instrs[at]));
    }
    assert forall|at: int, state: SlotState|
        0 <= at < inlined.len() && does_something(inlined[at]) && #[trigger] reaches(
            inlined,
            slots,
            floats,
            at,
            state,
        ) implies exists|to: int|
        0 <= to < instrs.len() && #[trigger] is_same_but_target(instrs[to], inlined[at])
            && reaches(instrs, slots, floats, to, state) by {
        let calls = choose|calls: Seq<int>| #[trigger]
            comes_to(inlined, slots, floats, Standing { at, calls, state });
        let way = choose|way: Seq<Standing>| #[trigger]
            is_run(inlined, slots, floats, way) && way.last() == (Standing { at, calls, state });
        let place = lemma_way_back(instrs, slots, floats, call, way, way.len() - 1);
        assert(way[way.len() - 1] == way.last());
        assert(place == Standing { at: place.at, calls: place.calls, state });
        if stands_inside(call, place) {
            let k = place.at - call.target;
            assert(inlined[call.index + k] == instrs[call.target + k]);
            assert(reaches(instrs, slots, floats, place.at, state));
            assert(is_same_but_target(instrs[place.at], inlined[at]));
        } else if place.at == call.index {
            let inside = Standing {
                at: call.target,
                calls: place.calls.push(call.index),
                state,
            };
            lemma_comes_on(instrs, slots, floats, place, inside);
            assert(reaches(instrs, slots, floats, call.target, state));
            assert(inlined[call.index + 0] == instrs[call.target + 0]);
            assert(is_same_but_target(instrs[call.target], inlined[at]));
        } else {
            assert(inlined[inlined_place(call, place.at)] == map_code_target(
                instrs[place.at],
                f,
            ));
            assert(reaches(instrs, slots, floats, place.at, state));
            assert(is_same_but_target(instrs[place.at], inlined[at]));
        }
    }
}

/// A program has its own doings.
pub proof fn lemma_doings_reflexive(instrs: Seq<InstrView>, slots: nat, floats: FloatFn)
    ensures
        has_doings_of(instrs, instrs, slots, floats),
{
    assert forall|at: int, state: SlotState|
        0 <= at < instrs.len() && does_something(instrs[at]) && #[trigger] reaches(
            instrs,
            slots,
            floats,
            at,
            state,
        ) implies exists|to: int|
        0 <= to < instrs.len() && #[trigger] is_same_but_target(instrs[to], instrs[at])
            && reaches(instrs, slots, floats, to, state) by {
        assert(is_same_but_target(instrs[at], instrs[at]));
    }
}

/// What has the doings of what has the doings of a program has its doings.
pub proof fn lemma_doings_transitive(
    a: Seq<InstrView>,
    b: Seq<InstrView>,
    c: Seq<InstrView>,
    slots: nat,
    floats: FloatFn,
)
    requires
        has_doings_of(a, b, slots, floats),
        has_doings_of(b, c, slots, floats),
    ensures
        has_doings_of(a, c, slots, floats),
{
    assert forall|at: int, state: SlotState|
        0 <= at < c.len() && does_something(c[at]) && #[trigger] reaches(
            c,
            slots,
            floats,
            at,
            state,
        ) implies exists|to: int|
        0 <= to < a.len() && #[trigger] is_same_but_target(a[to], c[at]) && reaches(
            a,
            slots,
            floats,
            to,
            state,
        ) by {
        let middle = choose|to: int|
            0 <= to < b.len() && #[trigger] is_same_but_target(b[to], c[at]) && reaches(
                b,
                slots,
                floats,
                to,
                state,
            );
        assert(does_something(b[middle]));
        assert(reaches(b, slots, floats, middle, state));
        let to = choose|to: int|
            0 <= to < a.len() && #[trigger] is_same_but_target(a[to], b[middle]) && reaches(
                a,
                slots,
                floats,
                to,
                state,
            );
        assert(is_same_but_target(a[to], c[at]));
    }
}

/// A jump to the next instruction leaves the room for inlining.
proof fn lemma_jump_room(instrs: Seq<InstrView>, added: nat, index: int)
    requires
        0 <= index < instrs.len(),
        added <= MAX_INLINE_EXPANSION,
        inline_room(instrs, added),
    ensures
        inline_room(
            instrs.update(index, InstrView::Jump { target: (index + 1) as usize }),
            added,
        ),
{
    let now = instrs.update(index, InstrView::Jump { target: (index + 1) as usize });
    assert forall|i: int| 0 <= i < now.len() implies ((#[trigger] code_target(
        now[i],
    )) matches Some(target) ==> target + (MAX_INLINE_EXPANSION - added) <= usize::MAX) by {
        if i != index {
            assert(code_target(instrs[i]) == code_target(now[i]));
        }
    }
}

/// A round of inlining keeps what control comes to do.
proof fn lemma_round_doings(state: Inlining, index: int, slots: nat, floats: FloatFn)
    requires
        0 <= index,
        state.added <= MAX_INLINE_EXPANSION,
        inline_room(state.instrs, state.added),
    ensures
        inline_room(inline_round(state, index).instrs, inline_round(state, index).added),
        has_doings_of(inline_round(state, index).instrs, state.instrs, slots, floats),
        has_doings_of(state.instrs, inline_round(state, index).instrs, slots, floats),
    decreases MAX_INLINE_EXPANSION - state.added, state.instrs.len() - index,
{
    let instrs = state.instrs;
    let done = inline_round(state, index).instrs;
    lemma_doings_reflexive(instrs, slots, floats);
    if index < instrs.len() {
        match instrs[index] {
            InstrView::Call { target } => match leaf_end(instrs, target as int) {
                Some(end) => {
                    lemma_leaf_end(instrs, target as int);
                    let body = instrs.subrange(target as int, end as int);
                    let call = Inlined { index, target: target as int, end: end as int };
                    if body.len() == 0 || state.added + body.len() <= MAX_INLINE_EXPANSION {
                        let inlined = with_inlined(instrs, call);
                        let added = if body.len() == 0 {
                            state.added
                        } else {
                            (state.added + (body.len() - 1)) as nat
                        };
                        assert forall|i: int| 0 <= i < body.len() implies !blocks_inlining(
                            #[trigger] body[i],
                        ) by {
                            assert(!blocks_inlining(instrs[target + i]));
                        }
                        if body.len() > 0 {
                            lemma_splice_room(instrs, state.added, index, body);
                        } else {
                            lemma_jump_room(instrs, state.added, index);
                        }
                        assert(code_room(instrs, inlined_len(call) - 1)) by {
                            assert forall|i: int| 0 <= i < instrs.len() implies ((
                            #[trigger] code_target(instrs[i])) matches Some(to) ==> to
                                + inlined_len(call) - 1 <= usize::MAX) by {}
                        }
                        lemma_inlined(instrs, call);
                        lemma_inlined_doings(instrs, slots, floats, call);
                        let next = Inlining { instrs: inlined, added, changed: true, ..state };
                        lemma_round_doings(next, index + 1, slots, floats);
                        lemma_doings_transitive(done, inlined, instrs, slots, floats);
                        lemma_doings_transitive(instrs, inlined, done, slots, floats);
                    }
                },
                None => lemma_round_doings(state, index + 1, slots, floats),
            },
            _ => lemma_round_doings(state, index + 1, slots, floats),
        }
    }
}

/// Rounds of inlining keep what control comes to do.
proof fn lemma_rounds_doings(instrs: Seq<InstrView>, added: nat, slots: nat, floats: FloatFn)
    requires
        added <= MAX_INLINE_EXPANSION,
        inline_room(instrs, added),
    ensures
        has_doings_of(inline_rounds(instrs, added), instrs, slots, floats),
        has_doings_of(instrs, inline_rounds(instrs, added), slots, floats),
    decreases call_count(instrs),
{
    let start = Inlining { instrs, added, changed: false, stopped: false };
    let round = inline_round(start, 0);
    lemma_round_doings(start, 0, slots, floats);
    lemma_inline_round_calls(start, 0);
    if !round.stopped && round.changed {
        lemma_rounds_doings(round.instrs, round.added, slots, floats);
        let done = inline_rounds(instrs, added);
        lemma_doings_transitive(done, round.instrs, instrs, slots, floats);
        lemma_doings_transitive(instrs, round.instrs, done, slots, floats);
    }
}

/// Inlining keeps the ways of control: where it comes to an instruction that does
/// more than to pass it on, it comes with the same slots to the same instruction
/// once calls of leaf routines are inlined, and nowhere else.
pub proof fn law_inlining_keeps_arrivals(instrs: Seq<InstrView>, slots: nat, floats: FloatFn)
    requires
        inline_room(instrs, 0),
    ensures
        has_doings_of(inline_leaf_calls(instrs), instrs, slots, floats),
        has_doings_of(instrs, inline_leaf_calls(instrs), slots, floats),
{
    lemma_rounds_doings(instrs, 0, slots, floats);
}

} // verus!
