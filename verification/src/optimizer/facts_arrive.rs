//! The facts of the analysis hold in every state in which control can arrive.

use crate::ir::InstrView;
use crate::optimizer::arrivals::{
    arrives, lemma_holds_on_arrival, lemma_pass_keeps_slots, may_become, may_pass,
};
use crate::optimizer::control_flow::{is_reachable, lemma_reachable_step, may_follow};
use crate::optimizer::facts::{
    facts_at, facts_bound_index, flow_fits, flow_result, flow_start, flow_step, flow_successors,
    lemma_flow_step, lemma_flow_successors, lemma_transfer_len, merged, merged_all, no_facts,
    slot_facts, states_rank, transfer, Flow, SlotFacts,
};
use crate::optimizer::facts_laws::{
    absorbed, fact_holds, facts_hold, law_bounded_index_is_in_bounds, law_facts_are_stable,
    law_merged_facts_hold, law_transfer_is_sound, lemma_send_absorbs, shifts_are_bounded,
};
use crate::optimizer::machine::{is_slot_arithmetic, value_of, SlotState};
use crate::optimizer::peephole::FloatFn;
use crate::optimizer::reach_laws::lemma_first_reachable;
use crate::optimizer::slots::{instr_below, operand_below, slots_below};
use crate::optimizer::uses::writes;
use crate::ir::RuntimeOperand;
use vstd::prelude::*;

verus! {

/// Nothing is known of any slot.
pub open spec fn unknown_facts(slot_count: nat) -> Seq<SlotFacts> {
    Seq::new(slot_count, |i: int| no_facts())
}

/// What facts have reached stays reached when another instruction is looked at.
proof fn lemma_step_absorbs(
    instrs: Seq<InstrView>,
    slot_count: nat,
    flow: Flow,
    to: int,
    facts: Seq<SlotFacts>,
)
    requires
        flow_fits(instrs, slot_count, flow),
        flow.queue.len() > 0,
        0 <= to < instrs.len(),
        absorbed(flow.states, to, facts),
    ensures
        absorbed(flow_step(instrs, slot_count, flow).states, to, facts),
{
    let index = flow.queue[0];
    let rest = Flow { queue: flow.queue.subrange(1, flow.queue.len() as int), ..flow };
    assert(flow_fits(instrs, slot_count, rest));
    lemma_flow_successors(instrs, index);
    if let Some(found) = flow.states[index] {
        let out = transfer(instrs[index], found, slot_count);
        let successors = flow_successors(instrs, index);
        lemma_transfer_len(instrs[index], found, slot_count);
        lemma_send_absorbs(instrs, slot_count, rest, successors, out, successors.len() as int);
        assert(absorbed(rest.states, to, facts));
    }
}

/// When the queue has run empty, there are facts of each slot or none, and what
/// facts had reached they have reached.
proof fn lemma_result_absorbs(
    instrs: Seq<InstrView>,
    slot_count: nat,
    flow: Flow,
    to: int,
    facts: Seq<SlotFacts>,
)
    requires
        flow_fits(instrs, slot_count, flow),
        0 <= to < instrs.len(),
        absorbed(flow.states, to, facts),
    ensures
        flow_fits(
            instrs,
            slot_count,
            Flow { states: flow_result(instrs, slot_count, flow), queue: seq![] },
        ),
        absorbed(flow_result(instrs, slot_count, flow), to, facts),
    decreases states_rank(flow.states, slot_count, instrs.len() as int), flow.queue.len(),
{
    if flow.queue.len() > 0 {
        lemma_flow_step(instrs, slot_count, flow);
        lemma_step_absorbs(instrs, slot_count, flow, to, facts);
        lemma_result_absorbs(instrs, slot_count, flow_step(instrs, slot_count, flow), to, facts);
    }
}

/// Nothing is known at the start of the program, and where something is known it
/// is known of each slot.
proof fn lemma_facts_at_start(instrs: Seq<InstrView>, slot_count: nat)
    requires
        instrs.len() > 0,
    ensures
        facts_at(instrs, slot_count).len() == instrs.len(),
        facts_at(instrs, slot_count)[0] == Some(unknown_facts(slot_count)),
        forall|i: int|
            0 <= i < instrs.len() ==> ((#[trigger] facts_at(instrs, slot_count)[i]) matches Some(
                facts,
            ) ==> facts.len() == slot_count),
{
    let start = flow_start(instrs, slot_count);
    let unknown = unknown_facts(slot_count);
    assert(flow_fits(instrs, slot_count, start));
    assert(merged_all(unknown, unknown) =~= unknown);
    assert(start.states[0]->0 =~= unknown);
    assert(absorbed(start.states, 0, unknown));
    lemma_result_absorbs(instrs, slot_count, start, 0, unknown);
    let states = facts_at(instrs, slot_count);
    assert(absorbed(states, 0, unknown));
    let first = states[0]->0;
    assert(states[0] is Some);
    assert forall|i: int| 0 <= i < slot_count implies first[i] == no_facts() by {
        assert(merged_all(first, unknown)[i] == first[i]);
    }
    assert(first =~= unknown);
}

/// Facts that have reached an instruction are true there.
proof fn lemma_absorbed_hold(existing: Seq<SlotFacts>, facts: Seq<SlotFacts>, state: SlotState)
    requires
        existing.len() == facts.len(),
        merged_all(existing, facts) == existing,
        facts_hold(facts, state),
    ensures
        facts_hold(existing, state),
{
    assert forall|i: int| 0 <= i < existing.len() implies fact_holds(
        #[trigger] existing[i],
        state[i],
    ) by {
        assert(fact_holds(facts[i], state[i]));
        law_merged_facts_hold(existing[i], facts[i], state[i]);
        assert(merged_all(existing, facts)[i] == existing[i]);
    }
}

/// The facts behind an instruction other than slot arithmetic are true of what
/// it may make of the slots.
proof fn lemma_transfer_other(
    instr: InstrView,
    facts: Seq<SlotFacts>,
    floats: FloatFn,
    state: SlotState,
    next: SlotState,
)
    requires
        !is_slot_arithmetic(instr),
        instr_below(instr, facts.len() as int),
        facts.len() <= usize::MAX,
        facts_hold(facts, state),
        may_become(instr, floats, state, next),
    ensures
        facts_hold(transfer(instr, facts, facts.len()), next),
{
    let after = transfer(instr, facts, facts.len());
    lemma_transfer_len(instr, facts, facts.len());
    if let InstrView::CompareSwap { left, right, .. } = instr {
        let either = merged(slot_facts(facts, left), slot_facts(facts, right));
        assert(fact_holds(facts[left as int], state[left as int]));
        assert(fact_holds(facts[right as int], state[right as int]));
        law_merged_facts_hold(facts[left as int], facts[right as int], next[left as int]);
        law_merged_facts_hold(facts[left as int], facts[right as int], next[right as int]);
    }
    assert forall|i: int| 0 <= i < after.len() implies fact_holds(#[trigger] after[i], next[i]) by {
        let slot = i as usize;
        assert(fact_holds(facts[i], state[i]));
        if !writes(instr, slot) {
            assert(next[slot as int] == state[slot as int]);
        }
    }
}

/// Control passes by the start of a thread.
pub open spec fn starts_thread(instr: InstrView, to: int) -> bool {
    instr matches InstrView::ThreadSpawn { target, .. } && target == to
}

/// The analysis does not follow threads. Where one starts, and where control
/// leaves code that only threads reach, nothing is known.
pub open spec fn threads_know_nothing(instrs: Seq<InstrView>, slot_count: nat) -> bool {
    let states = facts_at(instrs, slot_count);
    forall|at: int, to: int|
        #![trigger may_follow(instrs, at, to)]
        may_follow(instrs, at, to) && is_reachable(instrs, at) && (starts_thread(instrs[at], to)
            || states[at] is None) ==> (states[to] matches Some(facts) ==> facts == unknown_facts(
            slot_count,
        ))
}

/// What is taken for the bound of a shift is one, wherever the analysis comes.
pub open spec fn all_shifts_bounded(instrs: Seq<InstrView>, slot_count: nat) -> bool {
    forall|i: int|
        0 <= i < instrs.len() ==> ((#[trigger] facts_at(instrs, slot_count)[i]) matches Some(facts)
            ==> shifts_are_bounded(instrs[i], facts))
}

/// The analysis covers the program: it comes to every shift with a bound that is
/// one, and threads do not escape it.
pub open spec fn is_covered(instrs: Seq<InstrView>, slot_count: nat) -> bool {
    threads_know_nothing(instrs, slot_count) && all_shifts_bounded(instrs, slot_count)
}

/// The facts at an instruction, where there are some, are true.
pub open spec fn facts_right(
    instrs: Seq<InstrView>,
    slot_count: nat,
    at: int,
    state: SlotState,
) -> bool {
    at < instrs.len() ==> (facts_at(instrs, slot_count)[at] matches Some(facts) ==> facts_hold(
        facts,
        state,
    ))
}

/// Facts that are true behind an instruction are true at its successors.
proof fn lemma_facts_reach(
    instrs: Seq<InstrView>,
    slot_count: nat,
    at: int,
    k: int,
    next: SlotState,
)
    requires
        0 <= at < instrs.len(),
        facts_at(instrs, slot_count)[at] is Some,
        0 <= k < flow_successors(instrs, at).len(),
        facts_hold(
            transfer(instrs[at], facts_at(instrs, slot_count)[at]->0, slot_count),
            next,
        ),
    ensures
        facts_right(instrs, slot_count, flow_successors(instrs, at)[k], next),
{
    lemma_facts_at_start(instrs, slot_count);
    law_facts_are_stable(instrs, slot_count, at, k);
    lemma_flow_successors(instrs, at);
    let facts = facts_at(instrs, slot_count)[at]->0;
    let out = transfer(instrs[at], facts, slot_count);
    lemma_transfer_len(instrs[at], facts, slot_count);
    let to = flow_successors(instrs, at)[k];
    lemma_absorbed_hold(facts_at(instrs, slot_count)[to]->0, out, next);
}

/// Nothing that is known of no slot is untrue.
proof fn lemma_unknown_holds(slot_count: nat, state: SlotState)
    requires
        state.len() == slot_count,
    ensures
        facts_hold(unknown_facts(slot_count), state),
{
}

/// The facts behind an instruction are true of what it passes on.
proof fn lemma_facts_behind(
    instrs: Seq<InstrView>,
    slot_count: nat,
    floats: FloatFn,
    at: int,
    state: SlotState,
    to: int,
    next: SlotState,
)
    requires
        slots_below(instrs, slot_count as int),
        slot_count <= usize::MAX,
        0 <= at < instrs.len(),
        all_shifts_bounded(instrs, slot_count),
        facts_at(instrs, slot_count)[at] is Some,
        facts_right(instrs, slot_count, at, state),
        may_pass(instrs, floats, at, state, to, next),
        !starts_thread(instrs[at], to),
    ensures
        facts_hold(
            transfer(instrs[at], facts_at(instrs, slot_count)[at]->0, slot_count),
            next,
        ),
{
    let instr = instrs[at];
    let facts = facts_at(instrs, slot_count)[at]->0;
    lemma_facts_at_start(instrs, slot_count);
    assert(instr_below(instr, slot_count as int));
    lemma_unknown_holds(slot_count, next);
    if is_slot_arithmetic(instr) {
        law_transfer_is_sound(instr, facts, slot_count, state);
    } else if instr is Call {
        assert(transfer(instr, facts, slot_count) =~= unknown_facts(slot_count));
    } else if instr is Jump || instr is JumpIfZero || instr is JumpIfCmpFalse {
        assert(may_become(instr, floats, state, state));
        lemma_transfer_other(instr, facts, floats, state, state);
    } else {
        lemma_transfer_other(instr, facts, floats, state, next);
    }
}

/// A step keeps the facts right.
proof fn lemma_facts_step(
    instrs: Seq<InstrView>,
    slot_count: nat,
    floats: FloatFn,
    at: int,
    state: SlotState,
    to: int,
    next: SlotState,
)
    requires
        slots_below(instrs, slot_count as int),
        slot_count <= usize::MAX,
        0 <= at < instrs.len(),
        is_covered(instrs, slot_count),
        is_reachable(instrs, at),
        state.len() == slot_count,
        facts_right(instrs, slot_count, at, state),
        may_pass(instrs, floats, at, state, to, next),
    ensures
        0 <= to,
        to < instrs.len() ==> may_follow(instrs, at, to),
        facts_right(instrs, slot_count, to, next),
{
    lemma_pass_keeps_slots(instrs, floats, at, state, to, next);
    let successors = flow_successors(instrs, at);
    if to < instrs.len() && (starts_thread(instrs[at], to) || facts_at(instrs, slot_count)[at]
        is None) {
        assert(may_follow(instrs, at, to));
        lemma_unknown_holds(slot_count, next);
    } else if to < instrs.len() {
        lemma_facts_behind(instrs, slot_count, floats, at, state, to, next);
        if successors.len() > 0 && successors[0] == to {
            lemma_facts_reach(instrs, slot_count, at, 0, next);
        } else {
            assert(successors[successors.len() - 1] == to);
            lemma_facts_reach(instrs, slot_count, at, successors.len() - 1, next);
        }
    }
}

/// The instruction is within reach, there are as many slots as the facts speak
/// of, and these are true.
pub open spec fn facts_kept(
    instrs: Seq<InstrView>,
    slot_count: nat,
    at: int,
    state: SlotState,
) -> bool {
    &&& 0 <= at
    &&& at < instrs.len() ==> is_reachable(instrs, at)
    &&& state.len() == slot_count
    &&& facts_right(instrs, slot_count, at, state)
}

/// The facts are right at the start, and every step and every return keeps them
/// so.
pub proof fn lemma_facts_kept(instrs: Seq<InstrView>, slot_count: nat, floats: FloatFn)
    requires
        slots_below(instrs, slot_count as int),
        slot_count <= usize::MAX,
        instrs.len() > 0,
        is_covered(instrs, slot_count),
    ensures
        forall|state: SlotState|
            state.len() == slot_count ==> #[trigger] facts_kept(instrs, slot_count, 0, state),
        forall|at: int, state: SlotState, to: int, next: SlotState|
            0 <= at < instrs.len() && #[trigger] facts_kept(instrs, slot_count, at, state)
                && may_pass(instrs, floats, at, state, to, next) ==> #[trigger] facts_kept(
                instrs,
                slot_count,
                to,
                next,
            ),
        forall|call: int, before: SlotState, at: int, state: SlotState|
            0 <= call < instrs.len() && instrs[call] is Call && #[trigger] facts_kept(
                instrs,
                slot_count,
                call,
                before,
            ) && 0 <= at < instrs.len() && instrs[at] is Return && #[trigger] facts_kept(
                instrs,
                slot_count,
                at,
                state,
            ) ==> facts_kept(instrs, slot_count, call + 1, state),
{
    lemma_facts_at_start(instrs, slot_count);
    assert forall|state: SlotState| state.len() == slot_count implies #[trigger] facts_kept(
        instrs,
        slot_count,
        0,
        state,
    ) by {
        lemma_unknown_holds(slot_count, state);
        lemma_first_reachable(instrs);
    }
    assert forall|at: int, state: SlotState, to: int, next: SlotState|
        0 <= at < instrs.len() && #[trigger] facts_kept(instrs, slot_count, at, state) && may_pass(
            instrs,
            floats,
            at,
            state,
            to,
            next,
        ) implies #[trigger] facts_kept(instrs, slot_count, to, next) by {
        lemma_facts_step(instrs, slot_count, floats, at, state, to, next);
        lemma_pass_keeps_slots(instrs, floats, at, state, to, next);
        if to < instrs.len() {
            lemma_reachable_step(instrs, at, to);
        }
    }
    assert forall|call: int, before: SlotState, at: int, state: SlotState|
        0 <= call < instrs.len() && instrs[call] is Call && #[trigger] facts_kept(
            instrs,
            slot_count,
            call,
            before,
        ) && 0 <= at < instrs.len() && instrs[at] is Return && #[trigger] facts_kept(
            instrs,
            slot_count,
            at,
            state,
        ) implies facts_kept(instrs, slot_count, call + 1, state) by {
        lemma_unknown_holds(slot_count, state);
        if call + 1 < instrs.len() {
            assert(may_follow(instrs, call, call + 1));
            lemma_reachable_step(instrs, call, call + 1);
        }
        if call + 1 < instrs.len() && facts_at(instrs, slot_count)[call] is Some {
            let facts = facts_at(instrs, slot_count)[call]->0;
            assert(transfer(instrs[call], facts, slot_count) =~= unknown_facts(slot_count));
            let successors = flow_successors(instrs, call);
            assert(successors[successors.len() - 1] == call + 1);
            lemma_facts_reach(instrs, slot_count, call, successors.len() - 1, state);
        }
    }
}

/// The facts that the analysis has of an instruction are true in every state in
/// which control can arrive there, by falling through, by a jump, a call or a
/// return, or at the start of a thread, in a program that it covers.
pub proof fn law_facts_hold_on_arrival(
    instrs: Seq<InstrView>,
    slot_count: nat,
    floats: FloatFn,
    at: int,
    state: SlotState,
)
    requires
        slots_below(instrs, slot_count as int),
        slot_count <= usize::MAX,
        is_covered(instrs, slot_count),
        0 <= at < instrs.len(),
        arrives(instrs, slot_count, floats, at, state),
    ensures
        state.len() == slot_count,
        facts_at(instrs, slot_count)[at] matches Some(facts) ==> facts_hold(facts, state),
{
    let holds = |at: int, state: SlotState| facts_kept(instrs, slot_count, at, state);
    lemma_facts_kept(instrs, slot_count, floats);
    lemma_holds_on_arrival(instrs, slot_count, floats, holds, at, state);
}

/// An access that loses its check by the facts of the analysis is in bounds in
/// every state in which control can arrive there.
pub proof fn law_unchecked_by_facts_is_in_bounds(
    instrs: Seq<InstrView>,
    slot_count: nat,
    floats: FloatFn,
    at: int,
    state: SlotState,
    index: RuntimeOperand,
    base_len: nat,
)
    requires
        slots_below(instrs, slot_count as int),
        slot_count <= usize::MAX,
        is_covered(instrs, slot_count),
        0 <= at < instrs.len(),
        arrives(instrs, slot_count, floats, at, state),
        operand_below(index, slot_count as int),
        facts_at(instrs, slot_count)[at] matches Some(facts) && facts_bound_index(
            facts,
            index,
            base_len,
        ),
    ensures
        value_of(index, state) < base_len,
{
    law_facts_hold_on_arrival(instrs, slot_count, floats, at, state);
    law_bounded_index_is_in_bounds(
        facts_at(instrs, slot_count)[at]->0,
        state,
        index,
        base_len,
    );
}

} // verus!
