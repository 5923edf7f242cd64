//! The bounds that guard accesses hold in every state in which control can
//! arrive.

use crate::ir::{InstrView, RuntimeBinOp, RuntimeOperand};
use crate::optimizer::arrivals::{arrives, lemma_holds_on_arrival, may_become, may_pass};
use crate::optimizer::checks::unchecked;
use crate::optimizer::consts::{binop_value, normalized};
use crate::optimizer::facts::{facts_at, FlowStates, SlotFacts};
use crate::optimizer::facts_arrive::{
    facts_kept, is_covered, law_facts_hold_on_arrival, lemma_facts_kept, starts_thread,
};
use crate::optimizer::facts_laws::{
    fact_holds, facts_hold, law_operation_facts_hold, lemma_truncated_facts,
};
use crate::optimizer::guards::{
    access_by_slot, bounds_after, cleared, cleared_list, elide_checks, learned, lemma_elide_checks,
    no_bounds, operand_bound, remainder_bound, shifted_bound, slot_bound, sum_bound, tighter,
    Bounds,
};
use crate::optimizer::machine::{is_slot_arithmetic, step, value_of, SlotState};
use crate::optimizer::peephole::FloatFn;
use crate::optimizer::reaching::truncated_upper;
use crate::optimizer::slots::{instr_below, operand_below, slots_below};
use crate::optimizer::targets::{branch_target, branches_to, is_branched_to};
use crate::optimizer::uses::writes;
use vstd::prelude::*;

verus! {

/// The bounds are true of the slots.
pub open spec fn bounds_hold(bounds: Bounds, state: SlotState) -> bool {
    &&& forall|slot: usize|
        #[trigger] bounds.local.contains_key(slot) && slot < state.len() ==> state[slot as int]
            <= bounds.local[slot]
    &&& forall|slot: usize|
        #[trigger] bounds.guarded.contains_key(slot) && slot < state.len() ==> state[slot as int]
            <= bounds.guarded[slot]
}

/// The facts of an instruction, where it has some, are true of the slots.
spec fn facts_true(states: FlowStates, at: int, state: SlotState) -> bool {
    0 <= at < states.len() && states[at] is Some ==> facts_hold(states[at]->0, state)
}

/// What is taken for the bound of a left shift is one: no bits of the bound are
/// lost, unless those of every lesser number are.
pub open spec fn left_shift_is_bounded(
    op: RuntimeBinOp,
    lhs: Option<u64>,
    rhs: RuntimeOperand,
) -> bool {
    op is Shl ==> (match (lhs, rhs) {
        (Some(top), RuntimeOperand::Imm(shift)) => shift < 64 ==> top <= u64::MAX >> shift || top
            << shift == (u64::MAX >> shift) << shift,
        _ => true,
    })
}

/// No slot of the list has a bound.
pub open spec fn are_unbounded(bounds: Bounds, slots: Seq<usize>) -> bool {
    forall|i: int|
        0 <= i < slots.len() ==> !bounds.local.contains_key(#[trigger] slots[i])
            && !bounds.guarded.contains_key(slots[i])
}

/// The bounds in force at an instruction stay true behind it, as far as they are
/// kept or made: what is taken for the bound of a left shift is one, and no slot
/// of an array that is stored to has a bound.
pub open spec fn keeps_bounds(
    instr: InstrView,
    at: int,
    bounds: Bounds,
    states: FlowStates,
) -> bool {
    match instr {
        InstrView::BinOp { dst, op, lhs, rhs } => left_shift_is_bounded(
            op,
            operand_bound(lhs, cleared(bounds, dst), states, at),
            rhs,
        ),
        InstrView::BinOpInPlace { dst, op, rhs } => left_shift_is_bounded(
            op,
            slot_bound(dst, bounds, states, at),
            rhs,
        ),
        InstrView::StoreIndex { base_slots, .. }
        | InstrView::StoreIndexUnchecked { base_slots, .. } => are_unbounded(bounds, base_slots),
        _ => true,
    }
}

/// The bounds cover the program: no instruction makes one untrue, and none is in
/// force where a thread starts.
pub open spec fn is_bounded(instrs: Seq<InstrView>, states: FlowStates) -> bool {
    &&& forall|i: int|
        0 <= i < instrs.len() ==> keeps_bounds(
            #[trigger] instrs[i],
            i,
            bounds_at(instrs, states, i),
            states,
        )
    &&& forall|i: int|
        0 <= i < instrs.len() ==> ((#[trigger] instrs[i]) matches InstrView::ThreadSpawn {
            target,
            ..
        } ==> target <= instrs.len() ==> bounds_at(instrs, states, target as int) == no_bounds())
}

/// The tightest bound of a slot is true of it.
proof fn lemma_slot_bound(
    slot: usize,
    bounds: Bounds,
    states: FlowStates,
    at: int,
    state: SlotState,
)
    requires
        bounds_hold(bounds, state),
        facts_true(states, at, state),
        slot < state.len(),
    ensures
        slot_bound(slot, bounds, states, at) matches Some(upper) ==> state[slot as int] <= upper,
{
    if 0 <= at < states.len() {
        if let Some(facts) = states[at] {
            if slot < facts.len() {
                assert(fact_holds(facts[slot as int], state[slot as int]));
            }
        }
    }
}

/// The tightest bound of an operand is true of it.
proof fn lemma_operand_bound(
    operand: RuntimeOperand,
    bounds: Bounds,
    states: FlowStates,
    at: int,
    state: SlotState,
)
    requires
        bounds_hold(bounds, state),
        facts_true(states, at, state),
        operand_below(operand, state.len() as int),
    ensures
        operand_bound(operand, bounds, states, at) matches Some(upper) ==> value_of(operand, state)
            <= upper,
{
    if let RuntimeOperand::Slot(slot) = operand {
        lemma_slot_bound(slot, bounds, states, at, state);
    }
}

/// The bounds of other slots are true after a slot is set.
proof fn lemma_cleared_hold(bounds: Bounds, slot: usize, state: SlotState, next: SlotState)
    requires
        bounds_hold(bounds, state),
        next.len() == state.len(),
        forall|other: usize|
            other < state.len() && other != slot ==> #[trigger] next[other as int]
                == state[other as int],
    ensures
        bounds_hold(cleared(bounds, slot), next),
        bounds_hold(cleared(bounds, slot), state),
{
    let rest = cleared(bounds, slot);
    assert forall|other: usize|
        #[trigger] rest.local.contains_key(other) && other < state.len() implies next[other as int]
        <= rest.local[other] by {
        assert(bounds.local.contains_key(other));
        assert(next[other as int] == state[other as int]);
    }
    assert forall|other: usize|
        #[trigger] rest.guarded.contains_key(other)
            && other < state.len() implies next[other as int] <= rest.guarded[other] by {
        assert(bounds.guarded.contains_key(other));
        assert(next[other as int] == state[other as int]);
    }
    assert forall|other: usize|
        #[trigger] rest.local.contains_key(other)
            && other < state.len() implies state[other as int] <= rest.local[other] by {
        assert(bounds.local.contains_key(other));
    }
    assert forall|other: usize|
        #[trigger] rest.guarded.contains_key(other)
            && other < state.len() implies state[other as int] <= rest.guarded[other] by {
        assert(bounds.guarded.contains_key(other));
    }
}

/// The bounds of a list of slots are gone, and no other has changed.
proof fn lemma_cleared_list(bounds: Bounds, slots: Seq<usize>, n: int)
    requires
        0 <= n <= slots.len(),
    ensures
        ({
            let rest = cleared_list(bounds, slots, n);
            &&& forall|slot: usize| #[trigger]
                rest.local.contains_key(slot) ==> !slots.take(n).contains(slot)
                    && bounds.local.contains_key(slot) && rest.local[slot] == bounds.local[slot]
            &&& forall|slot: usize| #[trigger]
                rest.guarded.contains_key(slot) ==> !slots.take(n).contains(slot)
                    && bounds.guarded.contains_key(slot) && rest.guarded[slot]
                    == bounds.guarded[slot]
        }),
    decreases n,
{
    if n > 0 {
        lemma_cleared_list(bounds, slots, n - 1);
        let before = cleared_list(bounds, slots, n - 1);
        let rest = cleared_list(bounds, slots, n);
        assert forall|slot: usize| slots.take(n).contains(slot) implies slots.take(
            n - 1,
        ).contains(slot) || slot == slots[n - 1] by {
            let k = choose|k: int| 0 <= k < n && slots.take(n)[k] == slot;
            if k < n - 1 {
                assert(slots.take(n - 1)[k] == slot);
            }
        }
        assert forall|slot: usize| #[trigger] rest.local.contains_key(slot) implies !slots.take(
            n,
        ).contains(slot) && bounds.local.contains_key(slot) && rest.local[slot]
            == bounds.local[slot] by {
            assert(before.local.contains_key(slot));
        }
        assert forall|slot: usize| #[trigger] rest.guarded.contains_key(slot) implies !slots.take(
            n,
        ).contains(slot) && bounds.guarded.contains_key(slot) && rest.guarded[slot]
            == bounds.guarded[slot] by {
            assert(before.guarded.contains_key(slot));
        }
    }
}

/// Bounds that stand behind an instruction only of slots that it does not write
/// are true of what it may make of the slots.
proof fn lemma_unwritten_hold(
    instr: InstrView,
    bounds: Bounds,
    rest: Bounds,
    state: SlotState,
    next: SlotState,
)
    requires
        bounds_hold(bounds, state),
        next.len() == state.len(),
        forall|slot: usize|
            slot < state.len() && !writes(instr, slot) ==> #[trigger] next[slot as int]
                == state[slot as int],
        forall|slot: usize| #[trigger]
            rest.local.contains_key(slot) ==> !writes(instr, slot) && bounds.local.contains_key(
                slot,
            ) && rest.local[slot] == bounds.local[slot],
        forall|slot: usize| #[trigger]
            rest.guarded.contains_key(slot) ==> !writes(instr, slot)
                && bounds.guarded.contains_key(slot) && rest.guarded[slot]
                == bounds.guarded[slot],
    ensures
        bounds_hold(rest, next),
{
    assert forall|slot: usize|
        #[trigger] rest.local.contains_key(slot) && slot < next.len() implies next[slot as int]
        <= rest.local[slot] by {
        assert(bounds.local.contains_key(slot));
        assert(next[slot as int] == state[slot as int]);
    }
    assert forall|slot: usize|
        #[trigger] rest.guarded.contains_key(slot) && slot < next.len() implies next[slot as int]
        <= rest.guarded[slot] by {
        assert(bounds.guarded.contains_key(slot));
        assert(next[slot as int] == state[slot as int]);
    }
}

/// A slot that is set keeps the bounds of the others, and a bound that is true of
/// its value may be learned.
proof fn lemma_learned_hold(
    bounds: Bounds,
    slot: usize,
    upper: Option<u64>,
    state: SlotState,
    value: u64,
)
    requires
        bounds_hold(bounds, state),
        slot < state.len(),
        upper matches Some(upper) ==> value <= upper,
    ensures
        bounds_hold(
            learned(cleared(bounds, slot), slot, upper),
            state.update(slot as int, value),
        ),
{
    lemma_cleared_hold(bounds, slot, state, state.update(slot as int, value));
}

/// A sum, a masked word, a shifted word and a remainder are below their bounds.
proof fn lemma_operation_bound(
    op: RuntimeBinOp,
    l: Option<u64>,
    r: Option<u64>,
    rhs: RuntimeOperand,
    a: u64,
    b: u64,
)
    requires
        l matches Some(upper) ==> a <= upper,
        r matches Some(upper) ==> b <= upper,
        rhs matches RuntimeOperand::Imm(value) ==> b == value,
        left_shift_is_bounded(op, l, rhs),
        binop_value(op, a, b) is Some,
    ensures
        op is Add && l is Some && r is Some && l->0 + r->0 <= u64::MAX ==> binop_value(
            op,
            a,
            b,
        )->0 <= l->0 + r->0,
        op is BitAnd && l is Some ==> binop_value(op, a, b)->0 <= l->0,
        op is BitAnd && r is Some ==> binop_value(op, a, b)->0 <= r->0,
        op is Shl ==> (shifted_bound(l, rhs) matches Some(upper) ==> binop_value(op, a, b)->0
            <= upper),
        op is ModUnsigned && b != 0 ==> binop_value(op, a, b)->0 < b,
{
    let lhs = SlotFacts { upper: l, exact: None };
    let exact = SlotFacts {
        upper: None,
        exact: match rhs {
            RuntimeOperand::Imm(value) => Some(value),
            RuntimeOperand::Slot(_) => None,
        },
    };
    if op is Shl && shifted_bound(l, rhs) is Some {
        law_operation_facts_hold(op, lhs, exact, a, b);
    }
    if op is BitAnd {
        let left = SlotFacts { upper: l, exact: None };
        let right = SlotFacts { upper: r, exact: None };
        law_operation_facts_hold(op, left, SlotFacts { upper: r, exact: Some(b) }, a, b);
        law_operation_facts_hold(op, SlotFacts { upper: l, exact: Some(a) }, right, a, b);
    }
}

/// The bounds behind slot arithmetic are true of what it makes of the slots.
#[verifier::rlimit(40)]
proof fn lemma_bounds_behind_arithmetic(
    at: int,
    instr: InstrView,
    bounds: Bounds,
    states: FlowStates,
    state: SlotState,
)
    requires
        is_slot_arithmetic(instr),
        instr_below(instr, state.len() as int),
        bounds_hold(bounds, state),
        facts_true(states, at, state),
        keeps_bounds(instr, at, bounds, states),
        step(instr, state) is Some,
    ensures
        bounds_hold(bounds_after(at, instr, bounds, states), step(instr, state)->0),
{
    match instr {
        InstrView::Mov { dst, src } => {
            lemma_cleared_hold(bounds, dst, state, state);
            let rest = cleared(bounds, dst);
            lemma_operand_bound(src, rest, states, at, state);
            lemma_learned_hold(
                bounds,
                dst,
                operand_bound(src, rest, states, at),
                state,
                value_of(src, state),
            );
        },
        InstrView::BinOp { dst, op, lhs, rhs } => {
            lemma_cleared_hold(bounds, dst, state, state);
            let rest = cleared(bounds, dst);
            let l = operand_bound(lhs, rest, states, at);
            let r = operand_bound(rhs, rest, states, at);
            lemma_operand_bound(lhs, rest, states, at, state);
            lemma_operand_bound(rhs, rest, states, at, state);
            let (a, b) = (value_of(lhs, state), value_of(rhs, state));
            lemma_operation_bound(op, l, r, rhs, a, b);
            let upper = match op {
                RuntimeBinOp::Add => sum_bound(l, r),
                RuntimeBinOp::BitAnd => tighter(l, r),
                RuntimeBinOp::Shl => shifted_bound(l, rhs),
                RuntimeBinOp::ModUnsigned => remainder_bound(rhs),
                _ => None,
            };
            lemma_learned_hold(bounds, dst, upper, state, binop_value(op, a, b)->0);
        },
        InstrView::BinOpInPlace { dst, op, rhs } => {
            let l = slot_bound(dst, bounds, states, at);
            let r = operand_bound(rhs, bounds, states, at);
            lemma_slot_bound(dst, bounds, states, at, state);
            lemma_operand_bound(rhs, bounds, states, at, state);
            let (a, b) = (state[dst as int], value_of(rhs, state));
            lemma_operation_bound(op, l, r, rhs, a, b);
            let upper = match op {
                RuntimeBinOp::Add => sum_bound(l, r),
                RuntimeBinOp::BitAnd => if l is Some && r is Some {
                    tighter(l, r)
                } else {
                    None
                },
                RuntimeBinOp::Shl => shifted_bound(l, rhs),
                RuntimeBinOp::ModUnsigned => remainder_bound(rhs),
                _ => None,
            };
            lemma_learned_hold(bounds, dst, upper, state, binop_value(op, a, b)->0);
        },
        InstrView::Cmp { dst, op, lhs, rhs } => {
            let value = step(instr, state)->0[dst as int];
            lemma_learned_hold(bounds, dst, Some(1), state, value);
        },
        InstrView::NormalizeInt { dst, signed, bits } => {
            let prior = SlotFacts { upper: slot_bound(dst, bounds, states, at), exact: None };
            lemma_slot_bound(dst, bounds, states, at, state);
            lemma_truncated_facts(prior, state[dst as int], signed, bits);
            let upper = match prior.upper {
                Some(upper) => if signed {
                    None
                } else {
                    Some(truncated_upper(upper, bits))
                },
                None => None,
            };
            let value = normalized(state[dst as int], signed, bits);
            lemma_learned_hold(bounds, dst, upper, state, value);
        },
        InstrView::LoadIndex { dst, .. } | InstrView::LoadIndexUnchecked { dst, .. } => {
            lemma_cleared_hold(bounds, dst, state, step(instr, state)->0);
        },
        InstrView::StoreIndex { base_slots, index, .. }
        | InstrView::StoreIndexUnchecked { base_slots, index, .. } => {
            assert(base_slots.contains(base_slots[value_of(index, state) as int]));
            lemma_unwritten_hold(instr, bounds, bounds, state, step(instr, state)->0);
        },
        _ => {},
    }
}

/// The bounds behind an instruction that neither branches nor is slot
/// arithmetic are true of what it may make of the slots.
#[verifier::rlimit(60)]
proof fn lemma_bounds_behind_other(
    at: int,
    instr: InstrView,
    bounds: Bounds,
    states: FlowStates,
    floats: FloatFn,
    state: SlotState,
    next: SlotState,
)
    requires
        !is_slot_arithmetic(instr),
        !(instr is JumpIfCmpFalse),
        bounds_hold(bounds, state),
        may_become(instr, floats, state, next),
    ensures
        bounds_hold(bounds_after(at, instr, bounds, states), next),
{
    let rest = bounds_after(at, instr, bounds, states);
    let list = match instr {
        InstrView::RadixSortFixedInt { slots, .. } => slots,
        InstrView::BloomSplitBlockInsert { filter_slots, .. } => filter_slots,
        InstrView::BloomSplitBlockCheck { filter_slots, .. } => filter_slots,
        InstrView::BloomClassic4Check { filter_slots, .. } => filter_slots,
        InstrView::HashCtrlGroupProbe { ctrl_slots, .. } => ctrl_slots,
        _ => Seq::empty(),
    };
    let first = match instr {
        InstrView::BloomSplitBlockCheck { dst, .. } => cleared(bounds, dst),
        InstrView::BloomClassic4Check { dst, lanes_checked, .. } => {
            cleared(cleared(bounds, dst), lanes_checked)
        },
        InstrView::HashCtrlGroupProbe { dst_mask, .. } => cleared(bounds, dst_mask),
        _ => bounds,
    };
    lemma_cleared_list(first, list, list.len() as int);
    assert(list.take(list.len() as int) =~= list);
    assert forall|slot: usize| #[trigger] rest.local.contains_key(slot) implies !writes(instr, slot)
        && bounds.local.contains_key(slot) && rest.local[slot] == bounds.local[slot] by {}
    assert forall|slot: usize| #[trigger] rest.guarded.contains_key(slot) implies !writes(
        instr,
        slot,
    ) && bounds.guarded.contains_key(slot) && rest.guarded[slot] == bounds.guarded[slot] by {}
    lemma_unwritten_hold(instr, bounds, rest, state, next);
}

/// The bounds in force at an instruction.
pub open spec fn bounds_at(instrs: Seq<InstrView>, states: FlowStates, at: int) -> Bounds {
    if at > 0 && is_branched_to(instrs, at) {
        no_bounds()
    } else {
        elide_checks(instrs, states, at).bounds
    }
}

/// A step keeps the bounds in force true.
proof fn lemma_bounds_step(
    instrs: Seq<InstrView>,
    states: FlowStates,
    floats: FloatFn,
    at: int,
    state: SlotState,
    to: int,
    next: SlotState,
)
    requires
        slots_below(instrs, state.len() as int),
        0 <= at < instrs.len(),
        is_bounded(instrs, states),
        bounds_hold(bounds_at(instrs, states, at), state),
        facts_true(states, at, state),
        may_pass(instrs, floats, at, state, to, next),
    ensures
        bounds_hold(bounds_at(instrs, states, to), next) || to > instrs.len(),
{
    let bounds = bounds_at(instrs, states, at);
    lemma_elide_checks(instrs, states, at);
    let before = elide_checks(instrs, states, at).instrs;
    assert(instr_below(instrs[at], state.len() as int));
    assert(before[at] == instrs[at] || before[at] == unchecked(instrs[at]));
    assert(keeps_bounds(instrs[at], at, bounds, states));
    if starts_thread(instrs[at], to) {
    } else if branch_target(instrs[at]) is Some && to == branch_target(instrs[at])->0 {
        assert(branches_to(instrs[at], to));
        if to == 0 {
            assert(elide_checks(instrs, states, 0).bounds == no_bounds());
        }
    } else if to <= instrs.len() && !(to > 0 && is_branched_to(instrs, to)) {
        let behind = elide_checks(instrs, states, to).bounds;
        let kept = elide_checks(instrs, states, to).instrs[at];
        lemma_elide_checks(instrs, states, to);
        assert(kept == instrs[at] || kept == unchecked(instrs[at]));
        assert(behind == bounds_after(at, kept, bounds, states));
        if is_slot_arithmetic(instrs[at]) {
            lemma_bounds_behind_arithmetic(at, kept, bounds, states, state);
        } else if instrs[at] is JumpIfCmpFalse {
        } else {
            assert(instrs[at] is JumpIfZero ==> may_become(instrs[at], floats, state, state));
            lemma_bounds_behind_other(at, kept, bounds, states, floats, state, next);
        }
    }
}

/// The bounds in force at an instruction are true in every state in which
/// control can arrive there, by falling through, by a jump, a call or a return,
/// or at the start of a thread, in a program that they and the facts cover.
pub proof fn law_bounds_hold_on_arrival(
    instrs: Seq<InstrView>,
    slot_count: nat,
    floats: FloatFn,
    at: int,
    state: SlotState,
)
    requires
        slots_below(instrs, slot_count as int),
        slot_count <= usize::MAX,
        is_covered(instrs, slot_count),
        is_bounded(instrs, facts_at(instrs, slot_count)),
        0 <= at < instrs.len(),
        arrives(instrs, slot_count, floats, at, state),
    ensures
        bounds_hold(bounds_at(instrs, facts_at(instrs, slot_count), at), state),
{
    let states = facts_at(instrs, slot_count);
    let holds = |at: int, state: SlotState|
        {
            &&& facts_kept(instrs, slot_count, at, state)
            &&& at <= instrs.len() ==> bounds_hold(bounds_at(instrs, states, at), state)
        };
    lemma_facts_kept(instrs, slot_count, floats);
    assert forall|state: SlotState| state.len() == slot_count implies #[trigger] holds(
        0,
        state,
    ) by {
        assert(facts_kept(instrs, slot_count, 0, state));
        assert(elide_checks(instrs, states, 0).bounds == no_bounds());
    }
    assert forall|at: int, state: SlotState, to: int, next: SlotState|
        0 <= at < instrs.len() && #[trigger] holds(at, state) && may_pass(
            instrs,
            floats,
            at,
            state,
            to,
            next,
        ) implies #[trigger] holds(to, next) by {
        assert(facts_kept(instrs, slot_count, at, state));
        assert(facts_kept(instrs, slot_count, to, next));
        lemma_bounds_step(instrs, states, floats, at, state, to, next);
    }
    assert forall|call: int, before: SlotState, at: int, state: SlotState|
        0 <= call < instrs.len() && instrs[call] is Call && #[trigger] holds(call, before) && 0
            <= at < instrs.len() && instrs[at] is Return
            && #[trigger] holds(at, state) implies holds(call + 1, state) by {
        assert(facts_kept(instrs, slot_count, call, before));
        assert(facts_kept(instrs, slot_count, at, state));
        assert(facts_kept(instrs, slot_count, call + 1, state));
        lemma_elide_checks(instrs, states, call);
        let kept = elide_checks(instrs, states, call).instrs[call];
        assert(kept == instrs[call] || kept == unchecked(instrs[call]));
        assert(elide_checks(instrs, states, call + 1).bounds == no_bounds());
    }
    lemma_holds_on_arrival(instrs, slot_count, floats, holds, at, state);
}

/// An access that loses its check by the bounds in force is in bounds in every
/// state in which control can arrive there.
pub proof fn law_unchecked_by_bounds_is_in_bounds(
    instrs: Seq<InstrView>,
    slot_count: nat,
    floats: FloatFn,
    at: int,
    state: SlotState,
)
    requires
        slots_below(instrs, slot_count as int),
        slot_count <= usize::MAX,
        is_covered(instrs, slot_count),
        is_bounded(instrs, facts_at(instrs, slot_count)),
        0 <= at < instrs.len(),
        arrives(instrs, slot_count, floats, at, state),
        elide_checks(instrs, facts_at(instrs, slot_count), at + 1).instrs[at] != instrs[at],
    ensures
        access_by_slot(instrs[at]) matches Some((base_len, slot)) && state[slot as int] < base_len,
{
    let states = facts_at(instrs, slot_count);
    law_bounds_hold_on_arrival(instrs, slot_count, floats, at, state);
    law_facts_hold_on_arrival(instrs, slot_count, floats, at, state);
    lemma_untouched_ahead(instrs, states, at, at);
    assert(instr_below(instrs[at], slot_count as int));
    if let Some((base_len, slot)) = access_by_slot(instrs[at]) {
        lemma_slot_bound(slot, bounds_at(instrs, states, at), states, at, state);
    }
}

/// Instructions ahead are as they were.
proof fn lemma_untouched_ahead(instrs: Seq<InstrView>, states: FlowStates, n: int, at: int)
    requires
        0 <= n <= at < instrs.len(),
    ensures
        elide_checks(instrs, states, n).instrs[at] == instrs[at],
        elide_checks(instrs, states, n).instrs.len() == instrs.len(),
    decreases n,
{
    if n > 0 {
        lemma_untouched_ahead(instrs, states, n - 1, at);
    }
}

} // verus!
