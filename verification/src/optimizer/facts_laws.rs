//! Soundness of the slot facts.

use crate::ir::{InstrView, RuntimeBinOp, RuntimeOperand};
use crate::optimizer::consts::{binop_value, normalized};
use crate::optimizer::facts::{
    arrived, binop_result_facts, facts_at, facts_bound_index, flow_fits, flow_result, flow_start,
    flow_step, flow_successors, lemma_flow_step, lemma_flow_successors, lemma_send_facts,
    lemma_transfer_len, merged, merged_all, operand_facts, send_facts, slot_facts, transfer,
    truncated_facts, Flow, FlowStates, SlotFacts,
};
use crate::optimizer::machine::{is_slot_arithmetic, step, value_of, SlotState};
use crate::optimizer::reaching::mask_above;
use crate::optimizer::slots::{instr_below, operand_below};
use vstd::prelude::*;
use vstd::std_specs::bits::u64_leading_zeros;

verus! {

/// The facts are true of a value.
pub open spec fn fact_holds(facts: SlotFacts, value: u64) -> bool {
    &&& facts.upper matches Some(upper) ==> value <= upper
    &&& facts.exact matches Some(exact) ==> value == exact
}

/// The facts are true of the slots.
pub open spec fn facts_hold(facts: Seq<SlotFacts>, state: SlotState) -> bool {
    &&& facts.len() == state.len()
    &&& forall|i: int| 0 <= i < facts.len() ==> fact_holds(#[trigger] facts[i], state[i])
}

/// What is known of an operand is true of its value.
proof fn lemma_operand_fact(facts: Seq<SlotFacts>, state: SlotState, operand: RuntimeOperand)
    requires
        facts_hold(facts, state),
        operand_below(operand, facts.len() as int),
    ensures
        fact_holds(operand_facts(facts, operand), value_of(operand, state)),
{
}

/// A bound that is a mask bounds the bitwise or with anything.
pub proof fn lemma_or_below_masks(x: u64, y: u64, a: u64, b: u64)
    requires
        x <= a,
        y <= b,
    ensures
        x | y <= mask_above(a) | mask_above(b),
        x | y <= mask_above(a) | y,
        x | y <= x | mask_above(b),
{
    lemma_mask_above(a);
    lemma_mask_above(b);
    let ma = mask_above(a);
    let mb = mask_above(b);
    assert(ma & (ma >> 1) == ma >> 1 && mb & (mb >> 1) == mb >> 1 && x <= ma && y <= mb ==> (x | y <= ma | mb
        && x | y <= ma | y && x | y <= x | mb)) by (bit_vector);
}

/// A mask is not below its number and has no gap in its bits.
proof fn lemma_mask_above(value: u64)
    ensures
        value <= mask_above(value),
        mask_above(value) & (mask_above(value) >> 1) == mask_above(value) >> 1,
{
    if value == 0 {
        assert(0u64 & (0u64 >> 1) == 0u64 >> 1) by (bit_vector);
    } else {
        vstd::std_specs::bits::axiom_u64_leading_zeros(value);
        let zeros = u64_leading_zeros(value) as u32;
        let mask = 0xffff_ffff_ffff_ffffu64 >> zeros;
        assert(zeros < 64 ==> (0xffff_ffff_ffff_ffffu64 >> zeros) & ((0xffff_ffff_ffff_ffffu64
            >> zeros) >> 1) == (0xffff_ffff_ffff_ffffu64 >> zeros) >> 1) by (bit_vector);
        if zeros > 0 {
            let shift = (64 - zeros) as u64;
            assert(value >> shift == 0);
            assert(value <= 0xffff_ffff_ffff_ffffu64 >> zeros) by (bit_vector)
                requires
                    0 < zeros < 64,
                    shift == 64 - zeros,
                    value >> shift == 0,
            ;
        } else {
            assert(0xffff_ffff_ffff_ffffu64 >> 0u32 == 0xffff_ffff_ffff_ffff) by (bit_vector);
        }
    }
}

/// What is taken for the bound of a shift is one: no bits of the bound are lost
/// to the left, unless those of every lesser number are, and where the amount is
/// 64 or more, so that the machine takes it modulo 64, nothing is left all the
/// same.
pub open spec fn shift_is_bounded(op: RuntimeBinOp, lhs: SlotFacts, rhs: SlotFacts) -> bool {
    let top = match lhs.upper {
        Some(upper) => upper,
        None => u64::MAX,
    };
    match (op, rhs.exact) {
        (RuntimeBinOp::Shl, Some(shift)) => if shift < 64 {
            lhs.upper is None || top <= u64::MAX >> shift || top << shift == (u64::MAX >> shift)
                << shift
        } else {
            top == 0
        },
        (RuntimeBinOp::ShrUnsigned, Some(shift)) => shift < 64 || top >> (shift & 63) == 0,
        _ => true,
    }
}

/// The same of a shift that an instruction makes, from the facts before it.
pub open spec fn shifts_are_bounded(instr: InstrView, facts: Seq<SlotFacts>) -> bool {
    match instr {
        InstrView::BinOp { op, lhs, rhs, .. } => {
            shift_is_bounded(op, operand_facts(facts, lhs), operand_facts(facts, rhs))
        },
        InstrView::BinOpInPlace { dst, op, rhs } => {
            shift_is_bounded(op, slot_facts(facts, dst), operand_facts(facts, rhs))
        },
        _ => true,
    }
}

/// What is concluded of an operation's result is true of it.
pub proof fn law_operation_facts_hold(
    op: RuntimeBinOp,
    lhs: SlotFacts,
    rhs: SlotFacts,
    l: u64,
    r: u64,
)
    requires
        shift_is_bounded(op, lhs, rhs),
        fact_holds(lhs, l),
        fact_holds(rhs, r),
        binop_value(op, l, r) is Some,
    ensures
        fact_holds(binop_result_facts(op, lhs, rhs), binop_value(op, l, r)->0),
{
    let value = binop_value(op, l, r)->0;
    match op {
        RuntimeBinOp::Mul => {
            if let (Some(a), Some(b)) = (lhs.upper, rhs.upper) {
                assert(l * r <= a * b) by (nonlinear_arith)
                    requires
                        l <= a,
                        r <= b,
                ;
                assert(l * r >= 0) by (nonlinear_arith);
                if a * b <= u64::MAX {
                    vstd::arithmetic::div_mod::lemma_small_mod(
                        (l * r) as nat,
                        0x1_0000_0000_0000_0000nat,
                    );
                }
            }
        },
        RuntimeBinOp::DivUnsigned => {
            assert(r > 0 ==> l / r <= l) by (nonlinear_arith);
        },
        RuntimeBinOp::BitAnd => {
            assert(l & r <= l && l & r <= r) by (bit_vector);
        },
        RuntimeBinOp::BitOr => {
            if let Some(a) = lhs.upper {
                lemma_or_below_masks(l, r, a, r);
                if let Some(b) = rhs.upper {
                    lemma_or_below_masks(l, r, a, b);
                }
            }
            if let Some(b) = rhs.upper {
                lemma_or_below_masks(l, r, l, b);
            }
        },
        RuntimeBinOp::ShrUnsigned => {
            if let Some(shift) = rhs.exact {
                let top = match lhs.upper {
                    Some(upper) => upper,
                    None => u64::MAX,
                };
                assert(shift < 64 ==> shift & 63 == shift) by (bit_vector);
                assert(l <= top ==> l >> (shift & 63) <= top >> (shift & 63)) by (bit_vector);
            }
        },
        RuntimeBinOp::Shl => {
            if let (Some(top), Some(shift)) = (lhs.upper, rhs.exact) {
                let most = 0xffff_ffff_ffff_ffffu64 >> shift;
                assert(shift < 64 ==> shift & 63 == shift) by (bit_vector);
                assert(l <= top && shift < 64 && (top <= most || top << shift == most << shift)
                    ==> l << shift <= top << shift) by (bit_vector)
                    requires
                        most == 0xffff_ffff_ffff_ffffu64 >> shift,
                ;
                assert(0u64 << (shift & 63) == 0) by (bit_vector);
            }
        },
        _ => {},
    }
}

/// What is concluded of a truncated value is true of it.
pub proof fn lemma_truncated_facts(prior: SlotFacts, value: u64, signed: bool, bits: u16)
    requires
        fact_holds(prior, value),
    ensures
        fact_holds(truncated_facts(prior, signed, bits), normalized(value, signed, bits)),
{
    if !signed && bits < 64 {
        assert(bits < 64 ==> 1u64 << bits >= 1) by (bit_vector);
        let max = ((1u64 << bits) - 1) as u64;
        assert(value & max <= value && value & max <= max) by (bit_vector);
        if bits == 0 {
            assert(1u64 << 0u16 == 1) by (bit_vector);
            assert(value & 0 == 0) by (bit_vector);
        }
    }
}

/// The facts after an instruction are true of what it leaves, if those before
/// it were true of what it found.
pub proof fn law_transfer_is_sound(
    instr: InstrView,
    facts: Seq<SlotFacts>,
    slot_count: nat,
    state: SlotState,
)
    requires
        is_slot_arithmetic(instr),
        instr_below(instr, facts.len() as int),
        facts.len() <= usize::MAX,
        facts_hold(facts, state),
        shifts_are_bounded(instr, facts),
        step(instr, state) is Some,
    ensures
        facts_hold(transfer(instr, facts, slot_count), step(instr, state)->0),
{
    match instr {
        InstrView::Mov { dst, src } => {
            lemma_operand_fact(facts, state, src);
        },
        InstrView::BinOp { dst, op, lhs, rhs } => {
            lemma_operand_fact(facts, state, lhs);
            lemma_operand_fact(facts, state, rhs);
            law_operation_facts_hold(
                op,
                operand_facts(facts, lhs),
                operand_facts(facts, rhs),
                value_of(lhs, state),
                value_of(rhs, state),
            );
        },
        InstrView::BinOpInPlace { dst, op, rhs } => {
            lemma_operand_fact(facts, state, RuntimeOperand::Slot(dst));
            lemma_operand_fact(facts, state, rhs);
            law_operation_facts_hold(
                op,
                slot_facts(facts, dst),
                operand_facts(facts, rhs),
                state[dst as int],
                value_of(rhs, state),
            );
        },
        InstrView::Cmp { dst, op, lhs, rhs } => {
            lemma_operand_fact(facts, state, lhs);
            lemma_operand_fact(facts, state, rhs);
        },
        InstrView::NormalizeInt { dst, signed, bits } => {
            lemma_operand_fact(facts, state, RuntimeOperand::Slot(dst));
            lemma_truncated_facts(slot_facts(facts, dst), state[dst as int], signed, bits);
        },
        InstrView::StoreIndex { base_slots, index, .. }
        | InstrView::StoreIndexUnchecked { base_slots, index, .. } => {
            let i = value_of(index, state);
            assert(base_slots.contains(base_slots[i as int]));
        },
        _ => {},
    }
}

/// An access whose index facts bound is in bounds wherever the facts are true.
pub proof fn law_bounded_index_is_in_bounds(
    facts: Seq<SlotFacts>,
    state: SlotState,
    index: RuntimeOperand,
    base_len: nat,
)
    requires
        facts_hold(facts, state),
        operand_below(index, facts.len() as int),
        facts_bound_index(facts, index, base_len),
    ensures
        value_of(index, state) < base_len,
{
    lemma_operand_fact(facts, state, index);
}

/// Where either of two facts is true, the merged fact is.
pub proof fn law_merged_facts_hold(a: SlotFacts, b: SlotFacts, value: u64)
    requires
        fact_holds(a, value) || fact_holds(b, value),
    ensures
        fact_holds(merged(a, b), value),
{
}

/// The facts of an instruction have reached a successor: they add nothing to
/// what is assumed there.
pub open spec fn absorbed(states: FlowStates, to: int, facts: Seq<SlotFacts>) -> bool {
    states[to] is Some && arrived(states[to], facts) == states[to]
}

/// Unless it is to be looked at again, an instruction's facts have reached its
/// successors.
pub open spec fn settled(instrs: Seq<InstrView>, slot_count: nat, flow: Flow, i: int) -> bool {
    flow.states[i] is Some && !flow.queue.contains(i) ==> forall|k: int|
        0 <= k < flow_successors(instrs, i).len() ==> absorbed(
            flow.states,
            #[trigger] flow_successors(instrs, i)[k],
            transfer(instrs[i], flow.states[i]->0, slot_count),
        )
}

/// Merging facts a second time changes nothing.
proof fn lemma_merged_twice(a: Seq<SlotFacts>, b: Seq<SlotFacts>)
    ensures
        merged_all(merged_all(a, b), b) == merged_all(a, b),
{
    assert(merged_all(merged_all(a, b), b) =~= merged_all(a, b));
}

/// What was merged in stays merged in when more is.
proof fn lemma_merged_stays(a: Seq<SlotFacts>, b: Seq<SlotFacts>, c: Seq<SlotFacts>)
    requires
        merged_all(a, b) == a,
    ensures
        merged_all(merged_all(a, c), b) == merged_all(a, c),
{
    let x = merged_all(a, c);
    assert forall|i: int| 0 <= i < a.len() implies merged_all(x, b)[i] == x[i] by {
        assert(merged_all(a, b)[i] == a[i]);
    }
    assert(merged_all(x, b) =~= x);
}

/// Sending facts keeps what other instructions have sent, and delivers its own.
pub proof fn lemma_send_absorbs(
    instrs: Seq<InstrView>,
    slot_count: nat,
    flow: Flow,
    successors: Seq<int>,
    facts: Seq<SlotFacts>,
    k: int,
)
    requires
        flow_fits(instrs, slot_count, flow),
        facts.len() == slot_count,
        0 <= k <= successors.len(),
        forall|j: int| 0 <= j < successors.len() ==> 0 <= #[trigger] successors[j] < instrs.len(),
    ensures
        ({
            let after = send_facts(flow, successors, facts, k);
            &&& forall|j: int|
                0 <= j < k ==> absorbed(after.states, #[trigger] successors[j], facts)
            &&& forall|to: int, other: Seq<SlotFacts>|
                0 <= to < instrs.len() && #[trigger] absorbed(flow.states, to, other) ==> absorbed(
                    after.states,
                    to,
                    other,
                )
            &&& forall|i: int|
                0 <= i < instrs.len() && #[trigger] after.states[i] != flow.states[i]
                    ==> after.queue.contains(i)
            &&& forall|i: int| flow.queue.contains(i) ==> #[trigger] after.queue.contains(i)
        }),
    decreases k,
{
    if k > 0 {
        lemma_send_absorbs(instrs, slot_count, flow, successors, facts, k - 1);
        lemma_send_facts(instrs, slot_count, flow, successors, facts, k - 1);
        let before = send_facts(flow, successors, facts, k - 1);
        let after = send_facts(flow, successors, facts, k);
        let target = successors[k - 1];
        let state = arrived(before.states[target], facts);
        assert(after.states[target] == state);
        if let Some(existing) = before.states[target] {
            lemma_merged_twice(existing, facts);
        } else {
            assert(merged_all(facts, facts) =~= facts);
        }
        assert(absorbed(after.states, target, facts));
        assert forall|to: int, other: Seq<SlotFacts>|
            0 <= to < instrs.len()
                && #[trigger] absorbed(before.states, to, other) implies absorbed(
            after.states,
            to,
            other,
        ) by {
            if to == target {
                lemma_merged_stays(before.states[to]->0, other, facts);
            }
        }
        assert forall|j: int| 0 <= j < k implies absorbed(
            after.states,
            #[trigger] successors[j],
            facts,
        ) by {
            if j < k - 1 {
                assert(absorbed(before.states, successors[j], facts));
            }
        }
        assert forall|i: int| before.queue.contains(i) implies #[trigger] after.queue.contains(
            i,
        ) by {
            let p = choose|p: int| 0 <= p < before.queue.len() && before.queue[p] == i;
            assert(after.queue[p] == i);
        }
        assert forall|i: int|
            0 <= i < instrs.len()
                && #[trigger] after.states[i] != flow.states[i] implies after.queue.contains(
        i) by {
            if i == target && state != before.states[target] {
                assert(after.queue[after.queue.len() - 1] == target);
            } else {
                assert(after.states[i] == before.states[i]);
            }
        }
    }
}

/// Looking at an instruction settles it and unsettles nothing else.
proof fn lemma_step_settles(instrs: Seq<InstrView>, slot_count: nat, flow: Flow)
    requires
        flow_fits(instrs, slot_count, flow),
        flow.queue.len() > 0,
        forall|i: int| 0 <= i < instrs.len() ==> #[trigger] settled(instrs, slot_count, flow, i),
    ensures
        forall|i: int|
            0 <= i < instrs.len() ==> #[trigger] settled(
                instrs,
                slot_count,
                flow_step(instrs, slot_count, flow),
                i,
            ),
{
    let index = flow.queue[0];
    let rest = Flow { queue: flow.queue.subrange(1, flow.queue.len() as int), ..flow };
    let after = flow_step(instrs, slot_count, flow);
    assert(flow_fits(instrs, slot_count, rest));
    lemma_flow_successors(instrs, index);
    assert forall|i: int| flow.queue.contains(i) && i != index implies rest.queue.contains(i) by {
        let p = choose|p: int| 0 <= p < flow.queue.len() && flow.queue[p] == i;
        assert(rest.queue[p - 1] == i);
    }
    if let Some(facts) = flow.states[index] {
        let out = transfer(instrs[index], facts, slot_count);
        let successors = flow_successors(instrs, index);
        lemma_transfer_len(instrs[index], facts, slot_count);
        lemma_send_absorbs(instrs, slot_count, rest, successors, out, successors.len() as int);
        assert forall|i: int| 0 <= i < instrs.len() implies #[trigger] settled(
            instrs,
            slot_count,
            after,
            i,
        ) by {
            if after.states[i] is Some && !after.queue.contains(i) {
                assert(after.states[i] == flow.states[i]);
                lemma_flow_successors(instrs, i);
                let sent = transfer(instrs[i], after.states[i]->0, slot_count);
                assert forall|k: int| 0 <= k < flow_successors(instrs, i).len() implies absorbed(
                    after.states,
                    #[trigger] flow_successors(instrs, i)[k],
                    sent,
                ) by {
                    if i != index {
                        assert(!flow.queue.contains(i)) by {
                            if flow.queue.contains(i) {
                                assert(rest.queue.contains(i));
                                assert(after.queue.contains(i));
                            }
                        }
                        assert(settled(instrs, slot_count, flow, i));
                        assert(absorbed(flow.states, flow_successors(instrs, i)[k], sent));
                        assert(absorbed(rest.states, flow_successors(instrs, i)[k], sent));
                    }
                }
            }
        }
    } else {
        assert forall|i: int| 0 <= i < instrs.len() implies #[trigger] settled(
            instrs,
            slot_count,
            after,
            i,
        ) by {
            assert(settled(instrs, slot_count, flow, i));
            if i != index && flow.queue.contains(i) {
                assert(rest.queue.contains(i));
            }
        }
    }
}

/// When the queue has run empty, every instruction is settled.
proof fn lemma_result_settled(instrs: Seq<InstrView>, slot_count: nat, flow: Flow, i: int)
    requires
        flow_fits(instrs, slot_count, flow),
        forall|j: int| 0 <= j < instrs.len() ==> #[trigger] settled(instrs, slot_count, flow, j),
        0 <= i < instrs.len(),
    ensures
        settled(
            instrs,
            slot_count,
            Flow { states: flow_result(instrs, slot_count, flow), queue: seq![] },
            i,
        ),
    decreases
            crate::optimizer::facts::states_rank(flow.states, slot_count, instrs.len() as int),
            flow.queue.len(),
{
    if flow.queue.len() == 0 {
        assert(settled(instrs, slot_count, flow, i));
        assert(!flow.queue.contains(i));
    } else {
        lemma_flow_step(instrs, slot_count, flow);
        lemma_step_settles(instrs, slot_count, flow);
        lemma_result_settled(instrs, slot_count, flow_step(instrs, slot_count, flow), i);
    }
}

/// The facts of the analysis are stable: wherever control may pass from one
/// instruction to another, the facts after the first add nothing to what is
/// assumed at the second.
pub proof fn law_facts_are_stable(instrs: Seq<InstrView>, slot_count: nat, i: int, k: int)
    requires
        0 <= i < instrs.len(),
        facts_at(instrs, slot_count)[i] is Some,
        0 <= k < flow_successors(instrs, i).len(),
    ensures
        absorbed(
            facts_at(instrs, slot_count),
            flow_successors(instrs, i)[k],
            transfer(instrs[i], facts_at(instrs, slot_count)[i]->0, slot_count),
        ),
{
    let start = flow_start(instrs, slot_count);
    assert(flow_fits(instrs, slot_count, start));
    assert forall|j: int| 0 <= j < instrs.len() implies #[trigger] settled(
        instrs,
        slot_count,
        start,
        j,
    ) by {
        if j == 0 {
            assert(start.queue[0] == 0);
        }
    }
    lemma_result_settled(instrs, slot_count, start, i);
    let end = Flow { states: facts_at(instrs, slot_count), queue: seq![] };
    assert(settled(instrs, slot_count, end, i));
    assert(!end.queue.contains(i));
    assert(absorbed(
        end.states,
        flow_successors(instrs, i)[k],
        transfer(instrs[i], end.states[i]->0, slot_count),
    ));
}

} // verus!
