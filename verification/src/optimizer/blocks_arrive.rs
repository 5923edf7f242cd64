//! What the code of a basic block shows of constants and bounds holds in every
//! state in which control can arrive.

use crate::ir::{InstrView, RuntimeBinOp, RuntimeOperand};
use crate::optimizer::arrivals::{arrives, comes_back_to, is_path, may_become, may_pass, passes_at};
use crate::optimizer::checks::{
    blocks_of, checked_access, drop_bounded_checks, drop_repeated_checks, index_is_bounded,
    lemma_drop_bounded_checks, lemma_same_but_checks_in_range, same_but_checks, surviving_guards,
    unchecked, GuardView,
};
use crate::optimizer::consts::{binop_value, normalized};
use crate::optimizer::facts::SlotFacts;
use crate::optimizer::facts_laws::{lemma_or_below_masks, lemma_truncated_facts};
use crate::optimizer::machine::{is_slot_arithmetic, step, value_of, SlotState};
use crate::optimizer::peephole::FloatFn;
use crate::optimizer::reaching::{
    binop_upper, in_place_upper, last_write, lemma_last_write, operand_const, operand_upper,
    slot_const, slot_upper, MAX_CONST_DEPTH,
};
use crate::optimizer::slots::{instr_below, operand_below, slots_below};
use crate::optimizer::specialize::{settle_branches, settled_branch};
use crate::optimizer::targets::{
    block_start, branch_target, branches_to, is_boundary, is_branched_to, lemma_block_start,
};
use crate::optimizer::uses::writes;
use vstd::prelude::*;

verus! {

/// Running an instruction that does not branch on slots may leave other slots.
pub open spec fn may_leave(
    instr: InstrView,
    floats: FloatFn,
    state: SlotState,
    next: SlotState,
) -> bool {
    if is_slot_arithmetic(instr) {
        step(instr, state) == Some(next)
    } else {
        may_become(instr, floats, state, next)
    }
}

/// The slots before each of some instructions in a row, from one on, and behind
/// the last.
pub open spec fn is_trace(
    instrs: Seq<InstrView>,
    slots: nat,
    floats: FloatFn,
    from: int,
    trace: Seq<SlotState>,
) -> bool {
    &&& 0 <= from
    &&& 0 < trace.len()
    &&& from + trace.len() - 1 <= instrs.len()
    &&& forall|k: int| 0 <= k < trace.len() ==> (#[trigger] trace[k]).len() == slots
    &&& forall|k: int|
        0 <= k < trace.len() - 1 ==> may_leave(
            instrs[from + k],
            floats,
            #[trigger] trace[k],
            trace[k + 1],
        )
}

/// Every thread starts at the start of a basic block.
pub open spec fn threads_start_blocks(instrs: Seq<InstrView>) -> bool {
    forall|i: int|
        0 <= i < instrs.len() ==> ((#[trigger] instrs[i]) matches InstrView::ThreadSpawn {
            target,
            ..
        } ==> target < instrs.len() ==> block_start(instrs, target as int) == target)
}

/// What is read off an instruction is what it does: a number that is brought to
/// a width is taken to stay as it is, and a right shift by 64 or more to leave
/// nothing, though the machine takes the amount modulo 64.
pub open spec fn is_read_right(instrs: Seq<InstrView>, from: int, at: int, depth: nat) -> bool {
    match instrs[at] {
        InstrView::NormalizeInt { dst, signed, bits } => {
            slot_const(instrs, from, at, dst, depth) matches Some(value) ==> normalized(
                value,
                signed,
                bits,
            ) == value
        },
        InstrView::BinOp { op: RuntimeBinOp::ShrUnsigned, rhs, .. }
        | InstrView::BinOpInPlace { op: RuntimeBinOp::ShrUnsigned, rhs, .. } => {
            operand_const(instrs, from, at, rhs, depth) matches Some(shift) ==> shift < 64
        },
        _ => true,
    }
}

/// The same of the instructions from one on to another.
pub open spec fn are_read_right(instrs: Seq<InstrView>, from: int, to: int) -> bool {
    forall|at: int, depth: nat|
        from <= at < to ==> #[trigger] is_read_right(instrs, from, at, depth)
}

/// Inside a block no instruction is branched to, and none before it branches.
proof fn lemma_inside_block(instrs: Seq<InstrView>, at: int, inside: int)
    requires
        0 <= at,
        block_start(instrs, at) < inside <= at,
    ensures
        inside > 0,
        !is_branched_to(instrs, inside),
        !is_boundary(instrs[inside - 1]),
    decreases at,
{
    if inside < at {
        lemma_inside_block(instrs, at - 1, inside);
    }
    lemma_block_start(instrs, at);
}

/// Control that arrives inside a block comes from the instruction before.
proof fn lemma_comes_from_before(
    instrs: Seq<InstrView>,
    slots: nat,
    floats: FloatFn,
    path: Seq<(int, SlotState)>,
    i: int,
)
    requires
        slots_below(instrs, slots as int),
        threads_start_blocks(instrs),
        is_path(instrs, slots, floats, path),
        0 <= i < path.len(),
        0 < path[i].0 < instrs.len(),
        !is_branched_to(instrs, path[i].0),
        !is_boundary(instrs[path[i].0 - 1]),
    ensures
        i > 0,
        path[i - 1].0 == path[i].0 - 1,
        may_leave(instrs[path[i].0 - 1], floats, path[i - 1].1, path[i].1),
{
    assert(passes_at(instrs, floats, path, i));
    let (at, state) = path[i - 1];
    if instrs[at] is Return {
        let j = choose|j: int| 0 <= j < i && #[trigger] comes_back_to(instrs, path, j, path[i].0);
        assert(is_boundary(instrs[path[i].0 - 1]));
    } else if let Some(target) = branch_target(instrs[at]) {
        if target == path[i].0 {
            assert(branches_to(instrs[at], path[i].0));
        }
    } else if let InstrView::ThreadSpawn { target, .. } = instrs[at] {
        if target == path[i].0 {
            assert(block_start(instrs, target as int) == target);
            lemma_block_start(instrs, target - 1);
        }
    }
}

/// Slot arithmetic keeps the number of slots and those that it does not write.
pub proof fn lemma_leaves_unwritten(
    instr: InstrView,
    floats: FloatFn,
    state: SlotState,
    next: SlotState,
)
    requires
        instr_below(instr, state.len() as int),
        may_leave(instr, floats, state, next),
    ensures
        next.len() == state.len(),
        forall|slot: usize|
            slot < state.len() && !writes(instr, slot) ==> #[trigger] next[slot as int]
                == state[slot as int],
{
    match instr {
        InstrView::StoreIndex { base_slots, index, .. }
        | InstrView::StoreIndexUnchecked { base_slots, index, .. } => {
            let i = value_of(index, state);
            assert(base_slots.contains(base_slots[i as int]));
        },
        _ => {},
    }
}

/// The end of a way lies behind the part of its block before it.
proof fn lemma_way_through_block(
    instrs: Seq<InstrView>,
    slots: nat,
    floats: FloatFn,
    path: Seq<(int, SlotState)>,
    n: int,
) -> (trace: Seq<SlotState>)
    requires
        slots_below(instrs, slots as int),
        threads_start_blocks(instrs),
        is_path(instrs, slots, floats, path),
        0 <= n < path.len(),
        0 <= path[n].0 < instrs.len(),
        path[n].1.len() == slots,
    ensures
        is_trace(instrs, slots, floats, block_start(instrs, path[n].0), trace),
        block_start(instrs, path[n].0) + trace.len() - 1 == path[n].0,
        trace.last() == path[n].1,
    decreases n,
{
    let (at, state) = path[n];
    let from = block_start(instrs, at);
    lemma_block_start(instrs, at);
    if from == at {
        seq![state]
    } else {
        lemma_inside_block(instrs, at, at);
        lemma_comes_from_before(instrs, slots, floats, path, n);
        let before = path[n - 1].1;
        lemma_slots_along(instrs, slots, floats, path, n - 1);
        let shorter = lemma_way_through_block(instrs, slots, floats, path, n - 1);
        let trace = shorter.push(state);
        assert(block_start(instrs, at - 1) == from);
        assert forall|k: int| 0 <= k < trace.len() - 1 implies may_leave(
            instrs[from + k],
            floats,
            #[trigger] trace[k],
            trace[k + 1],
        ) by {
            if k < shorter.len() - 1 {
                assert(trace[k] == shorter[k] && trace[k + 1] == shorter[k + 1]);
            } else {
                assert(trace[k] == before);
            }
        }
        trace
    }
}

/// The number of slots stays along a way.
pub proof fn lemma_slots_along(
    instrs: Seq<InstrView>,
    slots: nat,
    floats: FloatFn,
    path: Seq<(int, SlotState)>,
    n: int,
)
    requires
        slots_below(instrs, slots as int),
        is_path(instrs, slots, floats, path),
        0 <= n < path.len(),
    ensures
        path[n].1.len() == slots,
    decreases n,
{
    if n > 0 {
        lemma_slots_along(instrs, slots, floats, path, n - 1);
        assert(passes_at(instrs, floats, path, n));
        let (at, state) = path[n - 1];
        assert(instr_below(instrs[at], slots as int));
        if is_slot_arithmetic(instrs[at]) {
            lemma_leaves_unwritten(instrs[at], floats, state, path[n].1);
        }
    }
}

/// A slot that is not written holds what it held.
pub proof fn lemma_unwritten(
    instrs: Seq<InstrView>,
    slots: nat,
    floats: FloatFn,
    from: int,
    trace: Seq<SlotState>,
    first: int,
    last: int,
    slot: usize,
)
    requires
        slots_below(instrs, slots as int),
        is_trace(instrs, slots, floats, from, trace),
        from <= first <= last < from + trace.len(),
        slot < slots,
        forall|k: int| first <= k < last ==> !writes(#[trigger] instrs[k], slot),
    ensures
        trace[last - from][slot as int] == trace[first - from][slot as int],
    decreases last - first,
{
    if first < last {
        lemma_unwritten(instrs, slots, floats, from, trace, first, last - 1, slot);
        let k = last - 1 - from;
        assert(trace[k].len() == slots);
        assert(may_leave(instrs[from + k], floats, trace[k], trace[k + 1]));
        assert(instr_below(instrs[last - 1], slots as int));
        lemma_leaves_unwritten(instrs[last - 1], floats, trace[k], trace[k + 1]);
        assert(!writes(instrs[last - 1], slot));
        assert(trace[k + 1][slot as int] == trace[k][slot as int]);
    }
}

/// The last write of a slot before an instruction leaves what the slot holds
/// there.
pub proof fn lemma_left_by_last_write(
    instrs: Seq<InstrView>,
    slots: nat,
    floats: FloatFn,
    from: int,
    trace: Seq<SlotState>,
    before: int,
    slot: usize,
)
    requires
        slots_below(instrs, slots as int),
        is_trace(instrs, slots, floats, from, trace),
        from <= before < from + trace.len(),
        slot < slots,
        last_write(instrs, from, before, slot) is Some,
    ensures
        ({
            let at = last_write(instrs, from, before, slot)->0;
            let k = at - from;
            &&& from <= at < before
            &&& writes(instrs[at], slot)
            &&& instr_below(instrs[at], slots as int)
            &&& trace[k].len() == slots
            &&& may_leave(instrs[at], floats, trace[k], trace[k + 1])
            &&& trace[before - from][slot as int] == trace[k + 1][slot as int]
        }),
{
    lemma_last_write(instrs, from, before, slot);
    let at = last_write(instrs, from, before, slot)->0;
    let k = at - from;
    lemma_unwritten(instrs, slots, floats, from, trace, at + 1, before, slot);
    assert(trace[k].len() == slots);
    assert(may_leave(instrs[from + k], floats, trace[k], trace[k + 1]));
    assert(instr_below(instrs[at], slots as int));
}

/// A constant that the code shows is what the slot holds.
proof fn lemma_trace_slot_const(
    instrs: Seq<InstrView>,
    slots: nat,
    floats: FloatFn,
    from: int,
    trace: Seq<SlotState>,
    before: int,
    slot: usize,
    depth: nat,
)
    requires
        slots_below(instrs, slots as int),
        is_trace(instrs, slots, floats, from, trace),
        are_read_right(instrs, from, before),
        from <= before < from + trace.len(),
        slot < slots,
    ensures
        slot_const(instrs, from, before, slot, depth) matches Some(value)
            ==> trace[before - from][slot as int] == value,
    decreases before, 0nat,
{
    if depth <= MAX_CONST_DEPTH && last_write(instrs, from, before, slot) is Some {
        let at = last_write(instrs, from, before, slot)->0;
        lemma_left_by_last_write(instrs, slots, floats, from, trace, before, slot);
        let deeper = depth + 1;
        match instrs[at] {
            InstrView::Mov { src: RuntimeOperand::Slot(source), .. } => {
                lemma_trace_slot_const(instrs, slots, floats, from, trace, at, source, deeper);
            },
            InstrView::BinOp { lhs, rhs, .. } => {
                lemma_trace_const(instrs, slots, floats, from, trace, at, lhs, deeper);
                lemma_trace_const(instrs, slots, floats, from, trace, at, rhs, deeper);
            },
            InstrView::BinOpInPlace { rhs, .. } => {
                lemma_trace_slot_const(instrs, slots, floats, from, trace, at, slot, deeper);
                lemma_trace_const(instrs, slots, floats, from, trace, at, rhs, deeper);
            },
            InstrView::NormalizeInt { .. } => {
                lemma_trace_slot_const(instrs, slots, floats, from, trace, at, slot, deeper);
                assert(is_read_right(instrs, from, at, deeper));
            },
            _ => {},
        }
    }
}

/// The same of an operand.
proof fn lemma_trace_const(
    instrs: Seq<InstrView>,
    slots: nat,
    floats: FloatFn,
    from: int,
    trace: Seq<SlotState>,
    before: int,
    operand: RuntimeOperand,
    depth: nat,
)
    requires
        slots_below(instrs, slots as int),
        is_trace(instrs, slots, floats, from, trace),
        are_read_right(instrs, from, before),
        from <= before < from + trace.len(),
        operand_below(operand, slots as int),
    ensures
        operand_const(instrs, from, before, operand, depth) matches Some(value) ==> value_of(
            operand,
            trace[before - from],
        ) == value,
    decreases before, 1nat,
{
    if let RuntimeOperand::Slot(slot) = operand {
        lemma_trace_slot_const(instrs, slots, floats, from, trace, before, slot, depth + 1);
    }
}

/// Masks and shifts to the right only lessen a word.
pub proof fn lemma_words_lessened(a: u64, b: u64, upper: u64, amount: u64)
    requires
        a <= upper,
        amount < 64,
    ensures
        a & b <= a,
        a & b <= b,
        a >> amount <= upper >> amount,
{
    assert(a & b <= a && a & b <= b) by (bit_vector);
    assert(a >> amount <= upper >> amount) by (bit_vector)
        requires
            a <= upper,
            amount < 64,
    ;
}

/// An amount of less than 64 is taken as it is.
proof fn lemma_shift_kept(shift: u64)
    ensures
        shift & 63 < 64,
        shift < 64 ==> shift & 63 == shift,
{
    assert(shift & 63 < 64 && (shift < 64 ==> shift & 63 == shift)) by (bit_vector);
}

/// A bound that the code shows is not below what the slot holds.
#[verifier::rlimit(30)]
proof fn lemma_trace_slot_upper(
    instrs: Seq<InstrView>,
    slots: nat,
    floats: FloatFn,
    from: int,
    trace: Seq<SlotState>,
    before: int,
    slot: usize,
    depth: nat,
)
    requires
        slots_below(instrs, slots as int),
        is_trace(instrs, slots, floats, from, trace),
        are_read_right(instrs, from, before),
        from <= before < from + trace.len(),
        slot < slots,
    ensures
        slot_upper(instrs, from, before, slot, depth) matches Some(upper) ==> trace[before - from][
            slot as int] <= upper,
    decreases before, 0nat,
{
    if depth <= MAX_CONST_DEPTH && last_write(instrs, from, before, slot) is Some {
        let at = last_write(instrs, from, before, slot)->0;
        lemma_left_by_last_write(instrs, slots, floats, from, trace, before, slot);
        let state = trace[at - from];
        let deeper = depth + 1;
        match instrs[at] {
            InstrView::Mov { src, .. } => {
                lemma_trace_upper(instrs, slots, floats, from, trace, at, src, deeper);
            },
            InstrView::BinOp { op, lhs, rhs, .. } => {
                lemma_trace_const(instrs, slots, floats, from, trace, at, lhs, deeper);
                lemma_trace_const(instrs, slots, floats, from, trace, at, rhs, deeper);
                assert(is_read_right(instrs, from, at, deeper + 1));
                lemma_trace_binop(instrs, slots, floats, from, trace, at, op, lhs, rhs, deeper);
            },
            InstrView::BinOpInPlace { op, rhs, .. } => {
                lemma_trace_slot_upper(instrs, slots, floats, from, trace, at, slot, deeper);
                assert(is_read_right(instrs, from, at, deeper + 1));
                lemma_trace_in_place(
                    instrs,
                    slots,
                    floats,
                    from,
                    trace,
                    at,
                    op,
                    slot_upper(instrs, from, at, slot, deeper),
                    state[slot as int],
                    rhs,
                    deeper,
                );
            },
            InstrView::NormalizeInt { signed, bits, .. } => {
                lemma_trace_slot_upper(instrs, slots, floats, from, trace, at, slot, deeper);
                let prior = SlotFacts {
                    upper: slot_upper(instrs, from, at, slot, deeper),
                    exact: None,
                };
                lemma_truncated_facts(prior, state[slot as int], signed, bits);
            },
            _ => {},
        }
    }
}

/// The same of an operand.
proof fn lemma_trace_upper(
    instrs: Seq<InstrView>,
    slots: nat,
    floats: FloatFn,
    from: int,
    trace: Seq<SlotState>,
    before: int,
    operand: RuntimeOperand,
    depth: nat,
)
    requires
        slots_below(instrs, slots as int),
        is_trace(instrs, slots, floats, from, trace),
        are_read_right(instrs, from, before),
        from <= before < from + trace.len(),
        operand_below(operand, slots as int),
    ensures
        operand_upper(instrs, from, before, operand, depth) matches Some(upper) ==> value_of(
            operand,
            trace[before - from],
        ) <= upper,
    decreases before, 1nat,
{
    if let RuntimeOperand::Slot(slot) = operand {
        lemma_trace_slot_upper(instrs, slots, floats, from, trace, before, slot, depth + 1);
    }
}

/// The same of an operation.
proof fn lemma_trace_binop(
    instrs: Seq<InstrView>,
    slots: nat,
    floats: FloatFn,
    from: int,
    trace: Seq<SlotState>,
    before: int,
    op: RuntimeBinOp,
    lhs: RuntimeOperand,
    rhs: RuntimeOperand,
    depth: nat,
)
    requires
        slots_below(instrs, slots as int),
        is_trace(instrs, slots, floats, from, trace),
        are_read_right(instrs, from, before),
        op is ShrUnsigned ==> (operand_const(instrs, from, before, rhs, depth + 1) matches Some(
            shift,
        ) ==> shift < 64),
        from <= before < from + trace.len(),
        operand_below(lhs, slots as int),
        operand_below(rhs, slots as int),
    ensures
        ({
            let state = trace[before - from];
            binop_upper(instrs, from, before, op, lhs, rhs, depth) matches Some(upper)
                ==> binop_value(op, value_of(lhs, state), value_of(rhs, state)) matches Some(value)
                ==> value <= upper
        }),
    decreases before, 2nat,
{
    let state = trace[before - from];
    let (a, b) = (value_of(lhs, state), value_of(rhs, state));
    lemma_trace_const(instrs, slots, floats, from, trace, before, lhs, depth + 1);
    lemma_trace_const(instrs, slots, floats, from, trace, before, rhs, depth + 1);
    lemma_trace_upper(instrs, slots, floats, from, trace, before, lhs, depth + 1);
    lemma_trace_upper(instrs, slots, floats, from, trace, before, rhs, depth + 1);
    let l = operand_upper(instrs, from, before, lhs, depth + 1);
    let r = operand_upper(instrs, from, before, rhs, depth + 1);
    lemma_shift_kept(b);
    match op {
        RuntimeBinOp::BitAnd => {
            lemma_words_lessened(a, b, a, 0);
        },
        RuntimeBinOp::ShrUnsigned => {
            if let Some(upper) = l {
                lemma_words_lessened(a, b, upper, b & 63);
            }
        },
        RuntimeBinOp::BitOr => {
            if l is Some && r is Some {
                lemma_or_below_masks(a, b, l->0, r->0);
            }
        },
        _ => {},
    }
}

/// The same of an operation in place.
proof fn lemma_trace_in_place(
    instrs: Seq<InstrView>,
    slots: nat,
    floats: FloatFn,
    from: int,
    trace: Seq<SlotState>,
    before: int,
    op: RuntimeBinOp,
    bound: Option<u64>,
    a: u64,
    rhs: RuntimeOperand,
    depth: nat,
)
    requires
        slots_below(instrs, slots as int),
        is_trace(instrs, slots, floats, from, trace),
        are_read_right(instrs, from, before),
        op is ShrUnsigned ==> (operand_const(instrs, from, before, rhs, depth + 1) matches Some(
            shift,
        ) ==> shift < 64),
        from <= before < from + trace.len(),
        operand_below(rhs, slots as int),
        bound matches Some(upper) ==> a <= upper,
    ensures
        ({
            let state = trace[before - from];
            in_place_upper(instrs, from, before, op, bound, rhs, depth) matches Some(upper)
                ==> binop_value(op, a, value_of(rhs, state)) matches Some(value) ==> value <= upper
        }),
    decreases before, 2nat,
{
    let state = trace[before - from];
    let b = value_of(rhs, state);
    lemma_trace_const(instrs, slots, floats, from, trace, before, rhs, depth + 1);
    lemma_trace_upper(instrs, slots, floats, from, trace, before, rhs, depth + 1);
    let any = match bound {
        Some(upper) => upper,
        None => u64::MAX,
    };
    lemma_shift_kept(b);
    lemma_words_lessened(a, b, any, b & 63);
    if let Some(upper) = operand_upper(instrs, from, before, rhs, depth + 1) {
        lemma_or_below_masks(a, b, any, upper);
    }
}

/// The slots on the way through the block of an instruction at which control
/// arrives.
proof fn lemma_block_trace(
    instrs: Seq<InstrView>,
    slots: nat,
    floats: FloatFn,
    at: int,
    state: SlotState,
) -> (trace: Seq<SlotState>)
    requires
        slots_below(instrs, slots as int),
        threads_start_blocks(instrs),
        0 <= at < instrs.len(),
        arrives(instrs, slots, floats, at, state),
    ensures
        is_trace(instrs, slots, floats, block_start(instrs, at), trace),
        block_start(instrs, at) + trace.len() - 1 == at,
        trace.last() == state,
        0 <= block_start(instrs, at) <= at,
{
    let path = choose|path: Seq<(int, SlotState)>| #[trigger]
        is_path(instrs, slots, floats, path) && path.last() == (at, state);
    assert(path[path.len() - 1] == path.last());
    lemma_slots_along(instrs, slots, floats, path, path.len() - 1);
    lemma_block_start(instrs, at);
    lemma_way_through_block(instrs, slots, floats, path, path.len() - 1)
}

/// A constant that a basic block shows of an operand is its value in every state
/// in which control can arrive there.
pub proof fn law_block_constants_hold_on_arrival(
    instrs: Seq<InstrView>,
    slots: nat,
    floats: FloatFn,
    at: int,
    state: SlotState,
    operand: RuntimeOperand,
    depth: nat,
)
    requires
        slots_below(instrs, slots as int),
        threads_start_blocks(instrs),
        are_read_right(instrs, block_start(instrs, at), at),
        0 <= at < instrs.len(),
        arrives(instrs, slots, floats, at, state),
        operand_below(operand, slots as int),
    ensures
        operand_const(instrs, block_start(instrs, at), at, operand, depth) matches Some(value)
            ==> value_of(operand, state) == value,
{
    let trace = lemma_block_trace(instrs, slots, floats, at, state);
    let from = block_start(instrs, at);
    lemma_trace_const(instrs, slots, floats, from, trace, at, operand, depth);
}

/// A branch that constants settle goes where the branch went, from every state in
/// which control can arrive there; what is no branch stays as it is.
pub proof fn law_settled_branches_go_where_they_went(
    instrs: Seq<InstrView>,
    slots: nat,
    floats: FloatFn,
    at: int,
    state: SlotState,
    to: int,
    next: SlotState,
)
    requires
        slots_below(instrs, slots as int),
        instrs.len() <= usize::MAX,
        threads_start_blocks(instrs),
        are_read_right(instrs, block_start(instrs, at), at),
        0 <= at < instrs.len(),
        arrives(instrs, slots, floats, at, state),
    ensures
        may_pass(settle_branches(instrs), floats, at, state, to, next) == may_pass(
            instrs,
            floats,
            at,
            state,
            to,
            next,
        ),
{
    assert(settle_branches(instrs)[at] == settled_branch(instrs, at));
    assert(instr_below(instrs[at], slots as int));
    let trace = lemma_block_trace(instrs, slots, floats, at, state);
    let from = block_start(instrs, at);
    match instrs[at] {
        InstrView::JumpIfZero { cond_slot, .. } => {
            lemma_trace_slot_const(instrs, slots, floats, from, trace, at, cond_slot, 0);
        },
        InstrView::JumpIfCmpFalse { lhs, rhs, .. } => {
            lemma_trace_const(instrs, slots, floats, from, trace, at, lhs, 0);
            lemma_trace_const(instrs, slots, floats, from, trace, at, rhs, 0);
        },
        _ => {},
    }
}

/// A bound that a basic block shows of a slot is not below what the slot holds in
/// any state in which control can arrive there.
pub proof fn law_block_bounds_hold_on_arrival(
    instrs: Seq<InstrView>,
    slots: nat,
    floats: FloatFn,
    at: int,
    state: SlotState,
    slot: usize,
    depth: nat,
)
    requires
        slots_below(instrs, slots as int),
        threads_start_blocks(instrs),
        are_read_right(instrs, block_start(instrs, at), at),
        0 <= at < instrs.len(),
        arrives(instrs, slots, floats, at, state),
        slot < slots,
    ensures
        slot_upper(instrs, block_start(instrs, at), at, slot, depth) matches Some(upper)
            ==> state[slot as int] <= upper,
{
    let trace = lemma_block_trace(instrs, slots, floats, at, state);
    let from = block_start(instrs, at);
    lemma_trace_slot_upper(instrs, slots, floats, from, trace, at, slot, depth);
}

/// Programs that differ in checks only have the same blocks, and control arrives
/// alike.
proof fn lemma_checks_do_not_matter(
    instrs: Seq<InstrView>,
    other: Seq<InstrView>,
    slots: nat,
    floats: FloatFn,
    at: int,
    state: SlotState,
)
    requires
        same_but_checks(instrs, other),
        0 <= at < instrs.len(),
        arrives(instrs, slots, floats, at, state),
    ensures
        arrives(other, slots, floats, at, state),
        block_start(other, at) == block_start(instrs, at),
{
    let path = choose|path: Seq<(int, SlotState)>| #[trigger]
        is_path(instrs, slots, floats, path) && path.last() == (at, state);
    assert forall|i: int| 0 < i < path.len() implies #[trigger] passes_at(
        other,
        floats,
        path,
        i,
    ) by {
        assert(passes_at(instrs, floats, path, i));
        let from = path[i - 1].0;
        assert(other[from] == instrs[from] || other[from] == unchecked(instrs[from]));
        if instrs[from] is Return {
            let j = choose|j: int|
                0 <= j < i && #[trigger] comes_back_to(instrs, path, j, path[i].0);
            assert(other[path[j].0] == instrs[path[j].0]);
            assert(comes_back_to(other, path, j, path[i].0));
        }
    }
    assert(is_path(other, slots, floats, path));
    lemma_same_blocks(instrs, other, at);
}

/// Programs that differ in checks only have the same blocks.
proof fn lemma_same_blocks(instrs: Seq<InstrView>, other: Seq<InstrView>, at: int)
    requires
        same_but_checks(instrs, other),
        0 <= at < instrs.len(),
    ensures
        block_start(other, at) == block_start(instrs, at),
    decreases at,
{
    if at > 0 {
        lemma_same_blocks(instrs, other, at - 1);
        assert(other[at - 1] == instrs[at - 1] || other[at - 1] == unchecked(instrs[at - 1]));
        if is_branched_to(instrs, at) {
            let k = choose|k: int|
                0 <= k < instrs.len() && branches_to(#[trigger] instrs[k], at);
            assert(other[k] == instrs[k]);
            assert(branches_to(other[k], at));
        }
        if is_branched_to(other, at) {
            let k = choose|k: int| 0 <= k < other.len() && branches_to(#[trigger] other[k], at);
            assert(other[k] == instrs[k] || other[k] == unchecked(instrs[k]));
            assert(branches_to(instrs[k], at));
        }
    }
}

/// Programs that differ in checks only show the same constants.
proof fn lemma_same_consts(
    instrs: Seq<InstrView>,
    other: Seq<InstrView>,
    from: int,
    before: int,
    slot: usize,
    depth: nat,
)
    requires
        same_but_checks(instrs, other),
        0 <= from,
        before <= instrs.len(),
    ensures
        slot_const(other, from, before, slot, depth) == slot_const(
            instrs,
            from,
            before,
            slot,
            depth,
        ),
    decreases before, 0nat,
{
    lemma_same_writes(instrs, other, from, before, slot);
    lemma_last_write(instrs, from, before, slot);
    if depth <= MAX_CONST_DEPTH && last_write(instrs, from, before, slot) is Some {
        let at = last_write(instrs, from, before, slot)->0;
        assert(other[at] == instrs[at] || other[at] == unchecked(instrs[at]));
        match instrs[at] {
            InstrView::Mov { src: RuntimeOperand::Slot(source), .. } => {
                lemma_same_consts(instrs, other, from, at, source, depth + 1);
            },
            InstrView::BinOp { lhs, rhs, .. } => {
                lemma_same_operand_consts(instrs, other, from, at, lhs, depth + 1);
                lemma_same_operand_consts(instrs, other, from, at, rhs, depth + 1);
            },
            InstrView::BinOpInPlace { rhs, .. } => {
                lemma_same_consts(instrs, other, from, at, slot, depth + 1);
                lemma_same_operand_consts(instrs, other, from, at, rhs, depth + 1);
            },
            InstrView::NormalizeInt { .. } => {
                lemma_same_consts(instrs, other, from, at, slot, depth + 1);
            },
            _ => {},
        }
    }
}

/// The same of an operand.
proof fn lemma_same_operand_consts(
    instrs: Seq<InstrView>,
    other: Seq<InstrView>,
    from: int,
    before: int,
    operand: RuntimeOperand,
    depth: nat,
)
    requires
        same_but_checks(instrs, other),
        0 <= from,
        before <= instrs.len(),
    ensures
        operand_const(other, from, before, operand, depth) == operand_const(
            instrs,
            from,
            before,
            operand,
            depth,
        ),
    decreases before, 1nat,
{
    if let RuntimeOperand::Slot(slot) = operand {
        lemma_same_consts(instrs, other, from, before, slot, depth + 1);
    }
}

/// Programs that differ in checks only write alike.
proof fn lemma_same_writes(
    instrs: Seq<InstrView>,
    other: Seq<InstrView>,
    from: int,
    before: int,
    slot: usize,
)
    requires
        same_but_checks(instrs, other),
        0 <= from,
        before <= instrs.len(),
    ensures
        last_write(other, from, before, slot) == last_write(instrs, from, before, slot),
    decreases before - from,
{
    if before > from {
        lemma_same_writes(instrs, other, from, before - 1, slot);
        assert(other[before - 1] == instrs[before - 1] || other[before - 1] == unchecked(
            instrs[before - 1],
        ));
    }
}

/// Programs that differ in checks only are read alike.
proof fn lemma_read_alike(
    instrs: Seq<InstrView>,
    other: Seq<InstrView>,
    from: int,
    to: int,
)
    requires
        same_but_checks(instrs, other),
        0 <= from,
        to <= instrs.len(),
        are_read_right(instrs, from, to),
    ensures
        are_read_right(other, from, to),
{
    assert forall|at: int, depth: nat| from <= at < to implies #[trigger] is_read_right(
        other,
        from,
        at,
        depth,
    ) by {
        assert(is_read_right(instrs, from, at, depth));
        assert(other[at] == instrs[at] || other[at] == unchecked(instrs[at]));
        match instrs[at] {
            InstrView::NormalizeInt { dst, .. } => {
                lemma_same_consts(instrs, other, from, at, dst, depth);
            },
            InstrView::BinOp { rhs, .. } => {
                lemma_same_operand_consts(instrs, other, from, at, rhs, depth);
            },
            InstrView::BinOpInPlace { rhs, .. } => {
                lemma_same_operand_consts(instrs, other, from, at, rhs, depth);
            },
            _ => {},
        }
    }
}

/// Instructions ahead keep their checks.
proof fn lemma_checked_ahead(
    instrs: Seq<InstrView>,
    starts: spec_fn(int) -> int,
    n: int,
    at: int,
)
    requires
        0 <= n <= at < instrs.len(),
    ensures
        drop_bounded_checks(instrs, starts, n)[at] == instrs[at],
        drop_bounded_checks(instrs, starts, n).len() == instrs.len(),
    decreases n,
{
    if n > 0 {
        lemma_checked_ahead(instrs, starts, n - 1, at);
        lemma_checked_ahead(instrs, starts, n - 1, n - 1);
    }
}

/// An access that loses its check by the bounds of its basic block is in bounds
/// in every state in which control can arrive there.
pub proof fn law_unchecked_by_block_is_in_bounds(
    instrs: Seq<InstrView>,
    slots: nat,
    floats: FloatFn,
    at: int,
    state: SlotState,
)
    requires
        slots_below(instrs, slots as int),
        threads_start_blocks(instrs),
        are_read_right(instrs, block_start(instrs, at), at),
        0 <= at < instrs.len(),
        arrives(instrs, slots, floats, at, state),
        drop_bounded_checks(instrs, blocks_of(instrs), at + 1)[at] != instrs[at],
    ensures
        checked_access(instrs[at]) matches Some((base_slots, index)) && value_of(index, state)
            < base_slots.len(),
{
    let starts = blocks_of(instrs);
    let before = drop_bounded_checks(instrs, starts, at);
    lemma_checked_ahead(instrs, starts, at, at);
    lemma_drop_bounded_checks(instrs, starts, at);
    lemma_checks_do_not_matter(instrs, before, slots, floats, at, state);
    lemma_same_but_checks_in_range(instrs, before, slots as int);
    lemma_block_start(instrs, at);
    lemma_read_alike(instrs, before, block_start(instrs, at), at);
    assert forall|i: int| 0 <= i < before.len() implies ((#[trigger] before[i]) matches
        InstrView::ThreadSpawn { target, .. } ==> target < before.len() ==> block_start(
        before,
        target as int,
    ) == target) by {
        assert(before[i] == instrs[i] || before[i] == unchecked(instrs[i]));
        if let InstrView::ThreadSpawn { target, .. } = instrs[i] {
            if target < instrs.len() {
                lemma_same_blocks(instrs, before, target as int);
            }
        }
    }
    assert(instr_below(before[at], slots as int));
    if let Some((base_slots, index)) = checked_access(instrs[at]) {
        assert(index_is_bounded(before, starts(at), at, index, base_slots.len()));
        if let RuntimeOperand::Slot(slot) = index {
            law_block_bounds_hold_on_arrival(before, slots, floats, at, state, slot, 0);
        }
    }
}

/// The guard is true of the slots.
spec fn guard_holds(guard: GuardView, slots: nat, state: SlotState) -> bool {
    operand_below(guard.index, slots as int) && value_of(guard.index, state)
        < guard.base_slots.len()
}

/// All guards are true of the slots.
spec fn guards_hold(guards: Seq<GuardView>, slots: nat, state: SlotState) -> bool {
    forall|i: int| 0 <= i < guards.len() ==> guard_holds(#[trigger] guards[i], slots, state)
}

/// Guards that survive an instruction are true behind it.
proof fn lemma_survivors_hold(
    guards: Seq<GuardView>,
    instr: InstrView,
    slots: nat,
    state: SlotState,
    next: SlotState,
)
    requires
        guards_hold(guards, slots, state),
        state.len() == slots,
        forall|slot: usize|
            slot < state.len() && !writes(instr, slot) ==> #[trigger] next[slot as int]
                == state[slot as int],
    ensures
        guards_hold(surviving_guards(guards, instr), slots, next),
    decreases guards.len(),
{
    if guards.len() > 0 {
        let rest = guards.drop_last();
        assert forall|i: int| 0 <= i < rest.len() implies guard_holds(
            #[trigger] rest[i],
            slots,
            state,
        ) by {
            assert(guard_holds(guards[i], slots, state));
        }
        lemma_survivors_hold(rest, instr, slots, state, next);
        assert(guard_holds(guards.last(), slots, state));
        if let RuntimeOperand::Slot(slot) = guards.last().index {
            if !writes(instr, slot) {
                assert(next[slot as int] == state[slot as int]);
            }
        }
    }
}

/// The guards in force at an instruction.
spec fn guards_at(instrs: Seq<InstrView>, at: int) -> Seq<GuardView> {
    let starts = blocks_of(instrs);
    if at >= 1 && starts(at) == starts(at - 1) {
        drop_repeated_checks(instrs, starts, at).guards
    } else {
        seq![]
    }
}

/// Instructions ahead keep their checks.
proof fn lemma_repeats_ahead(instrs: Seq<InstrView>, starts: spec_fn(int) -> int, n: int, at: int)
    requires
        0 <= n <= at < instrs.len(),
    ensures
        drop_repeated_checks(instrs, starts, n).instrs[at] == instrs[at],
        drop_repeated_checks(instrs, starts, n).instrs.len() == instrs.len(),
    decreases n,
{
    if n > 0 {
        lemma_repeats_ahead(instrs, starts, n - 1, at);
    }
}

/// The guards in force inside a block are true along the way through it.
proof fn lemma_trace_guards(
    instrs: Seq<InstrView>,
    slots: nat,
    floats: FloatFn,
    trace: Seq<SlotState>,
    at: int,
    before: int,
)
    requires
        slots_below(instrs, slots as int),
        0 <= at < instrs.len(),
        is_trace(instrs, slots, floats, block_start(instrs, at), trace),
        block_start(instrs, at) + trace.len() - 1 == at,
        block_start(instrs, at) <= before <= at,
    ensures
        guards_hold(guards_at(instrs, before), slots, trace[before - block_start(instrs, at)]),
    decreases before,
{
    let from = block_start(instrs, at);
    let starts = blocks_of(instrs);
    lemma_block_start(instrs, at);
    lemma_same_block(instrs, at, before);
    if before == from {
        if before > 0 {
            lemma_block_start(instrs, before - 1);
        }
    } else {
        let last = before - 1;
        let k = last - from;
        let (state, next) = (trace[k], trace[k + 1]);
        lemma_trace_guards(instrs, slots, floats, trace, at, last);
        lemma_same_block(instrs, at, last);
        lemma_repeats_ahead(instrs, starts, last, last);
        assert(trace[k].len() == slots);
        assert(may_leave(instrs[from + k], floats, state, next));
        let instr = instrs[last];
        assert(instr_below(instr, slots as int));
        lemma_leaves_unwritten(instr, floats, state, next);
        let guards = guards_at(instrs, last);
        if let Some((base_slots, index)) = checked_access(instr) {
            let guard = GuardView { base_slots, index };
            let more = guards.push(guard);
            assert(guard_holds(guard, slots, state));
            assert forall|i: int| 0 <= i < more.len() implies guard_holds(
                #[trigger] more[i],
                slots,
                state,
            ) by {
                if i < guards.len() {
                    assert(guard_holds(guards[i], slots, state));
                }
            }
            lemma_survivors_hold(more, instr, slots, state, next);
            lemma_survivors_hold(guards, unchecked(instr), slots, state, next);
        } else {
            lemma_survivors_hold(guards, instr, slots, state, next);
        }
    }
}

/// What stands between the start of a block and one of its instructions is of the
/// block.
proof fn lemma_same_block(instrs: Seq<InstrView>, at: int, inside: int)
    requires
        0 <= at,
        block_start(instrs, at) <= inside <= at,
    ensures
        block_start(instrs, inside) == block_start(instrs, at),
    decreases at,
{
    if inside < at {
        lemma_same_block(instrs, at - 1, inside);
    }
}

/// An access that loses its check because one before it in its basic block has
/// the same is in bounds in every state in which control can arrive there.
pub proof fn law_unchecked_by_repeat_is_in_bounds(
    instrs: Seq<InstrView>,
    slots: nat,
    floats: FloatFn,
    at: int,
    state: SlotState,
)
    requires
        slots_below(instrs, slots as int),
        threads_start_blocks(instrs),
        0 <= at < instrs.len(),
        arrives(instrs, slots, floats, at, state),
        drop_repeated_checks(instrs, blocks_of(instrs), at + 1).instrs[at] != instrs[at],
    ensures
        checked_access(instrs[at]) matches Some((base_slots, index)) && value_of(index, state)
            < base_slots.len(),
{
    let starts = blocks_of(instrs);
    let trace = lemma_block_trace(instrs, slots, floats, at, state);
    lemma_trace_guards(instrs, slots, floats, trace, at, at);
    lemma_repeats_ahead(instrs, starts, at, at);
    if let Some((base_slots, index)) = checked_access(instrs[at]) {
        let guard = GuardView { base_slots, index };
        let guards = guards_at(instrs, at);
        assert(guards.contains(guard));
        let i = choose|i: int| 0 <= i < guards.len() && guards[i] == guard;
        assert(guard_holds(guards[i], slots, state));
    }
}

} // verus!
