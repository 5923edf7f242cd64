//! Lookahead over runs of linear congruential steps. A run as a whole is one such
//! step on the state before it. Where it is long and nothing behind it reads the
//! slot, its last step is rewritten to that one and the others to leave the state
//! alone, so that none waits for another.

use crate::ir::{instrs_view, InstrView, RuntimeBinOp, RuntimeInstr, RuntimeOperand};
use crate::optimizer::control_flow::targets_in_bounds;
use crate::optimizer::kernels::{lemma_word_of_word, lemma_word_ops};
use crate::optimizer::machine::{
    events, is_slot_arithmetic, lemma_arithmetic_is_unseen, lemma_events_append, lemma_run_append,
    run, step, SlotState,
};
use crate::optimizer::slots::{instr_below, slots_below};
use crate::optimizer::targets::{code_target, control_flow_entries, is_entered};
use crate::optimizer::uses::{reads, runtime_instr_reads_slot};
use vstd::prelude::*;

verus! {

/// A multiplication by a constant and an addition of one, at `at` and behind
/// it, on one slot.
pub open spec fn lcg_step(instrs: Seq<InstrView>, at: int) -> Option<(usize, u64, u64)> {
    if at + 1 >= instrs.len() {
        None
    } else {
        match (instrs[at], instrs[at + 1]) {
            (
                InstrView::BinOpInPlace {
                    dst,
                    op: RuntimeBinOp::Mul,
                    rhs: RuntimeOperand::Imm(a),
                },
                InstrView::BinOpInPlace {
                    dst: same,
                    op: RuntimeBinOp::Add,
                    rhs: RuntimeOperand::Imm(b),
                },
            ) => if dst == same {
                Some((dst, a, b))
            } else {
                None
            },
            _ => None,
        }
    }
}

/// How many steps on the slot follow each other from `at` on.
pub open spec fn run_length(instrs: Seq<InstrView>, at: int, slot: usize) -> nat
    decreases instrs.len() - at,
{
    match lcg_step(instrs, at) {
        Some((dst, _, _)) => if dst == slot {
            1 + run_length(instrs, at + 2, slot)
        } else {
            0
        },
        None => 0,
    }
}

/// The multiplier and the addend of the first k steps of the run at `at` in one,
/// modulo 2^64.
pub open spec fn steps_in_one(instrs: Seq<InstrView>, at: int, k: nat) -> (u64, u64)
    decreases k,
{
    if k == 0 {
        (1, 0)
    } else {
        let (mul, sum) = steps_in_one(instrs, at, (k - 1) as nat);
        match lcg_step(instrs, at + 2 * (k - 1)) {
            Some((_, a, b)) => (mul.wrapping_mul(a), sum.wrapping_mul(a).wrapping_add(b)),
            None => (mul, sum),
        }
    }
}

/// The least length of a run that is rewritten.
pub const MIN_LOOKAHEAD: usize = 4;

/// Nothing from `from` on reads the slot.
pub open spec fn is_unread_from(instrs: Seq<InstrView>, from: int, slot: usize) -> bool {
    forall|j: int| from <= j < instrs.len() ==> !#[trigger] reads(instrs[j], slot)
}

/// No jump, call or thread start enters the code behind `from` and before `to`.
pub open spec fn is_entered_at_start(instrs: Seq<InstrView>, from: int, to: int) -> bool {
    forall|j: int| from < j < to ==> !#[trigger] is_entered(instrs, j)
}

/// A multiplication by a constant in place.
pub open spec fn times(slot: usize, mul: u64) -> InstrView {
    InstrView::BinOpInPlace { dst: slot, op: RuntimeBinOp::Mul, rhs: RuntimeOperand::Imm(mul) }
}

/// An addition of a constant in place.
pub open spec fn plus(slot: usize, sum: u64) -> InstrView {
    InstrView::BinOpInPlace { dst: slot, op: RuntimeBinOp::Add, rhs: RuntimeOperand::Imm(sum) }
}

/// The program with the run of n steps at `at` rewritten: the last step is the
/// whole run in one, and the steps before it leave the slot alone.
pub open spec fn with_run_in_one(
    instrs: Seq<InstrView>,
    at: int,
    slot: usize,
    n: nat,
) -> Seq<InstrView> {
    let (mul, sum) = steps_in_one(instrs, at, n);
    let last = at + 2 * (n - 1);
    Seq::new(
        instrs.len(),
        |i: int|
            if i < at || i > last + 1 {
                instrs[i]
            } else if i == last {
                times(slot, mul)
            } else if i == last + 1 {
                plus(slot, sum)
            } else if (i - at) % 2 == 0 {
                times(slot, 1)
            } else {
                plus(slot, 0)
            },
    )
}

/// The program after the run at `at` is rewritten, if it is long enough, nothing
/// behind it reads the slot, and control enters it at its start only.
pub open spec fn look_ahead_at(instrs: Seq<InstrView>, at: int) -> Seq<InstrView> {
    match lcg_step(instrs, at) {
        Some((slot, _, _)) => {
            let n = run_length(instrs, at, slot);
            if n >= MIN_LOOKAHEAD && is_unread_from(instrs, at + 2 * n, slot)
                && is_entered_at_start(instrs, at, at + 2 * n) {
                with_run_in_one(instrs, at, slot, n)
            } else {
                instrs
            }
        },
        None => instrs,
    }
}

/// The program after the runs at the first n positions are rewritten.
pub open spec fn look_ahead(instrs: Seq<InstrView>, n: int) -> Seq<InstrView>
    decreases n,
{
    if n <= 0 {
        instrs
    } else {
        look_ahead_at(look_ahead(instrs, n - 1), n - 1)
    }
}

/// A multiplication by a constant and an addition of one, at `at` and behind
/// it, on one slot.
fn find_lcg_step(instrs: &Vec<RuntimeInstr>, at: usize) -> (found: Option<(usize, u64, u64)>)
    requires
        at <= instrs@.len(),
    ensures
        found == lcg_step(instrs_view(instrs@), at as int),
{
    if instrs.len() - at < 2 {
        return None;
    }
    assert(instrs_view(instrs@)[at as int] == instrs@[at as int]@);
    assert(instrs_view(instrs@)[at + 1] == instrs@[at + 1]@);
    match (&instrs[at], &instrs[at + 1]) {
        (
            RuntimeInstr::BinOpInPlace { dst, op: RuntimeBinOp::Mul, rhs: RuntimeOperand::Imm(a) },
            RuntimeInstr::BinOpInPlace {
                dst: same,
                op: RuntimeBinOp::Add,
                rhs: RuntimeOperand::Imm(b),
            },
        ) => if *dst == *same {
            Some((*dst, *a, *b))
        } else {
            None
        },
        _ => None,
    }
}

/// A run lies inside the program.
pub proof fn lemma_run_length(instrs: Seq<InstrView>, at: int, slot: usize)
    requires
        0 <= at <= instrs.len(),
    ensures
        at + 2 * run_length(instrs, at, slot) <= instrs.len(),
    decreases instrs.len() - at,
{
    if let Some((dst, _, _)) = lcg_step(instrs, at) {
        if dst == slot {
            lemma_run_length(instrs, at + 2, slot);
        }
    }
}

/// The steps of a run.
proof fn lemma_run_steps(instrs: Seq<InstrView>, at: int, slot: usize, k: nat)
    requires
        k < run_length(instrs, at, slot),
    ensures
        lcg_step(instrs, at + 2 * k) matches Some((dst, _, _)) && dst == slot,
    decreases k,
{
    if k > 0 {
        lemma_run_steps(instrs, at + 2, slot, (k - 1) as nat);
    }
}

/// Rewriting a run keeps slots and targets in range.
proof fn lemma_with_run_in_one(
    instrs: Seq<InstrView>,
    at: int,
    slot: usize,
    n: nat,
    bound: int,
)
    ensures
        slots_below(instrs, bound) && slot < bound ==> slots_below(
            with_run_in_one(instrs, at, slot, n),
            bound,
        ),
        targets_in_bounds(instrs) ==> targets_in_bounds(with_run_in_one(instrs, at, slot, n)),
{
    let after = with_run_in_one(instrs, at, slot, n);
    if slots_below(instrs, bound) && slot < bound {
        assert forall|i: int| 0 <= i < after.len() implies #[trigger] instr_below(
            after[i],
            bound,
        ) by {
            assert(instr_below(instrs[i], bound));
        }
    }
    if targets_in_bounds(instrs) {
        assert forall|i: int| 0 <= i < after.len() implies ((#[trigger] code_target(
            after[i],
        )) matches Some(target) ==> target <= after.len()) by {
            assert(code_target(instrs[i]) matches Some(target) ==> target <= instrs.len());
        }
    }
}

/// Lookahead keeps the length, and slots and targets in range.
pub proof fn lemma_look_ahead(instrs: Seq<InstrView>, n: int, bound: int)
    requires
        n <= instrs.len(),
    ensures
        look_ahead(instrs, n).len() == instrs.len(),
        slots_below(instrs, bound) ==> slots_below(look_ahead(instrs, n), bound),
        targets_in_bounds(instrs) ==> targets_in_bounds(look_ahead(instrs, n)),
    decreases n,
{
    if n > 0 {
        lemma_look_ahead(instrs, n - 1, bound);
        let before = look_ahead(instrs, n - 1);
        if let Some((slot, _, _)) = lcg_step(before, n - 1) {
            if slots_below(before, bound) {
                assert(instr_below(before[n - 1], bound));
            }
            lemma_with_run_in_one(before, n - 1, slot, run_length(before, n - 1, slot), bound);
        }
    }
}

/// A step behind others in one is the steps in one.
proof fn lemma_one_step_more(x: u64, mul: u64, sum: u64, a: u64, b: u64)
    ensures
        x.wrapping_mul(mul).wrapping_add(sum).wrapping_mul(a).wrapping_add(b) == x.wrapping_mul(
            mul.wrapping_mul(a),
        ).wrapping_add(sum.wrapping_mul(a).wrapping_add(b)),
{
    let (xi, m, s, ai, bi) = (x as int, mul as int, sum as int, a as int, b as int);
    lemma_word_of_word(x);
    lemma_word_of_word(mul);
    lemma_word_of_word(sum);
    lemma_word_of_word(a);
    lemma_word_of_word(b);
    lemma_word_ops(xi, m);
    lemma_word_ops(xi * m, s);
    lemma_word_ops(xi * m + s, ai);
    lemma_word_ops((xi * m + s) * ai, bi);
    lemma_word_ops(m, ai);
    lemma_word_ops(s, ai);
    lemma_word_ops(s * ai, bi);
    lemma_word_ops(xi, m * ai);
    lemma_word_ops(xi * (m * ai), s * ai + bi);
    assert((xi * m + s) * ai + bi == xi * (m * ai) + (s * ai + bi)) by (nonlinear_arith);
}

/// To multiply by one and to add nothing leaves a word alone.
proof fn lemma_nothing_done(x: u64)
    ensures
        x.wrapping_mul(1) == x,
        x.wrapping_add(0) == x,
{
    let m = 0x1_0000_0000_0000_0000int;
    lemma_word_of_word(x);
    lemma_word_of_word(1);
    lemma_word_ops(x as int, 1);
    assert((x as int) * 1 == x as int) by (nonlinear_arith);
}

/// The slots where one holds what steps in one make of it.
spec fn after_steps(state: SlotState, slot: usize, steps: (u64, u64)) -> SlotState {
    state.update(slot as int, state[slot as int].wrapping_mul(steps.0).wrapping_add(steps.1))
}

/// A run of steps is the steps in one.
proof fn lemma_run_of_steps(
    instrs: Seq<InstrView>,
    at: int,
    slot: usize,
    k: nat,
    state: SlotState,
)
    requires
        0 <= at <= instrs.len(),
        k <= run_length(instrs, at, slot),
        slot < state.len(),
    ensures
        at + 2 * k <= instrs.len(),
        run(instrs.subrange(at, at + 2 * k), state) == Some(
            after_steps(state, slot, steps_in_one(instrs, at, k)),
        ),
    decreases k,
{
    lemma_run_length(instrs, at, slot);
    let code = instrs.subrange(at, at + 2 * k);
    if k == 0 {
        lemma_nothing_done(state[slot as int]);
        assert(after_steps(state, slot, (1, 0)) =~= state);
    } else {
        let before = (k - 1) as nat;
        lemma_run_of_steps(instrs, at, slot, before, state);
        lemma_run_steps(instrs, at, slot, before);
        let (_, a, b) = lcg_step(instrs, at + 2 * before)->0;
        let (mul, sum) = steps_in_one(instrs, at, before);
        assert(code.drop_last().drop_last() =~= instrs.subrange(at, at + 2 * before));
        assert(code.drop_last().last() == times(slot, a));
        assert(code.last() == plus(slot, b));
        let middle = after_steps(state, slot, (mul, sum));
        assert(run(code.drop_last(), state) == step(times(slot, a), middle));
        lemma_one_step_more(state[slot as int], mul, sum, a, b);
        assert(run(code, state)->0 =~= after_steps(state, slot, steps_in_one(instrs, at, k)));
    }
}

/// Steps that leave the slot alone do nothing.
proof fn lemma_run_of_idle_steps(code: Seq<InstrView>, slot: usize, k: nat, state: SlotState)
    requires
        2 * k <= code.len(),
        slot < state.len(),
        forall|i: int|
            0 <= i < 2 * k ==> #[trigger] code[i] == (if i % 2 == 0 {
                times(slot, 1)
            } else {
                plus(slot, 0)
            }),
    ensures
        run(code.take(2 * k as int), state) == Some(state),
    decreases k,
{
    if k > 0 {
        let part = code.take(2 * k as int);
        lemma_run_of_idle_steps(code, slot, (k - 1) as nat, state);
        assert(part.drop_last().drop_last() =~= code.take(2 * (k - 1) as int));
        assert(part.drop_last().last() == code[2 * k - 2]);
        assert(part.last() == code[2 * k - 1]);
        lemma_nothing_done(state[slot as int]);
        assert(state.update(slot as int, state[slot as int]) =~= state);
        assert(step(times(slot, 1), state) == Some(state));
        assert(step(plus(slot, 0), state) == Some(state));
        assert(run(part.drop_last(), state) == Some(state));
    }
}

/// A rewritten run does what the run does.
pub proof fn lemma_rewritten_run(
    instrs: Seq<InstrView>,
    at: int,
    slot: usize,
    n: nat,
    state: SlotState,
)
    requires
        0 <= at <= instrs.len(),
        n == run_length(instrs, at, slot),
        n > 0,
        slot < state.len(),
    ensures
        at + 2 * n <= instrs.len(),
        run(with_run_in_one(instrs, at, slot, n).subrange(at, at + 2 * n), state) == run(
            instrs.subrange(at, at + 2 * n),
            state,
        ),
{
    lemma_run_of_steps(instrs, at, slot, n, state);
    let (mul, sum) = steps_in_one(instrs, at, n);
    let code = with_run_in_one(instrs, at, slot, n).subrange(at, at + 2 * n);
    assert forall|i: int| 0 <= i < 2 * (n - 1) implies #[trigger] code[i] == (if i % 2 == 0 {
        times(slot, 1)
    } else {
        plus(slot, 0)
    }) by {
        assert(code[i] == with_run_in_one(instrs, at, slot, n)[at + i]);
    }
    lemma_run_of_idle_steps(code, slot, (n - 1) as nat, state);
    assert(code.drop_last().drop_last() =~= code.take(2 * (n - 1) as int));
    assert(code.drop_last().last() == times(slot, mul));
    assert(code.last() == plus(slot, sum));
    assert(run(code.drop_last(), state) == step(times(slot, mul), state));
    assert(run(code, state)->0 =~= after_steps(state, slot, (mul, sum)));
}

/// Code whose middle is replaced by code with the same effect has the same
/// effect.
proof fn lemma_run_replaced(
    before: Seq<InstrView>,
    after: Seq<InstrView>,
    from: int,
    to: int,
    state: SlotState,
)
    requires
        before.len() == after.len(),
        0 <= from <= to <= before.len(),
        forall|i: int|
            0 <= i < before.len() && !(from <= i < to) ==> #[trigger] after[i] == before[i],
        run(before.take(from), state) matches Some(middle) ==> run(
            after.subrange(from, to),
            middle,
        ) == run(before.subrange(from, to), middle),
        forall|i: int| from <= i < to ==> is_slot_arithmetic(#[trigger] before[i]),
        forall|i: int| from <= i < to ==> is_slot_arithmetic(#[trigger] after[i]),
    ensures
        run(after, state) == run(before, state),
        events(after, state) == events(before, state),
{
    assert(after.take(from) =~= before.take(from));
    assert(after.skip(to) =~= before.skip(to));
    lemma_run_append(before.take(from), before.subrange(from, to), state);
    lemma_run_append(after.take(from), after.subrange(from, to), state);
    let first = before.take(from) + before.subrange(from, to);
    let second = after.take(from) + after.subrange(from, to);
    lemma_run_append(first, before.skip(to), state);
    lemma_run_append(second, after.skip(to), state);
    assert(first + before.skip(to) =~= before);
    assert(second + after.skip(to) =~= after);
    lemma_events_append(before.take(from), before.subrange(from, to), state);
    lemma_events_append(after.take(from), after.subrange(from, to), state);
    lemma_events_append(first, before.skip(to), state);
    lemma_events_append(second, after.skip(to), state);
    if let Some(middle) = run(before.take(from), state) {
        let one = before.subrange(from, to);
        let other = after.subrange(from, to);
        assert forall|i: int| 0 <= i < one.len() implies is_slot_arithmetic(#[trigger] one[i]) by {
            assert(is_slot_arithmetic(before[from + i]));
        }
        assert forall|i: int| 0 <= i < other.len() implies is_slot_arithmetic(
            #[trigger] other[i],
        ) by {
            assert(is_slot_arithmetic(after[from + i]));
        }
        lemma_arithmetic_is_unseen(one, middle);
        lemma_arithmetic_is_unseen(other, middle);
    }
}

/// The instructions of a run are slot arithmetic, before it is rewritten and then.
pub proof fn lemma_run_is_arithmetic(instrs: Seq<InstrView>, at: int, slot: usize, n: nat)
    requires
        0 <= at <= instrs.len(),
        n == run_length(instrs, at, slot),
        n > 0,
    ensures
        forall|i: int| at <= i < at + 2 * n ==> is_slot_arithmetic(#[trigger] instrs[i]),
        forall|i: int|
            at <= i < at + 2 * n ==> is_slot_arithmetic(
                #[trigger] with_run_in_one(instrs, at, slot, n)[i],
            ),
{
    lemma_run_length(instrs, at, slot);
    assert forall|i: int| at <= i < at + 2 * n implies is_slot_arithmetic(#[trigger] instrs[i]) by {
        lemma_run_steps(instrs, at, slot, ((i - at) / 2) as nat);
        assert(instrs[i] == instrs[at + 2 * ((i - at) / 2)] || instrs[i] == instrs[at + 2 * ((i
            - at) / 2) + 1]);
    }
}

/// Code keeps the number of slots.
proof fn lemma_run_keeps_count(instrs: Seq<InstrView>, state: SlotState)
    requires
        slots_below(instrs, state.len() as int),
    ensures
        run(instrs, state) matches Some(end) ==> end.len() == state.len(),
    decreases instrs.len(),
{
    if instrs.len() > 0 {
        let before = instrs.drop_last();
        assert forall|i: int| 0 <= i < before.len() implies #[trigger] instr_below(
            before[i],
            state.len() as int,
        ) by {
            assert(instr_below(instrs[i], state.len() as int));
        }
        lemma_run_keeps_count(before, state);
        assert(instr_below(instrs[instrs.len() - 1], state.len() as int));
    }
}

/// Lookahead leaves the slots as the code did: straight-line code ends with the
/// same slots, traps where it did, and the same is seen of it.
pub proof fn law_lookahead_preserves_run(instrs: Seq<InstrView>, n: int, state: SlotState)
    requires
        0 <= n <= instrs.len(),
        slots_below(instrs, state.len() as int),
    ensures
        run(look_ahead(instrs, n), state) == run(instrs, state),
        events(look_ahead(instrs, n), state) == events(instrs, state),
        forall|i: int|
            0 <= i < instrs.len() ==> #[trigger] look_ahead(instrs, n)[i] == instrs[i]
                || is_slot_arithmetic(instrs[i]) && is_slot_arithmetic(look_ahead(instrs, n)[i]),
    decreases n,
{
    if n > 0 {
        law_lookahead_preserves_run(instrs, n - 1, state);
        lemma_look_ahead(instrs, n - 1, state.len() as int);
        let before = look_ahead(instrs, n - 1);
        let at = n - 1;
        if look_ahead_at(before, at) != before {
            let (slot, _, _) = lcg_step(before, at)->0;
            let length = run_length(before, at, slot);
            assert(instr_below(before[at], state.len() as int));
            lemma_run_length(before, at, slot);
            if let Some(middle) = run(before.take(at), state) {
                let first = before.take(at);
                assert forall|i: int| 0 <= i < first.len() implies #[trigger] instr_below(
                    first[i],
                    state.len() as int,
                ) by {
                    assert(instr_below(before[i], state.len() as int));
                }
                lemma_run_keeps_count(first, state);
                lemma_rewritten_run(before, at, slot, length, middle);
            }
            lemma_run_is_arithmetic(before, at, slot, length);
            lemma_run_replaced(
                before,
                look_ahead_at(before, at),
                at,
                at + 2 * length,
                state,
            );
        }
    }
}

/// How many steps on the slot follow each other from `at` on.
fn count_steps(instrs: &Vec<RuntimeInstr>, at: usize, slot: usize) -> (steps: usize)
    requires
        at <= instrs@.len(),
    ensures
        steps == run_length(instrs_view(instrs@), at as int, slot),
        at + 2 * steps <= instrs@.len(),
{
    let ghost all = instrs_view(instrs@);
    let count: usize = instrs.len();
    let mut end: usize = at;
    let mut steps: usize = 0;
    let mut in_run = true;
    while in_run
        invariant
            all == instrs_view(instrs@),
            count == instrs@.len(),
            at <= end <= instrs@.len(),
            end == at + 2 * steps,
            in_run ==> run_length(all, at as int, slot) == steps + run_length(
                all,
                end as int,
                slot,
            ),
            !in_run ==> run_length(all, at as int, slot) == steps,
        decreases instrs@.len() - end + (if in_run { 1int } else { 0int }),
    {
        in_run = match find_lcg_step(instrs, end) {
            Some((dst, _, _)) => dst == slot,
            None => false,
        };
        if in_run {
            assert(lcg_step(all, end as int) is Some);
            end = end + 2;
            steps = steps + 1;
        }
    }
    steps
}

/// Whether nothing from `from` on reads the slot.
fn find_no_reader(instrs: &Vec<RuntimeInstr>, from: usize, slot: usize) -> (unread: bool)
    requires
        from <= instrs@.len(),
    ensures
        unread == is_unread_from(instrs_view(instrs@), from as int, slot),
{
    let ghost all = instrs_view(instrs@);
    for j in from..instrs.len()
        invariant
            all == instrs_view(instrs@),
            forall|l: int| from <= l < j ==> !#[trigger] reads(all[l], slot),
    {
        assert(all[j as int] == instrs@[j as int]@);
        if runtime_instr_reads_slot(&instrs[j], slot) {
            return false;
        }
    }
    true
}

/// Whether control enters the code from `from` to `to` at its start only.
fn find_no_entry(instrs: &Vec<RuntimeInstr>, from: usize, to: usize) -> (sole: bool)
    requires
        from < to <= instrs@.len(),
    ensures
        sole == is_entered_at_start(instrs_view(instrs@), from as int, to as int),
{
    let ghost all = instrs_view(instrs@);
    let targets = control_flow_entries(instrs.as_slice());
    for j in from + 1..to
        invariant
            all == instrs_view(instrs@),
            from < j <= to <= instrs@.len(),
            targets@.len() == instrs@.len(),
            forall|l: int|
                0 <= l < targets@.len() ==> #[trigger] targets@[l] == is_entered(all, l),
            forall|l: int| from < l < j ==> !#[trigger] is_entered(all, l),
    {
        assert(targets@[j as int] == is_entered(all, j as int));
        if targets[j] {
            return false;
        }
    }
    true
}

/// Rewrites the run of steps at `at`.
fn rewrite_run(instrs: &mut Vec<RuntimeInstr>, at: usize, slot: usize, steps: usize)
    requires
        at + 2 * steps <= old(instrs)@.len(),
        steps > 0,
        steps == run_length(instrs_view(old(instrs)@), at as int, slot),
    ensures
        instrs_view(final(instrs)@) == with_run_in_one(
            instrs_view(old(instrs)@),
            at as int,
            slot,
            steps as nat,
        ),
        final(instrs)@.len() == old(instrs)@.len(),
{
    let ghost before = instrs_view(instrs@);
    let count: usize = instrs.len();
    let mut mul: u64 = 1;
    let mut sum: u64 = 0;
    for k in 0..steps
        invariant
            count == instrs@.len(),
            before.len() == count,
            at + 2 * steps <= count,
            steps == run_length(before, at as int, slot),
            (mul, sum) == steps_in_one(before, at as int, k as nat),
            forall|j: int|
                0 <= j < count && !(at <= j < at + 2 * k) ==> (#[trigger] instrs@[j])@
                    == before[j],
            forall|j: int|
                at <= j < at + 2 * k ==> (#[trigger] instrs@[j])@ == (if (j - at) % 2 == 0 {
                    times(slot, 1)
                } else {
                    plus(slot, 0)
                }),
    {
        let here: usize = at + 2 * k;
        proof {
            lemma_run_steps(before, at as int, slot, k as nat);
            assert(instrs_view(instrs@)[here as int] == before[here as int]);
            assert(instrs_view(instrs@)[here + 1] == before[here + 1]);
        }
        if let Some((_, a, b)) = find_lcg_step(instrs, here) {
            mul = mul.wrapping_mul(a);
            sum = sum.wrapping_mul(a).wrapping_add(b);
        }
        instrs.set(
            here,
            RuntimeInstr::BinOpInPlace {
                dst: slot,
                op: RuntimeBinOp::Mul,
                rhs: RuntimeOperand::Imm(1),
            },
        );
        instrs.set(
            here + 1,
            RuntimeInstr::BinOpInPlace {
                dst: slot,
                op: RuntimeBinOp::Add,
                rhs: RuntimeOperand::Imm(0),
            },
        );
    }
    let last: usize = at + 2 * (steps - 1);
    instrs.set(
        last,
        RuntimeInstr::BinOpInPlace {
            dst: slot,
            op: RuntimeBinOp::Mul,
            rhs: RuntimeOperand::Imm(mul),
        },
    );
    instrs.set(
        last + 1,
        RuntimeInstr::BinOpInPlace {
            dst: slot,
            op: RuntimeBinOp::Add,
            rhs: RuntimeOperand::Imm(sum),
        },
    );
    assert(instrs_view(instrs@) =~= with_run_in_one(before, at as int, slot, steps as nat));
}

/// Rewrites the long runs of linear congruential steps that nothing behind them
/// reads.
pub fn optimize_lcg_lookahead(instrs: &mut Vec<RuntimeInstr>)
    ensures
        instrs_view(final(instrs)@) == look_ahead(
            instrs_view(old(instrs)@),
            old(instrs)@.len() as int,
        ),
{
    let ghost all = instrs_view(instrs@);
    let count: usize = instrs.len();
    for i in 0..count
        invariant
            count == instrs@.len(),
            instrs_view(instrs@) == look_ahead(all, i as int),
    {
        let found = find_lcg_step(instrs, i);
        if let Some((slot, _, _)) = found {
            let steps: usize = count_steps(instrs, i, slot);
            if steps >= MIN_LOOKAHEAD && find_no_reader(instrs, i + 2 * steps, slot)
                && find_no_entry(instrs, i, i + 2 * steps) {
                rewrite_run(instrs, i, slot, steps);
            }
        }
    }
}

} // verus!
