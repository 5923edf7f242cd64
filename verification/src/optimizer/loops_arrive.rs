//! Accesses that lose their checks in counted loops are in bounds in every state
//! in which control can arrive.

use crate::ir::{InstrView, RuntimeCmpOp, RuntimeOperand};
use crate::optimizer::arrivals::{arrives, comes_back_to, is_path, may_pass, passes_at};
use crate::optimizer::blocks_arrive::{
    is_trace, lemma_leaves_unwritten, lemma_left_by_last_write, lemma_slots_along, lemma_unwritten,
    lemma_words_lessened, may_leave,
};
use crate::optimizer::checks::unchecked;
use crate::optimizer::consts::normalized;
use crate::optimizer::facts::SlotFacts;
use crate::optimizer::facts_laws::lemma_truncated_facts;
use crate::optimizer::guards::access_by_slot;
use crate::optimizer::inline_laws::is_same_but_target;
use crate::optimizer::loops::{
    counted_loop, index_definition, index_in_bounds, index_offset, is_normalization, loop_const,
    slot_plus_const, written_in_loop, CountedLoopInfo, LoopLimit,
};
use crate::optimizer::machine::{value_of, SlotState};
use crate::optimizer::peephole::FloatFn;
use crate::optimizer::reaching::{last_write, lemma_last_write};
use crate::optimizer::simplify_laws::lemma_part_of_way;
use crate::optimizer::slots::{instr_below, operand_below, slots_below};
use crate::optimizer::targets::{
    code_room, code_target, enters, is_boundary, is_entered, map_code_target, moved_up,
};
use crate::optimizer::uses::writes;
use crate::optimizer::versions::{
    access_room, drop_loop_checks, keeps_limit, least_room, uncheck_loop, version_loop, Versioning,
};
use vstd::prelude::*;

verus! {

/// Nothing enters the instructions behind one up to another but by falling
/// through.
pub open spec fn is_closed(instrs: Seq<InstrView>, header: int, last: int) -> bool {
    forall|t: int| header < t <= last ==> !#[trigger] is_entered(instrs, t)
}

/// No number is brought to a width with its sign in a range.
pub open spec fn has_no_signed_widths(instrs: Seq<InstrView>, from: int, to: int) -> bool {
    forall|i: int|
        from <= i < to ==> ((#[trigger] instrs[i]) matches InstrView::NormalizeInt { signed, .. }
            ==> !signed)
}

/// What is taken for constant throughout a loop is so in every state in which
/// control can arrive at its test, in the program or in what became of it.
pub open spec fn has_its_consts(
    instrs: Seq<InstrView>,
    info: CountedLoopInfo,
    now: Seq<InstrView>,
    test: int,
    slots: nat,
    floats: FloatFn,
) -> bool {
    forall|operand: RuntimeOperand, state: SlotState|
        #![trigger loop_const(instrs, info, operand), arrives(now, slots, floats, test, state)]
        operand_below(operand, slots as int) && arrives(now, slots, floats, test, state) ==> (
        loop_const(instrs, info, operand) matches Some(value) ==> value_of(operand, state)
            == value)
}

/// Control that arrives where nothing enters, and not behind a call, comes from
/// the instruction before.
proof fn lemma_falls_in(
    instrs: Seq<InstrView>,
    slots: nat,
    floats: FloatFn,
    path: Seq<(int, SlotState)>,
    i: int,
)
    requires
        is_path(instrs, slots, floats, path),
        0 <= i < path.len(),
        0 < path[i].0 < instrs.len(),
        !is_entered(instrs, path[i].0),
        !(instrs[path[i].0 - 1] is Call),
    ensures
        i > 0,
        path[i - 1].0 == path[i].0 - 1,
        may_pass(instrs, floats, path[i].0 - 1, path[i - 1].1, path[i].0, path[i].1),
{
    assert(passes_at(instrs, floats, path, i));
    let (at, state) = path[i - 1];
    if instrs[at] is Return {
        let j = choose|j: int| 0 <= j < i && #[trigger] comes_back_to(instrs, path, j, path[i].0);
        assert(instrs[path[i].0 - 1] is Call);
    } else if let Some(target) = code_target(instrs[at]) {
        if target == path[i].0 {
            assert(enters(instrs[at], path[i].0));
        }
    }
}

/// The way from the test of a loop to an instruction of its body.
proof fn lemma_body_trace(
    instrs: Seq<InstrView>,
    slots: nat,
    floats: FloatFn,
    path: Seq<(int, SlotState)>,
    n: int,
    header: int,
    last: int,
) -> (trace: Seq<SlotState>)
    requires
        slots_below(instrs, slots as int),
        is_path(instrs, slots, floats, path),
        0 <= n < path.len(),
        0 <= header < path[n].0 <= last < instrs.len(),
        instrs[header] is JumpIfCmpFalse,
        is_closed(instrs, header, last),
        forall|i: int| header < i < last ==> !is_boundary(#[trigger] instrs[i]),
    ensures
        is_trace(instrs, slots, floats, header + 1, trace),
        header + trace.len() == path[n].0,
        trace.last() == path[n].1,
        arrives(instrs, slots, floats, header, trace[0]),
        may_pass(instrs, floats, header, trace[0], header + 1, trace[0]),
    decreases n,
{
    let (at, state) = path[n];
    assert(!is_entered(instrs, at));
    if at > header + 1 {
        assert(!is_boundary(instrs[at - 1]));
    }
    lemma_falls_in(instrs, slots, floats, path, n);
    lemma_slots_along(instrs, slots, floats, path, n);
    if at == header + 1 {
        lemma_part_of_way(instrs, slots, floats, path, n - 1);
        seq![state]
    } else {
        let shorter = lemma_body_trace(instrs, slots, floats, path, n - 1, header, last);
        let trace = shorter.push(state);
        let from = header + 1;
        assert forall|k: int| 0 <= k < trace.len() - 1 implies may_leave(
            instrs[from + k],
            floats,
            #[trigger] trace[k],
            trace[k + 1],
        ) by {
            if k < shorter.len() - 1 {
                assert(trace[k] == shorter[k] && trace[k + 1] == shorter[k + 1]);
            } else {
                assert(trace[k] == path[n - 1].1);
                assert(instrs[from + k] == instrs[at - 1]);
                if let InstrView::ThreadSpawn { target, .. } = instrs[at - 1] {
                    if target == at {
                        assert(enters(instrs[at - 1], at));
                    }
                }
            }
        }
        trace
    }
}

/// A number that is brought to a width without its sign does not grow.
proof fn lemma_width(value: u64, bits: u16)
    ensures
        normalized(value, false, bits) <= value,
{
    lemma_truncated_facts(SlotFacts { upper: Some(value), exact: None }, value, false, bits);
}

/// A slot that the code from one instruction on does not write holds what it
/// held.
proof fn lemma_kept_in_body(
    instrs: Seq<InstrView>,
    slots: nat,
    floats: FloatFn,
    from: int,
    trace: Seq<SlotState>,
    before: int,
    slot: usize,
)
    requires
        slots_below(instrs, slots as int),
        is_trace(instrs, slots, floats, from, trace),
        from <= before < from + trace.len(),
        slot < slots,
        forall|k: int| from <= k < before ==> !writes(#[trigger] instrs[k], slot),
    ensures
        trace[before - from][slot as int] == trace[0][slot as int],
{
    lemma_unwritten(instrs, slots, floats, from, trace, from, before, slot);
}

/// A constant of the loop is what the operand has in its body.
proof fn lemma_const_in_body(
    instrs: Seq<InstrView>,
    slots: nat,
    floats: FloatFn,
    info: CountedLoopInfo,
    trace: Seq<SlotState>,
    before: int,
    operand: RuntimeOperand,
)
    requires
        slots_below(instrs, slots as int),
        has_its_consts(instrs, info, instrs, info.header as int, slots, floats),
        is_trace(instrs, slots, floats, info.header + 1, trace),
        arrives(instrs, slots, floats, info.header as int, trace[0]),
        info.header < before <= info.update_idx,
        before < info.header + 1 + trace.len(),
        before <= instrs.len(),
        operand_below(operand, slots as int),
    ensures
        loop_const(instrs, info, operand) matches Some(value) ==> value_of(
            operand,
            trace[before - info.header - 1],
        ) == value,
{
    let found = loop_const(instrs, info, operand);
    if let RuntimeOperand::Slot(slot) = operand {
        if found is Some {
            assert(!written_in_loop(instrs, info, slot));
            assert forall|k: int| info.header + 1 <= k < before implies !writes(
                #[trigger] instrs[k],
                slot,
            ) by {}
            lemma_kept_in_body(instrs, slots, floats, info.header + 1, trace, before, slot);
        }
    }
}

/// What the way through the body of a loop needs.
spec fn is_in_body(
    instrs: Seq<InstrView>,
    slots: nat,
    floats: FloatFn,
    info: CountedLoopInfo,
    trace: Seq<SlotState>,
    last: int,
) -> bool {
    &&& slots_below(instrs, slots as int)
    &&& has_its_consts(instrs, info, instrs, info.header as int, slots, floats)
    &&& is_trace(instrs, slots, floats, info.header + 1, trace)
    &&& arrives(instrs, slots, floats, info.header as int, trace[0])
    &&& info.header < last < info.update_idx < instrs.len()
    &&& last < info.header + 1 + trace.len()
    &&& info.ind_slot < slots
    &&& forall|i: int|
        info.header < i < info.update_idx ==> !writes(#[trigger] instrs[i], info.ind_slot)
    &&& has_no_signed_widths(instrs, info.header + 1, last)
}

/// An index that the loop bounds is below the bound.
#[verifier::rlimit(30)]
proof fn lemma_index_in_body(
    instrs: Seq<InstrView>,
    slots: nat,
    floats: FloatFn,
    info: CountedLoopInfo,
    trace: Seq<SlotState>,
    last: int,
    before: int,
    slot: usize,
    base_len: nat,
    depth: nat,
)
    requires
        is_in_body(instrs, slots, floats, info, trace, last),
        info.header < before <= last,
        slot < slots,
        info.limit matches LoopLimit::Imm(limit) ==> trace[0][info.ind_slot as int] < limit,
        index_in_bounds(instrs, before, info, slot, base_len, depth),
    ensures
        trace[before - info.header - 1][slot as int] < base_len,
    decreases before,
{
    let from = info.header + 1;
    if slot == info.ind_slot {
        lemma_kept_in_body(instrs, slots, floats, from, trace, before, slot);
    } else {
        lemma_last_write(instrs, from, before, slot);
        lemma_left_by_last_write(instrs, slots, floats, from, trace, before, slot);
        let top = last_write(instrs, from, before, slot)->0;
        let at = index_definition(instrs, from, before, slot)->0;
        if is_normalization(instrs[top], slot) {
            lemma_last_write(instrs, from, top, slot);
            lemma_left_by_last_write(instrs, slots, floats, from, trace, top, slot);
            let bits = instrs[top]->NormalizeInt_bits;
            lemma_width(trace[top - from][slot as int], bits);
        }
        let (old, new) = (trace[at - from], trace[at - from + 1]);
        assert(trace[before - from][slot as int] <= new[slot as int]);
        assert(instr_below(instrs[at], slots as int));
        match instrs[at] {
            InstrView::Mov { src: RuntimeOperand::Slot(source), .. } => {
                lemma_index_in_body(
                    instrs,
                    slots,
                    floats,
                    info,
                    trace,
                    last,
                    at,
                    source,
                    base_len,
                    depth + 1,
                );
            },
            InstrView::BinOp { op, lhs, rhs, .. } => {
                lemma_const_in_body(instrs, slots, floats, info, trace, at, lhs);
                lemma_const_in_body(instrs, slots, floats, info, trace, at, rhs);
                let (a, b) = (value_of(lhs, old), value_of(rhs, old));
                lemma_words_lessened(a, b, a, 0);
                if op is Add {
                    if let Some((source, offset)) = slot_plus_const(lhs, rhs, instrs, info) {
                        lemma_index_in_body(
                            instrs,
                            slots,
                            floats,
                            info,
                            trace,
                            last,
                            at,
                            source,
                            (base_len - offset) as nat,
                            depth + 1,
                        );
                    }
                }
            },
            _ => {},
        }
    }
}

/// An access that loses its check because the limit of its loop makes it
/// redundant is in bounds in every state in which control can arrive there, where
/// nothing enters the body of the loop but through its test, what is taken for
/// constant throughout the loop is so, and no number of the body is brought to a
/// width with its sign. Checks before the access may be gone by then.
pub proof fn law_unchecked_in_loop_is_in_bounds(
    start: Seq<InstrView>,
    instrs: Seq<InstrView>,
    slots: nat,
    floats: FloatFn,
    info: CountedLoopInfo,
    at: int,
    state: SlotState,
)
    requires
        slots_below(instrs, slots as int),
        instrs.len() <= usize::MAX,
        info.latch < instrs.len(),
        counted_loop(instrs, info.latch as int, true) == Some(info),
        is_closed(instrs, info.header as int, at),
        has_its_consts(instrs, info, instrs, info.header as int, slots, floats),
        has_no_signed_widths(instrs, info.header + 1, at),
        info.header < at < info.update_idx,
        arrives(instrs, slots, floats, at, state),
        instrs == drop_loop_checks(start, info, at),
        drop_loop_checks(start, info, at + 1)[at] != instrs[at],
    ensures
        access_by_slot(instrs[at]) matches Some((base_len, slot)) && state[slot as int] < base_len,
{
    let path = choose|path: Seq<(int, SlotState)>| #[trigger]
        is_path(instrs, slots, floats, path) && path.last() == (at, state);
    assert(path[path.len() - 1] == path.last());
    let header = info.header as int;
    assert(instr_below(instrs[header], slots as int));
    assert(instr_below(instrs[at], slots as int));
    assert forall|i: int| header < i < info.update_idx implies !writes(
        #[trigger] instrs[i],
        info.ind_slot,
    ) && !is_boundary(instrs[i]) by {}
    let trace = lemma_body_trace(instrs, slots, floats, path, path.len() - 1, header, at);
    let (base_len, slot) = access_by_slot(instrs[at])->0;
    lemma_index_in_body(instrs, slots, floats, info, trace, at, at, slot, base_len, 0);
}

/// The comparison that a versioned loop stands behind.
spec fn loop_guard(limit: usize, room: int, target: usize) -> InstrView {
    InstrView::JumpIfCmpFalse {
        op: RuntimeCmpOp::LeUnsigned,
        lhs: RuntimeOperand::Slot(limit),
        rhs: RuntimeOperand::Imm(room as u64),
        target,
    }
}

/// A loop that is versioned: by its limit, which is a slot, and the room that the
/// accesses of its body have.
pub open spec fn is_versioned(
    before: Versioning,
    info: CountedLoopInfo,
    limit: usize,
    room: int,
) -> bool {
    let instrs = before.instrs;
    &&& instrs.len() + 2 < usize::MAX
    &&& code_room(instrs, 1)
    &&& info.latch < instrs.len()
    &&& counted_loop(instrs, info.latch as int, true) == Some(info)
    &&& before.exit_at matches Some(exit_at) ==> info.latch < exit_at < instrs.len()
    &&& info.limit == LoopLimit::Slot(limit)
    &&& least_room(instrs, info, info.update_idx as int) == Some(room)
    &&& room > 0
    &&& keeps_limit(instrs, info, limit)
}

/// An instruction of a versioned loop: the same but for its check and what it
/// names.
spec fn is_kept_in_version(new: InstrView, old: InstrView) -> bool {
    is_same_but_target(new, old) || is_same_but_target(new, unchecked(old))
}

/// What a versioned loop looks like.
proof fn lemma_versioned(before: Versioning, info: CountedLoopInfo, limit: usize, room: int)
    requires
        is_versioned(before, info, limit, room),
        is_closed(before.instrs, info.header as int, info.latch as int),
        forall|i: int|
            0 <= i < before.instrs.len() && enters(
                #[trigger] before.instrs[i],
                info.header as int,
            ) ==> i == info.latch,
    ensures
        ({
            let new = version_loop(before, info).instrs;
            let header = info.header as int;
            &&& new.len() > before.instrs.len()
            &&& exists|target: usize|
                new[header] == #[trigger] loop_guard(limit, room, target) && target > info.latch + 1
            &&& forall|i: int|
                header <= i <= info.latch ==> is_kept_in_version(
                    #[trigger] new[i + 1],
                    before.instrs[i],
                )
            &&& is_closed(new, header + 1, info.latch + 1)
            &&& forall|i: int|
                0 <= i < new.len() && enters(#[trigger] new[i], header + 1) ==> i == info.latch + 1
        }),
{
    let old = before.instrs;
    let new = version_loop(before, info).instrs;
    let header = info.header as int;
    let bare = uncheck_loop(old, info);
    let (wide, exit_at) = match before.exit_at {
        Some(exit_at) => (bare, exit_at),
        None => (
            bare.push(InstrView::Exit { code: RuntimeOperand::Imm(255) }),
            bare.len() as int,
        ),
    };
    let f = moved_up(info.header, 1);
    let target = (exit_at + 1) as usize;
    assert(new[header] == loop_guard(limit, room, target));
    assert forall|i: int| header <= i <= info.latch implies is_kept_in_version(
        #[trigger] new[i + 1],
        old[i],
    ) by {
        assert(new[i + 1] == map_code_target(bare[i], f));
    }
    assert forall|i: int, t: int|
        0 <= i < new.len() && header < t <= info.latch + 1 && #[trigger] enters(
            new[i],
            t,
        ) implies (t == header + 1 && i == info.latch + 1) by {
        if i != header {
            let k = if i < header {
                i
            } else {
                i - 1
            };
            assert(new[i] == map_code_target(wide[k], f));
            if k < old.len() {
                assert(wide[k] == old[k] || wide[k] == unchecked(old[k]));
                assert(code_target(wide[k]) == code_target(old[k]));
                assert(code_target(old[k]) matches Some(to) ==> to + 1 <= usize::MAX);
                let to = code_target(old[k])->0;
                assert(f(to) == t);
                assert(to == t - 1);
                assert(enters(old[k], t - 1));
                if t - 1 > header {
                    assert(is_entered(old, t - 1));
                }
            }
        }
    }
    assert forall|t: int| header + 1 < t <= info.latch + 1 implies !#[trigger] is_entered(
        new,
        t,
    ) by {
        if is_entered(new, t) {
            let i = choose|i: int| 0 <= i < new.len() && #[trigger] enters(new[i], t);
            assert(enters(new[i], t));
        }
    }
}

/// Inside of a versioned loop the limit is within the room, and behind the test
/// it is no longer the number that is counted.
proof fn lemma_within_room(
    before: Versioning,
    info: CountedLoopInfo,
    limit: usize,
    room: int,
    slots: nat,
    floats: FloatFn,
    path: Seq<(int, SlotState)>,
    n: int,
)
    requires
        is_versioned(before, info, limit, room),
        is_closed(before.instrs, info.header as int, info.latch as int),
        forall|i: int|
            0 <= i < before.instrs.len() && enters(
                #[trigger] before.instrs[i],
                info.header as int,
            ) ==> i == info.latch,
        slots_below(version_loop(before, info).instrs, slots as int),
        room <= u64::MAX,
        is_path(version_loop(before, info).instrs, slots, floats, path),
        0 <= n < path.len(),
        info.header + 1 <= path[n].0 <= info.latch + 1,
    ensures
        path[n].1.len() == slots,
        path[n].1[limit as int] <= room,
        path[n].0 > info.header + 1 ==> limit != info.ind_slot,
    decreases n,
{
    let old = before.instrs;
    let new = version_loop(before, info).instrs;
    let header = info.header as int;
    lemma_versioned(before, info, limit, room);
    lemma_slots_along(new, slots, floats, path, n);
    let (at, state) = path[n];
    assert(is_kept_in_version(new[header + 1], old[header]));
    if at == header + 1 {
        assert(passes_at(new, floats, path, n));
        let (from, earlier) = path[n - 1];
        if new[from] is Return {
            let j = choose|j: int| 0 <= j < n && #[trigger] comes_back_to(new, path, j, at);
            assert(new[header] is Call);
        } else if enters(new[from], header + 1) {
            assert(is_kept_in_version(new[info.latch + 1], old[info.latch as int]));
            lemma_within_room(before, info, limit, room, slots, floats, path, n - 1);
        } else {
            assert(from == header);
        }
    } else {
        assert(is_kept_in_version(new[at - 1], old[at - 2]));
        assert(!is_entered(new, at));
        if at - 2 > header && at - 2 != info.update_idx && at - 2 != info.latch - 1 {
            assert(!is_boundary(old[at - 2]));
        }
        lemma_falls_in(new, slots, floats, path, n);
        lemma_within_room(before, info, limit, room, slots, floats, path, n - 1);
        lemma_slots_along(new, slots, floats, path, n - 1);
        assert(instr_below(new[at - 1], slots as int));
        assert(instr_below(new[header], slots as int));
        if at - 2 > header {
            if let InstrView::ThreadSpawn { target, .. } = new[at - 1] {
                if target == at {
                    assert(enters(new[at - 1], at));
                }
            }
            assert(may_leave(new[at - 1], floats, path[n - 1].1, state));
            lemma_leaves_unwritten(new[at - 1], floats, path[n - 1].1, state);
            assert(!writes(new[at - 1], limit));
            assert(state[limit as int] == path[n - 1].1[limit as int]);
        }
    }
}

/// A slot is written last in the body of a versioned loop where it was before.
proof fn lemma_version_write(
    old: Seq<InstrView>,
    new: Seq<InstrView>,
    from: int,
    before: int,
    slot: usize,
)
    requires
        0 <= from,
        forall|i: int| from <= i < before ==> is_kept_in_version(#[trigger] new[i + 1], old[i]),
    ensures
        last_write(new, from + 1, before + 1, slot) == (match last_write(old, from, before, slot) {
            Some(at) => Some(at + 1),
            None => None,
        }),
    decreases before - from,
{
    if before > from {
        lemma_version_write(old, new, from, before - 1, slot);
        assert(is_kept_in_version(new[before - 1 + 1], old[before - 1]));
        assert(writes(new[before], slot) == writes(old[before - 1], slot));
    }
}

/// What the way through the body of a versioned loop needs.
spec fn is_in_version(
    old: Seq<InstrView>,
    new: Seq<InstrView>,
    slots: nat,
    floats: FloatFn,
    info: CountedLoopInfo,
    trace: Seq<SlotState>,
    last: int,
) -> bool {
    &&& slots_below(new, slots as int)
    &&& has_its_consts(old, info, new, info.header + 1, slots, floats)
    &&& is_trace(new, slots, floats, info.header + 2, trace)
    &&& arrives(new, slots, floats, info.header + 1, trace[0])
    &&& info.header < last < info.update_idx < old.len() < new.len()
    &&& last < info.header + 1 + trace.len()
    &&& info.ind_slot < slots
    &&& forall|i: int|
        info.header < i < info.update_idx ==> !writes(#[trigger] old[i], info.ind_slot)
    &&& forall|i: int|
        info.header <= i <= info.latch ==> is_kept_in_version(#[trigger] new[i + 1], old[i])
    &&& info.update_idx < info.latch
    &&& has_no_signed_widths(old, info.header + 1, last)
}

/// A slot that the body of a loop does not write holds in its version what it
/// held.
proof fn lemma_kept_in_version(
    old: Seq<InstrView>,
    new: Seq<InstrView>,
    slots: nat,
    floats: FloatFn,
    info: CountedLoopInfo,
    trace: Seq<SlotState>,
    last: int,
    before: int,
    slot: usize,
)
    requires
        is_in_version(old, new, slots, floats, info, trace, last),
        info.header < before <= last,
        slot < slots,
        forall|k: int| info.header < k < before ==> !writes(#[trigger] old[k], slot),
    ensures
        trace[before - info.header - 1][slot as int] == trace[0][slot as int],
{
    assert forall|k: int| info.header + 2 <= k < before + 1 implies !writes(
        #[trigger] new[k],
        slot,
    ) by {
        assert(is_kept_in_version(new[k - 1 + 1], old[k - 1]));
        assert(!writes(old[k - 1], slot));
    }
    lemma_kept_in_body(new, slots, floats, info.header + 2, trace, before + 1, slot);
}

/// A constant of the loop is what the operand has in the body of its version.
proof fn lemma_const_in_version(
    old: Seq<InstrView>,
    new: Seq<InstrView>,
    slots: nat,
    floats: FloatFn,
    info: CountedLoopInfo,
    trace: Seq<SlotState>,
    last: int,
    before: int,
    operand: RuntimeOperand,
)
    requires
        is_in_version(old, new, slots, floats, info, trace, last),
        info.header < before <= last,
        operand_below(operand, slots as int),
    ensures
        loop_const(old, info, operand) matches Some(value) ==> value_of(
            operand,
            trace[before - info.header - 1],
        ) == value,
{
    let found = loop_const(old, info, operand);
    if let RuntimeOperand::Slot(slot) = operand {
        if found is Some {
            assert(!written_in_loop(old, info, slot));
            assert forall|k: int| info.header < k < before implies !writes(
                #[trigger] old[k],
                slot,
            ) by {}
            lemma_kept_in_version(old, new, slots, floats, info, trace, last, before, slot);
        }
    }
}

/// An index lies no farther above the number that is counted than it is taken
/// to.
#[verifier::rlimit(30)]
proof fn lemma_offset_in_version(
    old: Seq<InstrView>,
    new: Seq<InstrView>,
    slots: nat,
    floats: FloatFn,
    info: CountedLoopInfo,
    trace: Seq<SlotState>,
    last: int,
    before: int,
    slot: usize,
    depth: nat,
)
    requires
        is_in_version(old, new, slots, floats, info, trace, last),
        info.header < before <= last,
        slot < slots,
    ensures
        index_offset(old, before, info, slot, depth) matches Some(offset)
            ==> trace[before - info.header - 1][slot as int] <= trace[0][info.ind_slot as int]
            + offset,
    decreases before,
{
    let from = info.header + 1;
    if slot == info.ind_slot {
        lemma_kept_in_version(old, new, slots, floats, info, trace, last, before, slot);
    } else if index_offset(old, before, info, slot, depth) is Some {
        lemma_last_write(old, from, before, slot);
        lemma_version_write(old, new, from, before, slot);
        lemma_left_by_last_write(new, slots, floats, from + 1, trace, before + 1, slot);
        let at = last_write(old, from, before, slot)->0;
        let (prior, after) = (trace[at - from], trace[at - from + 1]);
        assert(is_kept_in_version(new[at + 1], old[at]));
        assert(instr_below(new[at + 1], slots as int));
        match old[at] {
            InstrView::NormalizeInt { bits, .. } => {
                lemma_offset_in_version(
                    old,
                    new,
                    slots,
                    floats,
                    info,
                    trace,
                    last,
                    at,
                    slot,
                    depth + 1,
                );
                lemma_width(prior[slot as int], bits);
            },
            InstrView::Mov { src: RuntimeOperand::Slot(source), .. } => {
                lemma_offset_in_version(
                    old,
                    new,
                    slots,
                    floats,
                    info,
                    trace,
                    last,
                    at,
                    source,
                    depth + 1,
                );
            },
            InstrView::BinOp { op, lhs, rhs, .. } => {
                lemma_const_in_version(old, new, slots, floats, info, trace, last, at, lhs);
                lemma_const_in_version(old, new, slots, floats, info, trace, last, at, rhs);
                if let Some((source, _)) = slot_plus_const(lhs, rhs, old, info) {
                    lemma_offset_in_version(
                        old,
                        new,
                        slots,
                        floats,
                        info,
                        trace,
                        last,
                        at,
                        source,
                        depth + 1,
                    );
                }
            },
            _ => {},
        }
    }
}

/// The least room is no more than that of each access.
proof fn lemma_room_of_access(instrs: Seq<InstrView>, info: CountedLoopInfo, n: int, at: int)
    requires
        info.header < at < n,
        access_room(instrs, info, at) is Some,
    ensures
        least_room(instrs, info, n) matches Some(least) && least <= access_room(
            instrs,
            info,
            at,
        )->0,
    decreases n,
{
    if at < n - 1 {
        lemma_room_of_access(instrs, info, n - 1, at);
    }
}

/// An access that loses its check in a loop that is versioned is in bounds in
/// every state in which control can arrive there, where nothing enters the loop
/// but through the comparison before it and its own jump back, what is taken for
/// constant throughout the loop is so, and no number of the body is brought to a
/// width with its sign.
pub proof fn law_unchecked_in_versioned_loop_is_in_bounds(
    before: Versioning,
    slots: nat,
    floats: FloatFn,
    info: CountedLoopInfo,
    limit: usize,
    room: int,
    at: int,
    state: SlotState,
)
    requires
        is_versioned(before, info, limit, room),
        room <= u64::MAX,
        is_closed(before.instrs, info.header as int, info.latch as int),
        forall|i: int|
            0 <= i < before.instrs.len() && enters(
                #[trigger] before.instrs[i],
                info.header as int,
            ) ==> i == info.latch,
        slots_below(version_loop(before, info).instrs, slots as int),
        has_its_consts(
            before.instrs,
            info,
            version_loop(before, info).instrs,
            info.header + 1,
            slots,
            floats,
        ),
        has_no_signed_widths(before.instrs, info.header + 1, at),
        info.header < at < info.update_idx,
        access_room(before.instrs, info, at) is Some,
        arrives(version_loop(before, info).instrs, slots, floats, at + 1, state),
    ensures
        version_loop(before, info).instrs[at + 1] == unchecked(before.instrs[at]),
        access_by_slot(before.instrs[at]) matches Some((base_len, slot)) && state[slot as int]
            < base_len,
{
    let old = before.instrs;
    let new = version_loop(before, info).instrs;
    let header = info.header as int;
    lemma_versioned(before, info, limit, room);
    let path = choose|path: Seq<(int, SlotState)>| #[trigger]
        is_path(new, slots, floats, path) && path.last() == (at + 1, state);
    let n = path.len() - 1;
    assert(path[n] == path.last());
    assert(is_kept_in_version(new[header + 1], old[header]));
    assert(is_kept_in_version(new[at + 1], old[at]));
    assert(instr_below(new[header + 1], slots as int));
    assert(instr_below(new[at + 1], slots as int));
    assert forall|i: int| header + 1 < i < at + 1 implies !is_boundary(#[trigger] new[i]) by {
        assert(is_kept_in_version(new[i - 1 + 1], old[i - 1]));
        assert(!is_boundary(old[i - 1]));
    }
    assert forall|i: int| header < i < info.update_idx implies !writes(
        #[trigger] old[i],
        info.ind_slot,
    ) by {}
    let trace = lemma_body_trace(new, slots, floats, path, n, header + 1, at + 1);
    lemma_within_room(before, info, limit, room, slots, floats, path, n);
    let (base_len, slot) = access_by_slot(old[at])->0;
    lemma_offset_in_version(old, new, slots, floats, info, trace, at, at, slot, 0);
    assert forall|k: int| header < k < at implies !writes(#[trigger] old[k], limit) by {}
    lemma_kept_in_version(old, new, slots, floats, info, trace, at, at, limit);
    lemma_room_of_access(old, info, info.update_idx as int, at);
}

} // verus!
