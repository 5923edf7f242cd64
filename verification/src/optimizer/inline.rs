//! Inlining of leaf routines and tail calls.

use crate::ir::{instrs_view, InstrView, RuntimeInstr};
use crate::optimizer::slots::{instr_below, slots_below};
use crate::optimizer::targets::{
    code_room, code_target, map_code_target, map_code_targets, moved_up,
    remap_instr_targets_after_inline,
};
use vstd::prelude::*;

verus! {

/// How many instructions inlining may add to a program.
pub const MAX_INLINE_EXPANSION: usize = 16_384;

/// An instruction that a leaf routine may not hold: it branches, ends the
/// program, or acts on files, threads or channels.
pub open spec fn blocks_inlining(instr: InstrView) -> bool {
    match instr {
        InstrView::Call { .. }
        | InstrView::ThreadSpawn { .. }
        | InstrView::ThreadJoin { .. }
        | InstrView::ChannelCreate { .. }
        | InstrView::ChannelSend { .. }
        | InstrView::ChannelRecv { .. }
        | InstrView::ChannelClose { .. }
        | InstrView::ChannelDestroy { .. }
        | InstrView::Jump { .. }
        | InstrView::JumpIfZero { .. }
        | InstrView::JumpIfCmpFalse { .. }
        | InstrView::FileOpen { .. }
        | InstrView::FileWrite { .. }
        | InstrView::FileRead { .. }
        | InstrView::FileClose { .. }
        | InstrView::Exit { .. } => true,
        _ => false,
    }
}

/// The return that ends the leaf routine starting at `start`, if it is one.
pub open spec fn leaf_end(instrs: Seq<InstrView>, start: int) -> Option<usize>
    decreases instrs.len() - start,
{
    if 0 <= start < instrs.len() {
        if instrs[start] == InstrView::Return {
            Some(start as usize)
        } else if blocks_inlining(instrs[start]) {
            None
        } else {
            leaf_end(instrs, start + 1)
        }
    } else {
        None
    }
}

/// A leaf routine ends within the program, and nothing before its end blocks
/// inlining.
pub proof fn lemma_leaf_end(instrs: Seq<InstrView>, start: int)
    requires
        0 <= start,
        instrs.len() <= usize::MAX,
        leaf_end(instrs, start) is Some,
    ensures
        start <= leaf_end(instrs, start)->0 < instrs.len(),
        forall|i: int|
            start <= i < leaf_end(instrs, start)->0 ==> !blocks_inlining(#[trigger] instrs[i])
                && !(instrs[i] is Return),
        instrs[leaf_end(instrs, start)->0 as int] is Return,
    decreases instrs.len() - start,
{
    if start < instrs.len() && instrs[start] != InstrView::Return && !blocks_inlining(
        instrs[start],
    ) {
        lemma_leaf_end(instrs, start + 1);
    }
}

/// The return that ends the leaf routine at `target`, if it is one.
pub fn leaf_body_end(instrs: &Vec<RuntimeInstr>, target: usize) -> (end: Option<usize>)
    ensures
        end == leaf_end(instrs_view(instrs@), target as int),
{
    let ghost all = instrs_view(instrs@);
    let mut i: usize = target;
    while i < instrs.len()
        invariant
            all == instrs_view(instrs@),
            leaf_end(all, i as int) == leaf_end(all, target as int),
        decreases instrs@.len() - i,
    {
        assert(all[i as int] == instrs@[i as int]@);
        match &instrs[i] {
            RuntimeInstr::Return => {
                return Some(i);
            },
            RuntimeInstr::Call { .. }
            | RuntimeInstr::ThreadSpawn { .. }
            | RuntimeInstr::ThreadJoin { .. }
            | RuntimeInstr::ChannelCreate { .. }
            | RuntimeInstr::ChannelSend { .. }
            | RuntimeInstr::ChannelRecv { .. }
            | RuntimeInstr::ChannelClose { .. }
            | RuntimeInstr::ChannelDestroy { .. }
            | RuntimeInstr::Jump { .. }
            | RuntimeInstr::JumpIfZero { .. }
            | RuntimeInstr::JumpIfCmpFalse { .. }
            | RuntimeInstr::FileOpen { .. }
            | RuntimeInstr::FileWrite { .. }
            | RuntimeInstr::FileRead { .. }
            | RuntimeInstr::FileClose { .. }
            | RuntimeInstr::Exit { .. } => {
                return None;
            },
            _ => {},
        }
        i = i + 1;
    }
    None
}

/// Inlining in progress: the program, how much it has grown, whether this
/// round has changed anything, and whether the growth limit stopped it.
pub struct Inlining {
    pub instrs: Seq<InstrView>,
    pub added: nat,
    pub changed: bool,
    pub stopped: bool,
}

/// The program with the call at `index` replaced by the routine's body.
pub open spec fn spliced(
    instrs: Seq<InstrView>,
    index: int,
    body: Seq<InstrView>,
) -> Seq<InstrView> {
    let longer = instrs.take(index) + body + instrs.skip(index + 1);
    if body.len() > 1 {
        map_code_targets(longer, moved_up((index + 1) as usize, (body.len() - 1) as usize))
    } else {
        longer
    }
}

/// One round of inlining from `index` on: each call of a leaf routine becomes
/// the routine's body, and the code copied in is scanned on from its second
/// instruction. A call of an empty routine becomes a jump to the next
/// instruction.
pub open spec fn inline_round(state: Inlining, index: int) -> Inlining
    decreases MAX_INLINE_EXPANSION - state.added, state.instrs.len() - index,
    when 0 <= index && state.added <= MAX_INLINE_EXPANSION
{
    let instrs = state.instrs;
    if index >= instrs.len() {
        state
    } else {
        match instrs[index] {
            InstrView::Call { target } => match leaf_end(instrs, target as int) {
                Some(end) => {
                    let body = instrs.subrange(target as int, end as int);
                    if body.len() == 0 {
                        inline_round(
                            Inlining {
                                instrs: instrs.update(
                                    index,
                                    InstrView::Jump { target: (index + 1) as usize },
                                ),
                                changed: true,
                                ..state
                            },
                            index + 1,
                        )
                    } else if state.added + body.len() > MAX_INLINE_EXPANSION {
                        Inlining { stopped: true, ..state }
                    } else {
                        inline_round(
                            Inlining {
                                instrs: spliced(instrs, index, body),
                                added: (state.added + (body.len() - 1)) as nat,
                                changed: true,
                                ..state
                            },
                            index + 1,
                        )
                    }
                },
                None => inline_round(state, index + 1),
            },
            _ => inline_round(state, index + 1),
        }
    }
}

/// How many of the instructions are calls.
pub open spec fn call_count(instrs: Seq<InstrView>) -> nat
    decreases instrs.len(),
{
    if instrs.len() == 0 {
        0
    } else {
        call_count(instrs.drop_last()) + if instrs.last() is Call {
            1nat
        } else {
            0nat
        }
    }
}

/// Calls of two lists in a row.
pub proof fn lemma_call_count_append(a: Seq<InstrView>, b: Seq<InstrView>)
    ensures
        call_count(a + b) == call_count(a) + call_count(b),
    decreases b.len(),
{
    if b.len() == 0 {
        assert(a + b =~= a);
    } else {
        lemma_call_count_append(a, b.drop_last());
        assert((a + b).drop_last() =~= a + b.drop_last());
        assert((a + b).last() == b.last());
    }
}

/// Calls of lists that agree on which instructions are calls.
pub proof fn lemma_call_count_same(a: Seq<InstrView>, b: Seq<InstrView>)
    requires
        a.len() == b.len(),
        forall|i: int| 0 <= i < a.len() ==> (#[trigger] a[i] is Call) == (b[i] is Call),
    ensures
        call_count(a) == call_count(b),
    decreases a.len(),
{
    if a.len() > 0 {
        assert(a[a.len() - 1] is Call == b[a.len() - 1] is Call);
        assert forall|i: int| 0 <= i < a.drop_last().len() implies (#[trigger] a.drop_last()[i]
            is Call) == (b.drop_last()[i] is Call) by {
            assert(a[i] is Call == b[i] is Call);
        }
        lemma_call_count_same(a.drop_last(), b.drop_last());
    }
}

/// A list with no call has none.
pub proof fn lemma_call_count_none(a: Seq<InstrView>)
    requires
        forall|i: int| 0 <= i < a.len() ==> !(#[trigger] a[i] is Call),
    ensures
        call_count(a) == 0,
    decreases a.len(),
{
    if a.len() > 0 {
        assert(!(a[a.len() - 1] is Call));
        assert forall|i: int| 0 <= i < a.drop_last().len() implies !(#[trigger] a.drop_last()[i]
            is Call) by {
            assert(!(a[i] is Call));
        }
        lemma_call_count_none(a.drop_last());
    }
}

/// Replacing a call by instructions without calls leaves one call fewer.
pub proof fn lemma_call_count_splice(instrs: Seq<InstrView>, index: int, body: Seq<InstrView>)
    requires
        0 <= index < instrs.len(),
        instrs[index] is Call,
        forall|i: int| 0 <= i < body.len() ==> !(#[trigger] body[i] is Call),
    ensures
        call_count(spliced(instrs, index, body)) + 1 == call_count(instrs),
{
    let front = instrs.take(index);
    let back = instrs.skip(index + 1);
    let call = seq![instrs[index]];
    assert(instrs =~= front + call + back);
    lemma_call_count_append(front + call, back);
    lemma_call_count_append(front, call);
    assert(call.drop_last() =~= Seq::<InstrView>::empty());
    assert(call_count(call) == 1) by {
        reveal_with_fuel(call_count, 2);
    }
    lemma_call_count_append(front + body, back);
    lemma_call_count_append(front, body);
    lemma_call_count_none(body);
    let longer = front + body + back;
    if body.len() > 1 {
        let f = moved_up((index + 1) as usize, (body.len() - 1) as usize);
        lemma_call_count_same(longer, map_code_targets(longer, f));
    }
}

/// A round never adds calls, and one that changes the program removes some.
pub proof fn lemma_inline_round_calls(state: Inlining, index: int)
    requires
        0 <= index,
        state.added <= MAX_INLINE_EXPANSION,
        state.instrs.len() + (MAX_INLINE_EXPANSION - state.added) <= usize::MAX,
    ensures
        call_count(inline_round(state, index).instrs) <= call_count(state.instrs),
        !state.changed && inline_round(state, index).changed ==> call_count(
            inline_round(state, index).instrs,
        ) < call_count(state.instrs),
        inline_round(state, index).added <= MAX_INLINE_EXPANSION,
        inline_round(state, index).instrs.len() + (MAX_INLINE_EXPANSION - inline_round(
            state,
            index,
        ).added) <= state.instrs.len() + (MAX_INLINE_EXPANSION - state.added),
        inline_round(state, index).added >= state.added,
    decreases MAX_INLINE_EXPANSION - state.added, state.instrs.len() - index,
{
    let instrs = state.instrs;
    if index < instrs.len() {
        match instrs[index] {
            InstrView::Call { target } => match leaf_end(instrs, target as int) {
                Some(end) => {
                    lemma_leaf_end(instrs, target as int);
                    let body = instrs.subrange(target as int, end as int);
                    if body.len() == 0 {
                        let jump = InstrView::Jump { target: (index + 1) as usize };
                        lemma_call_count_splice(instrs, index, seq![jump]);
                        assert(spliced(instrs, index, seq![jump]) =~= instrs.update(index, jump));
                        lemma_inline_round_calls(
                            Inlining { instrs: instrs.update(index, jump), changed: true, ..state },
                            index + 1,
                        );
                    } else if state.added + body.len() <= MAX_INLINE_EXPANSION {
                        assert forall|i: int| 0 <= i < body.len() implies !(#[trigger] body[i]
                            is Call) by {
                            assert(!blocks_inlining(instrs[target + i]));
                        }
                        lemma_call_count_splice(instrs, index, body);
                        lemma_inline_round_calls(
                            Inlining {
                                instrs: spliced(instrs, index, body),
                                added: (state.added + (body.len() - 1)) as nat,
                                changed: true,
                                ..state
                            },
                            index + 1,
                        );
                    }
                },
                None => lemma_inline_round_calls(state, index + 1),
            },
            _ => lemma_inline_round_calls(state, index + 1),
        }
    }
}

/// Rounds of inlining until one changes nothing or the limit stops one.
pub open spec fn inline_rounds(instrs: Seq<InstrView>, added: nat) -> Seq<InstrView>
    decreases call_count(instrs),
    when added <= MAX_INLINE_EXPANSION && instrs.len() + (MAX_INLINE_EXPANSION - added)
        <= usize::MAX
{
    let round = inline_round(Inlining { instrs, added, changed: false, stopped: false }, 0);
    if round.stopped || !round.changed {
        round.instrs
    } else {
        proof {
            lemma_inline_round_calls(
                Inlining { instrs, added, changed: false, stopped: false },
                0,
            );
        }
        inline_rounds(round.instrs, round.added)
    }
}

/// The program with calls of leaf routines inlined.
pub open spec fn inline_leaf_calls(instrs: Seq<InstrView>) -> Seq<InstrView> {
    inline_rounds(instrs, 0)
}

/// The instructions of a range, copied.
fn copy_range(instrs: &Vec<RuntimeInstr>, from: usize, to: usize) -> (body: Vec<RuntimeInstr>)
    requires
        from <= to <= instrs@.len(),
    ensures
        instrs_view(body@) == instrs_view(instrs@).subrange(from as int, to as int),
{
    let ghost all = instrs_view(instrs@);
    let mut body: Vec<RuntimeInstr> = Vec::with_capacity(to - from);
    for i in from..to
        invariant
            from <= i <= to <= instrs@.len(),
            all == instrs_view(instrs@),
            body@.len() == i - from,
            forall|j: int| 0 <= j < i - from ==> (#[trigger] body@[j])@ == all[from + j],
    {
        assert(all[i as int] == instrs@[i as int]@);
        body.push(instrs[i].clone());
    }
    assert(instrs_view(body@) =~= all.subrange(from as int, to as int));
    body
}

/// Replaces the instruction at `index` by the range `from..to` of the same
/// program.
fn splice_range(
    instrs: &Vec<RuntimeInstr>,
    index: usize,
    from: usize,
    to: usize,
) -> (longer: Vec<RuntimeInstr>)
    requires
        index < instrs@.len(),
        from <= to <= instrs@.len(),
    ensures
        instrs_view(longer@) == instrs_view(instrs@).take(index as int) + instrs_view(
            instrs@,
        ).subrange(from as int, to as int) + instrs_view(instrs@).skip(index + 1),
{
    let ghost all = instrs_view(instrs@);
    let count: usize = instrs.len();
    let mut longer = copy_range(instrs, 0, index);
    let mut body = copy_range(instrs, from, to);
    let mut back = copy_range(instrs, index + 1, count);
    let ghost a = longer@;
    let ghost b = body@;
    let ghost c = back@;
    longer.append(&mut body);
    longer.append(&mut back);
    proof {
        assert(longer@ == a + b + c);
        assert(instrs_view(longer@) =~= instrs_view(a) + instrs_view(b) + instrs_view(c));
        assert(all.subrange(0, index as int) =~= all.take(index as int));
        assert(all.subrange(index + 1, all.len() as int) =~= all.skip(index + 1));
    }
    longer
}

/// Targets leave room for the growth that inlining may still cause.
pub open spec fn inline_room(instrs: Seq<InstrView>, added: nat) -> bool {
    &&& instrs.len() + (MAX_INLINE_EXPANSION - added) < usize::MAX
    &&& code_room(instrs, MAX_INLINE_EXPANSION - added)
}

/// A leaf routine's body names no instruction.
proof fn lemma_unblocked_has_no_target(instr: InstrView)
    requires
        !blocks_inlining(instr),
    ensures
        code_target(instr) is None,
{
}

/// Inlining a body keeps room for the growth that is left.
pub proof fn lemma_splice_room(
    instrs: Seq<InstrView>,
    added: nat,
    index: int,
    body: Seq<InstrView>,
)
    requires
        0 <= index < instrs.len(),
        body.len() > 0,
        added + body.len() <= MAX_INLINE_EXPANSION,
        inline_room(instrs, added),
        forall|i: int| 0 <= i < body.len() ==> !blocks_inlining(#[trigger] body[i]),
    ensures
        code_room(instrs.take(index) + body + instrs.skip(index + 1), body.len() - 1),
        inline_room(spliced(instrs, index, body), (added + (body.len() - 1)) as nat),
{
    let longer = instrs.take(index) + body + instrs.skip(index + 1);
    let delta = body.len() - 1;
    let f = moved_up((index + 1) as usize, delta as usize);
    assert forall|i: int| 0 <= i < longer.len() implies ((#[trigger] code_target(
        longer[i],
    )) matches Some(target) ==> target + (MAX_INLINE_EXPANSION - added) <= usize::MAX) by {
        if i < index {
            assert(longer[i] == instrs[i]);
            assert(code_target(instrs[i]) == code_target(longer[i]));
        } else if i < index + body.len() {
            assert(longer[i] == body[i - index]);
            lemma_unblocked_has_no_target(body[i - index]);
        } else {
            assert(longer[i] == instrs[i - delta]);
            assert(code_target(instrs[i - delta]) == code_target(longer[i]));
        }
    }
    let out = spliced(instrs, index, body);
    assert forall|i: int| 0 <= i < out.len() implies ((#[trigger] code_target(
        out[i],
    )) matches Some(target) ==> target + (MAX_INLINE_EXPANSION - (added + delta))
        <= usize::MAX) by {
        if body.len() > 1 {
            assert(out[i] == map_code_target(longer[i], f));
        }
        if let Some(target) = code_target(longer[i]) {
        }
    }
}

/// One round of inlining.
fn inline_leaf_calls_round(instrs: &mut Vec<RuntimeInstr>, added: &mut usize) -> (outcome: (
    bool,
    bool,
))
    requires
        *old(added) <= MAX_INLINE_EXPANSION,
        inline_room(instrs_view(old(instrs)@), *old(added) as nat),
    ensures
        ({
            let round = inline_round(
                Inlining {
                    instrs: instrs_view(old(instrs)@),
                    added: *old(added) as nat,
                    changed: false,
                    stopped: false,
                },
                0,
            );
            &&& instrs_view(final(instrs)@) == round.instrs
            &&& *final(added) == round.added
            &&& outcome == (round.changed, round.stopped)
        }),
        *final(added) <= MAX_INLINE_EXPANSION,
        inline_room(instrs_view(final(instrs)@), *final(added) as nat),
{
    let ghost goal = inline_round(
        Inlining {
            instrs: instrs_view(instrs@),
            added: *added as nat,
            changed: false,
            stopped: false,
        },
        0,
    );
    let mut changed = false;
    let mut idx: usize = 0;
    while idx < instrs.len()
        invariant
            *added <= MAX_INLINE_EXPANSION,
            inline_room(instrs_view(instrs@), *added as nat),
            inline_round(
                Inlining {
                    instrs: instrs_view(instrs@),
                    added: *added as nat,
                    changed,
                    stopped: false,
                },
                idx as int,
            ) == goal,
            goal == inline_round(
                Inlining {
                    instrs: instrs_view(old(instrs)@),
                    added: *old(added) as nat,
                    changed: false,
                    stopped: false,
                },
                0,
            ),
        decreases MAX_INLINE_EXPANSION - *added, instrs@.len() - idx,
    {
        let ghost all = instrs_view(instrs@);
        assert(all[idx as int] == instrs@[idx as int]@);
        let target: usize = match &instrs[idx] {
            RuntimeInstr::Call { target } => *target,
            _ => {
                idx = idx + 1;
                continue;
            },
        };
        let end: usize = match leaf_body_end(instrs, target) {
            Some(end) => end,
            None => {
                idx = idx + 1;
                continue;
            },
        };
        let ghost body = all.subrange(target as int, end as int);
        proof {
            lemma_leaf_end(all, target as int);
            assert forall|i: int| 0 <= i < body.len() implies !blocks_inlining(
                #[trigger] body[i],
            ) by {
                assert(!blocks_inlining(all[target + i]));
            }
        }
        let length: usize = end - target;
        if length == 0 {
            let ghost jump = InstrView::Jump { target: (idx + 1) as usize };
            instrs.set(idx, RuntimeInstr::Jump { target: idx + 1 });
            proof {
                assert(instrs_view(instrs@) =~= all.update(idx as int, jump));
                let now = instrs_view(instrs@);
                assert forall|i: int| 0 <= i < now.len() implies ((#[trigger] code_target(
                    now[i],
                )) matches Some(target) ==> target + (MAX_INLINE_EXPANSION - *added)
                    <= usize::MAX) by {
                    if i != idx {
                        assert(code_target(all[i]) == code_target(now[i]));
                    }
                }
            }
            changed = true;
            idx = idx + 1;
            continue;
        }
        if length > MAX_INLINE_EXPANSION - *added {
            return (changed, true);
        }
        proof {
            lemma_splice_room(all, *added as nat, idx as int, body);
        }
        *instrs = splice_range(instrs, idx, target, end);
        let delta: usize = length - 1;
        if delta > 0 {
            remap_instr_targets_after_inline(instrs, idx, delta);
        }
        *added = *added + delta;
        changed = true;
        idx = idx + 1;
    }
    (changed, false)
}

/// Inlines calls of leaf routines, within the growth limit.
pub fn inline_leaf_calls_in_program(instrs: &mut Vec<RuntimeInstr>)
    requires
        inline_room(instrs_view(old(instrs)@), 0),
    ensures
        instrs_view(final(instrs)@) == inline_leaf_calls(instrs_view(old(instrs)@)),
{
    let ghost goal = inline_leaf_calls(instrs_view(instrs@));
    let mut added: usize = 0;
    loop
        invariant_except_break
            inline_rounds(instrs_view(instrs@), added as nat) == goal,
        invariant
            added <= MAX_INLINE_EXPANSION,
            inline_room(instrs_view(instrs@), added as nat),
        ensures
            instrs_view(instrs@) == goal,
        decreases call_count(instrs_view(instrs@)),
    {
        proof {
            lemma_inline_round_calls(
                Inlining {
                    instrs: instrs_view(instrs@),
                    added: added as nat,
                    changed: false,
                    stopped: false,
                },
                0,
            );
        }
        let (changed, stopped) = inline_leaf_calls_round(instrs, &mut added);
        if stopped || !changed {
            break;
        }
    }
}

/// The program with each call followed by a return made a jump.
pub open spec fn tail_calls(instrs: Seq<InstrView>) -> Seq<InstrView> {
    Seq::new(
        instrs.len(),
        |i: int|
            match instrs[i] {
                InstrView::Call { target } => if i + 1 < instrs.len() && instrs[i + 1]
                    == InstrView::Return {
                    InstrView::Jump { target }
                } else {
                    instrs[i]
                },
                _ => instrs[i],
            },
    )
}

/// Turns each call followed by a return into a jump.
pub fn optimize_tail_calls(instrs: &mut Vec<RuntimeInstr>)
    ensures
        instrs_view(final(instrs)@) == tail_calls(instrs_view(old(instrs)@)),
{
    let ghost all = instrs_view(instrs@);
    let count: usize = instrs.len();
    let mut i: usize = 0;
    while i < count && i + 1 < count
        invariant
            count == instrs@.len(),
            count == all.len(),
            i <= count,
            i > 0 ==> i < count,
            forall|j: int| i <= j < count ==> (#[trigger] instrs@[j])@ == all[j],
            forall|j: int| 0 <= j < i ==> (#[trigger] instrs@[j])@ == tail_calls(all)[j],
        decreases count - i,
    {
        assert(instrs@[i as int]@ == all[i as int]);
        assert(instrs@[i + 1]@ == all[i + 1]);
        let before_return = match &instrs[i + 1] {
            RuntimeInstr::Return => true,
            _ => false,
        };
        if before_return {
            let jump = match &instrs[i] {
                RuntimeInstr::Call { target } => Some(RuntimeInstr::Jump { target: *target }),
                _ => None,
            };
            if let Some(jump) = jump {
                instrs.set(i, jump);
            }
        }
        i = i + 1;
    }
    assert(instrs_view(instrs@) =~= tail_calls(all));
}

/// A body copied in keeps slots in range.
proof fn lemma_splice_in_range(instrs: Seq<InstrView>, index: int, body: Seq<InstrView>, bound: int)
    requires
        0 <= index < instrs.len(),
        slots_below(instrs, bound),
        slots_below(body, bound),
    ensures
        slots_below(spliced(instrs, index, body), bound),
{
    let longer = instrs.take(index) + body + instrs.skip(index + 1);
    assert forall|i: int| 0 <= i < longer.len() implies #[trigger] instr_below(
        longer[i],
        bound,
    ) by {
        if i < index {
            assert(instr_below(instrs[i], bound));
        } else if i < index + body.len() {
            assert(instr_below(body[i - index], bound));
        } else {
            assert(longer[i] == instrs[i - body.len() + 1]);
            assert(instr_below(instrs[i - body.len() + 1], bound));
        }
    }
    let out = spliced(instrs, index, body);
    assert forall|i: int| 0 <= i < out.len() implies #[trigger] instr_below(out[i], bound) by {
        assert(instr_below(longer[i], bound));
    }
}

/// A round of inlining keeps slots in range.
proof fn lemma_inline_round_in_range(state: Inlining, index: int, bound: int)
    requires
        0 <= index,
        state.added <= MAX_INLINE_EXPANSION,
        state.instrs.len() + (MAX_INLINE_EXPANSION - state.added) <= usize::MAX,
        slots_below(state.instrs, bound),
    ensures
        slots_below(inline_round(state, index).instrs, bound),
    decreases MAX_INLINE_EXPANSION - state.added, state.instrs.len() - index,
{
    let instrs = state.instrs;
    if index < instrs.len() {
        match instrs[index] {
            InstrView::Call { target } => match leaf_end(instrs, target as int) {
                Some(end) => {
                    lemma_leaf_end(instrs, target as int);
                    let body = instrs.subrange(target as int, end as int);
                    if body.len() == 0 {
                        let jump = InstrView::Jump { target: (index + 1) as usize };
                        let after = instrs.update(index, jump);
                        assert forall|i: int| 0 <= i < after.len() implies #[trigger] instr_below(
                            after[i],
                            bound,
                        ) by {
                            assert(instr_below(instrs[i], bound));
                        }
                        lemma_inline_round_in_range(
                            Inlining { instrs: after, changed: true, ..state },
                            index + 1,
                            bound,
                        );
                    } else if state.added + body.len() <= MAX_INLINE_EXPANSION {
                        assert forall|i: int| 0 <= i < body.len() implies #[trigger] instr_below(
                            body[i],
                            bound,
                        ) by {
                            assert(instr_below(instrs[target + i], bound));
                        }
                        lemma_splice_in_range(instrs, index, body, bound);
                        lemma_inline_round_in_range(
                            Inlining {
                                instrs: spliced(instrs, index, body),
                                added: (state.added + (body.len() - 1)) as nat,
                                changed: true,
                                ..state
                            },
                            index + 1,
                            bound,
                        );
                    }
                },
                None => lemma_inline_round_in_range(state, index + 1, bound),
            },
            _ => lemma_inline_round_in_range(state, index + 1, bound),
        }
    }
}

/// Inlining keeps slots in range.
pub proof fn lemma_inline_in_range(instrs: Seq<InstrView>, added: nat, bound: int)
    requires
        added <= MAX_INLINE_EXPANSION,
        instrs.len() + (MAX_INLINE_EXPANSION - added) <= usize::MAX,
        slots_below(instrs, bound),
    ensures
        slots_below(inline_rounds(instrs, added), bound),
    decreases call_count(instrs),
{
    let state = Inlining { instrs, added, changed: false, stopped: false };
    let round = inline_round(state, 0);
    lemma_inline_round_in_range(state, 0, bound);
    lemma_inline_round_calls(state, 0);
    if !round.stopped && round.changed {
        lemma_inline_in_range(round.instrs, round.added, bound);
    }
}

/// Tail calls keep slots in range.
pub proof fn lemma_tail_calls_in_range(instrs: Seq<InstrView>, bound: int)
    requires
        slots_below(instrs, bound),
    ensures
        slots_below(tail_calls(instrs), bound),
{
    let out = tail_calls(instrs);
    assert forall|i: int| 0 <= i < out.len() implies #[trigger] instr_below(out[i], bound) by {
        assert(instr_below(instrs[i], bound));
    }
}

} // verus!
