//! The states in which control can arrive at an instruction, and what the passes
//! assume there.

use crate::ir::InstrView;
use crate::optimizer::consts::comparison_holds;
use crate::optimizer::copies::{
    aliases_hold, copy_instr, copy_prefix, law_copy_propagation_preserves_effect,
    lemma_copy_instr_in_range, lemma_copy_prefix, no_aliases, Aliases,
};
use crate::optimizer::machine::{is_slot_arithmetic, step, value_of, SlotState};
use crate::optimizer::peephole::{
    adaptive_join, fold_instr, fold_prefix, known_holds, law_folding_preserves_effect,
    lemma_fold_instr_in_range, lemma_fold_prefix, lemma_folded_value, nothing_known, FloatFn,
    KnownSlots,
};
use crate::optimizer::slots::{instr_below, slots_below};
use crate::optimizer::targets::{code_target, enters, is_entered};
use crate::optimizer::uses::writes;
use vstd::prelude::*;

verus! {

/// The slots are the same but for those that the instruction writes.
pub open spec fn changes_written_only(
    instr: InstrView,
    state: SlotState,
    next: SlotState,
) -> bool {
    &&& next.len() == state.len()
    &&& forall|slot: usize|
        slot < state.len() && !writes(instr, slot) ==> #[trigger] next[slot as int]
            == state[slot as int]
}

/// What an instruction other than slot arithmetic may make of the slots. It may
/// set those that it writes to anything, but for the result of an operation on
/// floating-point numbers that the machine has, the choice of a join, and slots
/// that are put in order.
pub open spec fn may_become(
    instr: InstrView,
    floats: FloatFn,
    state: SlotState,
    next: SlotState,
) -> bool {
    &&& changes_written_only(instr, state, next)
    &&& match instr {
        InstrView::FloatBinOp { dst, bits, op, lhs, rhs } => {
            floats(bits, op, value_of(lhs, state), value_of(rhs, state)) matches Some(value)
                ==> next[dst as int] == value
        },
        InstrView::JoinSelectAdaptive { dst, build_rows, probe_rows } => {
            next[dst as int] == adaptive_join(
                value_of(build_rows, state),
                value_of(probe_rows, state),
            )
        },
        InstrView::CompareSwap { left, right, .. } => {
            let (l, r) = (left as int, right as int);
            &&& next[l] == state[l] || next[l] == state[r]
            &&& next[r] == state[l] || next[r] == state[r]
        },
        _ => true,
    }
}

/// Running the instruction at `at` on slots may send control to `to`, with other
/// slots. A thread may start with any slots. Where a return goes, the calls before it say.
pub open spec fn may_pass(
    instrs: Seq<InstrView>,
    floats: FloatFn,
    at: int,
    state: SlotState,
    to: int,
    next: SlotState,
) -> bool {
    match instrs[at] {
        InstrView::Jump { target } => to == target && next == state,
        InstrView::JumpIfZero { cond_slot, target } => next == state && to == (if state[
            cond_slot as int] == 0 {
            target as int
        } else {
            at + 1
        }),
        InstrView::JumpIfCmpFalse { op, lhs, rhs, target } => next == state && to == (
            if comparison_holds(op, value_of(lhs, state), value_of(rhs, state)) {
                at + 1
            } else {
                target as int
            }
        ),
        InstrView::Call { target } => to == target && next == state,
        InstrView::Return | InstrView::Exit { .. } => false,
        InstrView::ThreadSpawn { target, .. } => {
            ||| to == target && next.len() == state.len()
            ||| to == at + 1 && may_become(instrs[at], floats, state, next)
        },
        _ => to == at + 1 && if is_slot_arithmetic(instrs[at]) {
            step(instrs[at], state) == Some(next)
        } else {
            may_become(instrs[at], floats, state, next)
        },
    }
}

/// The call at the j-th place of a way comes back to an instruction.
pub open spec fn comes_back_to(
    instrs: Seq<InstrView>,
    path: Seq<(int, SlotState)>,
    j: int,
    to: int,
) -> bool {
    0 <= path[j].0 < instrs.len() && instrs[path[j].0] is Call && to == path[j].0 + 1
}

/// Control passes along a way to its i-th place from the one before; a return
/// passes it behind a call that was made on the way.
pub open spec fn passes_at(
    instrs: Seq<InstrView>,
    floats: FloatFn,
    path: Seq<(int, SlotState)>,
    i: int,
) -> bool {
    let (at, state) = path[i - 1];
    &&& 0 <= at < instrs.len()
    &&& if instrs[at] is Return {
        path[i].1 == state && exists|j: int|
            0 <= j < i && #[trigger] comes_back_to(instrs, path, j, path[i].0)
    } else {
        may_pass(instrs, floats, at, state, path[i].0, path[i].1)
    }
}

/// A way that control can take from the first instruction: where it stands, and
/// the slots there.
pub open spec fn is_path(
    instrs: Seq<InstrView>,
    slots: nat,
    floats: FloatFn,
    path: Seq<(int, SlotState)>,
) -> bool {
    &&& path.len() > 0
    &&& path[0].0 == 0
    &&& path[0].1.len() == slots
    &&& forall|i: int| 0 < i < path.len() ==> #[trigger] passes_at(instrs, floats, path, i)
}

/// Control can arrive at an instruction with these slots.
pub open spec fn arrives(
    instrs: Seq<InstrView>,
    slots: nat,
    floats: FloatFn,
    at: int,
    state: SlotState,
) -> bool {
    exists|path: Seq<(int, SlotState)>| #[trigger]
        is_path(instrs, slots, floats, path) && path.last() == (at, state)
}

/// A property of instructions and slots that every step keeps, and every return
/// behind a call.
pub open spec fn is_kept(
    instrs: Seq<InstrView>,
    floats: FloatFn,
    holds: spec_fn(int, SlotState) -> bool,
) -> bool {
    &&& forall|at: int, state: SlotState, to: int, next: SlotState|
        0 <= at < instrs.len() && #[trigger] holds(at, state) && may_pass(
            instrs,
            floats,
            at,
            state,
            to,
            next,
        ) ==> #[trigger] holds(to, next)
    &&& forall|call: int, before: SlotState, at: int, state: SlotState|
        0 <= call < instrs.len() && instrs[call] is Call && #[trigger] holds(call, before) && 0
            <= at < instrs.len() && instrs[at] is Return && #[trigger] holds(at, state) ==> holds(
            call + 1,
            state,
        )
}

/// A property that holds at the start, and that every step keeps, holds along
/// every way.
proof fn lemma_arrivals(
    instrs: Seq<InstrView>,
    slots: nat,
    floats: FloatFn,
    path: Seq<(int, SlotState)>,
    holds: spec_fn(int, SlotState) -> bool,
    n: int,
)
    requires
        is_path(instrs, slots, floats, path),
        forall|state: SlotState| state.len() == slots ==> #[trigger] holds(0, state),
        is_kept(instrs, floats, holds),
        0 <= n < path.len(),
    ensures
        forall|i: int| 0 <= i <= n ==> holds((#[trigger] path[i]).0, path[i].1),
    decreases n,
{
    if n > 0 {
        lemma_arrivals(instrs, slots, floats, path, holds, n - 1);
        assert(passes_at(instrs, floats, path, n));
        let (at, state) = path[n - 1];
        assert(holds(at, state));
        if instrs[at] is Return {
            let j = choose|j: int|
                0 <= j < n && #[trigger] comes_back_to(instrs, path, j, path[n].0);
            assert(holds(path[j].0, path[j].1));
        }
        assert(holds(path[n].0, path[n].1));
    }
}

/// A property that holds at the start, and that every step keeps, holds wherever
/// control can arrive.
pub proof fn lemma_holds_on_arrival(
    instrs: Seq<InstrView>,
    slots: nat,
    floats: FloatFn,
    holds: spec_fn(int, SlotState) -> bool,
    at: int,
    state: SlotState,
)
    requires
        arrives(instrs, slots, floats, at, state),
        forall|state: SlotState| state.len() == slots ==> #[trigger] holds(0, state),
        is_kept(instrs, floats, holds),
    ensures
        holds(at, state),
{
    let path = choose|path: Seq<(int, SlotState)>| #[trigger]
        is_path(instrs, slots, floats, path) && path.last() == (at, state);
    lemma_arrivals(instrs, slots, floats, path, holds, path.len() - 1);
    assert(path[path.len() - 1] == path.last());
}

/// What constant folding takes for known at an instruction.
pub open spec fn known_at(
    instrs: Seq<InstrView>,
    slots: nat,
    floats: FloatFn,
    at: int,
) -> KnownSlots {
    if is_entered(instrs, at) {
        nothing_known(slots)
    } else {
        fold_prefix(instrs, slots, floats, at).known
    }
}

/// What constant folding takes for known behind an instruction.
#[verifier::opaque]
spec fn known_behind(instr: InstrView, known: KnownSlots, floats: FloatFn) -> KnownSlots {
    fold_instr(instr, known, floats).known
}

/// What is known behind an instruction other than slot arithmetic holds of what
/// it may make of the slots.
#[verifier::rlimit(40)]
proof fn lemma_known_behind_other(
    instr: InstrView,
    known: KnownSlots,
    floats: FloatFn,
    state: SlotState,
    next: SlotState,
)
    requires
        !is_slot_arithmetic(instr),
        instr_below(instr, known.len() as int),
        known.len() <= usize::MAX,
        known_holds(known, state),
        may_become(instr, floats, state, next),
    ensures
        known_holds(known_behind(instr, known, floats), next),
{
    reveal(known_behind);
    lemma_fold_instr_in_range(instr, known, floats);
    let after = known_behind(instr, known, floats);
    match instr {
        InstrView::FloatBinOp { lhs, rhs, .. } => {
            lemma_folded_value(lhs, known, state);
            lemma_folded_value(rhs, known, state);
        },
        InstrView::JoinSelectAdaptive { build_rows, probe_rows, .. } => {
            lemma_folded_value(build_rows, known, state);
            lemma_folded_value(probe_rows, known, state);
        },
        _ => {},
    }
    assert forall|i: int| 0 <= i < after.len() implies ((#[trigger] after[i]) matches Some(value)
        ==> next[i] == value) by {
        let slot = i as usize;
        if after[i] is Some && !writes(instr, slot) {
            assert(known[i] == after[i]);
            assert(next[slot as int] == state[slot as int]);
        }
    }
}

/// What is known behind slot arithmetic holds of what it makes of the slots.
proof fn lemma_known_behind_arithmetic(
    instr: InstrView,
    known: KnownSlots,
    floats: FloatFn,
    state: SlotState,
)
    requires
        is_slot_arithmetic(instr),
        instr_below(instr, known.len() as int),
        known_holds(known, state),
        step(instr, state) is Some,
    ensures
        known_holds(known_behind(instr, known, floats), step(instr, state)->0),
{
    reveal(known_behind);
    law_folding_preserves_effect(instr, known, floats, state);
}

/// What is known at an instruction that no branch names is what is known behind
/// the one before it; behind a call nothing is.
proof fn lemma_known_next(instrs: Seq<InstrView>, slots: nat, floats: FloatFn, at: int)
    requires
        slots_below(instrs, slots as int),
        0 <= at < instrs.len(),
    ensures
        known_at(instrs, slots, floats, at).len() == slots,
        !is_entered(instrs, at + 1) ==> known_at(instrs, slots, floats, at + 1)
            == known_behind(instrs[at], known_at(instrs, slots, floats, at), floats),
        instrs[at] is Call ==> known_behind(
            instrs[at],
            known_at(instrs, slots, floats, at),
            floats,
        ) == nothing_known(slots),
{
    reveal(known_behind);
    lemma_fold_prefix(instrs, slots, floats, at);
}

/// A step keeps what constant folding takes for known.
proof fn lemma_known_step(
    instrs: Seq<InstrView>,
    slots: nat,
    floats: FloatFn,
    at: int,
    state: SlotState,
    to: int,
    next: SlotState,
)
    requires
        slots_below(instrs, slots as int),
        slots <= usize::MAX,
        0 <= at < instrs.len(),
        known_holds(known_at(instrs, slots, floats, at), state),
        may_pass(instrs, floats, at, state, to, next),
    ensures
        known_holds(known_at(instrs, slots, floats, to), next) || to > instrs.len(),
{
    let instr = instrs[at];
    let known = known_at(instrs, slots, floats, at);
    lemma_known_next(instrs, slots, floats, at);
    assert(instr_below(instr, slots as int));
    if is_entered(instrs, to) {
        if is_slot_arithmetic(instr) {
            lemma_known_behind_arithmetic(instr, known, floats, state);
        }
    } else if code_target(instr) is Some && to == code_target(instr)->0 {
        assert(enters(instrs[at], to));
    } else if is_slot_arithmetic(instr) {
        lemma_known_behind_arithmetic(instr, known, floats, state);
    } else {
        lemma_jump_changes_nothing(instr, floats, state);
        lemma_known_behind_other(instr, known, floats, state, next);
    }
}

/// A jump that is not taken leaves the slots as they are.
proof fn lemma_jump_changes_nothing(instr: InstrView, floats: FloatFn, state: SlotState)
    ensures
        instr is JumpIfZero || instr is JumpIfCmpFalse ==> may_become(
            instr,
            floats,
            state,
            state,
        ),
{
}

/// What constant folding takes for known at an instruction is so in every state
/// in which control can arrive there, by falling through, by a jump, a call or a
/// return, or at the start of a thread.
pub proof fn law_known_slots_hold_on_arrival(
    instrs: Seq<InstrView>,
    slots: nat,
    floats: FloatFn,
    at: int,
    state: SlotState,
)
    requires
        slots_below(instrs, slots as int),
        slots <= usize::MAX,
        0 <= at < instrs.len(),
        arrives(instrs, slots, floats, at, state),
    ensures
        known_holds(known_at(instrs, slots, floats, at), state),
{
    let holds = |at: int, state: SlotState| at <= instrs.len() ==> known_holds(
        known_at(instrs, slots, floats, at),
        state,
    );
    assert forall|state: SlotState| state.len() == slots implies #[trigger] holds(0, state) by {}
    assert forall|at: int, state: SlotState, to: int, next: SlotState|
        0 <= at < instrs.len() && #[trigger] holds(at, state) && may_pass(
            instrs,
            floats,
            at,
            state,
            to,
            next,
        ) implies #[trigger] holds(to, next) by {
        lemma_known_step(instrs, slots, floats, at, state, to, next);
    }
    assert forall|call: int, before: SlotState, at: int, state: SlotState|
        0 <= call < instrs.len() && instrs[call] is Call && #[trigger] holds(call, before) && 0
            <= at < instrs.len() && instrs[at] is Return
            && #[trigger] holds(at, state) implies holds(call + 1, state) by {
        lemma_known_next(instrs, slots, floats, call);
        lemma_known_next(instrs, slots, floats, at);
    }
    lemma_holds_on_arrival(instrs, slots, floats, holds, at, state);
}

/// The aliases that copy propagation assumes at an instruction.
pub open spec fn aliases_at(instrs: Seq<InstrView>, slots: nat, at: int) -> Aliases {
    if is_entered(instrs, at) {
        no_aliases(slots)
    } else {
        copy_prefix(instrs, slots, at).aliases
    }
}

/// The aliases that copy propagation assumes behind an instruction.
#[verifier::opaque]
spec fn aliases_behind(instr: InstrView, aliases: Aliases) -> Aliases {
    copy_instr(instr, aliases).aliases
}

/// The aliases behind an instruction other than slot arithmetic hold of what it
/// may make of the slots.
#[verifier::rlimit(60)]
proof fn lemma_aliases_behind_other(
    instr: InstrView,
    aliases: Aliases,
    floats: FloatFn,
    state: SlotState,
    next: SlotState,
)
    requires
        !is_slot_arithmetic(instr),
        instr_below(instr, aliases.len() as int),
        aliases.len() <= usize::MAX,
        aliases_hold(aliases, state),
        may_become(instr, floats, state, next),
    ensures
        aliases_hold(aliases_behind(instr, aliases), next),
{
    reveal(aliases_behind);
    lemma_copy_instr_in_range(instr, aliases);
    let after = aliases_behind(instr, aliases);
    assert forall|i: int| 0 <= i < after.len() implies ((#[trigger] after[i]) matches Some(other)
        ==> next[i] == next[other as int]) by {
        if let Some(other) = after[i] {
            let slot = i as usize;
            assert(aliases[i] == after[i]);
            assert(!writes(instr, slot));
            assert(!writes(instr, other));
            assert(next[slot as int] == state[slot as int]);
            assert(next[other as int] == state[other as int]);
        }
    }
}

/// The aliases behind slot arithmetic hold of what it makes of the slots.
proof fn lemma_aliases_behind_arithmetic(instr: InstrView, aliases: Aliases, state: SlotState)
    requires
        is_slot_arithmetic(instr),
        instr_below(instr, aliases.len() as int),
        aliases_hold(aliases, state),
        step(instr, state) is Some,
    ensures
        aliases_hold(aliases_behind(instr, aliases), step(instr, state)->0),
{
    reveal(aliases_behind);
    law_copy_propagation_preserves_effect(instr, aliases, state);
}

/// The aliases at an instruction that no branch names are those behind the one
/// before it; behind a call there are none.
proof fn lemma_aliases_next(instrs: Seq<InstrView>, slots: nat, at: int)
    requires
        slots_below(instrs, slots as int),
        0 <= at < instrs.len(),
    ensures
        aliases_at(instrs, slots, at).len() == slots,
        !is_entered(instrs, at + 1) ==> aliases_at(instrs, slots, at + 1) == aliases_behind(
            instrs[at],
            aliases_at(instrs, slots, at),
        ),
        instrs[at] is Call ==> aliases_behind(instrs[at], aliases_at(instrs, slots, at))
            == no_aliases(slots),
{
    reveal(aliases_behind);
    lemma_copy_prefix(instrs, slots, at);
}

/// A step keeps the aliases that copy propagation assumes.
proof fn lemma_aliases_step(
    instrs: Seq<InstrView>,
    slots: nat,
    floats: FloatFn,
    at: int,
    state: SlotState,
    to: int,
    next: SlotState,
)
    requires
        slots_below(instrs, slots as int),
        slots <= usize::MAX,
        0 <= at < instrs.len(),
        aliases_hold(aliases_at(instrs, slots, at), state),
        may_pass(instrs, floats, at, state, to, next),
    ensures
        aliases_hold(aliases_at(instrs, slots, to), next) || to > instrs.len(),
{
    let instr = instrs[at];
    let aliases = aliases_at(instrs, slots, at);
    lemma_aliases_next(instrs, slots, at);
    assert(instr_below(instr, slots as int));
    if is_entered(instrs, to) {
        if is_slot_arithmetic(instr) {
            lemma_aliases_behind_arithmetic(instr, aliases, state);
        }
    } else if code_target(instr) is Some && to == code_target(instr)->0 {
        assert(enters(instrs[at], to));
    } else if is_slot_arithmetic(instr) {
        lemma_aliases_behind_arithmetic(instr, aliases, state);
    } else {
        lemma_jump_changes_nothing(instr, floats, state);
        lemma_aliases_behind_other(instr, aliases, floats, state, next);
    }
}

/// The aliases that copy propagation assumes at an instruction hold in every
/// state in which control can arrive there, by falling through, by a jump, a
/// call or a return, or at the start of a thread.
pub proof fn law_aliases_hold_on_arrival(
    instrs: Seq<InstrView>,
    slots: nat,
    floats: FloatFn,
    at: int,
    state: SlotState,
)
    requires
        slots_below(instrs, slots as int),
        slots <= usize::MAX,
        0 <= at < instrs.len(),
        arrives(instrs, slots, floats, at, state),
    ensures
        aliases_hold(aliases_at(instrs, slots, at), state),
{
    let holds = |at: int, state: SlotState| at <= instrs.len() ==> aliases_hold(
        aliases_at(instrs, slots, at),
        state,
    );
    assert forall|state: SlotState| state.len() == slots implies #[trigger] holds(0, state) by {}
    assert forall|at: int, state: SlotState, to: int, next: SlotState|
        0 <= at < instrs.len() && #[trigger] holds(at, state) && may_pass(
            instrs,
            floats,
            at,
            state,
            to,
            next,
        ) implies #[trigger] holds(to, next) by {
        lemma_aliases_step(instrs, slots, floats, at, state, to, next);
    }
    assert forall|call: int, before: SlotState, at: int, state: SlotState|
        0 <= call < instrs.len() && instrs[call] is Call && #[trigger] holds(call, before) && 0
            <= at < instrs.len() && instrs[at] is Return
            && #[trigger] holds(at, state) implies holds(call + 1, state) by {
        lemma_aliases_next(instrs, slots, call);
        lemma_aliases_next(instrs, slots, at);
    }
    lemma_holds_on_arrival(instrs, slots, floats, holds, at, state);
}

/// A step keeps the number of slots.
pub proof fn lemma_pass_keeps_slots(
    instrs: Seq<InstrView>,
    floats: FloatFn,
    at: int,
    state: SlotState,
    to: int,
    next: SlotState,
)
    requires
        0 <= at < instrs.len(),
        slots_below(instrs, state.len() as int),
        may_pass(instrs, floats, at, state, to, next),
    ensures
        next.len() == state.len(),
{
    assert(instr_below(instrs[at], state.len() as int));
}

} // verus!
