//! Removal of index checks that the code before them makes redundant.

use crate::ir::{copy_slots, instrs_view, InstrView, RuntimeInstr, RuntimeOperand};
use crate::optimizer::machine::{step, SlotState};
use crate::optimizer::reaching::{slot_upper, slot_upper_bound_before};
use crate::optimizer::slots::{instr_below, slots_below};
use crate::optimizer::targets::{block_start, runtime_basic_block_starts};
use crate::optimizer::uses::{runtime_instr_writes_slot, writes};
use vstd::prelude::*;

verus! {

/// A checked array access without its check.
pub open spec fn unchecked(instr: InstrView) -> InstrView {
    match instr {
        InstrView::LoadIndex { dst, base_slots, index } => {
            InstrView::LoadIndexUnchecked { dst, base_slots, index }
        },
        InstrView::StoreIndex { base_slots, index, src } => {
            InstrView::StoreIndexUnchecked { base_slots, index, src }
        },
        _ => instr,
    }
}

/// The array and the index of a checked access.
pub open spec fn checked_access(instr: InstrView) -> Option<(Seq<usize>, RuntimeOperand)> {
    match instr {
        InstrView::LoadIndex { base_slots, index, .. } => Some((base_slots, index)),
        InstrView::StoreIndex { base_slots, index, .. } => Some((base_slots, index)),
        _ => None,
    }
}

/// Dropping the check of an access that is in bounds changes nothing.
pub proof fn law_unchecked_access_has_same_effect(instr: InstrView, state: SlotState)
    ensures
        step(unchecked(instr), state) == step(instr, state),
{
}

/// Dropping checks keeps slots in range and the slots that are written.
pub proof fn lemma_unchecked(instr: InstrView, bound: int, slot: usize)
    ensures
        instr_below(unchecked(instr), bound) == instr_below(instr, bound),
        writes(unchecked(instr), slot) == writes(instr, slot),
{
}

/// Two programs that differ at most in checks.
pub open spec fn same_but_checks(before: Seq<InstrView>, after: Seq<InstrView>) -> bool {
    &&& before.len() == after.len()
    &&& forall|i: int|
        0 <= i < before.len() ==> #[trigger] after[i] == before[i] || after[i] == unchecked(
            before[i],
        )
}

/// Programs that differ at most in checks have the same slots.
pub proof fn lemma_same_but_checks_in_range(
    before: Seq<InstrView>,
    after: Seq<InstrView>,
    bound: int,
)
    requires
        same_but_checks(before, after),
        slots_below(before, bound),
    ensures
        slots_below(after, bound),
{
    assert forall|i: int| 0 <= i < after.len() implies #[trigger] instr_below(after[i], bound) by {
        assert(instr_below(before[i], bound));
        lemma_unchecked(before[i], bound, 0);
    }
}

/// Changing one instruction to its unchecked form changes checks only.
pub proof fn lemma_same_but_checks_update(a: Seq<InstrView>, b: Seq<InstrView>, i: int)
    requires
        same_but_checks(a, b),
        0 <= i < a.len(),
    ensures
        same_but_checks(a, b.update(i, unchecked(b[i]))),
{
    let c = b.update(i, unchecked(b[i]));
    assert forall|j: int| 0 <= j < a.len() implies #[trigger] c[j] == a[j] || c[j] == unchecked(
        a[j],
    ) by {
        assert(b[j] == a[j] || b[j] == unchecked(a[j]));
    }
}

/// A checked array access without its check.
pub fn without_check(instr: &RuntimeInstr) -> (bare: RuntimeInstr)
    ensures
        bare@ == unchecked(instr@),
{
    match instr {
        RuntimeInstr::LoadIndex { dst, base_slots, index } => RuntimeInstr::LoadIndexUnchecked {
            dst: *dst,
            base_slots: copy_slots(base_slots),
            index: *index,
        },
        RuntimeInstr::StoreIndex { base_slots, index, src } => {
            RuntimeInstr::StoreIndexUnchecked {
                base_slots: copy_slots(base_slots),
                index: *index,
                src: *src,
            }
        },
        _ => instr.clone(),
    }
}

/// Replaces the access at `index` by its unchecked form.
pub fn drop_check_at(instrs: &mut Vec<RuntimeInstr>, index: usize)
    requires
        index < old(instrs)@.len(),
    ensures
        final(instrs)@.len() == old(instrs)@.len(),
        instrs_view(final(instrs)@) == instrs_view(old(instrs)@).update(
            index as int,
            unchecked(instrs_view(old(instrs)@)[index as int]),
        ),
{
    let ghost before = instrs_view(instrs@);
    let bare = without_check(&instrs[index]);
    instrs.set(index, bare);
    assert(instrs_view(instrs@) =~= before.update(index as int, unchecked(before[index as int])));
}

/// The index is below the length, by its value or by an upper bound that the
/// code in `from..at` shows.
pub open spec fn index_is_bounded(
    instrs: Seq<InstrView>,
    from: int,
    at: int,
    index: RuntimeOperand,
    base_len: nat,
) -> bool {
    &&& base_len > 0
    &&& match index {
        RuntimeOperand::Imm(value) => value < base_len,
        RuntimeOperand::Slot(slot) => slot_upper(instrs, from, at, slot, 0) matches Some(upper)
            && upper < base_len,
    }
}

/// Whether the index is below the length, as far as the code before shows it.
pub fn runtime_index_operand_proven_in_bounds(
    instrs: &Vec<RuntimeInstr>,
    min_def_idx: usize,
    use_idx: usize,
    index: &RuntimeOperand,
    base_len: usize,
) -> (proven: bool)
    ensures
        proven == index_is_bounded(
            instrs_view(instrs@),
            min_def_idx as int,
            use_idx as int,
            *index,
            base_len as nat,
        ),
{
    if base_len == 0 {
        return false;
    }
    match index {
        RuntimeOperand::Imm(value) => *value < base_len as u64,
        RuntimeOperand::Slot(slot) => {
            match slot_upper_bound_before(instrs, min_def_idx, use_idx, *slot, 0) {
                Some(upper) => upper < base_len as u64,
                None => false,
            }
        },
    }
}

/// The program after the first n accesses have lost the checks that bounds
/// found in their basic blocks make redundant. `starts` gives the blocks.
pub open spec fn drop_bounded_checks(
    instrs: Seq<InstrView>,
    starts: spec_fn(int) -> int,
    n: int,
) -> Seq<InstrView>
    decreases n,
{
    if n <= 0 {
        instrs
    } else {
        let before = drop_bounded_checks(instrs, starts, n - 1);
        match checked_access(before[n - 1]) {
            Some((base_slots, index)) => if index_is_bounded(
                before,
                starts(n - 1),
                n - 1,
                index,
                base_slots.len(),
            ) {
                before.update(n - 1, unchecked(before[n - 1]))
            } else {
                before
            },
            None => before,
        }
    }
}

/// The blocks of a program.
pub open spec fn blocks_of(instrs: Seq<InstrView>) -> spec_fn(int) -> int {
    |i: int| block_start(instrs, i)
}

/// Dropping bounded checks changes checks only.
pub proof fn lemma_drop_bounded_checks(
    instrs: Seq<InstrView>,
    starts: spec_fn(int) -> int,
    n: int,
)
    requires
        0 <= n <= instrs.len(),
    ensures
        same_but_checks(instrs, drop_bounded_checks(instrs, starts, n)),
    decreases n,
{
    if n > 0 {
        lemma_drop_bounded_checks(instrs, starts, n - 1);
        lemma_same_but_checks_update(
            instrs,
            drop_bounded_checks(instrs, starts, n - 1),
            n - 1,
        );
    }
}

/// Drops the checks of accesses whose index is bounded in their basic block.
pub fn eliminate_expr_bounded_index_checks(instrs: &mut Vec<RuntimeInstr>)
    ensures
        instrs_view(final(instrs)@) == drop_bounded_checks(
            instrs_view(old(instrs)@),
            blocks_of(instrs_view(old(instrs)@)),
            old(instrs)@.len() as int,
        ),
{
    let ghost all = instrs_view(instrs@);
    let ghost blocks = blocks_of(all);
    let starts = runtime_basic_block_starts(instrs);
    let count: usize = instrs.len();
    for i in 0..count
        invariant
            count == instrs@.len(),
            count == all.len(),
            blocks == blocks_of(all),
            starts@.len() == count,
            forall|j: int|
                0 <= j < starts@.len() ==> #[trigger] starts@[j] == block_start(all, j),
            instrs_view(instrs@) == drop_bounded_checks(all, blocks, i as int),
    {
        let ghost before = instrs_view(instrs@);
        assert(before[i as int] == instrs@[i as int]@);
        assert(starts@[i as int] == blocks(i as int));
        let proven = match &instrs[i] {
            RuntimeInstr::LoadIndex { base_slots, index, .. }
            | RuntimeInstr::StoreIndex { base_slots, index, .. } => {
                runtime_index_operand_proven_in_bounds(
                    instrs,
                    starts[i],
                    i,
                    index,
                    base_slots.len(),
                )
            },
            _ => false,
        };
        if proven {
            drop_check_at(instrs, i);
        }
    }
}

/// An array and an index that a check has found in bounds.
pub struct CheckedIndexGuardKey {
    pub base_slots: Vec<usize>,
    pub index: RuntimeOperand,
}

/// A guard as a mathematical value.
pub struct GuardView {
    pub base_slots: Seq<usize>,
    pub index: RuntimeOperand,
}

impl View for CheckedIndexGuardKey {
    type V = GuardView;

    open spec fn view(&self) -> GuardView {
        GuardView { base_slots: self.base_slots@, index: self.index }
    }
}

impl CheckedIndexGuardKey {
    /// The guard that a check of this access gives.
    pub fn from_access(base_slots: &Vec<usize>, index: &RuntimeOperand) -> (guard: Self)
        ensures
            guard@ == (GuardView { base_slots: base_slots@, index: *index }),
    {
        CheckedIndexGuardKey { base_slots: copy_slots(base_slots), index: *index }
    }

    /// Whether the guard covers this access.
    pub fn matches_access(&self, base_slots: &Vec<usize>, index: &RuntimeOperand) -> (same: bool)
        ensures
            same == (self@ == GuardView { base_slots: base_slots@, index: *index }),
    {
        if self.index != *index || self.base_slots.len() != base_slots.len() {
            return false;
        }
        for i in 0..base_slots.len()
            invariant
                self.base_slots@.len() == base_slots@.len(),
                forall|j: int| 0 <= j < i ==> self.base_slots@[j] == base_slots@[j],
        {
            if self.base_slots[i] != base_slots[i] {
                return false;
            }
        }
        assert(self.base_slots@ =~= base_slots@);
        true
    }
}

/// The guards of a list.
pub open spec fn guards_view(guards: Seq<CheckedIndexGuardKey>) -> Seq<GuardView> {
    Seq::new(guards.len(), |i: int| guards[i]@)
}

/// The guards whose index the instruction does not change.
pub open spec fn surviving_guards(guards: Seq<GuardView>, instr: InstrView) -> Seq<GuardView>
    decreases guards.len(),
{
    if guards.len() == 0 {
        seq![]
    } else {
        let front = surviving_guards(guards.drop_last(), instr);
        match guards.last().index {
            RuntimeOperand::Slot(slot) => if writes(instr, slot) {
                front
            } else {
                front.push(guards.last())
            },
            RuntimeOperand::Imm(_) => front.push(guards.last()),
        }
    }
}

/// Dropping repeated checks in progress: the program, the guards in force, and
/// the block they belong to.
pub struct GuardState {
    pub instrs: Seq<InstrView>,
    pub guards: Seq<GuardView>,
}

/// The state after the first n instructions: an access that an earlier check in
/// its block covers loses its own check; otherwise its check covers later ones.
pub open spec fn drop_repeated_checks(
    instrs: Seq<InstrView>,
    starts: spec_fn(int) -> int,
    n: int,
) -> GuardState
    decreases n,
{
    if n <= 0 {
        GuardState { instrs, guards: seq![] }
    } else {
        let before = drop_repeated_checks(instrs, starts, n - 1);
        let guards = if n >= 2 && starts(n - 1) == starts(n - 2) {
            before.guards
        } else {
            seq![]
        };
        let instr = before.instrs[n - 1];
        match checked_access(instr) {
            Some((base_slots, index)) => {
                let guard = GuardView { base_slots, index };
                if guards.contains(guard) {
                    GuardState {
                        instrs: before.instrs.update(n - 1, unchecked(instr)),
                        guards: surviving_guards(guards, unchecked(instr)),
                    }
                } else {
                    GuardState {
                        instrs: before.instrs,
                        guards: surviving_guards(guards.push(guard), instr),
                    }
                }
            },
            None => GuardState {
                instrs: before.instrs,
                guards: surviving_guards(guards, instr),
            },
        }
    }
}

/// Dropping repeated checks changes checks only.
pub proof fn lemma_drop_repeated_checks(
    instrs: Seq<InstrView>,
    starts: spec_fn(int) -> int,
    n: int,
)
    requires
        0 <= n <= instrs.len(),
    ensures
        same_but_checks(instrs, drop_repeated_checks(instrs, starts, n).instrs),
    decreases n,
{
    if n > 0 {
        lemma_drop_repeated_checks(instrs, starts, n - 1);
        lemma_same_but_checks_update(
            instrs,
            drop_repeated_checks(instrs, starts, n - 1).instrs,
            n - 1,
        );
    }
}

/// Whether some guard covers the access.
fn some_guard_matches(
    guards: &Vec<CheckedIndexGuardKey>,
    base_slots: &Vec<usize>,
    index: &RuntimeOperand,
) -> (found: bool)
    ensures
        found == guards_view(guards@).contains(
            GuardView { base_slots: base_slots@, index: *index },
        ),
{
    let ghost all = guards_view(guards@);
    let ghost wanted = GuardView { base_slots: base_slots@, index: *index };
    for i in 0..guards.len()
        invariant
            all == guards_view(guards@),
            wanted == (GuardView { base_slots: base_slots@, index: *index }),
            forall|j: int| 0 <= j < i ==> all[j] != wanted,
    {
        assert(all[i as int] == guards@[i as int]@);
        if guards[i].matches_access(base_slots, index) {
            return true;
        }
    }
    false
}

/// Drops the guards whose index the instruction changes.
fn retain_guards(guards: Vec<CheckedIndexGuardKey>, instr: &RuntimeInstr) -> (kept: Vec<
    CheckedIndexGuardKey,
>)
    ensures
        guards_view(kept@) == surviving_guards(guards_view(guards@), instr@),
{
    let ghost all = guards_view(guards@);
    let mut kept: Vec<CheckedIndexGuardKey> = Vec::new();
    for i in 0..guards.len()
        invariant
            all == guards_view(guards@),
            guards_view(kept@) == surviving_guards(all.take(i as int), instr@),
    {
        let ghost before = guards_view(kept@);
        assert(all[i as int] == guards@[i as int]@);
        assert(all.take(i + 1).drop_last() =~= all.take(i as int));
        let keep = match guards[i].index {
            RuntimeOperand::Slot(slot) => !runtime_instr_writes_slot(instr, slot),
            RuntimeOperand::Imm(_) => true,
        };
        if keep {
            let guard = CheckedIndexGuardKey::from_access(&guards[i].base_slots, &guards[i].index);
            kept.push(guard);
            assert(guards_view(kept@) =~= before.push(all[i as int]));
        }
    }
    assert(all.take(guards@.len() as int) =~= all);
    kept
}

/// Drops the check of an access that repeats an earlier one in its basic block
/// while the index is unchanged.
pub fn hoist_repeated_identical_index_checks(instrs: &mut Vec<RuntimeInstr>)
    ensures
        instrs_view(final(instrs)@) == drop_repeated_checks(
            instrs_view(old(instrs)@),
            blocks_of(instrs_view(old(instrs)@)),
            old(instrs)@.len() as int,
        ).instrs,
{
    let ghost all = instrs_view(instrs@);
    let ghost blocks = blocks_of(all);
    let starts = runtime_basic_block_starts(instrs);
    let count: usize = instrs.len();
    let mut guards: Vec<CheckedIndexGuardKey> = Vec::new();
    assert(guards_view(guards@) =~= seq![]);
    for i in 0..count
        invariant
            count == instrs@.len(),
            count == all.len(),
            blocks == blocks_of(all),
            starts@.len() == count,
            forall|j: int|
                0 <= j < starts@.len() ==> #[trigger] starts@[j] == block_start(all, j),
            instrs_view(instrs@) == drop_repeated_checks(all, blocks, i as int).instrs,
            guards_view(guards@) == drop_repeated_checks(all, blocks, i as int).guards,
    {
        let ghost before = instrs_view(instrs@);
        assert(before[i as int] == instrs@[i as int]@);
        assert(starts@[i as int] == blocks(i as int));
        proof {
            if i > 0 {
                assert(starts@[i - 1] == blocks(i - 1));
            }
        }
        if i == 0 || starts[i] != starts[i - 1] {
            guards = Vec::new();
            assert(guards_view(guards@) =~= seq![]);
        }
        let ghost in_force = guards_view(guards@);
        let access: Option<CheckedIndexGuardKey> = match &instrs[i] {
            RuntimeInstr::LoadIndex { base_slots, index, .. }
            | RuntimeInstr::StoreIndex { base_slots, index, .. } => {
                Some(CheckedIndexGuardKey::from_access(base_slots, index))
            },
            _ => None,
        };
        if let Some(guard) = access {
            if some_guard_matches(&guards, &guard.base_slots, &guard.index) {
                drop_check_at(instrs, i);
            } else {
                let ghost view = guard@;
                guards.push(guard);
                assert(guards_view(guards@) =~= in_force.push(view));
            }
        }
        assert(instrs_view(instrs@)[i as int] == instrs@[i as int]@);
        guards = retain_guards(guards, &instrs[i]);
    }
}

} // verus!
