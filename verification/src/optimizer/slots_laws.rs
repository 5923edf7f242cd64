//! What slot compaction leaves.

use crate::ir::{InstrView, ProgramView};
use crate::optimizer::slots::{
    by_rank, compact_slots, has_unused_slot, lemma_instr_below, lemma_slot_rank, rename,
    rename_list, slot_is_used, slot_rank, slots_below,
};
use crate::optimizer::uses::mentions;
use vstd::prelude::*;

verus! {

/// The slots that the instructions use.
pub open spec fn used_slots(instrs: Seq<InstrView>) -> Set<usize> {
    Set::new(|slot: usize| slot_is_used(instrs, slot))
}

/// Those of them below a slot.
spec fn used_below(instrs: Seq<InstrView>, slot: nat) -> Set<usize> {
    Set::new(|other: usize| other < slot && slot_is_used(instrs, other))
}

/// A rank is the number of used slots below.
proof fn lemma_rank_counts(instrs: Seq<InstrView>, slot: nat)
    requires
        slot <= usize::MAX,
    ensures
        used_below(instrs, slot).finite(),
        used_below(instrs, slot).len() == slot_rank(instrs, slot),
    decreases slot,
{
    if slot == 0 {
        assert(used_below(instrs, slot) =~= Set::empty());
    } else {
        let last = (slot - 1) as usize;
        lemma_rank_counts(instrs, (slot - 1) as nat);
        if slot_is_used(instrs, last) {
            assert(used_below(instrs, slot) =~= used_below(instrs, (slot - 1) as nat).insert(last));
        } else {
            assert(used_below(instrs, slot) =~= used_below(instrs, (slot - 1) as nat));
        }
    }
}

/// Where every slot below is used, a slot is its own rank.
pub proof fn lemma_rank_of_used(instrs: Seq<InstrView>, slot: nat)
    requires
        slot <= usize::MAX,
        forall|other: usize| other < slot ==> #[trigger] slot_is_used(instrs, other),
    ensures
        slot_rank(instrs, slot) == slot,
    decreases slot,
{
    if slot > 0 {
        lemma_rank_of_used(instrs, (slot - 1) as nat);
        assert(slot_is_used(instrs, (slot - 1) as usize));
    }
}

/// Each rank below that of a slot is the rank of a used one.
proof fn lemma_rank_hit(instrs: Seq<InstrView>, slot: nat, rank: nat) -> (hit: usize)
    requires
        slot <= usize::MAX,
        rank < slot_rank(instrs, slot),
    ensures
        hit < slot,
        slot_is_used(instrs, hit),
        slot_rank(instrs, hit as nat) == rank,
    decreases slot,
{
    if slot == 0 {
        0
    } else if rank < slot_rank(instrs, (slot - 1) as nat) {
        lemma_rank_hit(instrs, (slot - 1) as nat, rank)
    } else {
        (slot - 1) as usize
    }
}

/// An instruction under other names mentions the other name of what it mentions.
#[verifier::rlimit(60)]
proof fn lemma_rename_mentions(instr: InstrView, f: spec_fn(usize) -> usize, slot: usize)
    requires
        mentions(instr, slot),
    ensures
        mentions(rename(instr, f), f(slot)),
{
    assert forall|slots: Seq<usize>| slots.contains(slot) implies #[trigger] rename_list(
        slots,
        f,
    ).contains(f(slot)) by {
        let i = choose|i: int| 0 <= i < slots.len() && slots[i] == slot;
        assert(rename_list(slots, f)[i] == f(slot));
    }
}

/// After compaction a program has as many slots as its instructions use.
pub proof fn law_compaction_counts_slots(program: ProgramView)
    requires
        slots_below(program.instrs, program.slots as int),
    ensures
        used_slots(program.instrs).finite(),
        compact_slots(program).slots == used_slots(program.instrs).len(),
{
    let instrs = program.instrs;
    let slots = program.slots as nat;
    assert(used_slots(instrs) =~= used_below(instrs, slots)) by {
        assert forall|slot: usize| slot_is_used(instrs, slot) implies slot < slots by {
            let i = choose|i: int| 0 <= i < instrs.len() && mentions(#[trigger] instrs[i], slot);
            lemma_instr_below(instrs[i], slots as int);
        }
    }
    lemma_rank_counts(instrs, slots);
    lemma_slot_rank(instrs, slots, slots);
    if !has_unused_slot(program) {
        lemma_rank_of_used(instrs, slots);
    }
}

/// Compaction of a compacted program changes nothing.
pub proof fn law_compaction_is_idempotent(program: ProgramView)
    ensures
        !has_unused_slot(compact_slots(program)),
        compact_slots(compact_slots(program)) == compact_slots(program),
{
    if has_unused_slot(program) {
        let instrs = program.instrs;
        let f = by_rank(instrs);
        let new = compact_slots(program);
        lemma_slot_rank(instrs, program.slots as nat, program.slots as nat);
        assert forall|slot: usize| slot < new.slots implies #[trigger] slot_is_used(
            new.instrs,
            slot,
        ) by {
            let hit = lemma_rank_hit(instrs, program.slots as nat, slot as nat);
            let i = choose|i: int| 0 <= i < instrs.len() && mentions(#[trigger] instrs[i], hit);
            lemma_rename_mentions(instrs[i], f, hit);
            assert(f(hit) == slot);
            assert(mentions(new.instrs[i], slot));
        }
    }
}

} // verus!
