//! Copy propagation along straight-line code.

use crate::ir::{copy_slots, instrs_view, optional_view, InstrView, RuntimeInstr, RuntimeOperand};
use crate::optimizer::machine::{
    event, events, is_slot_arithmetic, is_straight, leaves_at_end, lemma_run_push, run, step,
    value_of, SlotState,
};
use crate::optimizer::slots::{instr_below, lemma_contains_prefix, operand_below, slots_below};
use crate::optimizer::targets::{
    clamped_lookup, control_flow_entries, enters, is_entered, map_code_target, map_code_targets,
    remap_code,
};
use vstd::prelude::*;

verus! {

/// For each slot, a slot that holds the same value, where one is known.
pub type Aliases = Seq<Option<usize>>;

/// Every alias names a slot of the program.
pub open spec fn aliases_in_range(aliases: Aliases) -> bool {
    forall|i: int|
        0 <= i < aliases.len() ==> ((#[trigger] aliases[i]) matches Some(other) ==> other
            < aliases.len())
}

/// The slot at the end of a chain of at most `hops` aliases.
pub open spec fn alias_root(aliases: Aliases, slot: usize, hops: nat) -> usize
    decreases hops,
{
    if hops == 0 {
        slot
    } else {
        match aliases[slot as int] {
            Some(next) => if next == slot {
                slot
            } else {
                alias_root(aliases, next, (hops - 1) as nat)
            },
            None => slot,
        }
    }
}

/// The slot that stands for a slot.
pub open spec fn resolved(slot: usize, aliases: Aliases) -> usize {
    alias_root(aliases, slot, aliases.len())
}

/// The operand with its slot replaced by the one that stands for it.
pub open spec fn renamed(operand: RuntimeOperand, aliases: Aliases) -> RuntimeOperand {
    match operand {
        RuntimeOperand::Slot(slot) => RuntimeOperand::Slot(resolved(slot, aliases)),
        RuntimeOperand::Imm(value) => RuntimeOperand::Imm(value),
    }
}

/// The aliases that do not involve a slot.
pub open spec fn invalidated(aliases: Aliases, slot: usize) -> Aliases {
    Seq::new(
        aliases.len(),
        |i: int|
            if i == slot || aliases[i] == Some(slot) {
                None
            } else {
                aliases[i]
            },
    )
}

/// The aliases that involve no slot of a list.
pub open spec fn invalidated_list(aliases: Aliases, slots: Seq<usize>) -> Aliases {
    Seq::new(
        aliases.len(),
        |i: int|
            if slots.contains(i as usize) || (aliases[i] is Some && slots.contains(aliases[i]->0)) {
                None
            } else {
                aliases[i]
            },
    )
}

/// No aliases.
pub open spec fn no_aliases(slots: nat) -> Aliases {
    Seq::new(slots, |i: int| None)
}

/// An instruction rewritten, or dropped, and the aliases after it.
pub struct Copied {
    pub instr: Option<InstrView>,
    pub aliases: Aliases,
}

/// The instruction with its operands renamed, and the aliases after it.
pub open spec fn copy_instr(instr: InstrView, aliases: Aliases) -> Copied {
    let none = no_aliases(aliases.len());
    match instr {
        InstrView::Mov { dst, src } => {
            let src = renamed(src, aliases);
            let after = invalidated(aliases, dst);
            match src {
                RuntimeOperand::Slot(from) => if from == dst {
                    Copied { instr: None, aliases: after }
                } else {
                    Copied {
                        instr: Some(InstrView::Mov { dst, src }),
                        aliases: after.update(dst as int, Some(from)),
                    }
                },
                RuntimeOperand::Imm(_) => Copied {
                    instr: Some(InstrView::Mov { dst, src }),
                    aliases: after,
                },
            }
        },
        InstrView::LoadSeed { dst, .. } | InstrView::NormalizeInt { dst, .. } => Copied {
            instr: Some(instr),
            aliases: invalidated(aliases, dst),
        },
        InstrView::CompareSwap { left, right, .. } => Copied {
            instr: Some(instr),
            aliases: invalidated(invalidated(aliases, left), right),
        },
        InstrView::RadixSortFixedInt { slots, .. } => Copied {
            instr: Some(instr),
            aliases: invalidated_list(aliases, slots),
        },
        InstrView::PrintConst { .. } => Copied { instr: Some(instr), aliases },
        InstrView::Jump { .. }
        | InstrView::Call { .. }
        | InstrView::Return
        | InstrView::ThreadSpawn { .. }
        | InstrView::BloomSplitBlockInsert { .. } => Copied { instr: Some(instr), aliases: none },
        InstrView::JumpIfZero { cond_slot, target } => Copied {
            instr: Some(InstrView::JumpIfZero { cond_slot: resolved(cond_slot, aliases), target }),
            aliases: none,
        },
        InstrView::PrintInt { value, signed, bits } => Copied {
            instr: Some(InstrView::PrintInt { value: renamed(value, aliases), signed, bits }),
            aliases,
        },
        InstrView::BinOp { dst, op, lhs, rhs } => Copied {
            instr: Some(
                InstrView::BinOp {
                    dst,
                    op,
                    lhs: renamed(lhs, aliases),
                    rhs: renamed(rhs, aliases),
                },
            ),
            aliases: invalidated(aliases, dst),
        },
        InstrView::BinOpInPlace { dst, op, rhs } => Copied {
            instr: Some(InstrView::BinOpInPlace { dst, op, rhs: renamed(rhs, aliases) }),
            aliases: invalidated(aliases, dst),
        },
        InstrView::FloatBinOp { dst, bits, op, lhs, rhs } => Copied {
            instr: Some(
                InstrView::FloatBinOp {
                    dst,
                    bits,
                    op,
                    lhs: renamed(lhs, aliases),
                    rhs: renamed(rhs, aliases),
                },
            ),
            aliases: invalidated(aliases, dst),
        },
        InstrView::Cmp { dst, op, lhs, rhs } => Copied {
            instr: Some(
                InstrView::Cmp {
                    dst,
                    op,
                    lhs: renamed(lhs, aliases),
                    rhs: renamed(rhs, aliases),
                },
            ),
            aliases: invalidated(aliases, dst),
        },
        InstrView::LoadIndex { dst, base_slots, index } => Copied {
            instr: Some(InstrView::LoadIndex { dst, base_slots, index: renamed(index, aliases) }),
            aliases: invalidated(aliases, dst),
        },
        InstrView::LoadIndexUnchecked { dst, base_slots, index } => Copied {
            instr: Some(
                InstrView::LoadIndexUnchecked { dst, base_slots, index: renamed(index, aliases) },
            ),
            aliases: invalidated(aliases, dst),
        },
        InstrView::StoreIndex { base_slots, index, src } => Copied {
            instr: Some(
                InstrView::StoreIndex {
                    base_slots,
                    index: renamed(index, aliases),
                    src: renamed(src, aliases),
                },
            ),
            aliases: invalidated_list(aliases, base_slots),
        },
        InstrView::StoreIndexUnchecked { base_slots, index, src } => Copied {
            instr: Some(
                InstrView::StoreIndexUnchecked {
                    base_slots,
                    index: renamed(index, aliases),
                    src: renamed(src, aliases),
                },
            ),
            aliases: invalidated_list(aliases, base_slots),
        },
        InstrView::BloomSplitBlockCheck { dst, filter_slots, hash } => {
            let before = invalidated(aliases, dst);
            Copied {
                instr: Some(
                    InstrView::BloomSplitBlockCheck {
                        dst,
                        filter_slots,
                        hash: renamed(hash, before),
                    },
                ),
                aliases: before,
            }
        },
        InstrView::BloomClassic4Check { dst, lanes_checked, filter_slots, hash } => {
            let before = invalidated(invalidated(aliases, dst), lanes_checked);
            Copied {
                instr: Some(
                    InstrView::BloomClassic4Check {
                        dst,
                        lanes_checked,
                        filter_slots,
                        hash: renamed(hash, before),
                    },
                ),
                aliases: before,
            }
        },
        InstrView::HashCtrlGroupProbe { dst_mask, ctrl_slots, group_start, fingerprint } => {
            let before = invalidated(aliases, dst_mask);
            Copied {
                instr: Some(
                    InstrView::HashCtrlGroupProbe {
                        dst_mask,
                        ctrl_slots,
                        group_start: renamed(group_start, before),
                        fingerprint: renamed(fingerprint, before),
                    },
                ),
                aliases: before,
            }
        },
        InstrView::JoinSelectAdaptive { dst, build_rows, probe_rows } => {
            let before = invalidated(aliases, dst);
            Copied {
                instr: Some(
                    InstrView::JoinSelectAdaptive {
                        dst,
                        build_rows: renamed(build_rows, before),
                        probe_rows: renamed(probe_rows, before),
                    },
                ),
                aliases: before,
            }
        },
        InstrView::HeapLoadInt { dst, ptr, index, bytes } => {
            let before = invalidated(aliases, dst);
            Copied {
                instr: Some(
                    InstrView::HeapLoadInt {
                        dst,
                        ptr: renamed(ptr, before),
                        index: renamed(index, before),
                        bytes,
                    },
                ),
                aliases: none,
            }
        },
        InstrView::Alloc { dst, size } => {
            let before = invalidated(aliases, dst);
            Copied {
                instr: Some(InstrView::Alloc { dst, size: renamed(size, before) }),
                aliases: none,
            }
        },
        InstrView::FileOpen { dst, path_ptr, flags, mode } => {
            let before = invalidated(aliases, dst);
            Copied {
                instr: Some(
                    InstrView::FileOpen { dst, path_ptr: renamed(path_ptr, before), flags, mode },
                ),
                aliases: none,
            }
        },
        InstrView::FileWrite { dst, fd, ptr, len } => {
            let before = invalidated(aliases, dst);
            Copied {
                instr: Some(
                    InstrView::FileWrite {
                        dst,
                        fd: renamed(fd, before),
                        ptr: renamed(ptr, before),
                        len: renamed(len, before),
                    },
                ),
                aliases: none,
            }
        },
        InstrView::FileRead { dst, fd, ptr, len } => {
            let before = invalidated(aliases, dst);
            Copied {
                instr: Some(
                    InstrView::FileRead {
                        dst,
                        fd: renamed(fd, before),
                        ptr: renamed(ptr, before),
                        len: renamed(len, before),
                    },
                ),
                aliases: none,
            }
        },
        InstrView::ThreadJoin { dst, handle } => {
            let before = invalidated(aliases, dst);
            Copied {
                instr: Some(InstrView::ThreadJoin { dst, handle: renamed(handle, before) }),
                aliases: none,
            }
        },
        InstrView::ChannelCreate { dst, capacity, unbounded } => {
            let before = invalidated(aliases, dst);
            Copied {
                instr: Some(
                    InstrView::ChannelCreate {
                        dst,
                        capacity: renamed(capacity, before),
                        unbounded,
                    },
                ),
                aliases: none,
            }
        },
        InstrView::ChannelRecv { dst, handle } => {
            let before = invalidated(aliases, dst);
            Copied {
                instr: Some(InstrView::ChannelRecv { dst, handle: renamed(handle, before) }),
                aliases: none,
            }
        },
        InstrView::HeapStoreInt { ptr, index, src, bytes } => Copied {
            instr: Some(
                InstrView::HeapStoreInt {
                    ptr: renamed(ptr, aliases),
                    index: renamed(index, aliases),
                    src: renamed(src, aliases),
                    bytes,
                },
            ),
            aliases: none,
        },
        InstrView::HeapCopy { dst_ptr, src_ptr, bytes } => Copied {
            instr: Some(
                InstrView::HeapCopy {
                    dst_ptr: renamed(dst_ptr, aliases),
                    src_ptr: renamed(src_ptr, aliases),
                    bytes: renamed(bytes, aliases),
                },
            ),
            aliases: none,
        },
        InstrView::Free { ptr, size } => Copied {
            instr: Some(
                InstrView::Free { ptr: renamed(ptr, aliases), size: renamed(size, aliases) },
            ),
            aliases: none,
        },
        InstrView::FileClose { fd } => Copied {
            instr: Some(InstrView::FileClose { fd: renamed(fd, aliases) }),
            aliases: none,
        },
        InstrView::ChannelSend { handle, value } => Copied {
            instr: Some(
                InstrView::ChannelSend {
                    handle: renamed(handle, aliases),
                    value: renamed(value, aliases),
                },
            ),
            aliases: none,
        },
        InstrView::ChannelClose { handle, sender } => Copied {
            instr: Some(InstrView::ChannelClose { handle: renamed(handle, aliases), sender }),
            aliases: none,
        },
        InstrView::ChannelDestroy { handle } => Copied {
            instr: Some(InstrView::ChannelDestroy { handle: renamed(handle, aliases) }),
            aliases: none,
        },
        InstrView::JumpIfCmpFalse { op, lhs, rhs, target } => Copied {
            instr: Some(
                InstrView::JumpIfCmpFalse {
                    op,
                    lhs: renamed(lhs, aliases),
                    rhs: renamed(rhs, aliases),
                    target,
                },
            ),
            aliases: none,
        },
        InstrView::Exit { code } => Copied {
            instr: Some(InstrView::Exit { code: renamed(code, aliases) }),
            aliases: none,
        },
    }
}

/// The slot at the end of a chain of aliases.
fn resolve(slot: usize, aliases: &Vec<Option<usize>>) -> (root: usize)
    requires
        aliases@.len() == 0 || slot < aliases@.len(),
        aliases_in_range(aliases@),
    ensures
        root == resolved(slot, aliases@),
{
    let mut root: usize = slot;
    let count: usize = aliases.len();
    for hop in 0..count
        invariant
            count == aliases@.len(),
            count == 0 || root < aliases@.len(),
            aliases_in_range(aliases@),
            alias_root(aliases@, root, (count - hop) as nat) == resolved(slot, aliases@),
    {
        match aliases[root] {
            Some(next) => {
                if next == root {
                    return root;
                }
                root = next;
            },
            None => {
                return root;
            },
        }
    }
    root
}

/// The operand with its slot replaced by the one that stands for it.
fn rewrite_operand(operand: &RuntimeOperand, aliases: &Vec<Option<usize>>) -> (result:
    RuntimeOperand)
    requires
        may_rename(*operand, aliases@.len() as int),
        aliases_in_range(aliases@),
    ensures
        result == renamed(*operand, aliases@),
{
    match operand {
        RuntimeOperand::Slot(slot) => RuntimeOperand::Slot(resolve(*slot, aliases)),
        RuntimeOperand::Imm(value) => RuntimeOperand::Imm(*value),
    }
}

/// Drops the aliases that involve a slot.
fn invalidate_slot(slot: usize, aliases: &mut Vec<Option<usize>>)
    ensures
        final(aliases)@ == invalidated(old(aliases)@, slot),
        aliases_in_range(old(aliases)@) ==> aliases_in_range(final(aliases)@),
{
    let ghost start = aliases@;
    let count: usize = aliases.len();
    for i in 0..count
        invariant
            count == aliases@.len(),
            start.len() == count,
            forall|j: int| 0 <= j < i ==> aliases@[j] == invalidated(start, slot)[j],
            forall|j: int| i <= j < count ==> aliases@[j] == start[j],
    {
        if i == slot || aliases[i] == Some(slot) {
            aliases.set(i, None);
        }
    }
    assert(aliases@ =~= invalidated(start, slot));
}

/// Dropping the aliases of a list's first n + 1 slots is dropping those of the
/// first n, then of the next.
proof fn lemma_invalidated_list_step(aliases: Aliases, slots: Seq<usize>, n: int)
    requires
        0 <= n < slots.len(),
        aliases.len() <= usize::MAX,
    ensures
        invalidated(invalidated_list(aliases, slots.take(n)), slots[n]) == invalidated_list(
            aliases,
            slots.take(n + 1),
        ),
{
    let a = invalidated(invalidated_list(aliases, slots.take(n)), slots[n]);
    let b = invalidated_list(aliases, slots.take(n + 1));
    assert forall|i: int| 0 <= i < aliases.len() implies a[i] == b[i] by {
        lemma_contains_prefix(slots, n, i as usize);
        if let Some(other) = aliases[i] {
            lemma_contains_prefix(slots, n, other);
        }
    }
    assert(a =~= b);
}

/// Drops the aliases that involve a slot of a list.
fn invalidate_slots(slots: &Vec<usize>, aliases: &mut Vec<Option<usize>>)
    requires
        aliases_in_range(old(aliases)@),
    ensures
        final(aliases)@ == invalidated_list(old(aliases)@, slots@),
        aliases_in_range(final(aliases)@),
{
    let ghost start = aliases@;
    let count: usize = aliases.len();
    assert(invalidated_list(start, slots@.take(0)) =~= start);
    for i in 0..slots.len()
        invariant
            start.len() == count,
            aliases_in_range(aliases@),
            aliases@ == invalidated_list(start, slots@.take(i as int)),
    {
        invalidate_slot(slots[i], aliases);
        proof {
            lemma_invalidated_list_step(start, slots@, i as int);
        }
    }
    assert(slots@.take(slots@.len() as int) =~= slots@);
}

/// Drops all aliases.
fn clear_aliases(aliases: &mut Vec<Option<usize>>)
    ensures
        final(aliases)@ == no_aliases(old(aliases)@.len()),
        aliases_in_range(final(aliases)@),
{
    let count: usize = aliases.len();
    for i in 0..count
        invariant
            count == aliases@.len(),
            forall|j: int| 0 <= j < i ==> aliases@[j] is None,
    {
        aliases.set(i, None);
    }
    assert(aliases@ =~= no_aliases(count as nat));
}

/// A chain of aliases stays in range.
proof fn lemma_alias_root_in_range(aliases: Aliases, slot: usize, hops: nat)
    requires
        aliases_in_range(aliases),
        slot < aliases.len(),
    ensures
        alias_root(aliases, slot, hops) < aliases.len(),
    decreases hops,
{
    if hops > 0 {
        if let Some(next) = aliases[slot as int] {
            if next != slot {
                lemma_alias_root_in_range(aliases, next, (hops - 1) as nat);
            }
        }
    }
}

/// How many slots the aliases cover.
pub open spec fn alias_count(aliases: Aliases) -> int {
    aliases.len() as int
}

/// The operand can be looked up among the aliases: it is an immediate value or a
/// slot below `bound`, or there are no aliases at all.
pub open spec fn may_rename(operand: RuntimeOperand, bound: int) -> bool {
    bound == 0 || operand_below(operand, bound)
}

/// The operands of an instruction can be looked up among the aliases, and the
/// slot of a copy has a place there.
pub open spec fn copy_room(instr: InstrView, bound: int) -> bool {
    match instr {
        InstrView::Mov { dst, src } => {
            may_rename(src, bound) && (src matches RuntimeOperand::Slot(slot) ==> dst < bound || (
            bound == 0 && slot == dst))
        },
        InstrView::BinOp { lhs, rhs, .. }
        | InstrView::FloatBinOp { lhs, rhs, .. }
        | InstrView::Cmp { lhs, rhs, .. }
        | InstrView::JumpIfCmpFalse { lhs, rhs, .. } => {
            may_rename(lhs, bound) && may_rename(rhs, bound)
        },
        InstrView::BinOpInPlace { rhs, .. } => may_rename(rhs, bound),
        InstrView::JumpIfZero { cond_slot, .. } => bound == 0 || cond_slot < bound,
        InstrView::LoadIndex { index, .. }
        | InstrView::LoadIndexUnchecked { index, .. } => may_rename(index, bound),
        InstrView::StoreIndex { index, src, .. }
        | InstrView::StoreIndexUnchecked { index, src, .. } => {
            may_rename(index, bound) && may_rename(src, bound)
        },
        InstrView::HeapLoadInt { ptr, index, .. } => {
            may_rename(ptr, bound) && may_rename(index, bound)
        },
        InstrView::HeapStoreInt { ptr, index, src, .. } => {
            may_rename(ptr, bound) && may_rename(index, bound) && may_rename(src, bound)
        },
        InstrView::HeapCopy { dst_ptr, src_ptr, bytes } => {
            may_rename(dst_ptr, bound) && may_rename(src_ptr, bound) && may_rename(bytes, bound)
        },
        InstrView::BloomSplitBlockInsert { hash, .. }
        | InstrView::BloomSplitBlockCheck { hash, .. }
        | InstrView::BloomClassic4Check { hash, .. } => may_rename(hash, bound),
        InstrView::HashCtrlGroupProbe { group_start, fingerprint, .. } => {
            may_rename(group_start, bound) && may_rename(fingerprint, bound)
        },
        InstrView::JoinSelectAdaptive { build_rows, probe_rows, .. } => {
            may_rename(build_rows, bound) && may_rename(probe_rows, bound)
        },
        InstrView::Alloc { size, .. } => may_rename(size, bound),
        InstrView::Free { ptr, size } => may_rename(ptr, bound) && may_rename(size, bound),
        InstrView::FileOpen { path_ptr, .. } => may_rename(path_ptr, bound),
        InstrView::FileWrite { fd, ptr, len, .. }
        | InstrView::FileRead { fd, ptr, len, .. } => {
            may_rename(fd, bound) && may_rename(ptr, bound) && may_rename(len, bound)
        },
        InstrView::FileClose { fd } => may_rename(fd, bound),
        InstrView::ThreadJoin { handle, .. }
        | InstrView::ChannelRecv { handle, .. }
        | InstrView::ChannelClose { handle, .. }
        | InstrView::ChannelDestroy { handle } => may_rename(handle, bound),
        InstrView::ChannelCreate { capacity, .. } => may_rename(capacity, bound),
        InstrView::ChannelSend { handle, value } => {
            may_rename(handle, bound) && may_rename(value, bound)
        },
        InstrView::PrintInt { value, .. } => may_rename(value, bound),
        InstrView::Exit { code } => may_rename(code, bound),
        _ => true,
    }
}

/// There is room to rename each of the instructions.
pub open spec fn copies_in_room(instrs: Seq<InstrView>, bound: int) -> bool {
    forall|i: int| 0 <= i < instrs.len() ==> copy_room(#[trigger] instrs[i], bound)
}

/// Renames the operands of one instruction and updates the aliases.
#[verifier::rlimit(60)]
#[verifier::spinoff_prover]
fn copy_propagate_instr(instr: &RuntimeInstr, aliases: &mut Vec<Option<usize>>) -> (rewritten:
    Option<RuntimeInstr>)
    requires
        copy_room(instr@, alias_count(old(aliases)@)),
        aliases_in_range(old(aliases)@),
    ensures
        optional_view(rewritten) == copy_instr(instr@, old(aliases)@).instr,
        final(aliases)@ == copy_instr(instr@, old(aliases)@).aliases,
        aliases_in_range(final(aliases)@),
{
    match instr {
        RuntimeInstr::Mov { dst, src } => {
            let src = rewrite_operand(src, aliases);
            proof {
                if instr@->Mov_src is Slot && aliases@.len() > 0 {
                    let slot = instr@->Mov_src->Slot_0;
                    lemma_alias_root_in_range(aliases@, slot, aliases@.len());
                }
            }
            invalidate_slot(*dst, aliases);
            match src {
                RuntimeOperand::Slot(from) => {
                    if from == *dst {
                        return None;
                    }
                    aliases.set(*dst, Some(from));
                },
                RuntimeOperand::Imm(_) => {},
            }
            Some(RuntimeInstr::Mov { dst: *dst, src })
        },
        RuntimeInstr::LoadSeed { dst, .. } | RuntimeInstr::NormalizeInt { dst, .. } => {
            invalidate_slot(*dst, aliases);
            Some(instr.clone())
        },
        RuntimeInstr::CompareSwap { left, right, .. } => {
            invalidate_slot(*left, aliases);
            invalidate_slot(*right, aliases);
            Some(instr.clone())
        },
        RuntimeInstr::RadixSortFixedInt { slots, .. } => {
            invalidate_slots(slots, aliases);
            Some(instr.clone())
        },
        RuntimeInstr::PrintConst { .. } => Some(instr.clone()),
        RuntimeInstr::Jump { .. }
        | RuntimeInstr::Call { .. }
        | RuntimeInstr::Return
        | RuntimeInstr::ThreadSpawn { .. }
        | RuntimeInstr::BloomSplitBlockInsert { .. } => {
            clear_aliases(aliases);
            Some(instr.clone())
        },
        RuntimeInstr::JumpIfZero { cond_slot, target } => {
            let cond_slot: usize = resolve(*cond_slot, aliases);
            clear_aliases(aliases);
            Some(RuntimeInstr::JumpIfZero { cond_slot, target: *target })
        },
        RuntimeInstr::PrintInt { value, signed, bits } => {
            let value = rewrite_operand(value, aliases);
            Some(RuntimeInstr::PrintInt { value, signed: *signed, bits: *bits })
        },
        RuntimeInstr::BinOp { dst, op, lhs, rhs } => {
            let lhs = rewrite_operand(lhs, aliases);
            let rhs = rewrite_operand(rhs, aliases);
            invalidate_slot(*dst, aliases);
            Some(RuntimeInstr::BinOp { dst: *dst, op: *op, lhs, rhs })
        },
        RuntimeInstr::BinOpInPlace { dst, op, rhs } => {
            let rhs = rewrite_operand(rhs, aliases);
            invalidate_slot(*dst, aliases);
            Some(RuntimeInstr::BinOpInPlace { dst: *dst, op: *op, rhs })
        },
        RuntimeInstr::FloatBinOp { dst, bits, op, lhs, rhs } => {
            let lhs = rewrite_operand(lhs, aliases);
            let rhs = rewrite_operand(rhs, aliases);
            invalidate_slot(*dst, aliases);
            Some(RuntimeInstr::FloatBinOp { dst: *dst, bits: *bits, op: *op, lhs, rhs })
        },
        RuntimeInstr::Cmp { dst, op, lhs, rhs } => {
            let lhs = rewrite_operand(lhs, aliases);
            let rhs = rewrite_operand(rhs, aliases);
            invalidate_slot(*dst, aliases);
            Some(RuntimeInstr::Cmp { dst: *dst, op: *op, lhs, rhs })
        },
        RuntimeInstr::LoadIndex { dst, base_slots, index } => {
            let index = rewrite_operand(index, aliases);
            invalidate_slot(*dst, aliases);
            Some(RuntimeInstr::LoadIndex { dst: *dst, base_slots: copy_slots(base_slots), index })
        },
        RuntimeInstr::LoadIndexUnchecked { dst, base_slots, index } => {
            let index = rewrite_operand(index, aliases);
            invalidate_slot(*dst, aliases);
            Some(
                RuntimeInstr::LoadIndexUnchecked {
                    dst: *dst,
                    base_slots: copy_slots(base_slots),
                    index,
                },
            )
        },
        RuntimeInstr::StoreIndex { base_slots, index, src } => {
            let index = rewrite_operand(index, aliases);
            let src = rewrite_operand(src, aliases);
            invalidate_slots(base_slots, aliases);
            Some(RuntimeInstr::StoreIndex { base_slots: copy_slots(base_slots), index, src })
        },
        RuntimeInstr::StoreIndexUnchecked { base_slots, index, src } => {
            let index = rewrite_operand(index, aliases);
            let src = rewrite_operand(src, aliases);
            invalidate_slots(base_slots, aliases);
            Some(
                RuntimeInstr::StoreIndexUnchecked {
                    base_slots: copy_slots(base_slots),
                    index,
                    src,
                },
            )
        },
        RuntimeInstr::BloomSplitBlockCheck { dst, filter_slots, hash } => {
            invalidate_slot(*dst, aliases);
            let hash = rewrite_operand(hash, aliases);
            Some(
                RuntimeInstr::BloomSplitBlockCheck {
                    dst: *dst,
                    filter_slots: copy_slots(filter_slots),
                    hash,
                },
            )
        },
        RuntimeInstr::BloomClassic4Check { dst, lanes_checked, filter_slots, hash } => {
            invalidate_slot(*dst, aliases);
            invalidate_slot(*lanes_checked, aliases);
            let hash = rewrite_operand(hash, aliases);
            Some(
                RuntimeInstr::BloomClassic4Check {
                    dst: *dst,
                    lanes_checked: *lanes_checked,
                    filter_slots: copy_slots(filter_slots),
                    hash,
                },
            )
        },
        RuntimeInstr::HashCtrlGroupProbe { dst_mask, ctrl_slots, group_start, fingerprint } => {
            invalidate_slot(*dst_mask, aliases);
            let group_start = rewrite_operand(group_start, aliases);
            let fingerprint = rewrite_operand(fingerprint, aliases);
            Some(
                RuntimeInstr::HashCtrlGroupProbe {
                    dst_mask: *dst_mask,
                    ctrl_slots: copy_slots(ctrl_slots),
                    group_start,
                    fingerprint,
                },
            )
        },
        RuntimeInstr::JoinSelectAdaptive { dst, build_rows, probe_rows } => {
            invalidate_slot(*dst, aliases);
            let build_rows = rewrite_operand(build_rows, aliases);
            let probe_rows = rewrite_operand(probe_rows, aliases);
            Some(RuntimeInstr::JoinSelectAdaptive { dst: *dst, build_rows, probe_rows })
        },
        RuntimeInstr::HeapLoadInt { dst, ptr, index, bytes } => {
            invalidate_slot(*dst, aliases);
            let ptr = rewrite_operand(ptr, aliases);
            let index = rewrite_operand(index, aliases);
            clear_aliases(aliases);
            Some(RuntimeInstr::HeapLoadInt { dst: *dst, ptr, index, bytes: *bytes })
        },
        RuntimeInstr::Alloc { dst, size } => {
            invalidate_slot(*dst, aliases);
            let size = rewrite_operand(size, aliases);
            clear_aliases(aliases);
            Some(RuntimeInstr::Alloc { dst: *dst, size })
        },
        RuntimeInstr::FileOpen { dst, path_ptr, flags, mode } => {
            invalidate_slot(*dst, aliases);
            let path_ptr = rewrite_operand(path_ptr, aliases);
            clear_aliases(aliases);
            Some(RuntimeInstr::FileOpen { dst: *dst, path_ptr, flags: *flags, mode: *mode })
        },
        RuntimeInstr::FileWrite { dst, fd, ptr, len } => {
            invalidate_slot(*dst, aliases);
            let fd = rewrite_operand(fd, aliases);
            let ptr = rewrite_operand(ptr, aliases);
            let len = rewrite_operand(len, aliases);
            clear_aliases(aliases);
            Some(RuntimeInstr::FileWrite { dst: *dst, fd, ptr, len })
        },
        RuntimeInstr::FileRead { dst, fd, ptr, len } => {
            invalidate_slot(*dst, aliases);
            let fd = rewrite_operand(fd, aliases);
            let ptr = rewrite_operand(ptr, aliases);
            let len = rewrite_operand(len, aliases);
            clear_aliases(aliases);
            Some(RuntimeInstr::FileRead { dst: *dst, fd, ptr, len })
        },
        RuntimeInstr::ThreadJoin { dst, handle } => {
            invalidate_slot(*dst, aliases);
            let handle = rewrite_operand(handle, aliases);
            clear_aliases(aliases);
            Some(RuntimeInstr::ThreadJoin { dst: *dst, handle })
        },
        RuntimeInstr::ChannelCreate { dst, capacity, unbounded } => {
            invalidate_slot(*dst, aliases);
            let capacity = rewrite_operand(capacity, aliases);
            clear_aliases(aliases);
            Some(RuntimeInstr::ChannelCreate { dst: *dst, capacity, unbounded: *unbounded })
        },
        RuntimeInstr::ChannelRecv { dst, handle } => {
            invalidate_slot(*dst, aliases);
            let handle = rewrite_operand(handle, aliases);
            clear_aliases(aliases);
            Some(RuntimeInstr::ChannelRecv { dst: *dst, handle })
        },
        RuntimeInstr::HeapStoreInt { ptr, index, src, bytes } => {
            let ptr = rewrite_operand(ptr, aliases);
            let index = rewrite_operand(index, aliases);
            let src = rewrite_operand(src, aliases);
            clear_aliases(aliases);
            Some(RuntimeInstr::HeapStoreInt { ptr, index, src, bytes: *bytes })
        },
        RuntimeInstr::HeapCopy { dst_ptr, src_ptr, bytes } => {
            let dst_ptr = rewrite_operand(dst_ptr, aliases);
            let src_ptr = rewrite_operand(src_ptr, aliases);
            let bytes = rewrite_operand(bytes, aliases);
            clear_aliases(aliases);
            Some(RuntimeInstr::HeapCopy { dst_ptr, src_ptr, bytes })
        },
        RuntimeInstr::Free { ptr, size } => {
            let ptr = rewrite_operand(ptr, aliases);
            let size = rewrite_operand(size, aliases);
            clear_aliases(aliases);
            Some(RuntimeInstr::Free { ptr, size })
        },
        RuntimeInstr::FileClose { fd } => {
            let fd = rewrite_operand(fd, aliases);
            clear_aliases(aliases);
            Some(RuntimeInstr::FileClose { fd })
        },
        RuntimeInstr::ChannelSend { handle, value } => {
            let handle = rewrite_operand(handle, aliases);
            let value = rewrite_operand(value, aliases);
            clear_aliases(aliases);
            Some(RuntimeInstr::ChannelSend { handle, value })
        },
        RuntimeInstr::ChannelClose { handle, sender } => {
            let handle = rewrite_operand(handle, aliases);
            clear_aliases(aliases);
            Some(RuntimeInstr::ChannelClose { handle, sender: *sender })
        },
        RuntimeInstr::ChannelDestroy { handle } => {
            let handle = rewrite_operand(handle, aliases);
            clear_aliases(aliases);
            Some(RuntimeInstr::ChannelDestroy { handle })
        },
        RuntimeInstr::JumpIfCmpFalse { op, lhs, rhs, target } => {
            let lhs = rewrite_operand(lhs, aliases);
            let rhs = rewrite_operand(rhs, aliases);
            clear_aliases(aliases);
            Some(RuntimeInstr::JumpIfCmpFalse { op: *op, lhs, rhs, target: *target })
        },
        RuntimeInstr::Exit { code } => {
            let code = rewrite_operand(code, aliases);
            clear_aliases(aliases);
            Some(RuntimeInstr::Exit { code })
        },
    }
}

/// The instructions a pass has produced and the aliases at its place.
pub struct CopyState {
    pub out: Seq<InstrView>,
    pub aliases: Aliases,
}

/// The state of the pass after the first n instructions. No alias survives
/// where a branch may arrive.
pub open spec fn copy_prefix(instrs: Seq<InstrView>, slots: nat, n: int) -> CopyState
    decreases n,
{
    if n <= 0 {
        CopyState { out: seq![], aliases: no_aliases(slots) }
    } else {
        let before = copy_prefix(instrs, slots, n - 1);
        let aliases = if is_entered(instrs, n - 1) {
            no_aliases(slots)
        } else {
            before.aliases
        };
        let copied = copy_instr(instrs[n - 1], aliases);
        CopyState {
            out: match copied.instr {
                Some(instr) => before.out.push(instr),
                None => before.out,
            },
            aliases: copied.aliases,
        }
    }
}

/// Where an instruction goes when the pass drops some; one past the end goes
/// to the new end.
pub open spec fn copy_position(instrs: Seq<InstrView>, slots: nat) -> spec_fn(usize) -> usize {
    |target: usize|
        copy_prefix(
            instrs,
            slots,
            if target < instrs.len() {
                target as int
            } else {
                instrs.len() as int
            },
        ).out.len() as usize
}

/// The instructions with copies propagated and targets renumbered.
pub open spec fn copy_propagate(instrs: Seq<InstrView>, slots: nat) -> Seq<InstrView> {
    map_code_targets(
        copy_prefix(instrs, slots, instrs.len() as int).out,
        copy_position(instrs, slots),
    )
}

/// A renamed operand stays in range.
proof fn lemma_renamed_in_range(operand: RuntimeOperand, aliases: Aliases)
    requires
        operand_below(operand, alias_count(aliases)),
        aliases_in_range(aliases),
    ensures
        operand_below(renamed(operand, aliases), alias_count(aliases)),
{
    if let RuntimeOperand::Slot(slot) = operand {
        lemma_alias_root_in_range(aliases, slot, aliases.len());
    }
}

/// Renaming an instruction's operands keeps its slots and the aliases in range.
#[verifier::rlimit(40)]
pub proof fn lemma_copy_instr_in_range(instr: InstrView, aliases: Aliases)
    requires
        instr_below(instr, alias_count(aliases)),
        aliases_in_range(aliases),
    ensures
        copy_instr(instr, aliases).aliases.len() == aliases.len(),
        aliases_in_range(copy_instr(instr, aliases).aliases),
        copy_instr(instr, aliases).instr matches Some(next) ==> instr_below(
            next,
            alias_count(aliases),
        ),
{
    assert forall|operand: RuntimeOperand|
        operand_below(operand, alias_count(aliases)) implies #[trigger] operand_below(
        renamed(operand, aliases),
        alias_count(aliases),
    ) by {
        lemma_renamed_in_range(operand, aliases);
    }
    assert forall|operand: RuntimeOperand, slot: usize|
        operand_below(operand, alias_count(aliases)) implies #[trigger] operand_below(
        renamed(operand, invalidated(aliases, slot)),
        alias_count(aliases),
    ) by {
        lemma_renamed_in_range(operand, invalidated(aliases, slot));
    }
    match instr {
        InstrView::BloomClassic4Check { dst, lanes_checked, hash, .. } => {
            lemma_renamed_in_range(
                hash,
                invalidated(invalidated(aliases, dst), lanes_checked),
            );
        },
        InstrView::JumpIfZero { cond_slot, .. } => {
            lemma_alias_root_in_range(aliases, cond_slot, aliases.len());
        },
        InstrView::Mov { dst, src } => {
            lemma_renamed_in_range(src, aliases);
        },
        InstrView::LoadSeed { .. } => {},
        InstrView::BinOp { .. } => {},
        InstrView::BinOpInPlace { .. } => {},
        InstrView::FloatBinOp { .. } => {},
        InstrView::Cmp { .. } => {},
        InstrView::NormalizeInt { .. } => {},
        InstrView::Jump { .. } => {},
        InstrView::JumpIfCmpFalse { .. } => {},
        InstrView::CompareSwap { .. } => {},
        InstrView::RadixSortFixedInt { .. } => {},
        InstrView::Call { .. } => {},
        InstrView::LoadIndex { .. } => {},
        InstrView::LoadIndexUnchecked { .. } => {},
        InstrView::StoreIndex { .. } => {},
        InstrView::StoreIndexUnchecked { .. } => {},
        InstrView::HeapLoadInt { .. } => {},
        InstrView::HeapStoreInt { .. } => {},
        InstrView::HeapCopy { .. } => {},
        InstrView::BloomSplitBlockInsert { .. } => {},
        InstrView::BloomSplitBlockCheck { .. } => {},
        InstrView::HashCtrlGroupProbe { .. } => {},
        InstrView::JoinSelectAdaptive { .. } => {},
        InstrView::Alloc { .. } => {},
        InstrView::Free { .. } => {},
        InstrView::FileOpen { .. } => {},
        InstrView::FileWrite { .. } => {},
        InstrView::FileRead { .. } => {},
        InstrView::FileClose { .. } => {},
        InstrView::ThreadSpawn { .. } => {},
        InstrView::ThreadJoin { .. } => {},
        InstrView::ChannelCreate { .. } => {},
        InstrView::ChannelSend { .. } => {},
        InstrView::ChannelRecv { .. } => {},
        InstrView::ChannelClose { .. } => {},
        InstrView::ChannelDestroy { .. } => {},
        InstrView::PrintConst { .. } => {},
        InstrView::PrintInt { .. } => {},
        InstrView::Return => {},
        InstrView::Exit { .. } => {},
    }
}

/// Renaming an instruction that there is room for keeps the aliases in range.
proof fn lemma_copy_room(instr: InstrView, aliases: Aliases)
    requires
        copy_room(instr, alias_count(aliases)),
        aliases_in_range(aliases),
    ensures
        copy_instr(instr, aliases).aliases.len() == aliases.len(),
        aliases_in_range(copy_instr(instr, aliases).aliases),
{
    if let InstrView::Mov { src: RuntimeOperand::Slot(slot), .. } = instr {
        if aliases.len() > 0 {
            lemma_alias_root_in_range(aliases, slot, aliases.len());
        }
    }
}

/// The pass covers all slots where there is room.
proof fn lemma_copy_prefix_room(instrs: Seq<InstrView>, slots: nat, n: int)
    requires
        0 <= n <= instrs.len(),
        copies_in_room(instrs, slots as int),
    ensures
        copy_prefix(instrs, slots, n).aliases.len() == slots,
        aliases_in_range(copy_prefix(instrs, slots, n).aliases),
    decreases n,
{
    if n > 0 {
        lemma_copy_prefix_room(instrs, slots, n - 1);
        let aliases = if is_entered(instrs, n - 1) {
            no_aliases(slots)
        } else {
            copy_prefix(instrs, slots, n - 1).aliases
        };
        lemma_copy_room(instrs[n - 1], aliases);
    }
}

/// There is room for instructions whose slots are in range.
pub proof fn lemma_below_copies(instrs: Seq<InstrView>, bound: int)
    requires
        slots_below(instrs, bound),
    ensures
        copies_in_room(instrs, bound),
{
    assert forall|i: int| 0 <= i < instrs.len() implies copy_room(#[trigger] instrs[i], bound) by {
        assert(instr_below(instrs[i], bound));
    }
}

/// The pass covers all slots and stays in range.
pub proof fn lemma_copy_prefix(instrs: Seq<InstrView>, slots: nat, n: int)
    requires
        0 <= n <= instrs.len(),
        slots_below(instrs, slots as int),
    ensures
        copy_prefix(instrs, slots, n).aliases.len() == slots,
        aliases_in_range(copy_prefix(instrs, slots, n).aliases),
        copy_prefix(instrs, slots, n).out.len() <= n,
        slots_below(copy_prefix(instrs, slots, n).out, slots as int),
    decreases n,
{
    if n > 0 {
        lemma_copy_prefix(instrs, slots, n - 1);
        let before = copy_prefix(instrs, slots, n - 1);
        let aliases = if is_entered(instrs, n - 1) {
            no_aliases(slots)
        } else {
            before.aliases
        };
        assert(instr_below(instrs[n - 1], slots as int));
        lemma_copy_instr_in_range(instrs[n - 1], aliases);
    }
}

/// The pass keeps the program's slots in range and adds no instruction.
pub proof fn lemma_copy_propagate_in_range(instrs: Seq<InstrView>, slots: nat)
    requires
        slots_below(instrs, slots as int),
    ensures
        slots_below(copy_propagate(instrs, slots), slots as int),
        copy_propagate(instrs, slots).len() <= instrs.len(),
{
    lemma_copy_prefix(instrs, slots, instrs.len() as int);
    let out = copy_prefix(instrs, slots, instrs.len() as int).out;
    assert forall|i: int| 0 <= i < out.len() implies #[trigger] instr_below(
        copy_propagate(instrs, slots)[i],
        slots as int,
    ) by {
        assert(instr_below(out[i], slots as int));
    }
}

/// Propagates copies along straight-line code: an operand that is a copy of
/// another slot is read from that slot, and moves of a slot to itself go.
pub fn copy_propagate_runtime_instrs(slots: usize, instrs: &[RuntimeInstr]) -> (rewritten: Vec<
    RuntimeInstr,
>)
    requires
        copies_in_room(instrs_view(instrs@), slots as int),
    ensures
        instrs_view(rewritten@) == copy_propagate(instrs_view(instrs@), slots as nat),
{
    let ghost all = instrs_view(instrs@);
    let targets = control_flow_entries(instrs);
    let mut aliases: Vec<Option<usize>> = vec![None; slots];
    let mut remap: Vec<usize> = Vec::with_capacity(instrs.len());
    let mut out: Vec<RuntimeInstr> = Vec::with_capacity(instrs.len());
    assert(aliases@ =~= no_aliases(slots as nat));
    for i in 0..instrs.len()
        invariant
            all == instrs_view(instrs@),
            copies_in_room(all, slots as int),
            targets@.len() == all.len(),
            forall|j: int|
                0 <= j < targets@.len() ==> #[trigger] targets@[j] == is_entered(all, j),
            remap@.len() == i,
            forall|j: int|
                0 <= j < i ==> #[trigger] remap@[j] == copy_prefix(all, slots as nat, j).out.len(),
            aliases@ == copy_prefix(all, slots as nat, i as int).aliases,
            instrs_view(out@) == copy_prefix(all, slots as nat, i as int).out,
    {
        let ghost before = copy_prefix(all, slots as nat, i as int);
        proof {
            lemma_copy_prefix_room(all, slots as nat, i as int);
            assert(targets@[i as int] == is_entered(all, i as int));
            assert(copy_room(all[i as int], slots as int));
        }
        remap.push(out.len());
        if targets[i] {
            clear_aliases(&mut aliases);
        }
        if let Some(next) = copy_propagate_instr(&instrs[i], &mut aliases) {
            out.push(next);
            assert(instrs_view(out@) =~= before.out.push(next@));
        }
    }
    remap.push(out.len());
    let ghost kept = instrs_view(out@);
    remap_code(&mut out, &remap);
    proof {
        let f = clamped_lookup(remap@);
        let g = copy_position(all, slots as nat);
        assert forall|target: usize| #[trigger] f(target) == g(target) by {
            if target < all.len() {
                assert(remap@[target as int] == copy_prefix(
                    all,
                    slots as nat,
                    target as int,
                ).out.len());
            }
        }
        assert forall|i: int| 0 <= i < kept.len() implies map_code_target(kept[i], f)
            == #[trigger] map_code_target(kept[i], g) by {}
        assert(instrs_view(out@) =~= copy_propagate(all, slots as nat));
    }
    out
}

/// Every alias holds what its slot holds.
pub open spec fn aliases_hold(aliases: Aliases, state: SlotState) -> bool {
    &&& aliases.len() == state.len()
    &&& aliases_in_range(aliases)
    &&& forall|i: int|
        0 <= i < aliases.len() ==> ((#[trigger] aliases[i]) matches Some(other) ==> state[i]
            == state[other as int])
}

/// The end of a chain of aliases holds what its start holds.
proof fn lemma_alias_root_value(aliases: Aliases, slot: usize, hops: nat, state: SlotState)
    requires
        aliases_hold(aliases, state),
        slot < aliases.len(),
    ensures
        alias_root(aliases, slot, hops) < aliases.len(),
        state[alias_root(aliases, slot, hops) as int] == state[slot as int],
    decreases hops,
{
    if hops > 0 {
        if let Some(next) = aliases[slot as int] {
            if next != slot {
                lemma_alias_root_value(aliases, next, (hops - 1) as nat, state);
            }
        }
    }
}

/// A renamed operand evaluates to what the operand does.
pub proof fn lemma_renamed_value(operand: RuntimeOperand, aliases: Aliases, state: SlotState)
    requires
        aliases_hold(aliases, state),
        operand_below(operand, alias_count(aliases)),
    ensures
        value_of(renamed(operand, aliases), state) == value_of(operand, state),
        operand_below(renamed(operand, aliases), alias_count(aliases)),
{
    if let RuntimeOperand::Slot(slot) = operand {
        lemma_alias_root_value(aliases, slot, aliases.len(), state);
    }
}

/// The aliases that do not involve a slot hold whatever the slot is set to.
proof fn lemma_invalidated_hold(aliases: Aliases, state: SlotState, slot: usize, value: u64)
    requires
        aliases_hold(aliases, state),
        slot < aliases.len(),
    ensures
        aliases_hold(invalidated(aliases, slot), state.update(slot as int, value)),
{
}

/// Copy propagation is sound: where an instruction of slot arithmetic does not
/// trap, the rewritten instruction has the same effect (a dropped one had
/// none), and the aliases that the pass then assumes hold.
pub proof fn law_copy_propagation_preserves_effect(
    instr: InstrView,
    aliases: Aliases,
    state: SlotState,
)
    requires
        is_slot_arithmetic(instr),
        instr_below(instr, alias_count(aliases)),
        aliases_hold(aliases, state),
        step(instr, state) is Some,
    ensures
        ({
            let copied = copy_instr(instr, aliases);
            &&& aliases_hold(copied.aliases, step(instr, state)->0)
            &&& match copied.instr {
                Some(next) => step(next, state) == step(instr, state),
                None => step(instr, state) == Some(state),
            }
        }),
{
    let after = step(instr, state)->0;
    match instr {
        InstrView::Mov { dst, src } => {
            lemma_renamed_value(src, aliases, state);
            lemma_invalidated_hold(aliases, state, dst, value_of(src, state));
            assert(state.update(dst as int, state[dst as int]) =~= state);
        },
        InstrView::BinOp { dst, op, lhs, rhs } => {
            lemma_renamed_value(lhs, aliases, state);
            lemma_renamed_value(rhs, aliases, state);
            lemma_invalidated_hold(aliases, state, dst, after[dst as int]);
        },
        InstrView::Cmp { dst, op, lhs, rhs } => {
            lemma_renamed_value(lhs, aliases, state);
            lemma_renamed_value(rhs, aliases, state);
            lemma_invalidated_hold(aliases, state, dst, after[dst as int]);
        },
        InstrView::BinOpInPlace { dst, op, rhs } => {
            lemma_renamed_value(rhs, aliases, state);
            lemma_invalidated_hold(aliases, state, dst, after[dst as int]);
        },
        InstrView::NormalizeInt { dst, .. } => {
            lemma_invalidated_hold(aliases, state, dst, after[dst as int]);
        },
        InstrView::LoadIndex { dst, base_slots, index }
        | InstrView::LoadIndexUnchecked { dst, base_slots, index } => {
            lemma_renamed_value(index, aliases, state);
            lemma_invalidated_hold(aliases, state, dst, after[dst as int]);
        },
        InstrView::StoreIndex { base_slots, index, src }
        | InstrView::StoreIndexUnchecked { base_slots, index, src } => {
            lemma_renamed_value(index, aliases, state);
            lemma_renamed_value(src, aliases, state);
            let slot = base_slots[value_of(index, state) as int];
            assert(base_slots.contains(slot));
        },
        _ => {},
    }
}

/// Straight-line code stays straight-line code.
pub proof fn lemma_copied_is_straight(instr: InstrView, aliases: Aliases)
    requires
        is_straight(instr),
    ensures
        copy_instr(instr, aliases).instr matches Some(next) ==> is_straight(next)
            && is_slot_arithmetic(next) == is_slot_arithmetic(instr)
            && next is Exit == instr is Exit,
{
}

/// A print and a leaving are seen alike with their operands renamed, and aliases
/// that are left then hold.
pub proof fn lemma_copied_is_seen(instr: InstrView, aliases: Aliases, state: SlotState)
    requires
        is_straight(instr),
        !is_slot_arithmetic(instr),
        instr_below(instr, alias_count(aliases)),
        aliases_hold(aliases, state),
    ensures
        aliases_hold(copy_instr(instr, aliases).aliases, state),
        copy_instr(instr, aliases).instr matches Some(next) && event(next, state) == event(
            instr,
            state,
        ) && step(next, state) == Some(state),
{
    match instr {
        InstrView::PrintInt { value, .. } => {
            lemma_renamed_value(value, aliases, state);
        },
        InstrView::Exit { code } => {
            lemma_renamed_value(code, aliases, state);
        },
        _ => {},
    }
}

/// Propagating copies along the first instructions of straight-line code keeps
/// what they do, and the aliases that are assumed then hold.
proof fn lemma_copy_run(instrs: Seq<InstrView>, slots: nat, n: int, state: SlotState)
    requires
        0 <= n <= instrs.len(),
        forall|i: int| 0 <= i < instrs.len() ==> is_straight(#[trigger] instrs[i]),
        slots_below(instrs, slots as int),
        state.len() == slots,
        run(instrs.take(n), state) is Some,
    ensures
        run(copy_prefix(instrs, slots, n).out, state) == run(instrs.take(n), state),
        aliases_hold(copy_prefix(instrs, slots, n).aliases, run(instrs.take(n), state)->0),
        events(copy_prefix(instrs, slots, n).out, state) == events(instrs.take(n), state),
        copy_prefix(instrs, slots, n).out.len() <= n,
        (forall|i: int| 0 <= i < n ==> !(#[trigger] instrs[i] is Exit)) ==> (forall|i: int|
            0 <= i < copy_prefix(instrs, slots, n).out.len() ==> !(#[trigger] copy_prefix(
                instrs,
                slots,
                n,
            ).out[i] is Exit)),
        forall|i: int|
            0 <= i < copy_prefix(instrs, slots, n).out.len() ==> is_straight(
                #[trigger] copy_prefix(instrs, slots, n).out[i],
            ),
    decreases n,
{
    if n > 0 {
        let instr = instrs[n - 1];
        assert(instrs.take(n).drop_last() =~= instrs.take(n - 1));
        assert(instrs.take(n).last() == instr);
        lemma_copy_run(instrs, slots, n - 1, state);
        lemma_copy_prefix(instrs, slots, n - 1);
        let before = copy_prefix(instrs, slots, n - 1);
        assert(is_straight(instr));
        assert forall|i: int| 0 <= i < instrs.len() implies !#[trigger] enters(
            instrs[i],
            n - 1,
        ) by {
            assert(is_straight(instrs[i]));
        }
        assert(!is_entered(instrs, n - 1));
        assert(instr_below(instr, slots as int));
        let middle = run(instrs.take(n - 1), state)->0;
        if is_slot_arithmetic(instr) {
            law_copy_propagation_preserves_effect(instr, before.aliases, middle);
        } else {
            lemma_copied_is_seen(instr, before.aliases, middle);
        }
        lemma_copied_is_straight(instr, before.aliases);
        assert(instrs.take(n) =~= instrs.take(n - 1).push(instr));
        lemma_run_push(instrs.take(n - 1), instr, state);
        if let Some(next) = copy_instr(instr, before.aliases).instr {
            lemma_run_push(before.out, next, state);
        }
    } else {
        assert(instrs.take(0) =~= Seq::empty());
    }
}

/// Copy propagation keeps what code does: straight-line code that does not trap
/// leaves the same slots, and the same is seen of it.
pub proof fn law_copy_propagation_preserves_run(
    instrs: Seq<InstrView>,
    slots: nat,
    state: SlotState,
)
    requires
        forall|i: int| 0 <= i < instrs.len() ==> is_straight(#[trigger] instrs[i]),
        slots_below(instrs, slots as int),
        state.len() == slots,
        run(instrs, state) is Some,
    ensures
        run(copy_propagate(instrs, slots), state) == run(instrs, state),
        events(copy_propagate(instrs, slots), state) == events(instrs, state),
        copy_propagate(instrs, slots).len() <= instrs.len(),
        leaves_at_end(instrs) ==> leaves_at_end(copy_propagate(instrs, slots)),
        forall|i: int|
            0 <= i < copy_propagate(instrs, slots).len() ==> is_straight(
                #[trigger] copy_propagate(instrs, slots)[i],
            ),
{
    assert(instrs.take(instrs.len() as int) =~= instrs);
    if instrs.len() > 0 {
        assert(instrs.take(instrs.len() - 1) =~= instrs.drop_last());
        lemma_copy_run(instrs, slots, instrs.len() - 1, state);
    }
    lemma_copy_run(instrs, slots, instrs.len() as int, state);
    let out = copy_prefix(instrs, slots, instrs.len() as int).out;
    assert(copy_propagate(instrs, slots) =~= out);
}

} // verus!
