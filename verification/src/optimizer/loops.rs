//! Counted loops: how they are recognised and what they say of the slots that
//! index arrays in their bodies.

use crate::ir::{instrs_view, InstrView, RuntimeBinOp, RuntimeCmpOp, RuntimeInstr, RuntimeOperand};
use crate::optimizer::consts::{binop_value, eval_runtime_binop};
use crate::optimizer::reaching::{clamp, last_write, last_write_before};
use crate::optimizer::targets::{is_boundary, runtime_instr_is_cfg_boundary};
use crate::optimizer::uses::{
    indexes_by, runtime_instr_uses_as_index_slot, runtime_instr_writes_slot, writes,
};
use vstd::arithmetic::power2::is_pow2;
use vstd::prelude::*;

verus! {

/// What the induction variable of a loop counts up to.
#[derive(Clone, Copy, PartialEq, Eq, Structural)]
pub enum LoopLimit {
    Imm(u64),
    Slot(usize),
}

/// A loop that counts a slot up by one from a constant: the instruction that
/// tests it, the jump back, where it leaves to, what it counts, and where.
#[derive(Clone, Copy, PartialEq, Eq, Structural)]
pub struct CountedLoopInfo {
    pub header: usize,
    pub latch: usize,
    pub exit_target: usize,
    pub start: u64,
    pub ind_slot: usize,
    pub limit: LoopLimit,
    pub update_idx: usize,
}

/// The instruction adds one to the slot.
pub open spec fn is_increment(instr: InstrView, slot: usize) -> bool {
    match instr {
        InstrView::BinOpInPlace { dst, op: RuntimeBinOp::Add, rhs: RuntimeOperand::Imm(1) } => {
            dst == slot
        },
        _ => false,
    }
}

/// The instruction normalises the slot.
pub open spec fn is_normalization(instr: InstrView, slot: usize) -> bool {
    match instr {
        InstrView::NormalizeInt { dst, .. } => dst == slot,
        _ => false,
    }
}

/// Where a loop increments its induction slot: right before the jump back, or
/// one earlier where the sum is then normalised.
pub open spec fn update_position(
    instrs: Seq<InstrView>,
    header: int,
    latch: int,
    slot: usize,
) -> Option<int> {
    if latch <= header + 1 {
        None
    } else if is_increment(instrs[latch - 1], slot) {
        Some(latch - 1)
    } else if is_normalization(instrs[latch - 1], slot) && is_increment(instrs[latch - 2], slot) {
        Some(latch - 2)
    } else {
        None
    }
}

/// An instruction that a counted loop may hold beside its update: it leaves the
/// induction slot and the limit alone, and in a canonical loop falls through.
pub open spec fn keeps_count(
    instr: InstrView,
    slot: usize,
    limit: LoopLimit,
    canonical: bool,
) -> bool {
    &&& canonical ==> !is_boundary(instr)
    &&& !writes(instr, slot)
    &&& match limit {
        LoopLimit::Slot(limit_slot) => !writes(instr, limit_slot),
        LoopLimit::Imm(_) => true,
    }
}

/// Everything between header and latch but the update keeps the count.
pub open spec fn body_keeps_count(
    instrs: Seq<InstrView>,
    header: int,
    latch: int,
    update: int,
    slot: usize,
    limit: LoopLimit,
    canonical: bool,
) -> bool {
    &&& forall|i: int|
        header < i < latch && i != update && !(update == latch - 2 && i == latch - 1)
            ==> keeps_count(#[trigger] instrs[i], slot, limit, canonical)
    &&& canonical ==> forall|i: int|
        update < i < latch ==> !indexes_by(#[trigger] instrs[i], slot)
}

/// The constant an induction slot starts from: in a canonical loop the
/// instruction before the header sets it, else the last one that writes it.
pub open spec fn loop_start(
    instrs: Seq<InstrView>,
    header: int,
    slot: usize,
    canonical: bool,
) -> Option<u64> {
    let at = if canonical {
        Some(header - 1)
    } else {
        last_write(instrs, 0, header, slot)
    };
    match at {
        Some(at) => match instrs[at] {
            InstrView::Mov { dst, src: RuntimeOperand::Imm(init) } => if dst == slot {
                Some(init)
            } else {
                None
            },
            _ => None,
        },
        None => None,
    }
}

/// The slot a loop header tests, the limit and where it leaves to.
pub open spec fn loop_test(instr: InstrView) -> Option<(usize, LoopLimit, usize)> {
    match instr {
        InstrView::JumpIfCmpFalse {
            op: RuntimeCmpOp::LtUnsigned,
            lhs: RuntimeOperand::Slot(slot),
            rhs,
            target,
        } => match rhs {
            RuntimeOperand::Imm(limit) => Some((slot, LoopLimit::Imm(limit), target)),
            RuntimeOperand::Slot(limit) => Some((slot, LoopLimit::Slot(limit), target)),
        },
        _ => None,
    }
}

/// The start does not exceed a constant limit.
pub open spec fn start_within(start: u64, limit: LoopLimit) -> bool {
    match limit {
        LoopLimit::Imm(limit) => start <= limit,
        LoopLimit::Slot(_) => true,
    }
}

/// The counted loop whose jump back is at `latch`. A canonical loop has a body
/// without control flow and starts right before its header; a relaxed one need
/// not.
pub open spec fn counted_loop(
    instrs: Seq<InstrView>,
    latch: int,
    canonical: bool,
) -> Option<CountedLoopInfo> {
    match instrs[latch] {
        InstrView::Jump { target: header } => if header >= latch || header == 0 {
            None
        } else {
            match loop_test(instrs[header as int]) {
                Some((ind_slot, limit, exit_target)) => match (
                    loop_start(instrs, header as int, ind_slot, canonical),
                    update_position(instrs, header as int, latch, ind_slot),
                ) {
                    (Some(start), Some(update)) => if latch < exit_target <= instrs.len()
                        && start_within(start, limit) && body_keeps_count(
                        instrs,
                        header as int,
                        latch,
                        update,
                        ind_slot,
                        limit,
                        canonical,
                    ) {
                        Some(
                            CountedLoopInfo {
                                header,
                                latch: latch as usize,
                                exit_target,
                                start,
                                ind_slot,
                                limit,
                                update_idx: update as usize,
                            },
                        )
                    } else {
                        None
                    },
                    _ => None,
                },
                None => None,
            }
        },
        _ => None,
    }
}

/// The counted loops among the first n jumps back, in order.
pub open spec fn counted_loops(
    instrs: Seq<InstrView>,
    canonical: bool,
    n: int,
) -> Seq<CountedLoopInfo>
    decreases n,
{
    if n <= 0 {
        Seq::empty()
    } else {
        let before = counted_loops(instrs, canonical, n - 1);
        match counted_loop(instrs, n - 1, canonical) {
            Some(info) => before.push(info),
            None => before,
        }
    }
}

/// The positions of a loop are in order and inside the program.
pub open spec fn loop_in_program(info: CountedLoopInfo, len: nat) -> bool {
    0 < info.header < info.update_idx < info.latch < len && info.latch < info.exit_target <= len
}

/// A loop that was found lies inside the program.
pub proof fn lemma_counted_loop(instrs: Seq<InstrView>, latch: int, canonical: bool)
    requires
        0 <= latch < instrs.len(),
        instrs.len() <= usize::MAX,
    ensures
        counted_loop(instrs, latch, canonical) matches Some(info) ==> loop_in_program(
            info,
            instrs.len(),
        ),
{
    if let Some(info) = counted_loop(instrs, latch, canonical) {
        assert(loop_test(instrs[info.header as int]) is Some);
        if info.update_idx == info.header {
            assert(is_increment(instrs[info.header as int], info.ind_slot));
        }
    }
}

/// Every loop that was found lies inside the program.
pub proof fn lemma_counted_loops(instrs: Seq<InstrView>, canonical: bool, n: int)
    requires
        0 <= n <= instrs.len(),
        instrs.len() <= usize::MAX,
    ensures
        forall|i: int|
            0 <= i < counted_loops(instrs, canonical, n).len() ==> loop_in_program(
                #[trigger] counted_loops(instrs, canonical, n)[i],
                instrs.len(),
            ),
    decreases n,
{
    if n > 0 {
        lemma_counted_loops(instrs, canonical, n - 1);
        lemma_counted_loop(instrs, n - 1, canonical);
        let before = counted_loops(instrs, canonical, n - 1);
        let after = counted_loops(instrs, canonical, n);
        assert forall|i: int| 0 <= i < after.len() implies loop_in_program(
            #[trigger] after[i],
            instrs.len(),
        ) by {
            if i < before.len() {
                assert(after[i] == before[i]);
                assert(loop_in_program(before[i], instrs.len()));
            }
        }
    }
}

/// Whether the instruction adds one to the slot.
fn adds_one(instr: &RuntimeInstr, slot: usize) -> (found: bool)
    ensures
        found == is_increment(instr@, slot),
{
    match instr {
        RuntimeInstr::BinOpInPlace { dst, op: RuntimeBinOp::Add, rhs: RuntimeOperand::Imm(1) } => {
            *dst == slot
        },
        _ => false,
    }
}

/// Whether the instruction normalises the slot.
fn normalizes(instr: &RuntimeInstr, slot: usize) -> (found: bool)
    ensures
        found == is_normalization(instr@, slot),
{
    match instr {
        RuntimeInstr::NormalizeInt { dst, .. } => *dst == slot,
        _ => false,
    }
}

/// The slot a loop header tests, the limit and where it leaves to.
fn header_test(instr: &RuntimeInstr) -> (test: Option<(usize, LoopLimit, usize)>)
    ensures
        test == loop_test(instr@),
{
    match instr {
        RuntimeInstr::JumpIfCmpFalse {
            op: RuntimeCmpOp::LtUnsigned,
            lhs: RuntimeOperand::Slot(slot),
            rhs,
            target,
        } => match rhs {
            RuntimeOperand::Imm(limit) => Some((*slot, LoopLimit::Imm(*limit), *target)),
            RuntimeOperand::Slot(limit) => Some((*slot, LoopLimit::Slot(*limit), *target)),
        },
        _ => None,
    }
}

/// The constant an induction slot starts from.
fn start_of_loop(
    instrs: &Vec<RuntimeInstr>,
    header: usize,
    slot: usize,
    canonical: bool,
) -> (start: Option<u64>)
    requires
        0 < header < instrs@.len(),
    ensures
        start == loop_start(instrs_view(instrs@), header as int, slot, canonical),
{
    let at: usize = if canonical {
        header - 1
    } else {
        match last_write_before(instrs, 0, header, slot) {
            Some(at) => at,
            None => return None,
        }
    };
    assert(instrs_view(instrs@)[at as int] == instrs@[at as int]@);
    match &instrs[at] {
        RuntimeInstr::Mov { dst, src: RuntimeOperand::Imm(init) } => if *dst == slot {
            Some(*init)
        } else {
            None
        },
        _ => None,
    }
}

/// Where a loop increments its induction slot.
fn update_of_loop(
    instrs: &Vec<RuntimeInstr>,
    header: usize,
    latch: usize,
    slot: usize,
) -> (update: Option<usize>)
    requires
        header < latch < instrs@.len(),
    ensures
        match update {
            Some(update) => update_position(
                instrs_view(instrs@),
                header as int,
                latch as int,
                slot,
            ) == Some(update as int),
            None => update_position(
                instrs_view(instrs@),
                header as int,
                latch as int,
                slot,
            ) is None,
        },
{
    let ghost all = instrs_view(instrs@);
    if latch - header <= 1 {
        return None;
    }
    assert(all[latch - 1] == instrs@[latch - 1]@);
    assert(all[latch - 2] == instrs@[latch - 2]@);
    if adds_one(&instrs[latch - 1], slot) {
        Some(latch - 1)
    } else if normalizes(&instrs[latch - 1], slot) && adds_one(&instrs[latch - 2], slot) {
        Some(latch - 2)
    } else {
        None
    }
}

/// Whether an instruction beside the update keeps the count.
fn leaves_count(
    instr: &RuntimeInstr,
    slot: usize,
    limit: LoopLimit,
    canonical: bool,
) -> (kept: bool)
    ensures
        kept == keeps_count(instr@, slot, limit, canonical),
{
    if canonical && runtime_instr_is_cfg_boundary(instr) {
        return false;
    }
    if runtime_instr_writes_slot(instr, slot) {
        return false;
    }
    match limit {
        LoopLimit::Slot(limit_slot) => !runtime_instr_writes_slot(instr, limit_slot),
        LoopLimit::Imm(_) => true,
    }
}

/// Whether everything between header and latch but the update keeps the count.
fn body_leaves_count(
    instrs: &Vec<RuntimeInstr>,
    header: usize,
    latch: usize,
    update: usize,
    slot: usize,
    limit: LoopLimit,
    canonical: bool,
) -> (kept: bool)
    requires
        header <= update < latch < instrs@.len(),
    ensures
        kept == body_keeps_count(
            instrs_view(instrs@),
            header as int,
            latch as int,
            update as int,
            slot,
            limit,
            canonical,
        ),
{
    let ghost all = instrs_view(instrs@);
    for i in header + 1..latch
        invariant
            all == instrs_view(instrs@),
            header <= update < latch < instrs@.len(),
            forall|j: int|
                header < j < i && j != update && !(update == latch - 2 && j == latch - 1)
                    ==> keeps_count(#[trigger] all[j], slot, limit, canonical),
    {
        assert(all[i as int] == instrs@[i as int]@);
        if i != update && !(latch - update == 2 && i == latch - 1) && !leaves_count(
            &instrs[i],
            slot,
            limit,
            canonical,
        ) {
            return false;
        }
    }
    if canonical {
        for i in update + 1..latch
            invariant
                all == instrs_view(instrs@),
                header <= update < latch < instrs@.len(),
                canonical,
                forall|j: int| update < j < i ==> !indexes_by(#[trigger] all[j], slot),
        {
            assert(all[i as int] == instrs@[i as int]@);
            if runtime_instr_uses_as_index_slot(&instrs[i], slot) {
                return false;
            }
        }
    }
    true
}

/// The counted loop whose jump back is at `latch`.
fn counted_loop_at(
    instrs: &Vec<RuntimeInstr>,
    latch: usize,
    canonical: bool,
) -> (info: Option<CountedLoopInfo>)
    requires
        latch < instrs@.len(),
    ensures
        info == counted_loop(instrs_view(instrs@), latch as int, canonical),
{
    let ghost all = instrs_view(instrs@);
    assert(all[latch as int] == instrs@[latch as int]@);
    let header: usize = match &instrs[latch] {
        RuntimeInstr::Jump { target } => *target,
        _ => return None,
    };
    if header >= latch || header == 0 {
        return None;
    }
    assert(all[header as int] == instrs@[header as int]@);
    let (ind_slot, limit, exit_target) = match header_test(&instrs[header]) {
        Some(test) => test,
        None => return None,
    };
    if exit_target <= latch || exit_target > instrs.len() {
        return None;
    }
    let start: u64 = match start_of_loop(instrs, header, ind_slot, canonical) {
        Some(start) => start,
        None => return None,
    };
    if let LoopLimit::Imm(limit) = limit {
        if start > limit {
            return None;
        }
    }
    let update_idx: usize = match update_of_loop(instrs, header, latch, ind_slot) {
        Some(update) => update,
        None => return None,
    };
    if body_leaves_count(instrs, header, latch, update_idx, ind_slot, limit, canonical) {
        Some(CountedLoopInfo { header, latch, exit_target, start, ind_slot, limit, update_idx })
    } else {
        None
    }
}

/// The counted loops of a program.
fn find_counted_loops(instrs: &Vec<RuntimeInstr>, canonical: bool) -> (loops: Vec<CountedLoopInfo>)
    ensures
        loops@ == counted_loops(instrs_view(instrs@), canonical, instrs@.len() as int),
{
    let mut loops: Vec<CountedLoopInfo> = Vec::new();
    for latch in 0..instrs.len()
        invariant
            loops@ == counted_loops(instrs_view(instrs@), canonical, latch as int),
    {
        if let Some(info) = counted_loop_at(instrs, latch, canonical) {
            loops.push(info);
        }
    }
    loops
}

/// The counted loops with straight-line bodies that start right before their
/// headers.
pub fn find_canonical_counted_loops(instrs: &Vec<RuntimeInstr>) -> (loops: Vec<CountedLoopInfo>)
    ensures
        loops@ == counted_loops(instrs_view(instrs@), true, instrs@.len() as int),
{
    find_counted_loops(instrs, true)
}

/// The counted loops, whatever control flow their bodies hold and wherever they
/// start.
pub fn find_relaxed_counted_loops(instrs: &Vec<RuntimeInstr>) -> (loops: Vec<CountedLoopInfo>)
    ensures
        loops@ == counted_loops(instrs_view(instrs@), false, instrs@.len() as int),
{
    find_counted_loops(instrs, false)
}

/// Some instruction from the header to the update writes the slot.
pub open spec fn written_in_loop(
    instrs: Seq<InstrView>,
    info: CountedLoopInfo,
    slot: usize,
) -> bool {
    exists|i: int|
        info.header < i <= info.update_idx && i < instrs.len() && #[trigger] writes(instrs[i], slot)
}

/// Whether some instruction from the header to the update writes the slot.
pub fn slot_written_in_loop(
    instrs: &Vec<RuntimeInstr>,
    info: CountedLoopInfo,
    slot: usize,
) -> (written: bool)
    ensures
        written == written_in_loop(instrs_view(instrs@), info, slot),
{
    let ghost all = instrs_view(instrs@);
    let count: usize = instrs.len();
    let mut i: usize = info.header;
    while i < count && i < info.update_idx
        invariant
            all == instrs_view(instrs@),
            count == instrs@.len(),
            i >= info.header,
            forall|j: int|
                info.header < j <= i && j <= info.update_idx && j < count ==> !writes(
                    #[trigger] all[j],
                    slot,
                ),
        decreases count - i,
    {
        i = i + 1;
        if i < count {
            assert(all[i as int] == instrs@[i as int]@);
            if runtime_instr_writes_slot(&instrs[i], slot) {
                assert(writes(all[i as int], slot));
                return true;
            }
        }
    }
    false
}

/// How many definitions the search for a loop constant goes back through.
pub const MAX_INVARIANT_DEPTH: u8 = 8;

/// The constant a slot holds at a position before a loop, as far as the
/// definitions before it show one. Operands count only if the loop leaves them
/// alone.
pub open spec fn invariant_slot_const(
    instrs: Seq<InstrView>,
    info: CountedLoopInfo,
    slot: usize,
    before: int,
    depth: nat,
) -> Option<u64>
    decreases before, 0nat,
{
    let at = last_write(instrs, 0, clamp(before, instrs.len()), slot);
    if depth > MAX_INVARIANT_DEPTH || at is None || at->0 < 0 || at->0 >= before {
        None
    } else {
        let at = at->0;
        match instrs[at] {
            InstrView::Mov { src: RuntimeOperand::Imm(value), .. } => Some(value),
            InstrView::Mov { src: RuntimeOperand::Slot(source), .. } => {
                invariant_slot_const(instrs, info, source, at, depth + 1)
            },
            InstrView::BinOp { op, lhs, rhs, .. } => match (
                invariant_operand_const(instrs, info, lhs, at, depth + 1),
                invariant_operand_const(instrs, info, rhs, at, depth + 1),
            ) {
                (Some(l), Some(r)) => binop_value(op, l, r),
                _ => None,
            },
            InstrView::BinOpInPlace { op, rhs, .. } => match (
                invariant_slot_const(instrs, info, slot, at, depth + 1),
                invariant_operand_const(instrs, info, rhs, at, depth + 1),
            ) {
                (Some(l), Some(r)) => binop_value(op, l, r),
                _ => None,
            },
            _ => None,
        }
    }
}

/// The constant an operand holds at a position before a loop that leaves it
/// alone.
pub open spec fn invariant_operand_const(
    instrs: Seq<InstrView>,
    info: CountedLoopInfo,
    operand: RuntimeOperand,
    before: int,
    depth: nat,
) -> Option<u64>
    decreases before, 1nat,
{
    match operand {
        RuntimeOperand::Imm(value) => Some(value),
        RuntimeOperand::Slot(slot) => if written_in_loop(instrs, info, slot) {
            None
        } else {
            invariant_slot_const(instrs, info, slot, before, depth + 1)
        },
    }
}

/// The constant a slot holds at a position before a loop.
pub fn loop_invariant_slot_const_before(
    instrs: &Vec<RuntimeInstr>,
    info: CountedLoopInfo,
    slot: usize,
    before_idx: usize,
    depth: u8,
) -> (value: Option<u64>)
    requires
        depth <= 100,
    ensures
        value == invariant_slot_const(
            instrs_view(instrs@),
            info,
            slot,
            before_idx as int,
            depth as nat,
        ),
    decreases before_idx, 0nat,
{
    if depth > MAX_INVARIANT_DEPTH {
        return None;
    }
    let ghost all = instrs_view(instrs@);
    let at: usize = match last_write_before(instrs, 0, before_idx, slot) {
        Some(at) => at,
        None => return None,
    };
    assert(all[at as int] == instrs@[at as int]@);
    match &instrs[at] {
        RuntimeInstr::Mov { src: RuntimeOperand::Imm(value), .. } => Some(*value),
        RuntimeInstr::Mov { src: RuntimeOperand::Slot(source), .. } => {
            loop_invariant_slot_const_before(instrs, info, *source, at, depth + 1)
        },
        RuntimeInstr::BinOp { op, lhs, rhs, .. } => {
            match (
                loop_invariant_operand_const_before(instrs, info, lhs, at, depth + 1),
                loop_invariant_operand_const_before(instrs, info, rhs, at, depth + 1),
            ) {
                (Some(l), Some(r)) => eval_runtime_binop(*op, l, r),
                _ => None,
            }
        },
        RuntimeInstr::BinOpInPlace { op, rhs, .. } => {
            match (
                loop_invariant_slot_const_before(instrs, info, slot, at, depth + 1),
                loop_invariant_operand_const_before(instrs, info, rhs, at, depth + 1),
            ) {
                (Some(l), Some(r)) => eval_runtime_binop(*op, l, r),
                _ => None,
            }
        },
        _ => None,
    }
}

/// The constant an operand holds at a position before a loop that leaves it
/// alone.
pub fn loop_invariant_operand_const_before(
    instrs: &Vec<RuntimeInstr>,
    info: CountedLoopInfo,
    operand: &RuntimeOperand,
    before_idx: usize,
    depth: u8,
) -> (value: Option<u64>)
    requires
        depth <= 99,
    ensures
        value == invariant_operand_const(
            instrs_view(instrs@),
            info,
            *operand,
            before_idx as int,
            depth as nat,
        ),
    decreases before_idx, 1nat,
{
    match operand {
        RuntimeOperand::Imm(value) => Some(*value),
        RuntimeOperand::Slot(slot) => {
            if slot_written_in_loop(instrs, info, *slot) {
                return None;
            }
            loop_invariant_slot_const_before(instrs, info, *slot, before_idx, depth + 1)
        },
    }
}

/// The constant an operand holds throughout a loop.
pub open spec fn loop_const(
    instrs: Seq<InstrView>,
    info: CountedLoopInfo,
    operand: RuntimeOperand,
) -> Option<u64> {
    invariant_operand_const(instrs, info, operand, info.header as int, 0)
}

/// The constant an operand holds throughout a loop.
pub fn loop_invariant_operand_const(
    instrs: &Vec<RuntimeInstr>,
    info: CountedLoopInfo,
    operand: &RuntimeOperand,
) -> (value: Option<u64>)
    ensures
        value == loop_const(instrs_view(instrs@), info, *operand),
{
    loop_invariant_operand_const_before(instrs, info, operand, info.header, 0)
}

/// A slot and the operand beside it; the left slot where both are slots.
pub open spec fn slot_and_other(
    lhs: RuntimeOperand,
    rhs: RuntimeOperand,
) -> Option<(usize, RuntimeOperand)> {
    match (lhs, rhs) {
        (RuntimeOperand::Slot(slot), _) => Some((slot, rhs)),
        (_, RuntimeOperand::Slot(slot)) => Some((slot, lhs)),
        _ => None,
    }
}

/// A slot and the operand beside it.
fn split_slot_operand(lhs: &RuntimeOperand, rhs: &RuntimeOperand) -> (parts: Option<
    (usize, RuntimeOperand),
>)
    ensures
        parts == slot_and_other(*lhs, *rhs),
{
    match (lhs, rhs) {
        (RuntimeOperand::Slot(slot), _) => Some((*slot, *rhs)),
        (_, RuntimeOperand::Slot(slot)) => Some((*slot, *lhs)),
        _ => None,
    }
}

/// A sum as a slot plus an offset that is constant throughout the loop.
pub open spec fn slot_plus_const(
    lhs: RuntimeOperand,
    rhs: RuntimeOperand,
    instrs: Seq<InstrView>,
    info: CountedLoopInfo,
) -> Option<(usize, usize)> {
    match slot_and_other(lhs, rhs) {
        Some((slot, other)) => match loop_const(instrs, info, other) {
            Some(offset) => if offset <= usize::MAX {
                Some((slot, offset as usize))
            } else {
                None
            },
            None => None,
        },
        None => None,
    }
}

/// A sum as a slot plus an offset that is constant throughout the loop.
pub fn loop_additive_offset_with_invariants(
    lhs: &RuntimeOperand,
    rhs: &RuntimeOperand,
    instrs: &Vec<RuntimeInstr>,
    info: CountedLoopInfo,
) -> (sum: Option<(usize, usize)>)
    ensures
        sum == slot_plus_const(*lhs, *rhs, instrs_view(instrs@), info),
{
    match split_slot_operand(lhs, rhs) {
        Some((slot, other)) => match loop_invariant_operand_const(instrs, info, &other) {
            Some(offset) => if offset <= usize::MAX as u64 {
                Some((slot, offset as usize))
            } else {
                None
            },
            None => None,
        },
        None => None,
    }
}

/// Whether a number is a power of two.
pub fn is_power_of_two(value: u64) -> (found: bool)
    ensures
        found == is_pow2(value as int),
{
    reveal(is_pow2);
    if value == 0 {
        return false;
    }
    let mut rest: u64 = value;
    while rest % 2 == 0
        invariant
            rest > 0,
            is_pow2(rest as int) == is_pow2(value as int),
        decreases rest,
    {
        reveal(is_pow2);
        rest = rest / 2;
    }
    rest == 1
}

/// How many steps the search for an index definition takes.
pub const MAX_INDEX_DEPTH: u8 = 6;

/// The definition of an index slot in `from..before`; one normalisation after
/// it is looked through.
pub open spec fn index_definition(
    instrs: Seq<InstrView>,
    from: int,
    before: int,
    slot: usize,
) -> Option<int> {
    match last_write(instrs, from, before, slot) {
        Some(at) => if is_normalization(instrs[at], slot) {
            last_write(instrs, from, at, slot)
        } else {
            Some(at)
        },
        None => None,
    }
}

/// The definition of an index slot in `from..before`.
fn find_index_definition(
    instrs: &Vec<RuntimeInstr>,
    from: usize,
    before: usize,
    slot: usize,
) -> (at: Option<usize>)
    requires
        before <= instrs@.len(),
    ensures
        match at {
            Some(at) => index_definition(
                instrs_view(instrs@),
                from as int,
                before as int,
                slot,
            ) == Some(at as int) && at < before && writes(instrs@[at as int]@, slot),
            None => index_definition(
                instrs_view(instrs@),
                from as int,
                before as int,
                slot,
            ) is None,
        },
{
    match last_write_before(instrs, from, before, slot) {
        Some(at) => {
            assert(instrs_view(instrs@)[at as int] == instrs@[at as int]@);
            if normalizes(&instrs[at], slot) {
                last_write_before(instrs, from, at, slot)
            } else {
                Some(at)
            }
        },
        None => None,
    }
}

/// The slot, used as an index before the given instruction of a loop body, is
/// below `base_len`: it is the induction slot, possibly with a constant added,
/// or a masked or reduced number.
pub open spec fn index_in_bounds(
    instrs: Seq<InstrView>,
    before: int,
    info: CountedLoopInfo,
    slot: usize,
    base_len: nat,
    depth: nat,
) -> bool
    decreases before,
{
    let at = index_definition(instrs, info.header + 1, before, slot);
    if depth > MAX_INDEX_DEPTH {
        false
    } else if slot == info.ind_slot {
        match info.limit {
            LoopLimit::Imm(limit) => limit <= base_len,
            LoopLimit::Slot(_) => false,
        }
    } else if base_len == 0 || at is None || at->0 < 0 || at->0 >= before {
        false
    } else {
        let at = at->0;
        match instrs[at] {
            InstrView::Mov { src: RuntimeOperand::Slot(source), .. } => {
                index_in_bounds(instrs, at, info, source, base_len, depth + 1)
            },
            InstrView::BinOp { op: RuntimeBinOp::Add, lhs, rhs, .. } => {
                match slot_plus_const(lhs, rhs, instrs, info) {
                    Some((source, offset)) => offset <= base_len && index_in_bounds(
                        instrs,
                        at,
                        info,
                        source,
                        (base_len - offset) as nat,
                        depth + 1,
                    ),
                    None => false,
                }
            },
            InstrView::BinOp { op: RuntimeBinOp::BitAnd, lhs, rhs, .. } => {
                match slot_and_other(lhs, rhs) {
                    Some((_, other)) => match loop_const(instrs, info, other) {
                        Some(mask) => is_pow2(base_len as int) && mask == base_len - 1,
                        None => false,
                    },
                    None => false,
                }
            },
            InstrView::BinOp {
                op: RuntimeBinOp::ModUnsigned,
                lhs: RuntimeOperand::Slot(_),
                rhs,
                ..
            } => match loop_const(instrs, info, rhs) {
                Some(modulus) => 0 < modulus <= base_len,
                None => false,
            },
            _ => false,
        }
    }
}

/// Whether a slot used as an index in a loop body is below `base_len`.
pub fn prove_loop_index_slot_in_bounds(
    instrs: &Vec<RuntimeInstr>,
    use_idx: usize,
    info: CountedLoopInfo,
    index_slot: usize,
    base_len: usize,
    depth: u8,
) -> (proven: bool)
    requires
        use_idx <= instrs@.len(),
        info.header < usize::MAX,
        depth <= 100,
    ensures
        proven == index_in_bounds(
            instrs_view(instrs@),
            use_idx as int,
            info,
            index_slot,
            base_len as nat,
            depth as nat,
        ),
    decreases use_idx,
{
    if depth > MAX_INDEX_DEPTH {
        return false;
    }
    if index_slot == info.ind_slot {
        return match info.limit {
            LoopLimit::Imm(limit) => limit <= base_len as u64,
            LoopLimit::Slot(_) => false,
        };
    }
    if base_len == 0 {
        return false;
    }
    let at: usize = match find_index_definition(instrs, info.header + 1, use_idx, index_slot) {
        Some(at) => at,
        None => return false,
    };
    assert(instrs_view(instrs@)[at as int] == instrs@[at as int]@);
    match &instrs[at] {
        RuntimeInstr::Mov { src: RuntimeOperand::Slot(source), .. } => {
            prove_loop_index_slot_in_bounds(instrs, at, info, *source, base_len, depth + 1)
        },
        RuntimeInstr::BinOp { op: RuntimeBinOp::Add, lhs, rhs, .. } => {
            match loop_additive_offset_with_invariants(lhs, rhs, instrs, info) {
                Some((source, offset)) => {
                    if offset > base_len {
                        return false;
                    }
                    prove_loop_index_slot_in_bounds(
                        instrs,
                        at,
                        info,
                        source,
                        base_len - offset,
                        depth + 1,
                    )
                },
                None => false,
            }
        },
        RuntimeInstr::BinOp { op: RuntimeBinOp::BitAnd, lhs, rhs, .. } => {
            match split_slot_operand(lhs, rhs) {
                Some((_, other)) => match loop_invariant_operand_const(instrs, info, &other) {
                    Some(mask) => is_power_of_two(base_len as u64) && mask == base_len as u64 - 1,
                    None => false,
                },
                None => false,
            }
        },
        RuntimeInstr::BinOp {
            op: RuntimeBinOp::ModUnsigned,
            lhs: RuntimeOperand::Slot(_),
            rhs,
            ..
        } => match loop_invariant_operand_const(instrs, info, rhs) {
            Some(modulus) => modulus != 0 && modulus <= base_len as u64,
            None => false,
        },
        _ => false,
    }
}

/// Whether a slot used as an index in a loop body is below `base_len`.
pub fn loop_index_slot_is_proven_in_bounds(
    instrs: &Vec<RuntimeInstr>,
    use_idx: usize,
    info: CountedLoopInfo,
    index_slot: usize,
    base_len: usize,
) -> (proven: bool)
    requires
        use_idx <= instrs@.len(),
        info.header < usize::MAX,
    ensures
        proven == index_in_bounds(
            instrs_view(instrs@),
            use_idx as int,
            info,
            index_slot,
            base_len as nat,
            0,
        ),
{
    prove_loop_index_slot_in_bounds(instrs, use_idx, info, index_slot, base_len, 0)
}

/// How far an index slot lies above the induction slot of a loop.
pub open spec fn index_offset(
    instrs: Seq<InstrView>,
    before: int,
    info: CountedLoopInfo,
    slot: usize,
    depth: nat,
) -> Option<usize>
    decreases before,
{
    let at = last_write(instrs, info.header + 1, before, slot);
    if slot == info.ind_slot {
        Some(0)
    } else if depth > MAX_INDEX_DEPTH || at is None || at->0 < 0 || at->0 >= before {
        None
    } else {
        let at = at->0;
        match instrs[at] {
            InstrView::NormalizeInt { .. } => index_offset(instrs, at, info, slot, depth + 1),
            InstrView::Mov { src: RuntimeOperand::Slot(source), .. } => {
                index_offset(instrs, at, info, source, depth + 1)
            },
            InstrView::BinOp { op: RuntimeBinOp::Add, lhs, rhs, .. } => {
                match slot_plus_const(lhs, rhs, instrs, info) {
                    Some((source, offset)) => match index_offset(
                        instrs,
                        at,
                        info,
                        source,
                        depth + 1,
                    ) {
                        Some(base) => if base + offset <= usize::MAX {
                            Some((base + offset) as usize)
                        } else {
                            None
                        },
                        None => None,
                    },
                    None => None,
                }
            },
            _ => None,
        }
    }
}

/// How far an index slot lies above the induction slot of a loop.
pub fn loop_index_slot_nonnegative_offset(
    instrs: &Vec<RuntimeInstr>,
    use_idx: usize,
    info: CountedLoopInfo,
    index_slot: usize,
    depth: u8,
) -> (offset: Option<usize>)
    requires
        use_idx <= instrs@.len(),
        info.header < usize::MAX,
        depth <= 100,
    ensures
        offset == index_offset(
            instrs_view(instrs@),
            use_idx as int,
            info,
            index_slot,
            depth as nat,
        ),
    decreases use_idx,
{
    if index_slot == info.ind_slot {
        return Some(0);
    }
    if depth > MAX_INDEX_DEPTH {
        return None;
    }
    let at: usize = match last_write_before(instrs, info.header + 1, use_idx, index_slot) {
        Some(at) => at,
        None => return None,
    };
    assert(instrs_view(instrs@)[at as int] == instrs@[at as int]@);
    match &instrs[at] {
        RuntimeInstr::NormalizeInt { .. } => {
            loop_index_slot_nonnegative_offset(instrs, at, info, index_slot, depth + 1)
        },
        RuntimeInstr::Mov { src: RuntimeOperand::Slot(source), .. } => {
            loop_index_slot_nonnegative_offset(instrs, at, info, *source, depth + 1)
        },
        RuntimeInstr::BinOp { op: RuntimeBinOp::Add, lhs, rhs, .. } => {
            match loop_additive_offset_with_invariants(lhs, rhs, instrs, info) {
                Some((source, offset)) => match loop_index_slot_nonnegative_offset(
                    instrs,
                    at,
                    info,
                    source,
                    depth + 1,
                ) {
                    Some(base) => base.checked_add(offset),
                    None => None,
                },
                None => None,
            }
        },
        _ => None,
    }
}

} // verus!
