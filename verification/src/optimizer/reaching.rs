//! What the code before an instruction says of a slot: constants and upper
//! bounds found by walking back over definitions.

use crate::ir::{instrs_view, InstrView, RuntimeBinOp, RuntimeInstr, RuntimeOperand};
use crate::optimizer::consts::{binop_value, eval_runtime_binop};
use crate::optimizer::uses::{runtime_instr_writes_slot, writes};
use vstd::prelude::*;
use vstd::std_specs::bits::u64_leading_zeros;

verus! {

/// The last instruction in `from..before` that writes the slot.
pub open spec fn last_write(
    instrs: Seq<InstrView>,
    from: int,
    before: int,
    slot: usize,
) -> Option<int>
    decreases before - from,
{
    if before <= from {
        None
    } else if writes(instrs[before - 1], slot) {
        Some(before - 1)
    } else {
        last_write(instrs, from, before - 1, slot)
    }
}

/// The last write lies in the range.
pub proof fn lemma_last_write(instrs: Seq<InstrView>, from: int, before: int, slot: usize)
    ensures
        last_write(instrs, from, before, slot) matches Some(at) ==> from <= at < before && writes(
            instrs[at],
            slot,
        ) && forall|k: int| at < k < before ==> !writes(#[trigger] instrs[k], slot),
        last_write(instrs, from, before, slot) is None ==> forall|k: int|
            from <= k < before ==> !writes(#[trigger] instrs[k], slot),
    decreases before - from,
{
    if before > from && !writes(instrs[before - 1], slot) {
        lemma_last_write(instrs, from, before - 1, slot);
    }
}

/// The smaller of a position and the length.
pub open spec fn clamp(before: int, len: nat) -> int {
    if before < len {
        before
    } else {
        len as int
    }
}

/// The last instruction in `from..before` that writes the slot.
pub fn last_write_before(
    instrs: &Vec<RuntimeInstr>,
    from: usize,
    before: usize,
    slot: usize,
) -> (at: Option<usize>)
    ensures
        match at {
            Some(at) => last_write(
                instrs_view(instrs@),
                from as int,
                clamp(before as int, instrs@.len()),
                slot,
            ) == Some(at as int),
            None => last_write(
                instrs_view(instrs@),
                from as int,
                clamp(before as int, instrs@.len()),
                slot,
            ) is None,
        },
        at matches Some(at) ==> from <= at < before && at < instrs@.len() && writes(
            instrs@[at as int]@,
            slot,
        ),
{
    let ghost all = instrs_view(instrs@);
    let mut at: usize = if before < instrs.len() { before } else { instrs.len() };
    while at > from
        invariant
            all == instrs_view(instrs@),
            at <= clamp(before as int, instrs@.len()),
            last_write(all, from as int, at as int, slot) == last_write(
                all,
                from as int,
                clamp(before as int, instrs@.len()),
                slot,
            ),
        decreases at,
    {
        at = at - 1;
        assert(all[at as int] == instrs@[at as int]@);
        if runtime_instr_writes_slot(&instrs[at], slot) {
            return Some(at);
        }
    }
    None
}

/// How many definitions the walk goes back through.
pub const MAX_CONST_DEPTH: u8 = 10;

/// The constant a slot holds before an instruction, as far as the definitions
/// in `from..before` show it. Normalisation is taken to keep the constant.
pub open spec fn slot_const(
    instrs: Seq<InstrView>,
    from: int,
    before: int,
    slot: usize,
    depth: nat,
) -> Option<u64>
    decreases before, 0nat,
    when 0 <= from
{
    let at = last_write(instrs, from, clamp(before, instrs.len()), slot);
    if depth > MAX_CONST_DEPTH || at is None || at->0 < 0 || at->0 >= before {
        None
    } else {
        let at = at->0;
        match instrs[at] {
            InstrView::Mov { src: RuntimeOperand::Imm(value), .. } => Some(value),
            InstrView::Mov { src: RuntimeOperand::Slot(source), .. } => {
                slot_const(instrs, from, at, source, depth + 1)
            },
            InstrView::BinOp { op, lhs, rhs, .. } => match (
                operand_const(instrs, from, at, lhs, depth + 1),
                operand_const(instrs, from, at, rhs, depth + 1),
            ) {
                (Some(l), Some(r)) => binop_value(op, l, r),
                _ => None,
            },
            InstrView::BinOpInPlace { op, rhs, .. } => match (
                slot_const(instrs, from, at, slot, depth + 1),
                operand_const(instrs, from, at, rhs, depth + 1),
            ) {
                (Some(l), Some(r)) => binop_value(op, l, r),
                _ => None,
            },
            InstrView::NormalizeInt { .. } => slot_const(instrs, from, at, slot, depth + 1),
            _ => None,
        }
    }
}

/// The constant an operand holds before an instruction.
pub open spec fn operand_const(
    instrs: Seq<InstrView>,
    from: int,
    before: int,
    operand: RuntimeOperand,
    depth: nat,
) -> Option<u64>
    decreases before, 1nat,
    when 0 <= from
{
    match operand {
        RuntimeOperand::Imm(value) => Some(value),
        RuntimeOperand::Slot(slot) => slot_const(instrs, from, before, slot, depth + 1),
    }
}

/// The constant a slot holds before an instruction.
pub fn slot_const_before(
    instrs: &Vec<RuntimeInstr>,
    min_def_idx: usize,
    before_idx: usize,
    slot: usize,
    depth: u8,
) -> (value: Option<u64>)
    requires
        depth <= 100,
    ensures
        value == slot_const(
            instrs_view(instrs@),
            min_def_idx as int,
            before_idx as int,
            slot,
            depth as nat,
        ),
    decreases before_idx, 0nat,
{
    if depth > MAX_CONST_DEPTH {
        return None;
    }
    let ghost all = instrs_view(instrs@);
    let at: usize = match last_write_before(instrs, min_def_idx, before_idx, slot) {
        Some(at) => at,
        None => return None,
    };
    assert(all[at as int] == instrs@[at as int]@);
    match &instrs[at] {
        RuntimeInstr::Mov { src: RuntimeOperand::Imm(value), .. } => Some(*value),
        RuntimeInstr::Mov { src: RuntimeOperand::Slot(source), .. } => {
            slot_const_before(instrs, min_def_idx, at, *source, depth + 1)
        },
        RuntimeInstr::BinOp { op, lhs, rhs, .. } => {
            match (
                operand_const_before(instrs, min_def_idx, at, lhs, depth + 1),
                operand_const_before(instrs, min_def_idx, at, rhs, depth + 1),
            ) {
                (Some(l), Some(r)) => eval_runtime_binop(*op, l, r),
                _ => None,
            }
        },
        RuntimeInstr::BinOpInPlace { op, rhs, .. } => {
            match (
                slot_const_before(instrs, min_def_idx, at, slot, depth + 1),
                operand_const_before(instrs, min_def_idx, at, rhs, depth + 1),
            ) {
                (Some(l), Some(r)) => eval_runtime_binop(*op, l, r),
                _ => None,
            }
        },
        RuntimeInstr::NormalizeInt { .. } => {
            slot_const_before(instrs, min_def_idx, at, slot, depth + 1)
        },
        _ => None,
    }
}

/// The constant an operand holds before an instruction.
pub fn operand_const_before(
    instrs: &Vec<RuntimeInstr>,
    min_def_idx: usize,
    before_idx: usize,
    operand: &RuntimeOperand,
    depth: u8,
) -> (value: Option<u64>)
    requires
        depth <= 99,
    ensures
        value == operand_const(
            instrs_view(instrs@),
            min_def_idx as int,
            before_idx as int,
            *operand,
            depth as nat,
        ),
    decreases before_idx, 1nat,
{
    match operand {
        RuntimeOperand::Imm(value) => Some(*value),
        RuntimeOperand::Slot(slot) => {
            slot_const_before(instrs, min_def_idx, before_idx, *slot, depth + 1)
        },
    }
}

/// The least number of the form 2^k - 1 that is not below `value`.
pub open spec fn mask_above(value: u64) -> u64 {
    if value == 0 {
        0
    } else {
        u64::MAX >> (u64_leading_zeros(value) as u32)
    }
}

/// The least number of the form 2^k - 1 that is not below `value`.
pub fn bitmask_upper(value: u64) -> (mask: u64)
    ensures
        mask == mask_above(value),
        mask >= value,
{
    if value == 0 {
        return 0;
    }
    proof {
        vstd::std_specs::bits::axiom_u64_leading_zeros(value);
        let zeros = u64_leading_zeros(value) as u32;
        if zeros > 0 {
            let shift = (64 - zeros) as u64;
            assert(value >> shift == 0);
            assert(value <= 0xffff_ffff_ffff_ffffu64 >> zeros) by (bit_vector)
                requires
                    0 < zeros < 64,
                    shift == 64 - zeros,
                    value >> shift == 0,
            ;
        } else {
            assert(0xffff_ffff_ffff_ffffu64 >> 0u32 == 0xffff_ffff_ffff_ffff) by (bit_vector);
        }
    }
    u64::MAX >> value.leading_zeros()
}

/// An upper bound of a slot before an instruction, as far as the definitions in
/// `from..before` show one.
pub open spec fn slot_upper(
    instrs: Seq<InstrView>,
    from: int,
    before: int,
    slot: usize,
    depth: nat,
) -> Option<u64>
    decreases before, 0nat,
    when 0 <= from
{
    let at = last_write(instrs, from, clamp(before, instrs.len()), slot);
    if depth > MAX_CONST_DEPTH || at is None || at->0 < 0 || at->0 >= before {
        None
    } else {
        let at = at->0;
        match instrs[at] {
            InstrView::Mov { src, .. } => operand_upper(instrs, from, at, src, depth + 1),
            InstrView::BinOp { op, lhs, rhs, .. } => match binop_upper(
                instrs,
                from,
                at,
                op,
                lhs,
                rhs,
                depth + 1,
            ) {
                Some(upper) => Some(upper),
                None => match (
                    operand_const(instrs, from, at, lhs, depth + 1),
                    operand_const(instrs, from, at, rhs, depth + 1),
                ) {
                    (Some(l), Some(r)) => binop_value(op, l, r),
                    _ => None,
                },
            },
            InstrView::BinOpInPlace { op, rhs, .. } => in_place_upper(
                instrs,
                from,
                at,
                op,
                slot_upper(instrs, from, at, slot, depth + 1),
                rhs,
                depth + 1,
            ),
            InstrView::NormalizeInt { signed, bits, .. } => match slot_upper(
                instrs,
                from,
                at,
                slot,
                depth + 1,
            ) {
                Some(prior) => if signed {
                    None
                } else {
                    Some(truncated_upper(prior, bits))
                },
                None => None,
            },
            _ => None,
        }
    }
}

/// An upper bound after truncation to a number of bits.
pub open spec fn truncated_upper(upper: u64, bits: u16) -> u64 {
    if bits >= 64 {
        upper
    } else {
        let max = ((1u64 << bits) - 1) as u64;
        if upper < max {
            upper
        } else {
            max
        }
    }
}

/// An upper bound of an operand before an instruction.
pub open spec fn operand_upper(
    instrs: Seq<InstrView>,
    from: int,
    before: int,
    operand: RuntimeOperand,
    depth: nat,
) -> Option<u64>
    decreases before, 1nat,
    when 0 <= from
{
    match operand {
        RuntimeOperand::Imm(value) => Some(value),
        RuntimeOperand::Slot(slot) => slot_upper(instrs, from, before, slot, depth + 1),
    }
}

/// An upper bound of the remainder by a known modulus.
pub open spec fn modulus_upper(modulus: Option<u64>) -> Option<u64> {
    match modulus {
        Some(m) => if m == 0 {
            None
        } else {
            Some((m - 1) as u64)
        },
        None => None,
    }
}

/// An upper bound of a two-operand operation before an instruction.
pub open spec fn binop_upper(
    instrs: Seq<InstrView>,
    from: int,
    before: int,
    op: RuntimeBinOp,
    lhs: RuntimeOperand,
    rhs: RuntimeOperand,
    depth: nat,
) -> Option<u64>
    decreases before, 2nat,
    when 0 <= from
{
    match op {
        RuntimeBinOp::BitAnd => match (
            operand_const(instrs, from, before, lhs, depth + 1),
            operand_const(instrs, from, before, rhs, depth + 1),
        ) {
            (Some(l), Some(r)) => Some(l & r),
            (Some(mask), None) => Some(mask),
            (None, Some(mask)) => Some(mask),
            (None, None) => None,
        },
        RuntimeBinOp::ModUnsigned => modulus_upper(
            operand_const(instrs, from, before, rhs, depth + 1),
        ),
        RuntimeBinOp::ShrUnsigned => match operand_const(instrs, from, before, rhs, depth + 1) {
            Some(shift) => if shift >= 64 {
                Some(0)
            } else {
                match operand_upper(instrs, from, before, lhs, depth + 1) {
                    Some(upper) => Some(upper >> shift),
                    None => None,
                }
            },
            None => None,
        },
        RuntimeBinOp::Add => match (
            operand_upper(instrs, from, before, lhs, depth + 1),
            operand_upper(instrs, from, before, rhs, depth + 1),
        ) {
            (Some(l), Some(r)) => l.checked_add(r),
            _ => None,
        },
        RuntimeBinOp::BitOr => match (
            operand_upper(instrs, from, before, lhs, depth + 1),
            operand_upper(instrs, from, before, rhs, depth + 1),
        ) {
            (Some(l), Some(r)) => Some(mask_above(l) | mask_above(r)),
            _ => None,
        },
        _ => None,
    }
}

/// An upper bound of an in-place operation from one of its slot.
pub open spec fn in_place_upper(
    instrs: Seq<InstrView>,
    from: int,
    before: int,
    op: RuntimeBinOp,
    lhs_upper: Option<u64>,
    rhs: RuntimeOperand,
    depth: nat,
) -> Option<u64>
    decreases before, 2nat,
    when 0 <= from
{
    let any = match lhs_upper {
        Some(upper) => upper,
        None => u64::MAX,
    };
    match op {
        RuntimeBinOp::BitAnd => match operand_const(instrs, from, before, rhs, depth + 1) {
            Some(mask) => Some(
                if any < mask {
                    any
                } else {
                    mask
                },
            ),
            None => None,
        },
        RuntimeBinOp::ModUnsigned => modulus_upper(
            operand_const(instrs, from, before, rhs, depth + 1),
        ),
        RuntimeBinOp::ShrUnsigned => match operand_const(instrs, from, before, rhs, depth + 1) {
            Some(shift) => if shift >= 64 {
                Some(0)
            } else {
                Some(any >> shift)
            },
            None => None,
        },
        RuntimeBinOp::BitOr => match operand_upper(instrs, from, before, rhs, depth + 1) {
            Some(upper) => Some(mask_above(any) | mask_above(upper)),
            None => None,
        },
        _ => None,
    }
}

/// An upper bound after truncation to a number of bits.
pub fn truncate_upper(upper: u64, bits: u16) -> (bound: u64)
    ensures
        bound == truncated_upper(upper, bits),
{
    if bits >= 64 {
        return upper;
    }
    assert(1u64 << bits >= 1) by (bit_vector)
        requires
            bits < 64,
    ;
    let max: u64 = (1u64 << bits) - 1;
    if upper < max {
        upper
    } else {
        max
    }
}

/// An upper bound of a slot before an instruction.
pub fn slot_upper_bound_before(
    instrs: &Vec<RuntimeInstr>,
    min_def_idx: usize,
    before_idx: usize,
    slot: usize,
    depth: u8,
) -> (upper: Option<u64>)
    requires
        depth <= 90,
    ensures
        upper == slot_upper(
            instrs_view(instrs@),
            min_def_idx as int,
            before_idx as int,
            slot,
            depth as nat,
        ),
    decreases before_idx, 0nat,
{
    if depth > MAX_CONST_DEPTH {
        return None;
    }
    let ghost all = instrs_view(instrs@);
    let at: usize = match last_write_before(instrs, min_def_idx, before_idx, slot) {
        Some(at) => at,
        None => return None,
    };
    assert(all[at as int] == instrs@[at as int]@);
    match &instrs[at] {
        RuntimeInstr::Mov { src, .. } => {
            operand_upper_bound_before(instrs, min_def_idx, at, src, depth + 1)
        },
        RuntimeInstr::BinOp { op, lhs, rhs, .. } => {
            match upper_bound_for_binop(instrs, min_def_idx, at, *op, lhs, rhs, depth + 1) {
                Some(upper) => Some(upper),
                None => match (
                    operand_const_before(instrs, min_def_idx, at, lhs, depth + 1),
                    operand_const_before(instrs, min_def_idx, at, rhs, depth + 1),
                ) {
                    (Some(l), Some(r)) => eval_runtime_binop(*op, l, r),
                    _ => None,
                },
            }
        },
        RuntimeInstr::BinOpInPlace { op, rhs, .. } => {
            let lhs_bound = slot_upper_bound_before(instrs, min_def_idx, at, slot, depth + 1);
            upper_bound_for_binop_from_bounds(
                instrs,
                min_def_idx,
                at,
                *op,
                lhs_bound,
                rhs,
                depth + 1,
            )
        },
        RuntimeInstr::NormalizeInt { signed, bits, .. } => {
            match slot_upper_bound_before(instrs, min_def_idx, at, slot, depth + 1) {
                Some(prior) => {
                    if *signed {
                        None
                    } else {
                        Some(truncate_upper(prior, *bits))
                    }
                },
                None => None,
            }
        },
        _ => None,
    }
}

/// An upper bound of an operand before an instruction.
pub fn operand_upper_bound_before(
    instrs: &Vec<RuntimeInstr>,
    min_def_idx: usize,
    before_idx: usize,
    operand: &RuntimeOperand,
    depth: u8,
) -> (upper: Option<u64>)
    requires
        depth <= 89,
    ensures
        upper == operand_upper(
            instrs_view(instrs@),
            min_def_idx as int,
            before_idx as int,
            *operand,
            depth as nat,
        ),
    decreases before_idx, 1nat,
{
    match operand {
        RuntimeOperand::Imm(value) => Some(*value),
        RuntimeOperand::Slot(slot) => {
            slot_upper_bound_before(instrs, min_def_idx, before_idx, *slot, depth + 1)
        },
    }
}

/// An upper bound of a two-operand operation before an instruction.
pub fn upper_bound_for_binop(
    instrs: &Vec<RuntimeInstr>,
    min_def_idx: usize,
    before_idx: usize,
    op: RuntimeBinOp,
    lhs: &RuntimeOperand,
    rhs: &RuntimeOperand,
    depth: u8,
) -> (upper: Option<u64>)
    requires
        depth <= 80,
    ensures
        upper == binop_upper(
            instrs_view(instrs@),
            min_def_idx as int,
            before_idx as int,
            op,
            *lhs,
            *rhs,
            depth as nat,
        ),
    decreases before_idx, 2nat,
{
    match op {
        RuntimeBinOp::BitAnd => {
            let lhs_const = operand_const_before(instrs, min_def_idx, before_idx, lhs, depth + 1);
            let rhs_const = operand_const_before(instrs, min_def_idx, before_idx, rhs, depth + 1);
            match (lhs_const, rhs_const) {
                (Some(l), Some(r)) => Some(l & r),
                (Some(mask), None) => Some(mask),
                (None, Some(mask)) => Some(mask),
                (None, None) => None,
            }
        },
        RuntimeBinOp::ModUnsigned => {
            match operand_const_before(instrs, min_def_idx, before_idx, rhs, depth + 1) {
                Some(modulus) => {
                    if modulus == 0 {
                        None
                    } else {
                        Some(modulus - 1)
                    }
                },
                None => None,
            }
        },
        RuntimeBinOp::ShrUnsigned => {
            match operand_const_before(instrs, min_def_idx, before_idx, rhs, depth + 1) {
                Some(shift) => {
                    if shift >= 64 {
                        return Some(0);
                    }
                    match operand_upper_bound_before(
                        instrs,
                        min_def_idx,
                        before_idx,
                        lhs,
                        depth + 1,
                    ) {
                        Some(bound) => Some(bound >> shift),
                        None => None,
                    }
                },
                None => None,
            }
        },
        RuntimeBinOp::Add => {
            match (
                operand_upper_bound_before(instrs, min_def_idx, before_idx, lhs, depth + 1),
                operand_upper_bound_before(instrs, min_def_idx, before_idx, rhs, depth + 1),
            ) {
                (Some(l), Some(r)) => l.checked_add(r),
                _ => None,
            }
        },
        RuntimeBinOp::BitOr => {
            match (
                operand_upper_bound_before(instrs, min_def_idx, before_idx, lhs, depth + 1),
                operand_upper_bound_before(instrs, min_def_idx, before_idx, rhs, depth + 1),
            ) {
                (Some(l), Some(r)) => Some(bitmask_upper(l) | bitmask_upper(r)),
                _ => None,
            }
        },
        _ => None,
    }
}

/// An upper bound of an in-place operation from one of its slot.
pub fn upper_bound_for_binop_from_bounds(
    instrs: &Vec<RuntimeInstr>,
    min_def_idx: usize,
    before_idx: usize,
    op: RuntimeBinOp,
    lhs_bound: Option<u64>,
    rhs: &RuntimeOperand,
    depth: u8,
) -> (upper: Option<u64>)
    requires
        depth <= 80,
    ensures
        upper == in_place_upper(
            instrs_view(instrs@),
            min_def_idx as int,
            before_idx as int,
            op,
            lhs_bound,
            *rhs,
            depth as nat,
        ),
    decreases before_idx, 2nat,
{
    let any: u64 = match lhs_bound {
        Some(upper) => upper,
        None => u64::MAX,
    };
    match op {
        RuntimeBinOp::BitAnd => {
            match operand_const_before(instrs, min_def_idx, before_idx, rhs, depth + 1) {
                Some(mask) => Some(
                    if any < mask {
                        any
                    } else {
                        mask
                    },
                ),
                None => None,
            }
        },
        RuntimeBinOp::ModUnsigned => {
            match operand_const_before(instrs, min_def_idx, before_idx, rhs, depth + 1) {
                Some(modulus) => {
                    if modulus == 0 {
                        None
                    } else {
                        Some(modulus - 1)
                    }
                },
                None => None,
            }
        },
        RuntimeBinOp::ShrUnsigned => {
            match operand_const_before(instrs, min_def_idx, before_idx, rhs, depth + 1) {
                Some(shift) => {
                    if shift >= 64 {
                        Some(0)
                    } else {
                        Some(any >> shift)
                    }
                },
                None => None,
            }
        },
        RuntimeBinOp::BitOr => {
            match operand_upper_bound_before(instrs, min_def_idx, before_idx, rhs, depth + 1) {
                Some(bound) => Some(bitmask_upper(any) | bitmask_upper(bound)),
                None => None,
            }
        },
        _ => None,
    }
}

} // verus!
