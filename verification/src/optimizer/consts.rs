//! Compile-time evaluation of runtime operations.

use crate::ir::{RuntimeBinOp, RuntimeCmpOp, RuntimeOperand};
use vstd::prelude::*;

verus! {

/// The number that a 64-bit word stands for in two's complement.
pub open spec fn signed(word: u64) -> int {
    if word < 0x8000_0000_0000_0000 {
        word as int
    } else {
        word - 0x1_0000_0000_0000_0000
    }
}

/// The word reinterpreted as a signed integer.
fn to_signed(word: u64) -> (number: i64)
    ensures
        number == word as i64,
        number == signed(word),
{
    assert(word < 0x8000_0000_0000_0000 ==> (word as i64) as int == word as int) by (bit_vector);
    assert(word >= 0x8000_0000_0000_0000 ==> (word as i64) as int == (word as int)
        - 0x1_0000_0000_0000_0000) by (bit_vector);
    word as i64
}

/// What an operation yields on two words. There is no value where the machine
/// traps: division by zero, and the signed quotient or remainder of the least
/// number by minus one.
pub open spec fn binop_value(op: RuntimeBinOp, lhs: u64, rhs: u64) -> Option<u64> {
    match op {
        RuntimeBinOp::Add => Some(lhs.wrapping_add(rhs)),
        RuntimeBinOp::Sub => Some(lhs.wrapping_sub(rhs)),
        RuntimeBinOp::Mul => Some(lhs.wrapping_mul(rhs)),
        RuntimeBinOp::DivUnsigned => if rhs == 0 {
            None
        } else {
            Some(lhs / rhs)
        },
        RuntimeBinOp::DivSigned => match (lhs as i64).checked_div(rhs as i64) {
            Some(quotient) => Some(quotient as u64),
            None => None,
        },
        RuntimeBinOp::ModUnsigned => if rhs == 0 {
            None
        } else {
            Some(lhs % rhs)
        },
        RuntimeBinOp::ModSigned => match (lhs as i64).checked_rem(rhs as i64) {
            Some(remainder) => Some(remainder as u64),
            None => None,
        },
        RuntimeBinOp::BitAnd => Some(lhs & rhs),
        RuntimeBinOp::BitOr => Some(lhs | rhs),
        RuntimeBinOp::BitXor => Some(lhs ^ rhs),
        RuntimeBinOp::Shl => Some(lhs << (rhs & 63)),
        RuntimeBinOp::ShrUnsigned => Some(lhs >> (rhs & 63)),
        RuntimeBinOp::ShrSigned => Some(((lhs as i64) >> (rhs & 63)) as u64),
    }
}

/// The amount of a shift that the machine takes is less than the width.
pub proof fn lemma_shift_amount(shift: u64)
    ensures
        shift & 63 < 64,
{
    assert(shift & 63 < 64) by (bit_vector);
}

/// Evaluates an operation on two words, unless the machine would trap.
pub fn eval_runtime_binop(op: RuntimeBinOp, lhs: u64, rhs: u64) -> (value: Option<u64>)
    ensures
        value == binop_value(op, lhs, rhs),
{
    proof {
        lemma_shift_amount(rhs);
    }
    match op {
        RuntimeBinOp::Add => Some(lhs.wrapping_add(rhs)),
        RuntimeBinOp::Sub => Some(lhs.wrapping_sub(rhs)),
        RuntimeBinOp::Mul => Some(lhs.wrapping_mul(rhs)),
        RuntimeBinOp::DivUnsigned => {
            if rhs == 0 {
                None
            } else {
                Some(lhs / rhs)
            }
        },
        RuntimeBinOp::DivSigned => match (lhs as i64).checked_div(rhs as i64) {
            Some(quotient) => Some(quotient as u64),
            None => None,
        },
        RuntimeBinOp::ModUnsigned => {
            if rhs == 0 {
                None
            } else {
                Some(lhs % rhs)
            }
        },
        RuntimeBinOp::ModSigned => match (lhs as i64).checked_rem(rhs as i64) {
            Some(remainder) => Some(remainder as u64),
            None => None,
        },
        RuntimeBinOp::BitAnd => Some(lhs & rhs),
        RuntimeBinOp::BitOr => Some(lhs | rhs),
        RuntimeBinOp::BitXor => Some(lhs ^ rhs),
        RuntimeBinOp::Shl => Some(lhs << (rhs & 63)),
        RuntimeBinOp::ShrUnsigned => Some(lhs >> (rhs & 63)),
        RuntimeBinOp::ShrSigned => Some(((lhs as i64) >> (rhs & 63)) as u64),
    }
}

/// Whether a comparison of two words holds.
pub open spec fn comparison_holds(op: RuntimeCmpOp, lhs: u64, rhs: u64) -> bool {
    match op {
        RuntimeCmpOp::Eq => lhs == rhs,
        RuntimeCmpOp::Ne => lhs != rhs,
        RuntimeCmpOp::LtUnsigned => lhs < rhs,
        RuntimeCmpOp::LeUnsigned => lhs <= rhs,
        RuntimeCmpOp::GtUnsigned => lhs > rhs,
        RuntimeCmpOp::GeUnsigned => lhs >= rhs,
        RuntimeCmpOp::LtSigned => signed(lhs) < signed(rhs),
        RuntimeCmpOp::LeSigned => signed(lhs) <= signed(rhs),
        RuntimeCmpOp::GtSigned => signed(lhs) > signed(rhs),
        RuntimeCmpOp::GeSigned => signed(lhs) >= signed(rhs),
    }
}

/// The word a comparison yields: one if it holds, else zero.
pub open spec fn comparison_value(op: RuntimeCmpOp, lhs: u64, rhs: u64) -> u64 {
    if comparison_holds(op, lhs, rhs) {
        1
    } else {
        0
    }
}

/// Evaluates a comparison of two words.
pub fn eval_runtime_comparison(op: RuntimeCmpOp, lhs: u64, rhs: u64) -> (value: u64)
    ensures
        value == comparison_value(op, lhs, rhs),
{
    let signed_lhs: i64 = to_signed(lhs);
    let signed_rhs: i64 = to_signed(rhs);
    let taken = match op {
        RuntimeCmpOp::Eq => lhs == rhs,
        RuntimeCmpOp::Ne => lhs != rhs,
        RuntimeCmpOp::LtUnsigned => lhs < rhs,
        RuntimeCmpOp::LeUnsigned => lhs <= rhs,
        RuntimeCmpOp::GtUnsigned => lhs > rhs,
        RuntimeCmpOp::GeUnsigned => lhs >= rhs,
        RuntimeCmpOp::LtSigned => signed_lhs < signed_rhs,
        RuntimeCmpOp::LeSigned => signed_lhs <= signed_rhs,
        RuntimeCmpOp::GtSigned => signed_lhs > signed_rhs,
        RuntimeCmpOp::GeSigned => signed_lhs >= signed_rhs,
    };
    if taken {
        1
    } else {
        0
    }
}

/// The low `bits` bits of a word, extended to 64 bits with zeroes or, for a
/// signed value, with copies of the top bit kept.
pub open spec fn normalized(word: u64, is_signed: bool, bits: u16) -> u64 {
    if bits >= 64 {
        word
    } else if bits == 0 {
        0
    } else {
        let mask = ((1u64 << bits) - 1) as u64;
        let low = word & mask;
        if is_signed && low & (1u64 << (bits - 1) as u16) != 0 {
            low | !mask
        } else {
            low
        }
    }
}

/// Truncates a word to `bits` bits and extends the result to 64 bits.
pub fn normalize_const_int(value: u64, signed: bool, bits: u16) -> (normal: u64)
    ensures
        normal == normalized(value, signed, bits),
{
    if bits >= 64 {
        return value;
    }
    if bits == 0 {
        return 0;
    }
    assert(1u64 << bits >= 1) by (bit_vector)
        requires
            bits < 64,
    ;
    let mask: u64 = (1u64 << bits) - 1;
    let truncated: u64 = value & mask;
    if signed {
        let sign: u64 = 1u64 << (bits - 1);
        if (truncated & sign) != 0 {
            truncated | !mask
        } else {
            truncated
        }
    } else {
        truncated
    }
}

/// Normalising to a width twice is normalising once.
pub proof fn law_normalize_is_idempotent(word: u64, is_signed: bool, bits: u16)
    ensures
        normalized(normalized(word, is_signed, bits), is_signed, bits) == normalized(
            word,
            is_signed,
            bits,
        ),
{
    if 0 < bits < 64 {
        let mask = ((1u64 << bits) - 1) as u64;
        let top = 1u64 << (bits - 1) as u16;
        assert((word & mask) & mask == word & mask) by (bit_vector);
        assert(((word & mask) | !mask) & mask == word & mask) by (bit_vector);
    }
}

/// Normalising to fewer than 64 bits without sign gives a value that fits.
pub proof fn law_normalize_unsigned_fits(word: u64, bits: u16)
    requires
        bits < 64,
    ensures
        normalized(word, false, bits) < 1u64 << bits,
{
    assert(bits < 64 ==> 1u64 << bits >= 1) by (bit_vector);
    let mask = ((1u64 << bits) - 1) as u64;
    assert(word & mask <= mask) by (bit_vector);
}

/// An in-place operation with this operand leaves every word as it is.
pub open spec fn in_place_is_nop(op: RuntimeBinOp, rhs: RuntimeOperand) -> bool {
    match rhs {
        RuntimeOperand::Slot(_) => false,
        RuntimeOperand::Imm(value) => match op {
            RuntimeBinOp::Mul | RuntimeBinOp::DivUnsigned | RuntimeBinOp::DivSigned => value == 1,
            RuntimeBinOp::BitAnd => value == u64::MAX,
            RuntimeBinOp::ModUnsigned | RuntimeBinOp::ModSigned => false,
            _ => value == 0,
        },
    }
}

/// Whether an in-place operation with this operand changes nothing.
pub fn fold_binop_in_place_is_nop(op: RuntimeBinOp, rhs: &RuntimeOperand) -> (nop: bool)
    ensures
        nop == in_place_is_nop(op, *rhs),
{
    let value: u64 = match rhs {
        RuntimeOperand::Imm(value) => *value,
        RuntimeOperand::Slot(_) => return false,
    };
    match op {
        RuntimeBinOp::Add | RuntimeBinOp::Sub => value == 0,
        RuntimeBinOp::Mul | RuntimeBinOp::DivUnsigned | RuntimeBinOp::DivSigned => value == 1,
        RuntimeBinOp::BitOr
        | RuntimeBinOp::BitXor
        | RuntimeBinOp::Shl
        | RuntimeBinOp::ShrUnsigned
        | RuntimeBinOp::ShrSigned => value == 0,
        RuntimeBinOp::BitAnd => value == u64::MAX,
        RuntimeBinOp::ModUnsigned | RuntimeBinOp::ModSigned => false,
    }
}

/// Words and their signed readings convert back and forth.
proof fn lemma_signed_round_trip(word: u64)
    ensures
        (word as i64) as u64 == word,
{
    assert((word as i64) as u64 == word) by (bit_vector);
}

/// An in-place operation that is dropped as a no-op yields its left operand on
/// every word.
pub proof fn law_dropped_operation_changes_nothing(op: RuntimeBinOp, rhs: u64, word: u64)
    requires
        in_place_is_nop(op, RuntimeOperand::Imm(rhs)),
    ensures
        binop_value(op, word, rhs) == Some(word),
{
    lemma_signed_round_trip(word);
    assert(1u64 as i64 == 1) by (bit_vector);
    assert(word & 0xffff_ffff_ffff_ffff == word) by (bit_vector);
    assert(word | 0 == word) by (bit_vector);
    assert(word ^ 0 == word) by (bit_vector);
    assert(word << (0u64 & 63) == word) by (bit_vector);
    assert(word >> (0u64 & 63) == word) by (bit_vector);
    assert(((word as i64) >> (0u64 & 63)) as u64 == word) by (bit_vector);
    assert(word as nat * 1 == word as nat);
}

/// The operand is this immediate value.
pub open spec fn is_imm(operand: RuntimeOperand, value: u64) -> bool {
    operand == RuntimeOperand::Imm(value)
}

/// The operand that an operation reduces to because of the algebraic role of
/// an immediate operand, if it does.
pub open spec fn identity_operand(
    op: RuntimeBinOp,
    lhs: RuntimeOperand,
    rhs: RuntimeOperand,
) -> Option<RuntimeOperand> {
    match op {
        RuntimeBinOp::Add | RuntimeBinOp::BitXor => if is_imm(rhs, 0) {
            Some(lhs)
        } else if is_imm(lhs, 0) {
            Some(rhs)
        } else {
            None
        },
        RuntimeBinOp::Sub => if is_imm(rhs, 0) {
            Some(lhs)
        } else {
            None
        },
        RuntimeBinOp::Mul => if is_imm(rhs, 1) {
            Some(lhs)
        } else if is_imm(lhs, 1) {
            Some(rhs)
        } else if is_imm(rhs, 0) || is_imm(lhs, 0) {
            Some(RuntimeOperand::Imm(0))
        } else {
            None
        },
        RuntimeBinOp::DivUnsigned | RuntimeBinOp::DivSigned => if is_imm(rhs, 1) {
            Some(lhs)
        } else {
            None
        },
        RuntimeBinOp::ModUnsigned => if is_imm(rhs, 1) || (is_imm(lhs, 0) && !is_imm(rhs, 0)) {
            Some(RuntimeOperand::Imm(0))
        } else {
            None
        },
        RuntimeBinOp::ModSigned => if is_imm(rhs, 1) || is_imm(rhs, u64::MAX) || (is_imm(lhs, 0)
            && !is_imm(rhs, 0)) {
            Some(RuntimeOperand::Imm(0))
        } else {
            None
        },
        RuntimeBinOp::BitAnd => if is_imm(rhs, 0) || is_imm(lhs, 0) {
            Some(RuntimeOperand::Imm(0))
        } else if is_imm(rhs, u64::MAX) {
            Some(lhs)
        } else if is_imm(lhs, u64::MAX) {
            Some(rhs)
        } else {
            None
        },
        RuntimeBinOp::BitOr => if is_imm(rhs, 0) {
            Some(lhs)
        } else if is_imm(lhs, 0) {
            Some(rhs)
        } else if is_imm(rhs, u64::MAX) || is_imm(lhs, u64::MAX) {
            Some(RuntimeOperand::Imm(u64::MAX))
        } else {
            None
        },
        RuntimeBinOp::Shl | RuntimeBinOp::ShrUnsigned | RuntimeBinOp::ShrSigned => match rhs {
            RuntimeOperand::Imm(shift) => if shift & 63 == 0 {
                Some(lhs)
            } else {
                None
            },
            RuntimeOperand::Slot(_) => None,
        },
    }
}

/// Whether the operand is this immediate value.
fn operand_is_imm(operand: &RuntimeOperand, value: u64) -> (same: bool)
    ensures
        same == is_imm(*operand, value),
{
    match operand {
        RuntimeOperand::Imm(found) => *found == value,
        RuntimeOperand::Slot(_) => false,
    }
}

/// Reduces an operation with a neutral or absorbing operand.
pub fn fold_binop_identity(
    op: RuntimeBinOp,
    lhs: &RuntimeOperand,
    rhs: &RuntimeOperand,
) -> (folded: Option<RuntimeOperand>)
    ensures
        folded == identity_operand(op, *lhs, *rhs),
{
    match op {
        RuntimeBinOp::Add | RuntimeBinOp::BitXor => {
            if operand_is_imm(rhs, 0) {
                Some(*lhs)
            } else if operand_is_imm(lhs, 0) {
                Some(*rhs)
            } else {
                None
            }
        },
        RuntimeBinOp::Sub => {
            if operand_is_imm(rhs, 0) {
                Some(*lhs)
            } else {
                None
            }
        },
        RuntimeBinOp::Mul => {
            if operand_is_imm(rhs, 1) {
                Some(*lhs)
            } else if operand_is_imm(lhs, 1) {
                Some(*rhs)
            } else if operand_is_imm(rhs, 0) || operand_is_imm(lhs, 0) {
                Some(RuntimeOperand::Imm(0))
            } else {
                None
            }
        },
        RuntimeBinOp::DivUnsigned | RuntimeBinOp::DivSigned => {
            if operand_is_imm(rhs, 1) {
                Some(*lhs)
            } else {
                None
            }
        },
        RuntimeBinOp::ModUnsigned => {
            if operand_is_imm(rhs, 1) {
                Some(RuntimeOperand::Imm(0))
            } else if operand_is_imm(lhs, 0) && !operand_is_imm(rhs, 0) {
                Some(RuntimeOperand::Imm(0))
            } else {
                None
            }
        },
        RuntimeBinOp::ModSigned => {
            if operand_is_imm(rhs, 1) || operand_is_imm(rhs, u64::MAX) {
                Some(RuntimeOperand::Imm(0))
            } else if operand_is_imm(lhs, 0) && !operand_is_imm(rhs, 0) {
                Some(RuntimeOperand::Imm(0))
            } else {
                None
            }
        },
        RuntimeBinOp::BitAnd => {
            if operand_is_imm(rhs, 0) || operand_is_imm(lhs, 0) {
                Some(RuntimeOperand::Imm(0))
            } else if operand_is_imm(rhs, u64::MAX) {
                Some(*lhs)
            } else if operand_is_imm(lhs, u64::MAX) {
                Some(*rhs)
            } else {
                None
            }
        },
        RuntimeBinOp::BitOr => {
            if operand_is_imm(rhs, 0) {
                Some(*lhs)
            } else if operand_is_imm(lhs, 0) {
                Some(*rhs)
            } else if operand_is_imm(rhs, u64::MAX) || operand_is_imm(lhs, u64::MAX) {
                Some(RuntimeOperand::Imm(u64::MAX))
            } else {
                None
            }
        },
        RuntimeBinOp::Shl | RuntimeBinOp::ShrUnsigned | RuntimeBinOp::ShrSigned => match rhs {
            RuntimeOperand::Imm(shift) => {
                if *shift & 63 == 0 {
                    Some(*lhs)
                } else {
                    None
                }
            },
            RuntimeOperand::Slot(_) => None,
        },
    }
}

/// What an operand evaluates to when the slots hold `slots`.
pub open spec fn operand_value(operand: RuntimeOperand, slots: spec_fn(usize) -> u64) -> u64 {
    match operand {
        RuntimeOperand::Slot(slot) => slots(slot),
        RuntimeOperand::Imm(value) => value,
    }
}

/// Reducing an operation to an operand is sound: whatever the slots hold,
/// where the operation has a value it is the operand's.
pub proof fn law_identity_preserves_value(
    op: RuntimeBinOp,
    lhs: RuntimeOperand,
    rhs: RuntimeOperand,
    slots: spec_fn(usize) -> u64,
)
    requires
        identity_operand(op, lhs, rhs) is Some,
        binop_value(op, operand_value(lhs, slots), operand_value(rhs, slots)) is Some,
    ensures
        binop_value(op, operand_value(lhs, slots), operand_value(rhs, slots)) == Some(
            operand_value(identity_operand(op, lhs, rhs)->0, slots),
        ),
{
    let l = operand_value(lhs, slots);
    let r = operand_value(rhs, slots);
    lemma_signed_round_trip(l);
    assert(0xffff_ffff_ffff_ffffu64 as i64 == -1 && 1u64 as i64 == 1 && 0u64 as i64 == 0
        && 0i64 as u64 == 0) by (bit_vector);
    assert(l & 0 == 0 && 0 & r == 0 && l & 0xffff_ffff_ffff_ffff == l && 0xffff_ffff_ffff_ffff & r
        == r) by (bit_vector);
    assert(l | 0 == l && 0 | r == r && l | 0xffff_ffff_ffff_ffff == 0xffff_ffff_ffff_ffff
        && 0xffff_ffff_ffff_ffff | r == 0xffff_ffff_ffff_ffff) by (bit_vector);
    assert(l ^ 0 == l && 0 ^ r == r) by (bit_vector);
    assert(l << 0u64 == l && l >> 0u64 == l && ((l as i64) >> 0u64) as u64 == l) by (bit_vector);
    assert(l as nat * 1 == l as nat && 1 * r as nat == r as nat && l as nat * 0 == 0 && 0 * r as nat
        == 0);
    match op {
        RuntimeBinOp::ModUnsigned => {
            if r == 1 {
                assert(l % 1 == 0);
            }
        },
        RuntimeBinOp::ModSigned => {
            let x = l as i64;
            assert(forall|n: int| #[trigger] (n % 1) == 0);
        },
        _ => {},
    }
}

} // verus!
