//! Binary searches: the check of the midpoint load is dropped, and a search of
//! an evenly spaced table is replaced by its closed form.

use crate::ir::{
    copy_slots, instrs_view, InstrView, RuntimeBinOp, RuntimeCmpOp, RuntimeInstr, RuntimeOperand,
};
use crate::optimizer::checks::{drop_check_at, unchecked};
use crate::optimizer::control_flow::targets_in_bounds;
use crate::optimizer::loops::is_power_of_two;
use crate::optimizer::machine::{run, step, SlotState};
use crate::optimizer::reaching::{last_write, last_write_before};
use crate::optimizer::slots::{instr_below, slots_below};
use crate::optimizer::targets::code_target;
use vstd::arithmetic::logarithm::log;
use vstd::arithmetic::power2::is_pow2;
use vstd::prelude::*;

verus! {

/// A lower-bound binary search: the slots of its two bounds and of what it
/// computes from them, the slot it loads to and the one it compares with, and
/// the table.
pub struct SearchLoop {
    pub low: usize,
    pub high: usize,
    pub delta: usize,
    pub half: usize,
    pub middle: usize,
    pub middle_copy: usize,
    pub loaded: usize,
    pub wanted: usize,
    pub low_next: usize,
    pub table: Vec<usize>,
}

/// A binary search in contracts.
#[verifier::ext_equal]
pub struct SearchView {
    pub low: usize,
    pub high: usize,
    pub delta: usize,
    pub half: usize,
    pub middle: usize,
    pub middle_copy: usize,
    pub loaded: usize,
    pub wanted: usize,
    pub low_next: usize,
    pub table: Seq<usize>,
}

impl View for SearchLoop {
    type V = SearchView;

    open spec fn view(&self) -> SearchView {
        SearchView {
            low: self.low,
            high: self.high,
            delta: self.delta,
            half: self.half,
            middle: self.middle,
            middle_copy: self.middle_copy,
            loaded: self.loaded,
            wanted: self.wanted,
            low_next: self.low_next,
            table: self.table@,
        }
    }
}

/// What a search computes is neither of its bounds, so that only its two updates
/// change them, and these by the midpoint: the value that it loads does not
/// overwrite the midpoint's copy.
pub open spec fn slots_apart(search: SearchView) -> bool {
    &&& search.loaded != search.middle_copy
    &&& is_apart(search, search.delta)
    &&& is_apart(search, search.half)
    &&& is_apart(search, search.middle)
    &&& is_apart(search, search.middle_copy)
    &&& is_apart(search, search.loaded)
    &&& search.low_next != search.high
}

/// A slot is neither bound of a search.
pub open spec fn is_apart(search: SearchView, slot: usize) -> bool {
    slot != search.low && slot != search.high
}

/// The fourteen instructions round `guard` are the complete search: both bounds
/// are set before it, and only its two updates change them.
pub open spec fn is_search(instrs: Seq<InstrView>, guard: int, search: SearchView) -> bool {
    &&& slots_apart(search)
    &&& 2 <= guard
    &&& guard + 11 < instrs.len()
    &&& 0 < search.table.len() <= u64::MAX
    &&& instrs[guard - 2] == (InstrView::Mov { dst: search.low, src: RuntimeOperand::Imm(0) })
    &&& instrs[guard - 1] == (InstrView::Mov {
        dst: search.high,
        src: RuntimeOperand::Imm(search.table.len() as u64),
    })
    &&& instrs[guard] == (InstrView::JumpIfCmpFalse {
        op: RuntimeCmpOp::LtUnsigned,
        lhs: RuntimeOperand::Slot(search.low),
        rhs: RuntimeOperand::Slot(search.high),
        target: (guard + 12) as usize,
    })
    &&& instrs[guard + 1] == (InstrView::BinOp {
        dst: search.delta,
        op: RuntimeBinOp::Sub,
        lhs: RuntimeOperand::Slot(search.high),
        rhs: RuntimeOperand::Slot(search.low),
    })
    &&& instrs[guard + 2] == (InstrView::BinOp {
        dst: search.half,
        op: RuntimeBinOp::ShrUnsigned,
        lhs: RuntimeOperand::Slot(search.delta),
        rhs: RuntimeOperand::Imm(1),
    })
    &&& instrs[guard + 3] == (InstrView::BinOp {
        dst: search.middle,
        op: RuntimeBinOp::Add,
        lhs: RuntimeOperand::Slot(search.low),
        rhs: RuntimeOperand::Slot(search.half),
    })
    &&& instrs[guard + 4] == (InstrView::Mov {
        dst: search.middle_copy,
        src: RuntimeOperand::Slot(search.middle),
    })
    &&& instrs[guard + 5] == (InstrView::LoadIndex {
        dst: search.loaded,
        base_slots: search.table,
        index: RuntimeOperand::Slot(search.middle),
    })
    &&& instrs[guard + 6] == (InstrView::JumpIfCmpFalse {
        op: RuntimeCmpOp::LtUnsigned,
        lhs: RuntimeOperand::Slot(search.loaded),
        rhs: RuntimeOperand::Slot(search.wanted),
        target: (guard + 10) as usize,
    })
    &&& instrs[guard + 7] == (InstrView::BinOp {
        dst: search.low_next,
        op: RuntimeBinOp::Add,
        lhs: RuntimeOperand::Slot(search.middle_copy),
        rhs: RuntimeOperand::Imm(1),
    })
    &&& instrs[guard + 8] == (InstrView::Mov {
        dst: search.low,
        src: RuntimeOperand::Slot(search.low_next),
    })
    &&& instrs[guard + 9] == (InstrView::Jump { target: guard as usize })
    &&& instrs[guard + 10] == (InstrView::Mov {
        dst: search.high,
        src: RuntimeOperand::Slot(search.middle_copy),
    })
    &&& instrs[guard + 11] == (InstrView::Jump { target: guard as usize })
}

/// The search round `guard`.
pub open spec fn search_at(instrs: Seq<InstrView>, guard: int) -> Option<SearchView> {
    if exists|search: SearchView| is_search(instrs, guard, search) {
        Some(choose|search: SearchView| is_search(instrs, guard, search))
    } else {
        None
    }
}

/// The instructions determine the search.
pub proof fn lemma_search_unique(instrs: Seq<InstrView>, guard: int, search: SearchView)
    requires
        is_search(instrs, guard, search),
    ensures
        search_at(instrs, guard) == Some(search),
{
    let found = search_at(instrs, guard)->0;
    assert(is_search(instrs, guard, found));
    assert(found =~= search);
}

/// The destination of a move of one slot to another.
fn copy_of(instr: &RuntimeInstr, from: usize) -> (to: Option<usize>)
    ensures
        match to {
            Some(to) => instr@ == (InstrView::Mov { dst: to, src: RuntimeOperand::Slot(from) }),
            None => forall|to: usize|
                instr@ != (#[trigger] mov_slot(to, from)),
        },
{
    match instr {
        RuntimeInstr::Mov { dst, src: RuntimeOperand::Slot(slot) } => if *slot == from {
            Some(*dst)
        } else {
            None
        },
        _ => None,
    }
}

/// A move of one slot to another.
pub open spec fn mov_slot(to: usize, from: usize) -> InstrView {
    InstrView::Mov { dst: to, src: RuntimeOperand::Slot(from) }
}

/// The destination of an operation on two given operands.
fn result_of(
    instr: &RuntimeInstr,
    wanted_op: RuntimeBinOp,
    left: RuntimeOperand,
    right: RuntimeOperand,
) -> (to: Option<usize>)
    ensures
        match to {
            Some(
                to,
            ) => instr@ == (InstrView::BinOp { dst: to, op: wanted_op, lhs: left, rhs: right }),
            None => forall|to: usize| instr@ != (#[trigger] operation(to, wanted_op, left, right)),
        },
{
    match instr {
        RuntimeInstr::BinOp { dst, op, lhs, rhs } => if *op == wanted_op && *lhs == left && *rhs
            == right {
            Some(*dst)
        } else {
            None
        },
        _ => None,
    }
}

/// An operation on two operands.
pub open spec fn operation(
    to: usize,
    op: RuntimeBinOp,
    lhs: RuntimeOperand,
    rhs: RuntimeOperand,
) -> InstrView {
    InstrView::BinOp { dst: to, op, lhs, rhs }
}

/// Whether the instruction jumps to the position.
fn jumps_to(instr: &RuntimeInstr, position: usize) -> (found: bool)
    ensures
        found == (instr@ == InstrView::Jump { target: position }),
{
    match instr {
        RuntimeInstr::Jump { target } => *target == position,
        _ => false,
    }
}

/// The two slots an unsigned less-than test compares.
fn less_than_test(instr: &RuntimeInstr, leave: usize) -> (slots: Option<(usize, usize)>)
    ensures
        match slots {
            Some((left, right)) => instr@ == less_than(left, right, leave),
            None => forall|left: usize, right: usize|
                instr@ != (#[trigger] less_than(left, right, leave)),
        },
{
    match instr {
        RuntimeInstr::JumpIfCmpFalse {
            op: RuntimeCmpOp::LtUnsigned,
            lhs: RuntimeOperand::Slot(left),
            rhs: RuntimeOperand::Slot(right),
            target,
        } => if *target == leave {
            Some((*left, *right))
        } else {
            None
        },
        _ => None,
    }
}

/// An unsigned less-than test of two slots.
pub open spec fn less_than(left: usize, right: usize, leave: usize) -> InstrView {
    InstrView::JumpIfCmpFalse {
        op: RuntimeCmpOp::LtUnsigned,
        lhs: RuntimeOperand::Slot(left),
        rhs: RuntimeOperand::Slot(right),
        target: leave,
    }
}

/// The constant moved to the slot.
fn constant_moved_to(instr: &RuntimeInstr, slot: usize) -> (value: Option<u64>)
    ensures
        value == moved_const(instr@, slot),
{
    match instr {
        RuntimeInstr::Mov { dst, src: RuntimeOperand::Imm(value) } => if *dst == slot {
            Some(*value)
        } else {
            None
        },
        _ => None,
    }
}

/// The constant moved to the slot.
pub open spec fn moved_const(instr: InstrView, slot: usize) -> Option<u64> {
    match instr {
        InstrView::Mov { dst, src: RuntimeOperand::Imm(value) } => if dst == slot {
            Some(value)
        } else {
            None
        },
        _ => None,
    }
}

/// The search round `guard`.
#[verifier::rlimit(40)]
fn find_search_at(instrs: &Vec<RuntimeInstr>, guard: usize) -> (search: Option<SearchLoop>)
    requires
        2 <= guard,
        guard + 11 < instrs@.len(),
    ensures
        match search {
            Some(search) => search_at(instrs_view(instrs@), guard as int) == Some(search@),
            None => search_at(instrs_view(instrs@), guard as int) is None,
        },
{
    let ghost all = instrs_view(instrs@);
    let count: usize = instrs.len();
    assert(forall|k: int| 0 <= k < all.len() ==> #[trigger] all[k] == instrs@[k]@);
    let (low, high): (usize, usize) = match less_than_test(&instrs[guard], guard + 12) {
        Some(bounds) => bounds,
        None => {
            assert(forall|s: SearchView|
                is_search(all, guard as int, s) ==> all[guard as int] == less_than(
                    s.low,
                    s.high,
                    (guard + 12) as usize,
                ));
            return None;
        },
    };
    let delta: usize = match result_of(
        &instrs[guard + 1],
        RuntimeBinOp::Sub,
        RuntimeOperand::Slot(high),
        RuntimeOperand::Slot(low),
    ) {
        Some(slot) => slot,
        None => {
            assert(forall|s: SearchView|
                is_search(all, guard as int, s) ==> all[guard + 1] == operation(
                    s.delta,
                    RuntimeBinOp::Sub,
                    RuntimeOperand::Slot(high),
                    RuntimeOperand::Slot(low),
                ));
            return None;
        },
    };
    let half: usize = match result_of(
        &instrs[guard + 2],
        RuntimeBinOp::ShrUnsigned,
        RuntimeOperand::Slot(delta),
        RuntimeOperand::Imm(1),
    ) {
        Some(slot) => slot,
        None => {
            assert(forall|s: SearchView|
                is_search(all, guard as int, s) ==> all[guard + 2] == operation(
                    s.half,
                    RuntimeBinOp::ShrUnsigned,
                    RuntimeOperand::Slot(delta),
                    RuntimeOperand::Imm(1),
                ));
            return None;
        },
    };
    let middle: usize = match result_of(
        &instrs[guard + 3],
        RuntimeBinOp::Add,
        RuntimeOperand::Slot(low),
        RuntimeOperand::Slot(half),
    ) {
        Some(slot) => slot,
        None => {
            assert(forall|s: SearchView|
                is_search(all, guard as int, s) ==> all[guard + 3] == operation(
                    s.middle,
                    RuntimeBinOp::Add,
                    RuntimeOperand::Slot(low),
                    RuntimeOperand::Slot(half),
                ));
            return None;
        },
    };
    let middle_copy: usize = match copy_of(&instrs[guard + 4], middle) {
        Some(slot) => slot,
        None => {
            assert(forall|s: SearchView|
                is_search(all, guard as int, s) ==> all[guard + 4] == mov_slot(
                    s.middle_copy,
                    middle,
                ));
            return None;
        },
    };
    let (loaded, table): (usize, Vec<usize>) = match &instrs[guard + 5] {
        RuntimeInstr::LoadIndex { dst, base_slots, index } => {
            if *index != RuntimeOperand::Slot(middle) {
                return None;
            }
            (*dst, copy_slots(base_slots))
        },
        _ => return None,
    };
    if table.len() == 0 || constant_moved_to(&instrs[guard - 2], low) != Some(0u64)
        || constant_moved_to(&instrs[guard - 1], high) != Some(table.len() as u64) {
        return None;
    }
    let (tested, wanted): (usize, usize) = match less_than_test(&instrs[guard + 6], guard + 10) {
        Some(slots) => slots,
        None => {
            assert(forall|s: SearchView|
                is_search(all, guard as int, s) ==> all[guard + 6] == less_than(
                    s.loaded,
                    s.wanted,
                    (guard + 10) as usize,
                ));
            return None;
        },
    };
    if tested != loaded {
        return None;
    }
    let low_next: usize = match result_of(
        &instrs[guard + 7],
        RuntimeBinOp::Add,
        RuntimeOperand::Slot(middle_copy),
        RuntimeOperand::Imm(1),
    ) {
        Some(slot) => slot,
        None => {
            assert(forall|s: SearchView|
                is_search(all, guard as int, s) ==> all[guard + 7] == operation(
                    s.low_next,
                    RuntimeBinOp::Add,
                    RuntimeOperand::Slot(middle_copy),
                    RuntimeOperand::Imm(1),
                ));
            return None;
        },
    };
    if copy_of(&instrs[guard + 8], low_next) != Some(low) || !jumps_to(&instrs[guard + 9], guard)
        || copy_of(&instrs[guard + 10], middle_copy) != Some(high) || !jumps_to(
        &instrs[guard + 11],
        guard,
    ) {
        assert(forall|s: SearchView|
            is_search(all, guard as int, s) ==> all[guard + 8] == mov_slot(low, low_next)
                && all[guard + 10] == mov_slot(high, middle_copy));
        return None;
    }
    let apart = |slot: usize| -> (apart: bool)
        ensures
            apart == (slot != low && slot != high),
        { slot != low && slot != high };
    if loaded == middle_copy || low_next == high || !apart(delta) || !apart(half) || !apart(middle)
        || !apart(middle_copy) || !apart(loaded) {
        assert(forall|s: SearchView|
            is_search(all, guard as int, s) ==> s.low == low && s.high == high && s.delta == delta
                && s.half == half && s.middle == middle && s.middle_copy == middle_copy && s.loaded
                == loaded && s.low_next == low_next);
        return None;
    }
    let search = SearchLoop {
        low,
        high,
        delta,
        half,
        middle,
        middle_copy,
        loaded,
        wanted,
        low_next,
        table,
    };
    proof {
        lemma_search_unique(all, guard as int, search@);
    }
    Some(search)
}

/// What a slot cannot exceed before an instruction: the mask or the constant
/// that defined it, looked for through moves.
pub open spec fn mask_bound(instrs: Seq<InstrView>, before: int, slot: usize) -> Option<u64>
    decreases before,
{
    let at = last_write(instrs, 0, before, slot);
    if at is None || at->0 < 0 || at->0 >= before {
        None
    } else {
        match instrs[at->0] {
            InstrView::BinOp { op: RuntimeBinOp::BitAnd, rhs: RuntimeOperand::Imm(mask), .. } => {
                Some(mask)
            },
            InstrView::Mov { src: RuntimeOperand::Slot(source), .. } => if source != slot {
                mask_bound(instrs, at->0, source)
            } else {
                None
            },
            InstrView::Mov { src: RuntimeOperand::Imm(value), .. } => Some(value),
            _ => None,
        }
    }
}

/// What a slot cannot exceed before an instruction.
pub fn runtime_slot_mask_bound_before(
    instrs: &Vec<RuntimeInstr>,
    before: usize,
    slot: usize,
) -> (bound: Option<u64>)
    requires
        before <= instrs@.len(),
    ensures
        bound == mask_bound(instrs_view(instrs@), before as int, slot),
    decreases before,
{
    let at: usize = match last_write_before(instrs, 0, before, slot) {
        Some(at) => at,
        None => return None,
    };
    assert(instrs_view(instrs@)[at as int] == instrs@[at as int]@);
    match &instrs[at] {
        RuntimeInstr::BinOp { op: RuntimeBinOp::BitAnd, rhs: RuntimeOperand::Imm(mask), .. } => {
            Some(*mask)
        },
        RuntimeInstr::Mov { src: RuntimeOperand::Slot(source), .. } => if *source != slot {
            runtime_slot_mask_bound_before(instrs, at, *source)
        } else {
            None
        },
        RuntimeInstr::Mov { src: RuntimeOperand::Imm(value), .. } => Some(*value),
        _ => None,
    }
}

/// The first constant moved to the slot by an instruction from `from` on.
pub open spec fn first_const(instrs: Seq<InstrView>, from: int, slot: usize) -> Option<u64>
    decreases instrs.len() - from,
{
    if from >= instrs.len() {
        None
    } else {
        match moved_const(instrs[from], slot) {
            Some(value) => Some(value),
            None => first_const(instrs, from + 1, slot),
        }
    }
}

/// The first constant moved to the slot.
fn find_first_const(instrs: &Vec<RuntimeInstr>, slot: usize) -> (value: Option<u64>)
    ensures
        value == first_const(instrs_view(instrs@), 0, slot),
{
    for i in 0..instrs.len()
        invariant
            first_const(instrs_view(instrs@), 0, slot) == first_const(
                instrs_view(instrs@),
                i as int,
                slot,
            ),
    {
        assert(instrs_view(instrs@)[i as int] == instrs@[i as int]@);
        if let Some(value) = constant_moved_to(&instrs[i], slot) {
            return Some(value);
        }
    }
    None
}

/// An instruction before `guard` moves the constant to the slot.
pub open spec fn sets_before(
    instrs: Seq<InstrView>,
    guard: int,
    slot: usize,
    value: u64,
) -> bool {
    exists|k: int| 0 <= k < guard && #[trigger] moved_const(instrs[k], slot) == Some(value)
}

/// Whether an instruction before `guard` moves the constant to the slot.
fn is_set_before(
    instrs: &Vec<RuntimeInstr>,
    guard: usize,
    slot: usize,
    value: u64,
) -> (found: bool)
    requires
        guard <= instrs@.len(),
    ensures
        found == sets_before(instrs_view(instrs@), guard as int, slot, value),
{
    let ghost all = instrs_view(instrs@);
    for k in 0..guard
        invariant
            all == instrs_view(instrs@),
            guard <= instrs@.len(),
            forall|j: int| 0 <= j < k ==> #[trigger] moved_const(all[j], slot) != Some(value),
    {
        assert(all[k as int] == instrs@[k as int]@);
        if constant_moved_to(&instrs[k], slot) == Some(value) {
            assert(moved_const(all[k as int], slot) == Some(value));
            return true;
        }
    }
    false
}

/// The instruction stores into the array.
pub open spec fn stores_into(instr: InstrView, table: Seq<usize>) -> bool {
    match instr {
        InstrView::StoreIndex { base_slots, .. } => base_slots == table,
        InstrView::StoreIndexUnchecked { base_slots, .. } => base_slots == table,
        _ => false,
    }
}

/// Whether two arrays are made of the same slots.
fn same_slots(a: &Vec<usize>, b: &Vec<usize>) -> (same: bool)
    ensures
        same == (a@ == b@),
{
    if a.len() != b.len() {
        return false;
    }
    for i in 0..a.len()
        invariant
            a@.len() == b@.len(),
            forall|j: int| 0 <= j < i ==> a@[j] == b@[j],
    {
        if a[i] != b[i] {
            return false;
        }
    }
    assert(a@ =~= b@);
    true
}

/// The i-th entry of the table is set to i * step before `guard`.
pub open spec fn entry_is_set(
    instrs: Seq<InstrView>,
    guard: int,
    table: Seq<usize>,
    step: u64,
    i: int,
) -> bool {
    i * step <= u64::MAX && sets_before(instrs, guard, table[i], (i * step) as u64)
}

/// The table holds 0, step, 2 * step and so on: each entry is set before
/// `guard`, and nothing stores into it.
pub open spec fn is_even_table(
    instrs: Seq<InstrView>,
    guard: int,
    table: Seq<usize>,
    step: u64,
) -> bool {
    &&& forall|i: int|
        0 <= i < table.len() ==> #[trigger] entry_is_set(instrs, guard, table, step, i)
    &&& forall|k: int| 0 <= k < instrs.len() ==> !stores_into(#[trigger] instrs[k], table)
}

/// Whether the table holds 0, step, 2 * step and so on.
fn table_is_even(
    instrs: &Vec<RuntimeInstr>,
    guard: usize,
    table: &Vec<usize>,
    step: u64,
) -> (even: bool)
    requires
        guard <= instrs@.len(),
    ensures
        even == is_even_table(instrs_view(instrs@), guard as int, table@, step),
{
    let ghost all = instrs_view(instrs@);
    for i in 0..table.len()
        invariant
            all == instrs_view(instrs@),
            guard <= instrs@.len(),
            forall|j: int|
                0 <= j < i ==> #[trigger] entry_is_set(all, guard as int, table@, step, j),
    {
        let expected: u64 = match (i as u64).checked_mul(step) {
            Some(value) => value,
            None => {
                assert(!entry_is_set(all, guard as int, table@, step, i as int));
                return false;
            },
        };
        if !is_set_before(instrs, guard, table[i], expected) {
            assert(!entry_is_set(all, guard as int, table@, step, i as int));
            return false;
        }
        assert(entry_is_set(all, guard as int, table@, step, i as int));
    }
    for k in 0..instrs.len()
        invariant
            all == instrs_view(instrs@),
            forall|j: int|
                0 <= j < table@.len() ==> #[trigger] entry_is_set(
                    all,
                    guard as int,
                    table@,
                    step,
                    j,
                ),
            forall|j: int| 0 <= j < k ==> !stores_into(#[trigger] all[j], table@),
    {
        assert(all[k as int] == instrs@[k as int]@);
        let stored = match &instrs[k] {
            RuntimeInstr::StoreIndex { base_slots, .. } => same_slots(base_slots, table),
            RuntimeInstr::StoreIndexUnchecked { base_slots, .. } => same_slots(base_slots, table),
            _ => false,
        };
        if stored {
            assert(stores_into(all[k as int], table@));
            return false;
        }
    }
    true
}

/// The spacing of the table that a search runs over, where the search has a
/// closed form: a power of two, with entries for all that is looked for and
/// sums that do not overflow.
pub open spec fn closed_form_step(
    instrs: Seq<InstrView>,
    guard: int,
    search: SearchView,
) -> Option<u64> {
    if search.table.len() < 2 {
        None
    } else {
        match first_const(instrs, 0, search.table[1]) {
            Some(step) => {
                let range_max = search.table.len() * step - 1;
                if is_pow2(step as int) && is_even_table(instrs, guard, search.table, step)
                    && search.table.len() * step <= u64::MAX && range_max + (step - 1) <= u64::MAX
                    && mask_at_most(mask_bound(instrs, guard, search.wanted), range_max) {
                    Some(step)
                } else {
                    None
                }
            },
            None => None,
        }
    }
}

/// There is a bound, and it is at most the limit.
pub open spec fn mask_at_most(bound: Option<u64>, limit: int) -> bool {
    match bound {
        Some(bound) => bound <= limit,
        None => false,
    }
}

/// The spacing of the table that a search runs over, where the search has a
/// closed form.
fn find_closed_form_step(
    instrs: &Vec<RuntimeInstr>,
    guard: usize,
    search: &SearchLoop,
) -> (step: Option<u64>)
    requires
        guard <= instrs@.len(),
    ensures
        step == closed_form_step(instrs_view(instrs@), guard as int, search@),
{
    if search.table.len() < 2 {
        return None;
    }
    let step: u64 = match find_first_const(instrs, search.table[1]) {
        Some(step) => step,
        None => return None,
    };
    if !is_power_of_two(step) || !table_is_even(instrs, guard, &search.table, step) {
        return None;
    }
    proof {
        reveal(is_pow2);
    }
    let range: u64 = match (search.table.len() as u64).checked_mul(step) {
        Some(range) => range,
        None => return None,
    };
    assert(range >= step) by (nonlinear_arith)
        requires
            range == search.table@.len() * step,
            search.table@.len() >= 2,
            step >= 1,
    ;
    let bounded = match runtime_slot_mask_bound_before(instrs, guard, search.wanted) {
        Some(mask) => mask <= range - 1,
        None => false,
    };
    if bounded && (range - 1).checked_add(step - 1).is_some() {
        Some(step)
    } else {
        None
    }
}

/// The binary logarithm of a number.
pub fn binary_log(value: u64) -> (exponent: u64)
    requires
        value > 0,
    ensures
        exponent == log(2, value as int),
{
    let mut rest: u64 = value;
    let mut exponent: u64 = 0;
    while rest > 1
        invariant
            rest > 0,
            exponent + rest <= value,
            exponent + log(2, rest as int) == log(2, value as int),
        decreases rest,
    {
        proof {
            vstd::arithmetic::logarithm::lemma_log_s(2, rest as int);
        }
        rest = rest / 2;
        exponent = exponent + 1;
    }
    proof {
        vstd::arithmetic::logarithm::lemma_log0(2, rest as int);
    }
    exponent
}

/// The program after the search round `guard`, if there is one, has lost its
/// check and, where it can, its loop: the sum of what is looked for and
/// `step - 1`, shifted right, is where the search would end.
pub open spec fn rewrite_search(instrs: Seq<InstrView>, guard: int) -> Seq<InstrView> {
    match search_at(instrs, guard) {
        Some(search) => {
            let bare = instrs.update(guard + 5, unchecked(instrs[guard + 5]));
            match closed_form_step(bare, guard, search) {
                Some(step) => bare.update(
                    guard,
                    InstrView::BinOp {
                        dst: search.delta,
                        op: RuntimeBinOp::Add,
                        lhs: RuntimeOperand::Slot(search.wanted),
                        rhs: RuntimeOperand::Imm((step - 1) as u64),
                    },
                ).update(
                    guard + 1,
                    InstrView::BinOp {
                        dst: search.low,
                        op: RuntimeBinOp::ShrUnsigned,
                        lhs: RuntimeOperand::Slot(search.delta),
                        rhs: RuntimeOperand::Imm(log(2, step as int) as u64),
                    },
                ).update(guard + 2, InstrView::Jump { target: (guard + 12) as usize }),
                None => bare,
            }
        },
        None => instrs,
    }
}

/// The program after the searches round the positions below n are rewritten.
pub open spec fn rewrite_searches(instrs: Seq<InstrView>, n: int) -> Seq<InstrView>
    decreases n,
{
    if n <= 2 {
        instrs
    } else {
        rewrite_search(rewrite_searches(instrs, n - 1), n - 1)
    }
}

/// The program with every binary search rewritten.
pub open spec fn simplify_searches(instrs: Seq<InstrView>) -> Seq<InstrView> {
    rewrite_searches(instrs, instrs.len() - 11)
}

/// Rewriting searches keeps the length, and slots and targets in range.
pub proof fn lemma_rewrite_searches(instrs: Seq<InstrView>, n: int, bound: int)
    requires
        instrs.len() <= usize::MAX,
    ensures
        rewrite_searches(instrs, n).len() == instrs.len(),
        slots_below(instrs, bound) ==> slots_below(rewrite_searches(instrs, n), bound),
        targets_in_bounds(instrs) ==> targets_in_bounds(rewrite_searches(instrs, n)),
    decreases n,
{
    if n > 2 {
        lemma_rewrite_searches(instrs, n - 1, bound);
        let before = rewrite_searches(instrs, n - 1);
        let after = rewrite_searches(instrs, n);
        let guard = n - 1;
        if let Some(search) = search_at(before, guard) {
            assert(is_search(before, guard, search));
            if slots_below(before, bound) {
                assert forall|i: int| 0 <= i < after.len() implies #[trigger] instr_below(
                    after[i],
                    bound,
                ) by {
                    assert(instr_below(before[i], bound));
                    assert(instr_below(before[guard], bound));
                    assert(instr_below(before[guard + 1], bound));
                    assert(instr_below(before[guard + 6], bound));
                }
            }
            if targets_in_bounds(before) {
                assert forall|i: int| 0 <= i < after.len() implies ((#[trigger] code_target(
                    after[i],
                )) matches Some(target) ==> target <= after.len()) by {
                    assert(code_target(before[i]) matches Some(target) ==> target <= before.len());
                }
            }
        }
    }
}

/// Rewrites every binary search of a program.
pub fn eliminate_canonical_binary_search_bounds_checks(instrs: &mut Vec<RuntimeInstr>)
    ensures
        instrs_view(final(instrs)@) == simplify_searches(instrs_view(old(instrs)@)),
{
    let ghost all = instrs_view(instrs@);
    let count: usize = instrs.len();
    if count <= 13 {
        return;
    }
    for guard in 2..count - 11
        invariant
            13 < count == instrs@.len(),
            instrs_view(instrs@) == rewrite_searches(all, guard as int),
    {
        let ghost before = instrs_view(instrs@);
        if let Some(search) = find_search_at(instrs, guard) {
            assert(is_search(before, guard as int, search@));
            drop_check_at(instrs, guard + 5);
            let ghost bare = instrs_view(instrs@);
            if let Some(step) = find_closed_form_step(instrs, guard, &search) {
                proof {
                    reveal(is_pow2);
                }
                let exponent: u64 = binary_log(step);
                instrs.set(
                    guard,
                    RuntimeInstr::BinOp {
                        dst: search.delta,
                        op: RuntimeBinOp::Add,
                        lhs: RuntimeOperand::Slot(search.wanted),
                        rhs: RuntimeOperand::Imm(step - 1),
                    },
                );
                instrs.set(
                    guard + 1,
                    RuntimeInstr::BinOp {
                        dst: search.low,
                        op: RuntimeBinOp::ShrUnsigned,
                        lhs: RuntimeOperand::Slot(search.delta),
                        rhs: RuntimeOperand::Imm(exponent),
                    },
                );
                instrs.set(guard + 2, RuntimeInstr::Jump { target: guard + 12 });
                assert(instrs_view(instrs@) =~= rewrite_search(before, guard as int));
            }
        }
    }
}

/// The midpoint of a search is a position of the table: while the lower bound
/// is below the upper one, and that is at most the length, the load is in
/// bounds without a check.
pub proof fn law_midpoint_in_bounds(low: u64, high: u64, len: nat)
    requires
        low < high <= len,
    ensures
        low <= low + ((high - low) as u64 >> 1u64) < high,
        low + ((high - low) as u64 >> 1u64) < len,
{
    let delta = (high - low) as u64;
    vstd::bits::lemma_u64_shr_is_div(delta, 1);
    vstd::arithmetic::power2::lemma2_to64();
}

/// The midpoint that the code of a search computes is a position of the table,
/// and both updates keep the bounds: while the lower bound is below the upper
/// one, and that is at most the length, the load is in bounds, the copy of the
/// midpoint lies between the bounds, and neither bound has changed.
pub proof fn law_search_computes_midpoint(
    instrs: Seq<InstrView>,
    guard: int,
    search: SearchView,
    state: SlotState,
)
    requires
        is_search(instrs, guard, search),
        slots_below(instrs, state.len() as int),
        state[search.low as int] < state[search.high as int] <= search.table.len(),
    ensures
        run(instrs.subrange(guard + 1, guard + 5), state) matches Some(found) && {
            &&& found[search.middle as int] < search.table.len()
            &&& step(instrs[guard + 5], found) matches Some(next) && {
                &&& state[search.low as int] <= next[search.middle_copy as int]
                &&& next[search.middle_copy as int] < state[search.high as int]
                &&& next[search.low as int] == state[search.low as int]
                &&& next[search.high as int] == state[search.high as int]
            }
        },
{
    let code = instrs.subrange(guard + 1, guard + 5);
    let (low, high) = (state[search.low as int], state[search.high as int]);
    law_midpoint_in_bounds(low, high, search.table.len());
    assert(instr_below(instrs[guard + 1], state.len() as int));
    assert(instr_below(instrs[guard + 2], state.len() as int));
    assert(instr_below(instrs[guard + 3], state.len() as int));
    assert(instr_below(instrs[guard + 4], state.len() as int));
    assert(instr_below(instrs[guard + 5], state.len() as int));
    assert(instr_below(instrs[guard - 2], state.len() as int));
    assert(instr_below(instrs[guard - 1], state.len() as int));
    assert(1u64 & 63 == 1) by (bit_vector);
    let s1 = step(instrs[guard + 1], state)->0;
    let s2 = step(instrs[guard + 2], s1)->0;
    let s3 = step(instrs[guard + 3], s2)->0;
    let s4 = step(instrs[guard + 4], s3)->0;
    assert(s1[search.delta as int] == high - low);
    assert(s2[search.half as int] == (high - low) as u64 >> 1u64);
    assert(s3[search.middle as int] == low + ((high - low) as u64 >> 1u64));
    assert(s4[search.middle_copy as int] == s3[search.middle as int]);
    let c3 = code.drop_last();
    let c2 = c3.drop_last();
    let c1 = c2.drop_last();
    assert(c1.drop_last() =~= Seq::empty());
    assert(run(c1.drop_last(), state) == Some(state));
    assert(c1.last() == instrs[guard + 1]);
    assert(run(c1, state) == Some(s1));
    assert(run(c2, state) == Some(s2));
    assert(run(c3, state) == Some(s3));
    assert(run(code, state) == Some(s4));
    assert(s4[search.middle as int] == s3[search.middle as int]);
}

/// The closed form is where a lower-bound search over 0, step, 2 * step and so
/// on ends: exactly the entries before it are below what is looked for.
pub proof fn law_search_closed_form(wanted: u64, step: u64, position: nat)
    requires
        is_pow2(step as int),
        wanted + (step - 1) <= u64::MAX,
    ensures
        position * step < wanted <==> position < ((wanted + (step - 1)) as u64 >> (log(
            2,
            step as int,
        ) as u64)),
{
    vstd::arithmetic::power2::is_pow2_equiv(step as int);
    let k = choose|k: nat| step == vstd::arithmetic::power::pow(2, k);
    vstd::arithmetic::logarithm::lemma_log_pow(2, k);
    vstd::arithmetic::power2::lemma_pow2(k);
    vstd::arithmetic::power2::lemma2_to64();
    vstd::arithmetic::power2::lemma2_to64_rest();
    if k >= 64 {
        if k > 64 {
            vstd::arithmetic::power2::lemma_pow2_strictly_increases(64, k);
        }
        assert(false);
    }
    let sum = (wanted + (step - 1)) as u64;
    vstd::bits::lemma_u64_shr_is_div(sum, k as u64);
    let end = sum as int / step as int;
    assert(sum >> (k as u64) == end);
    vstd::arithmetic::power2::lemma_pow2_pos(k);
    assert(position * step < wanted <==> position < end) by (nonlinear_arith)
        requires
            step >= 1,
            sum == wanted + (step - 1),
            end == sum as int / step as int,
    ;
}

} // verus!
