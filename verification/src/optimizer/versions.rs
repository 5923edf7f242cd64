//! Removal of index checks in counted loops: those that the loop's limit makes
//! redundant, and those that a comparison before the loop can answer at once.

use crate::ir::{
    instrs_view, InstrView, ProgramView, RuntimeCmpOp, RuntimeInstr, RuntimeOperand, RuntimeProgram,
};
use crate::optimizer::checks::{
    blocks_of, drop_bounded_checks, drop_check_at, drop_repeated_checks,
    eliminate_expr_bounded_index_checks, hoist_repeated_identical_index_checks,
    lemma_drop_bounded_checks, lemma_drop_repeated_checks, lemma_same_but_checks_in_range,
    lemma_same_but_checks_update, same_but_checks, unchecked,
};
use crate::optimizer::control_flow::targets_in_bounds;
use crate::optimizer::facts::{
    drop_checks_by_facts, eliminate_expr_bounded_index_checks_global, facts_at,
};
use crate::optimizer::guards::{
    access_by_slot, drop_guarded_checks, elide_guarded_index_checks, lemma_elide_checks,
};
use crate::optimizer::loops::{
    counted_loop, counted_loops, find_canonical_counted_loops, index_in_bounds, index_offset,
    lemma_counted_loops, loop_in_program, loop_index_slot_is_proven_in_bounds,
    loop_index_slot_nonnegative_offset, CountedLoopInfo, LoopLimit,
};
use crate::optimizer::probes::{select_grouped_hash_probe_loops, select_probes, MAX_GROUP_PROBES};
use crate::optimizer::search::{
    eliminate_canonical_binary_search_bounds_checks, lemma_rewrite_searches, simplify_searches,
};
use crate::optimizer::slots::{instr_below, lemma_below_weaken, slot_total, slots_below};
use crate::optimizer::targets::{
    code_target, map_code_target, map_code_targets, moved_up, shift_runtime_targets_for_insert,
};
use crate::optimizer::uses::{runtime_instr_writes_slot, writes};
use vstd::prelude::*;

verus! {

/// The array length and the index slot of a checked access by a slot.
pub fn checked_access_by_slot(instr: &RuntimeInstr) -> (access: Option<(usize, usize)>)
    ensures
        match access {
            Some((base_len, slot)) => access_by_slot(instr@) == Some((base_len as nat, slot)),
            None => access_by_slot(instr@) is None,
        },
{
    match instr {
        RuntimeInstr::LoadIndex { base_slots, index: RuntimeOperand::Slot(slot), .. } => {
            Some((base_slots.len(), *slot))
        },
        RuntimeInstr::StoreIndex { base_slots, index: RuntimeOperand::Slot(slot), .. } => {
            Some((base_slots.len(), *slot))
        },
        _ => None,
    }
}

/// The program after the accesses of a loop's body below n have lost the checks
/// that the loop makes redundant.
pub open spec fn drop_loop_checks(
    instrs: Seq<InstrView>,
    info: CountedLoopInfo,
    n: int,
) -> Seq<InstrView>
    decreases n,
{
    if n <= info.header + 1 {
        instrs
    } else {
        let before = drop_loop_checks(instrs, info, n - 1);
        match access_by_slot(before[n - 1]) {
            Some((base_len, slot)) => if index_in_bounds(before, n - 1, info, slot, base_len, 0) {
                before.update(n - 1, unchecked(before[n - 1]))
            } else {
                before
            },
            None => before,
        }
    }
}

/// The program after the first n loops have lost their redundant checks.
pub open spec fn drop_checks_of_loops(
    instrs: Seq<InstrView>,
    loops: Seq<CountedLoopInfo>,
    n: int,
) -> Seq<InstrView>
    decreases n,
{
    if n <= 0 {
        instrs
    } else {
        drop_loop_checks(
            drop_checks_of_loops(instrs, loops, n - 1),
            loops[n - 1],
            loops[n - 1].update_idx as int,
        )
    }
}

/// Dropping a loop's checks changes checks only.
pub proof fn lemma_drop_loop_checks(
    start: Seq<InstrView>,
    instrs: Seq<InstrView>,
    info: CountedLoopInfo,
    n: int,
)
    requires
        same_but_checks(start, instrs),
        n <= instrs.len(),
    ensures
        same_but_checks(start, drop_loop_checks(instrs, info, n)),
    decreases n,
{
    if n > info.header + 1 {
        lemma_drop_loop_checks(start, instrs, info, n - 1);
        lemma_same_but_checks_update(start, drop_loop_checks(instrs, info, n - 1), n - 1);
    }
}

/// Dropping the checks of loops changes checks only.
pub proof fn lemma_drop_checks_of_loops(
    instrs: Seq<InstrView>,
    loops: Seq<CountedLoopInfo>,
    n: int,
)
    requires
        0 <= n <= loops.len(),
        forall|i: int| 0 <= i < loops.len() ==> loop_in_program(#[trigger] loops[i], instrs.len()),
    ensures
        same_but_checks(instrs, drop_checks_of_loops(instrs, loops, n)),
    decreases n,
{
    if n > 0 {
        lemma_drop_checks_of_loops(instrs, loops, n - 1);
        let before = drop_checks_of_loops(instrs, loops, n - 1);
        assert(loop_in_program(loops[n - 1], instrs.len()));
        lemma_drop_loop_checks(instrs, before, loops[n - 1], loops[n - 1].update_idx as int);
    }
}

/// Drops the checks that the limits of counted loops make redundant.
fn drop_checks_in_loops(instrs: &mut Vec<RuntimeInstr>, loops: &Vec<CountedLoopInfo>)
    requires
        forall|i: int|
            0 <= i < loops@.len() ==> loop_in_program(#[trigger] loops@[i], old(instrs)@.len()),
    ensures
        instrs_view(final(instrs)@) == drop_checks_of_loops(
            instrs_view(old(instrs)@),
            loops@,
            loops@.len() as int,
        ),
        final(instrs)@.len() == old(instrs)@.len(),
{
    let ghost all = instrs_view(instrs@);
    let count: usize = instrs.len();
    for k in 0..loops.len()
        invariant
            count == instrs@.len(),
            forall|i: int| 0 <= i < loops@.len()
                ==> loop_in_program(#[trigger] loops@[i], count as nat),
            instrs_view(instrs@) == drop_checks_of_loops(all, loops@, k as int),
    {
        let info = loops[k];
        assert(loop_in_program(loops@[k as int], count as nat));
        let ghost before = instrs_view(instrs@);
        for i in info.header + 1..info.update_idx
            invariant
                count == instrs@.len(),
                loop_in_program(info, count as nat),
                instrs_view(instrs@) == drop_loop_checks(before, info, i as int),
        {
            assert(instrs_view(instrs@)[i as int] == instrs@[i as int]@);
            if let Some((base_len, slot)) = checked_access_by_slot(&instrs[i]) {
                if loop_index_slot_is_proven_in_bounds(instrs, i, info, slot, base_len) {
                    drop_check_at(instrs, i);
                }
            }
        }
    }
}

/// The loops whose limit is a slot.
pub open spec fn slot_limited(loops: Seq<CountedLoopInfo>, n: int) -> Seq<CountedLoopInfo>
    decreases n,
{
    if n <= 0 {
        Seq::empty()
    } else if loops[n - 1].limit is Slot {
        insert_by_header(slot_limited(loops, n - 1), loops[n - 1])
    } else {
        slot_limited(loops, n - 1)
    }
}

/// A list ordered by header with a loop put in behind those whose header is
/// not larger.
pub open spec fn insert_by_header(
    loops: Seq<CountedLoopInfo>,
    info: CountedLoopInfo,
) -> Seq<CountedLoopInfo>
    decreases loops.len(),
{
    if loops.len() == 0 || loops.last().header <= info.header {
        loops.push(info)
    } else {
        insert_by_header(loops.drop_last(), info).push(loops.last())
    }
}

/// What is in the longer list was in the shorter or is the new loop.
proof fn lemma_insert_by_header(loops: Seq<CountedLoopInfo>, info: CountedLoopInfo, len: nat)
    requires
        forall|i: int| 0 <= i < loops.len() ==> loop_in_program(#[trigger] loops[i], len),
        loop_in_program(info, len),
    ensures
        forall|i: int|
            0 <= i < insert_by_header(loops, info).len() ==> loop_in_program(
                #[trigger] insert_by_header(loops, info)[i],
                len,
            ),
        insert_by_header(loops, info).len() == loops.len() + 1,
    decreases loops.len(),
{
    let out = insert_by_header(loops, info);
    if loops.len() == 0 || loops.last().header <= info.header {
        assert forall|i: int| 0 <= i < out.len() implies loop_in_program(
            #[trigger] out[i],
            len,
        ) by {
            if i < loops.len() {
                assert(out[i] == loops[i]);
            }
        }
    } else {
        let shorter = loops.drop_last();
        assert forall|i: int| 0 <= i < shorter.len() implies loop_in_program(
            #[trigger] shorter[i],
            len,
        ) by {
            assert(shorter[i] == loops[i]);
        }
        lemma_insert_by_header(shorter, info, len);
        let inner = insert_by_header(shorter, info);
        assert forall|i: int| 0 <= i < out.len() implies loop_in_program(
            #[trigger] out[i],
            len,
        ) by {
            if i < inner.len() {
                assert(out[i] == inner[i]);
            } else {
                assert(out[i] == loops[loops.len() - 1]);
            }
        }
    }
}

/// Inserting by header goes through the suffix of larger headers.
proof fn lemma_insert_position(loops: Seq<CountedLoopInfo>, info: CountedLoopInfo, at: int)
    requires
        0 <= at <= loops.len(),
        at == 0 || loops[at - 1].header <= info.header,
        forall|i: int| at <= i < loops.len() ==> (#[trigger] loops[i]).header > info.header,
    ensures
        insert_by_header(loops, info) == loops.insert(at, info),
    decreases loops.len(),
{
    if loops.len() > 0 && loops.last().header > info.header {
        let shorter = loops.drop_last();
        assert(at < loops.len());
        assert forall|i: int| at <= i < shorter.len() implies (#[trigger] shorter[i]).header
            > info.header by {
            assert(shorter[i] == loops[i]);
        }
        lemma_insert_position(shorter, info, at);
        assert(shorter.insert(at, info).push(loops.last()) =~= loops.insert(at, info));
    } else {
        if at < loops.len() {
            assert(loops[loops.len() - 1].header > info.header);
        }
        assert(loops.push(info) =~= loops.insert(at, info));
    }
}

/// The loops whose limit is a slot, ordered by header.
fn slot_limited_loops(loops: &Vec<CountedLoopInfo>) -> (found: Vec<CountedLoopInfo>)
    ensures
        found@ == slot_limited(loops@, loops@.len() as int),
{
    let mut found: Vec<CountedLoopInfo> = Vec::new();
    for n in 0..loops.len()
        invariant
            found@ == slot_limited(loops@, n as int),
    {
        let info = loops[n];
        if let LoopLimit::Slot(_) = info.limit {
            let mut at: usize = found.len();
            while at > 0 && found[at - 1].header > info.header
                invariant
                    at <= found@.len(),
                    forall|i: int|
                        at <= i < found@.len() ==> (#[trigger] found@[i]).header > info.header,
                decreases at,
            {
                at = at - 1;
            }
            proof {
                lemma_insert_position(found@, info, at as int);
            }
            found.insert(at, info);
        }
    }
    found
}

/// How many iterations of a loop the access at `at` of its body surely allows:
/// the array length less the offset of the index from the induction slot.
pub open spec fn access_room(
    instrs: Seq<InstrView>,
    info: CountedLoopInfo,
    at: int,
) -> Option<int> {
    match access_by_slot(instrs[at]) {
        Some((base_len, slot)) => match index_offset(instrs, at, info, slot, 0) {
            Some(offset) => if offset <= base_len {
                Some(base_len - offset)
            } else {
                None
            },
            None => None,
        },
        None => None,
    }
}

/// How many iterations of a loop the access at `at` of its body surely allows.
fn find_access_room(
    instrs: &Vec<RuntimeInstr>,
    info: CountedLoopInfo,
    at: usize,
) -> (room: Option<usize>)
    requires
        at < instrs@.len(),
        info.header < usize::MAX,
    ensures
        match room {
            Some(room) => access_room(instrs_view(instrs@), info, at as int) == Some(room as int),
            None => access_room(instrs_view(instrs@), info, at as int) is None,
        },
{
    assert(instrs_view(instrs@)[at as int] == instrs@[at as int]@);
    match checked_access_by_slot(&instrs[at]) {
        Some((base_len, slot)) => match loop_index_slot_nonnegative_offset(
            instrs,
            at,
            info,
            slot,
            0,
        ) {
            Some(offset) => base_len.checked_sub(offset),
            None => None,
        },
        None => None,
    }
}

/// The least room of the accesses of a loop's body below n.
pub open spec fn least_room(instrs: Seq<InstrView>, info: CountedLoopInfo, n: int) -> Option<int>
    decreases n,
{
    if n <= info.header + 1 {
        None
    } else {
        let before = least_room(instrs, info, n - 1);
        match (access_room(instrs, info, n - 1), before) {
            (Some(room), Some(least)) => Some(
                if least <= room {
                    least
                } else {
                    room
                },
            ),
            (Some(room), None) => Some(room),
            (None, _) => before,
        }
    }
}

/// The program with the accesses of a loop's body that have a room unchecked.
pub open spec fn uncheck_loop(instrs: Seq<InstrView>, info: CountedLoopInfo) -> Seq<InstrView> {
    Seq::new(
        instrs.len(),
        |i: int|
            if info.header < i < info.update_idx && access_room(instrs, info, i) is Some {
                unchecked(instrs[i])
            } else {
                instrs[i]
            },
    )
}

/// The body of a loop leaves its limit alone.
pub open spec fn keeps_limit(instrs: Seq<InstrView>, info: CountedLoopInfo, limit: usize) -> bool {
    forall|i: int| info.header < i < info.update_idx ==> !writes(#[trigger] instrs[i], limit)
}

/// A program whose loops are being versioned, and where the exit for an index
/// out of bounds stands, once there is one.
pub struct Versioning {
    pub instrs: Seq<InstrView>,
    pub exit_at: Option<int>,
}

/// The program after one loop is versioned: a comparison before its header
/// leaves with status 255 if the limit exceeds what the accesses of the body
/// allow, and those accesses lose their checks.
pub open spec fn version_loop(state: Versioning, info: CountedLoopInfo) -> Versioning {
    match (info.limit, least_room(state.instrs, info, info.update_idx as int)) {
        (LoopLimit::Slot(limit), Some(room)) => if room == 0 || !keeps_limit(
            state.instrs,
            info,
            limit,
        ) {
            state
        } else {
            let bare = uncheck_loop(state.instrs, info);
            let (wide, exit_at) = match state.exit_at {
                Some(exit_at) => (bare, exit_at),
                None => (
                    bare.push(InstrView::Exit { code: RuntimeOperand::Imm(255) }),
                    bare.len() as int,
                ),
            };
            let guard = InstrView::JumpIfCmpFalse {
                op: RuntimeCmpOp::LeUnsigned,
                lhs: RuntimeOperand::Slot(limit),
                rhs: RuntimeOperand::Imm(room as u64),
                target: (exit_at + 1) as usize,
            };
            Versioning {
                instrs: map_code_targets(wide, moved_up(info.header, 1)).insert(
                    info.header as int,
                    guard,
                ),
                exit_at: Some(exit_at + 1),
            }
        },
        _ => state,
    }
}

/// The program after the last n of the loops are versioned, last first.
pub open spec fn version_loops(
    instrs: Seq<InstrView>,
    loops: Seq<CountedLoopInfo>,
    n: int,
) -> Versioning
    decreases n,
{
    if n <= 0 {
        Versioning { instrs, exit_at: None }
    } else {
        version_loop(version_loops(instrs, loops, n - 1), loops[loops.len() - n])
    }
}

/// The program with its slot-limited loops versioned.
pub open spec fn version_slot_loops(
    instrs: Seq<InstrView>,
    loops: Seq<CountedLoopInfo>,
) -> Seq<InstrView> {
    let slot_loops = slot_limited(loops, loops.len() as int);
    version_loops(instrs, slot_loops, slot_loops.len() as int).instrs
}

/// The room of a loop's accesses is that of one of them.
proof fn lemma_least_room(instrs: Seq<InstrView>, info: CountedLoopInfo, n: int)
    ensures
        least_room(instrs, info, n) matches Some(room) ==> room >= 0 && exists|i: int|
            info.header < i < n && #[trigger] access_room(instrs, info, i) == Some(room),
    decreases n,
{
    if n > info.header + 1 {
        lemma_least_room(instrs, info, n - 1);
        if let Some(least) = least_room(instrs, info, n - 1) {
            let i = choose|i: int|
                info.header < i < n - 1 && #[trigger] access_room(instrs, info, i) == Some(least);
            assert(access_room(instrs, info, i) == Some(least));
        }
        if let Some(room) = access_room(instrs, info, n - 1) {
            assert(access_room(instrs, info, n - 1) == Some(room));
        }
    }
}

/// Versioning a loop keeps slots and targets in range.
pub proof fn lemma_version_loop(state: Versioning, info: CountedLoopInfo, bound: int, first: int)
    requires
        0 <= first <= state.instrs.len(),
        loop_in_program(info, first as nat),
        version_loop(state, info).instrs.len() <= usize::MAX,
        state.exit_at matches Some(at) ==> first <= at < state.instrs.len(),
    ensures
        ({
            let after = version_loop(state, info);
            &&& state.instrs.len() <= after.instrs.len() <= state.instrs.len() + 2
            &&& after.exit_at matches Some(at) ==> first <= at < after.instrs.len()
            &&& slots_below(state.instrs, bound) && slot_limit_below(info, bound) ==> slots_below(
                after.instrs,
                bound,
            )
            &&& targets_in_bounds(state.instrs) ==> targets_in_bounds(after.instrs)
        }),
{
    let after = version_loop(state, info);
    lemma_least_room(state.instrs, info, info.update_idx as int);
    if after != state {
        let limit = info.limit->Slot_0;
        let room = least_room(state.instrs, info, info.update_idx as int)->0;
        let bare = uncheck_loop(state.instrs, info);
        let exit = InstrView::Exit { code: RuntimeOperand::Imm(255) };
        let wide = match state.exit_at {
            Some(_) => bare,
            None => bare.push(exit),
        };
        let exit_at = match state.exit_at {
            Some(at) => at,
            None => bare.len() as int,
        };
        let guard = InstrView::JumpIfCmpFalse {
            op: RuntimeCmpOp::LeUnsigned,
            lhs: RuntimeOperand::Slot(limit),
            rhs: RuntimeOperand::Imm(room as u64),
            target: (exit_at + 1) as usize,
        };
        let f = moved_up(info.header, 1);
        let moved = map_code_targets(wide, f);
        assert(after.instrs == moved.insert(info.header as int, guard));
        assert forall|i: int| 0 <= i < after.instrs.len() implies #[trigger] after.instrs[i] == (
        if i < info.header {
            moved[i]
        } else if i == info.header {
            guard
        } else {
            moved[i - 1]
        }) by {}
        assert forall|i: int| 0 <= i < wide.len() implies #[trigger] wide[i] == (if i
            < state.instrs.len() {
            if info.header < i < info.update_idx && access_room(state.instrs, info, i) is Some {
                unchecked(state.instrs[i])
            } else {
                state.instrs[i]
            }
        } else {
            exit
        }) by {}
        if slots_below(state.instrs, bound) && slot_limit_below(info, bound) {
            assert forall|i: int| 0 <= i < moved.len() implies #[trigger] instr_below(
                moved[i],
                bound,
            ) by {
                if i < state.instrs.len() {
                    assert(instr_below(state.instrs[i], bound));
                }
                assert(instr_below(wide[i], bound));
            }
            assert forall|i: int| 0 <= i < after.instrs.len() implies #[trigger] instr_below(
                after.instrs[i],
                bound,
            ) by {
                if i < info.header {
                    assert(instr_below(moved[i], bound));
                } else if i > info.header {
                    assert(instr_below(moved[i - 1], bound));
                }
            }
        }
        if targets_in_bounds(state.instrs) {
            assert forall|i: int| 0 <= i < moved.len() implies ((#[trigger] code_target(
                moved[i],
            )) matches Some(target) ==> target <= wide.len() + 1) by {
                if i < state.instrs.len() {
                    assert(code_target(state.instrs[i]) == code_target(wide[i]));
                }
                assert(moved[i] == map_code_target(wide[i], f));
            }
            assert forall|i: int| 0 <= i < after.instrs.len() implies ((#[trigger] code_target(
                after.instrs[i],
            )) matches Some(target) ==> target <= after.instrs.len()) by {
                if i < info.header {
                    assert(code_target(moved[i]) == code_target(after.instrs[i]));
                } else if i > info.header {
                    assert(code_target(moved[i - 1]) == code_target(after.instrs[i]));
                }
            }
        }
    }
}

/// The limit of a loop is a constant or a slot below the bound.
pub open spec fn slot_limit_below(info: CountedLoopInfo, bound: int) -> bool {
    match info.limit {
        LoopLimit::Slot(slot) => slot < bound,
        LoopLimit::Imm(_) => true,
    }
}

/// Versions one loop.
fn version_one_loop(
    instrs: &mut Vec<RuntimeInstr>,
    exit_at: &mut Option<usize>,
    info: CountedLoopInfo,
    first: usize,
)
    requires
        loop_in_program(info, first as nat),
        first <= old(instrs)@.len(),
        targets_in_bounds(instrs_view(old(instrs)@)),
        *old(exit_at) matches Some(at) ==> first <= at < old(instrs)@.len(),
    ensures
        (Versioning { instrs: instrs_view(final(instrs)@), exit_at: position(*final(exit_at)) })
            == version_loop(
            (Versioning { instrs: instrs_view(old(instrs)@), exit_at: position(*old(exit_at)) }),
            info,
        ),
        first <= final(instrs)@.len(),
        targets_in_bounds(instrs_view(final(instrs)@)),
        *final(exit_at) matches Some(at) ==> first <= at < final(instrs)@.len(),
        forall|bound: int|
            slots_below(instrs_view(old(instrs)@), bound) && slot_limit_below(info, bound)
                ==> #[trigger] slots_below(instrs_view(final(instrs)@), bound),
{
    let ghost all = instrs_view(instrs@);
    let ghost state = Versioning { instrs: all, exit_at: position(*exit_at) };
    let limit: usize = match info.limit {
        LoopLimit::Slot(limit) => limit,
        LoopLimit::Imm(_) => return,
    };
    let mut least: Option<usize> = None;
    let mut rewrites: Vec<usize> = Vec::new();
    for i in info.header + 1..info.update_idx
        invariant
            all == instrs_view(instrs@),
            loop_in_program(info, first as nat),
            first <= instrs@.len(),
            instrs == old(instrs),
            *exit_at == *old(exit_at),
            info.limit == LoopLimit::Slot(limit),
            state == (Versioning { instrs: all, exit_at: position(*exit_at) }),
            targets_in_bounds(all),
            *old(exit_at) matches Some(at) ==> first <= at < old(instrs)@.len(),
            forall|j: int| info.header < j < i ==> !writes(#[trigger] all[j], limit),
            position(least) == least_room(all, info, i as int),
            forall|k: int|
                0 <= k < rewrites@.len() ==> info.header < #[trigger] rewrites@[k] < i
                    && access_room(all, info, rewrites@[k] as int) is Some,
            forall|k: int, l: int|
                0 <= k < l < rewrites@.len() ==> rewrites@[k] < rewrites@[l],
            forall|j: int|
                info.header < j < i && #[trigger] access_room(all, info, j) is Some
                    ==> exists|k: int| 0 <= k < rewrites@.len() && #[trigger] rewrites@[k] == j,
    {
        assert(all[i as int] == instrs@[i as int]@);
        if runtime_instr_writes_slot(&instrs[i], limit) {
            assert(!keeps_limit(all, info, limit));
            return;
        }
        let ghost shorter = rewrites@;
        if let Some(room) = find_access_room(instrs, info, i) {
            least = match least {
                Some(least) => Some(
                    if least <= room {
                        least
                    } else {
                        room
                    },
                ),
                None => Some(room),
            };
            rewrites.push(i);
            assert forall|j: int|
                info.header < j < i + 1 && #[trigger] access_room(all, info, j) is Some implies
                exists|k: int| 0 <= k < rewrites@.len() && #[trigger] rewrites@[k] == j by {
                if j < i {
                    let k = choose|k: int| 0 <= k < shorter.len() && #[trigger] shorter[k] == j;
                    assert(rewrites@[k] == j);
                } else {
                    assert(rewrites@[rewrites@.len() - 1] == j);
                }
            }
        }
    }
    let room: usize = match least {
        Some(room) => room,
        None => return,
    };
    if room == 0 {
        return;
    }
    let count: usize = instrs.len();
    for k in 0..rewrites.len()
        invariant
            count == all.len(),
            count == instrs@.len(),
            first <= count,
            loop_in_program(info, first as nat),
            forall|k: int|
                0 <= k < rewrites@.len() ==> info.header < #[trigger] rewrites@[k]
                    < info.update_idx && access_room(all, info, rewrites@[k] as int) is Some,
            forall|k: int, l: int|
                0 <= k < l < rewrites@.len() ==> rewrites@[k] < rewrites@[l],
            forall|j: int|
                0 <= j < count ==> (#[trigger] instrs_view(instrs@)[j] == all[j]
                    || instrs_view(instrs@)[j] == unchecked(all[j])),
            forall|l: int|
                0 <= l < k ==> instrs_view(instrs@)[#[trigger] rewrites@[l] as int] == unchecked(
                    all[rewrites@[l] as int],
                ),
            forall|j: int|
                0 <= j < count && !(info.header < j < info.update_idx && access_room(
                    all,
                    info,
                    j,
                ) is Some) ==> #[trigger] instrs_view(instrs@)[j] == all[j],
            forall|l: int|
                k <= l < rewrites@.len() ==> instrs_view(instrs@)[#[trigger] rewrites@[l] as int]
                    == all[rewrites@[l] as int],
    {
        let at: usize = rewrites[k];
        assert(instrs_view(instrs@)[rewrites@[k as int] as int] == all[rewrites@[k as int] as int]);
        drop_check_at(instrs, at);
    }
    let ghost bare = instrs_view(instrs@);
    proof {
        assert(bare =~= uncheck_loop(all, info)) by {
            assert forall|j: int| 0 <= j < count implies bare[j] == uncheck_loop(all, info)[j] by {
                if info.header < j < info.update_idx && access_room(all, info, j) is Some {
                    let k = choose|k: int| 0 <= k < rewrites@.len() && #[trigger] rewrites@[k] == j;
                    assert(bare[rewrites@[k] as int] == unchecked(all[rewrites@[k] as int]));
                }
            }
        }
    }
    let at: usize = match *exit_at {
        Some(at) => at,
        None => {
            instrs.push(RuntimeInstr::Exit { code: RuntimeOperand::Imm(255) });
            count
        },
    };
    let ghost wide = instrs_view(instrs@);
    proof {
        if state.exit_at is None {
            assert(wide =~= bare.push(InstrView::Exit { code: RuntimeOperand::Imm(255) }));
        }
    }
    instrs.insert(
        info.header,
        RuntimeInstr::JumpIfCmpFalse {
            op: RuntimeCmpOp::LeUnsigned,
            lhs: RuntimeOperand::Slot(limit),
            rhs: RuntimeOperand::Imm(room as u64),
            target: at,
        },
    );
    let longer: usize = instrs.len();
    let ghost guarded = instrs_view(instrs@);
    proof {
        let guard = InstrView::JumpIfCmpFalse {
            op: RuntimeCmpOp::LeUnsigned,
            lhs: RuntimeOperand::Slot(limit),
            rhs: RuntimeOperand::Imm(room as u64),
            target: at,
        };
        assert(guarded =~= wide.insert(info.header as int, guard));
        assert forall|i: int| 0 <= i < guarded.len() implies ((#[trigger] code_target(
            guarded[i],
        )) matches Some(target) ==> target + 1 <= usize::MAX) by {
            if i != info.header {
                let j = if i < info.header {
                    i
                } else {
                    i - 1
                };
                assert(guarded[i] == wide[j]);
                if j < all.len() {
                    assert(code_target(all[j]) == code_target(wide[j]));
                }
            }
        }
    }
    shift_runtime_targets_for_insert(instrs, info.header, 1);
    *exit_at = Some(at + 1);
    proof {
        let f = moved_up(info.header, 1);
        let after = version_loop(state, info);
        assert(keeps_limit(all, info, limit));
        assert(instrs_view(instrs@) =~= map_code_targets(guarded, f));
        assert(instrs_view(instrs@) =~= after.instrs);
        lemma_version_loop(state, info, 0, first as int);
        assert forall|bound: int|
            slots_below(all, bound) && slot_limit_below(info, bound) implies #[trigger] slots_below(
            instrs_view(instrs@),
            bound,
        ) by {
            lemma_version_loop(state, info, bound, first as int);
        }
    }
}

/// A position in contracts.
pub open spec fn position(at: Option<usize>) -> Option<int> {
    match at {
        Some(at) => Some(at as int),
        None => None,
    }
}

/// Versions the slot-limited loops of a program, so that one comparison before
/// a loop replaces the checks in it.
pub fn version_slot_bounded_loop_accesses(
    instrs: &mut Vec<RuntimeInstr>,
    loops: &Vec<CountedLoopInfo>,
)
    requires
        targets_in_bounds(instrs_view(old(instrs)@)),
        forall|i: int|
            0 <= i < loops@.len() ==> loop_in_program(#[trigger] loops@[i], old(instrs)@.len()),
    ensures
        instrs_view(final(instrs)@) == version_slot_loops(instrs_view(old(instrs)@), loops@),
        targets_in_bounds(instrs_view(final(instrs)@)),
        forall|bound: int|
            slots_below(instrs_view(old(instrs)@), bound) && limits_below(loops@, bound)
                ==> #[trigger] slots_below(instrs_view(final(instrs)@), bound),
{
    let ghost all = instrs_view(instrs@);
    let first: usize = instrs.len();
    let slot_loops = slot_limited_loops(loops);
    proof {
        lemma_slot_limited(loops@, loops@.len() as int, first as nat);
    }
    let mut exit_at: Option<usize> = None;
    for n in 0..slot_loops.len()
        invariant
            forall|i: int|
                0 <= i < slot_loops@.len() ==> loop_in_program(
                    #[trigger] slot_loops@[i],
                    first as nat,
                ),
            forall|i: int|
                0 <= i < slot_loops@.len() ==> loops@.contains(#[trigger] slot_loops@[i]),
            first <= instrs@.len(),
            targets_in_bounds(instrs_view(instrs@)),
            exit_at matches Some(at) ==> first <= at < instrs@.len(),
            (Versioning { instrs: instrs_view(instrs@), exit_at: position(exit_at) })
                == version_loops(all, slot_loops@, n as int),
            forall|bound: int|
                slots_below(all, bound) && limits_below(loops@, bound) ==> #[trigger] slots_below(
                    instrs_view(instrs@),
                    bound,
                ),
    {
        let info = slot_loops[slot_loops.len() - 1 - n];
        assert(loop_in_program(slot_loops@[slot_loops@.len() - 1 - n], first as nat));
        assert(loops@.contains(slot_loops@[slot_loops@.len() - 1 - n]));
        let ghost before = instrs_view(instrs@);
        version_one_loop(instrs, &mut exit_at, info, first);
        proof {
            assert forall|bound: int|
                slots_below(all, bound) && limits_below(
                    loops@,
                    bound,
                ) implies #[trigger] slots_below(instrs_view(instrs@), bound) by {
                assert(slots_below(before, bound));
                let k = choose|k: int| 0 <= k < loops@.len() && loops@[k] == info;
                assert(slot_limit_below(loops@[k], bound));
            }
        }
    }
}

/// The limits of loops are constants or slots below the bound.
pub open spec fn limits_below(loops: Seq<CountedLoopInfo>, bound: int) -> bool {
    forall|i: int| 0 <= i < loops.len() ==> slot_limit_below(#[trigger] loops[i], bound)
}

/// The limits of counted loops are slots of the program.
pub proof fn lemma_loop_limits(instrs: Seq<InstrView>, n: int, bound: int)
    requires
        0 <= n <= instrs.len(),
        instrs.len() <= usize::MAX,
        slots_below(instrs, bound),
    ensures
        limits_below(counted_loops(instrs, true, n), bound),
    decreases n,
{
    if n > 0 {
        lemma_loop_limits(instrs, n - 1, bound);
        let before = counted_loops(instrs, true, n - 1);
        let after = counted_loops(instrs, true, n);
        if let Some(info) = counted_loop(instrs, n - 1, true) {
            assert(instr_below(instrs[info.header as int], bound));
        }
        assert forall|i: int| 0 <= i < after.len() implies slot_limit_below(
            #[trigger] after[i],
            bound,
        ) by {
            if i < before.len() {
                assert(after[i] == before[i]);
            }
        }
    }
}

/// The list ordered by header holds the loops it was made of.
proof fn lemma_insert_contains(loops: Seq<CountedLoopInfo>, info: CountedLoopInfo, i: int)
    requires
        0 <= i < insert_by_header(loops, info).len(),
    ensures
        insert_by_header(loops, info)[i] == info || loops.contains(
            insert_by_header(loops, info)[i],
        ),
    decreases loops.len(),
{
    let out = insert_by_header(loops, info);
    if loops.len() == 0 || loops.last().header <= info.header {
        if i < loops.len() {
            assert(out[i] == loops[i]);
        }
    } else {
        let shorter = loops.drop_last();
        let inner = insert_by_header(shorter, info);
        if i < inner.len() {
            lemma_insert_contains(shorter, info, i);
            if shorter.contains(inner[i]) {
                let k = choose|k: int| 0 <= k < shorter.len() && shorter[k] == inner[i];
                assert(loops[k] == inner[i]);
            }
        } else {
            assert(out[i] == loops[loops.len() - 1]);
        }
    }
}

/// The slot-limited loops are among the loops, and lie inside the program if
/// all loops do.
pub proof fn lemma_slot_limited(loops: Seq<CountedLoopInfo>, n: int, len: nat)
    requires
        0 <= n <= loops.len(),
        forall|i: int| 0 <= i < loops.len() ==> loop_in_program(#[trigger] loops[i], len),
    ensures
        forall|i: int|
            0 <= i < slot_limited(loops, n).len() ==> loops.contains(
                #[trigger] slot_limited(loops, n)[i],
            ),
        forall|i: int|
            0 <= i < slot_limited(loops, n).len() ==> loop_in_program(
                #[trigger] slot_limited(loops, n)[i],
                len,
            ),
    decreases n,
{
    if n > 0 {
        lemma_slot_limited(loops, n - 1, len);
        let before = slot_limited(loops, n - 1);
        let after = slot_limited(loops, n);
        assert forall|i: int| 0 <= i < after.len() implies loops.contains(#[trigger] after[i]) by {
            if loops[n - 1].limit is Slot {
                lemma_insert_contains(before, loops[n - 1], i);
                if after[i] != loops[n - 1] {
                    let k = choose|k: int| 0 <= k < before.len() && before[k] == after[i];
                    assert(loops.contains(before[k]));
                }
            }
        }
        assert forall|i: int| 0 <= i < after.len() implies loop_in_program(
            #[trigger] after[i],
            len,
        ) by {
            assert(loops.contains(after[i]));
        }
    }
}

/// Programs that differ at most in checks have the same targets.
pub proof fn lemma_same_but_checks_targets(before: Seq<InstrView>, after: Seq<InstrView>)
    requires
        same_but_checks(before, after),
        targets_in_bounds(before),
    ensures
        targets_in_bounds(after),
{
    assert forall|i: int| 0 <= i < after.len() implies ((#[trigger] code_target(
        after[i],
    )) matches Some(target) ==> target <= after.len()) by {
        assert(code_target(before[i]) == code_target(after[i]));
    }
}

/// The program after the index checks that its loops, its searches, the facts
/// known at each instruction, the comparisons passed, its basic blocks and
/// earlier checks make redundant are gone.
pub open spec fn drop_redundant_checks(instrs: Seq<InstrView>) -> Seq<InstrView> {
    let loops = counted_loops(instrs, true, instrs.len() as int);
    let in_loops = drop_checks_of_loops(instrs, loops, loops.len() as int);
    let searched = simplify_searches(in_loops);
    let by_facts = drop_checks_by_facts(searched);
    let guarded = drop_guarded_checks(by_facts);
    let bounded = drop_bounded_checks(guarded, blocks_of(guarded), guarded.len() as int);
    drop_repeated_checks(bounded, blocks_of(bounded), bounded.len() as int).instrs
}

/// The program with group probes, without redundant checks, and with the
/// remaining checks of slot-limited loops moved before them.
pub open spec fn loop_checks(program: ProgramView) -> ProgramView {
    let probed = select_probes(program, MAX_GROUP_PROBES as nat);
    let bare = drop_redundant_checks(probed.instrs);
    ProgramView {
        slots: probed.slots,
        instrs: version_slot_loops(bare, counted_loops(bare, true, bare.len() as int)),
    }
}

/// Removes the index checks of a program that can be shown redundant, and moves
/// those of slot-limited loops before the loops.
pub fn eliminate_runtime_loop_bounds_checks_in_program(program: &mut RuntimeProgram)
    requires
        old(program).slots + MAX_GROUP_PROBES <= usize::MAX,
        slots_below(old(program)@.instrs, old(program).slots as int),
        targets_in_bounds(old(program)@.instrs),
    ensures
        final(program)@ == loop_checks(old(program)@),
        slots_below(final(program)@.instrs, final(program).slots as int),
        targets_in_bounds(final(program)@.instrs),
        final(program).slots <= old(program).slots + MAX_GROUP_PROBES,
{
    let mut instrs: Vec<RuntimeInstr> = Vec::new();
    std::mem::swap(&mut instrs, &mut program.instrs);
    let mut slots: usize = program.slots;
    select_grouped_hash_probe_loops(&mut instrs, &mut slots);
    let ghost bound = slots as int;
    let count: usize = instrs.len();
    let ghost probed = instrs_view(instrs@);
    let loops = find_canonical_counted_loops(&instrs);
    proof {
        lemma_counted_loops(probed, true, probed.len() as int);
        lemma_drop_checks_of_loops(probed, loops@, loops@.len() as int);
    }
    drop_checks_in_loops(&mut instrs, &loops);
    let ghost in_loops = instrs_view(instrs@);
    eliminate_canonical_binary_search_bounds_checks(&mut instrs);
    let ghost searched = instrs_view(instrs@);
    proof {
        lemma_same_but_checks_in_range(probed, in_loops, bound);
        lemma_same_but_checks_targets(probed, in_loops);
        lemma_rewrite_searches(in_loops, in_loops.len() - 11, bound);
        lemma_range_weaken(searched, bound, usize::MAX as int);
    }
    eliminate_expr_bounded_index_checks_global(&mut instrs);
    let ghost by_facts = instrs_view(instrs@);
    proof {
        assert(same_but_checks(searched, by_facts));
        lemma_same_but_checks_in_range(searched, by_facts, bound);
        lemma_same_but_checks_in_range(searched, by_facts, usize::MAX as int);
        lemma_same_but_checks_targets(searched, by_facts);
        lemma_elide_checks(
            by_facts,
            facts_at(by_facts, slot_total(by_facts)),
            by_facts.len() as int,
        );
    }
    elide_guarded_index_checks(&mut instrs);
    let ghost guarded = instrs_view(instrs@);
    proof {
        lemma_same_but_checks_in_range(by_facts, guarded, bound);
        lemma_same_but_checks_targets(by_facts, guarded);
        lemma_drop_bounded_checks(guarded, blocks_of(guarded), guarded.len() as int);
    }
    eliminate_expr_bounded_index_checks(&mut instrs);
    let ghost bounded = instrs_view(instrs@);
    proof {
        lemma_same_but_checks_in_range(guarded, bounded, bound);
        lemma_same_but_checks_targets(guarded, bounded);
        lemma_drop_repeated_checks(bounded, blocks_of(bounded), bounded.len() as int);
    }
    hoist_repeated_identical_index_checks(&mut instrs);
    let ghost bare = instrs_view(instrs@);
    let count: usize = instrs.len();
    proof {
        lemma_same_but_checks_in_range(bounded, bare, bound);
        lemma_same_but_checks_targets(bounded, bare);
        lemma_counted_loops(bare, true, bare.len() as int);
        lemma_loop_limits(bare, bare.len() as int, bound);
    }
    let loops = find_canonical_counted_loops(&instrs);
    version_slot_bounded_loop_accesses(&mut instrs, &loops);
    program.instrs = instrs;
    program.slots = slots;
}

/// Slots in range stay in a wider range.
pub proof fn lemma_range_weaken(instrs: Seq<InstrView>, bound: int, larger: int)
    requires
        slots_below(instrs, bound),
        bound <= larger,
    ensures
        slots_below(instrs, larger),
{
    assert forall|i: int| 0 <= i < instrs.len() implies #[trigger] instr_below(
        instrs[i],
        larger,
    ) by {
        assert(instr_below(instrs[i], bound));
        lemma_below_weaken(instrs[i], bound, larger);
    }
}

} // verus!
