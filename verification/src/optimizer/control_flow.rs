//! Simplification of control flow: jump threading, unreachable code and jumps
//! to the next instruction.

use crate::ir::{instrs_view, InstrView, RuntimeInstr};
use crate::optimizer::slots::{instr_below, slots_below};
use crate::optimizer::targets::{
    branch_target, clamped_lookup, code_target, map_branch_target, map_branch_targets,
    map_code_target, map_code_targets, remap_code, retarget_branch, runtime_branch_target,
};
use vstd::prelude::*;

verus! {

/// Where a branch to `target` ends up after following at most `hops`
/// unconditional jumps.
pub open spec fn threaded(instrs: Seq<InstrView>, target: usize, hops: nat) -> usize
    decreases hops,
{
    if hops == 0 || target >= instrs.len() {
        target
    } else {
        match instrs[target as int] {
            InstrView::Jump { target: next } => if next == target {
                target
            } else {
                threaded(instrs, next, (hops - 1) as nat)
            },
            _ => target,
        }
    }
}

/// The renumbering that threads every branch. Following more jumps than there
/// are instructions would only go round a cycle again.
pub open spec fn threading(instrs: Seq<InstrView>) -> spec_fn(usize) -> usize {
    |target: usize| threaded(instrs, target, instrs.len() + 2)
}

/// Follows unconditional jumps from `target`.
pub fn thread_unconditional_jumps(instrs: &[RuntimeInstr], target: usize) -> (end: usize)
    ensures
        end == threading(instrs_view(instrs@))(target),
{
    let ghost all = instrs_view(instrs@);
    let mut at: usize = target;
    let mut hops: u128 = 0;
    while at < instrs.len()
        invariant
            all == instrs_view(instrs@),
            hops <= instrs@.len() + 1,
            threaded(all, at, (all.len() + 2 - hops) as nat) == threading(all)(target),
        decreases instrs@.len() + 2 - hops,
    {
        assert(all[at as int] == instrs@[at as int]@);
        let next: usize = match &instrs[at] {
            RuntimeInstr::Jump { target: next } => *next,
            _ => return at,
        };
        if next == at {
            return at;
        }
        at = next;
        if hops > instrs.len() as u128 {
            assert(threaded(all, at, 0) == at);
            return at;
        }
        hops = hops + 1;
    }
    at
}

/// The instructions after the first n have been shortened: a jump to a return
/// becomes a return.
pub open spec fn shorten_returns(instrs: Seq<InstrView>, n: int) -> Seq<InstrView>
    decreases n,
{
    if n <= 0 {
        instrs
    } else {
        let before = shorten_returns(instrs, n - 1);
        match before[n - 1] {
            InstrView::Jump { target } => if target < before.len() && before[target as int]
                == InstrView::Return {
                before.update(n - 1, InstrView::Return)
            } else {
                before
            },
            _ => before,
        }
    }
}

/// Control may pass from the instruction at `from` to the one at `to`.
pub open spec fn may_follow(instrs: Seq<InstrView>, from: int, to: int) -> bool {
    &&& 0 <= from < instrs.len()
    &&& 0 <= to < instrs.len()
    &&& match instrs[from] {
        InstrView::Jump { target } => to == target,
        InstrView::JumpIfZero { target, .. }
        | InstrView::JumpIfCmpFalse { target, .. }
        | InstrView::Call { target }
        | InstrView::ThreadSpawn { target, .. } => to == target || to == from + 1,
        InstrView::Return | InstrView::Exit { .. } => false,
        _ => to == from + 1,
    }
}

/// A path of control from the first instruction.
pub open spec fn is_path(instrs: Seq<InstrView>, path: Seq<int>) -> bool {
    &&& path.len() > 0
    &&& path[0] == 0
    &&& forall|k: int|
        0 <= k < path.len() - 1 ==> may_follow(instrs, #[trigger] path[k], path[k + 1])
}

/// Control can get from the first instruction to the one at `index`.
pub open spec fn is_reachable(instrs: Seq<InstrView>, index: int) -> bool {
    &&& 0 <= index < instrs.len()
    &&& exists|path: Seq<int>| #[trigger] is_path(instrs, path) && path.last() == index
}

/// What follows a reachable instruction is reachable.
pub proof fn lemma_reachable_step(instrs: Seq<InstrView>, from: int, to: int)
    requires
        is_reachable(instrs, from),
        may_follow(instrs, from, to),
    ensures
        is_reachable(instrs, to),
{
    let path = choose|path: Seq<int>| #[trigger] is_path(instrs, path) && path.last() == from;
    let longer = path.push(to);
    assert forall|k: int| 0 <= k < longer.len() - 1 implies may_follow(
        instrs,
        #[trigger] longer[k],
        longer[k + 1],
    ) by {
        if k < path.len() - 1 {
            assert(longer[k] == path[k] && longer[k + 1] == path[k + 1]);
        }
    }
    assert(is_path(instrs, longer));
    assert(longer.last() == to);
}

/// A set that holds the first instruction and what follows its members holds
/// every reachable instruction.
proof fn lemma_closed_covers_path(instrs: Seq<InstrView>, marked: Seq<bool>, path: Seq<int>, k: int)
    requires
        marked.len() == instrs.len(),
        instrs.len() > 0,
        marked[0],
        forall|i: int, j: int|
            0 <= i < marked.len() && marked[i] && #[trigger] may_follow(instrs, i, j) ==> marked[j],
        is_path(instrs, path),
        0 <= k < path.len(),
    ensures
        0 <= path[k] < marked.len(),
        marked[path[k]],
    decreases k,
{
    if k > 0 {
        lemma_closed_covers_path(instrs, marked, path, k - 1);
        assert(may_follow(instrs, path[k - 1], path[k]));
    }
}

/// How many of the first n flags are not set.
pub open spec fn unset_count(flags: Seq<bool>, n: int) -> nat
    decreases n,
{
    if n <= 0 {
        0
    } else {
        unset_count(flags, n - 1) + if flags[n - 1] {
            0nat
        } else {
            1nat
        }
    }
}

/// Setting a flag leaves one fewer unset.
proof fn lemma_unset_count(flags: Seq<bool>, index: int, n: int)
    requires
        0 <= index < flags.len(),
        0 <= n <= flags.len(),
        !flags[index],
    ensures
        unset_count(flags.update(index, true), n) == if index < n {
            unset_count(flags, n) - 1
        } else {
            unset_count(flags, n) as int
        },
    decreases n,
{
    if n > 0 {
        lemma_unset_count(flags, index, n - 1);
    }
}

/// For each instruction, whether control can get there from the first.
pub fn compute_runtime_reachable(instrs: &[RuntimeInstr]) -> (reachable: Vec<bool>)
    ensures
        reachable@.len() == instrs@.len(),
        forall|i: int|
            0 <= i < reachable@.len() ==> #[trigger] reachable@[i] == is_reachable(
                instrs_view(instrs@),
                i,
            ),
{
    let ghost all = instrs_view(instrs@);
    let count: usize = instrs.len();
    let mut reachable: Vec<bool> = vec![false; count];
    let mut work: Vec<usize> = Vec::new();
    work.push(0);
    proof {
        if count > 0 {
            let start = seq![0int];
            assert(is_path(all, start));
            assert(start.last() == 0);
        }
        assert(work@[0] == 0);
    }
    while work.len() > 0
        invariant
            all == instrs_view(instrs@),
            count == instrs@.len(),
            reachable@.len() == count,
            forall|i: int| 0 <= i < count && #[trigger] reachable@[i] ==> is_reachable(all, i),
            forall|w: int|
                0 <= w < work@.len() && (#[trigger] work@[w]) < count ==> is_reachable(
                    all,
                    work@[w] as int,
                ),
            forall|i: int, j: int|
                0 <= i < count && reachable@[i] && #[trigger] may_follow(all, i, j)
                    ==> reachable@[j] || work@.contains(j as usize),
            count > 0 ==> reachable@[0] || work@.contains(0),
        decreases unset_count(reachable@, count as int), work@.len(),
    {
        let ghost work_before = work@;
        let ghost marked_before = reachable@;
        let popped = work.pop();
        let idx: usize = match popped {
            Some(idx) => idx,
            None => return reachable,
        };
        assert(work_before == work@.push(idx));
        assert(work_before[work_before.len() - 1] == idx);
        proof {
            assert forall|x: usize| work_before.contains(x) && x != idx implies work@.contains(
                x,
            ) by {
                let k = choose|k: int| 0 <= k < work_before.len() && work_before[k] == x;
                assert(work@[k] == x);
            }
            assert forall|w: int|
                0 <= w < work@.len() && (#[trigger] work@[w]) < count implies is_reachable(
                all,
                work@[w] as int,
            ) by {
                assert(work_before[w] == work@[w]);
            }
        }
        if idx >= count || reachable[idx] {
            continue;
        }
        reachable.set(idx, true);
        assert(all[idx as int] == instrs@[idx as int]@);
        let ghost rest = work@;
        let falls_through = match &instrs[idx] {
            RuntimeInstr::Jump { .. } | RuntimeInstr::Return | RuntimeInstr::Exit { .. } => false,
            _ => true,
        };
        if falls_through && idx + 1 < count {
            work.push(idx + 1);
        }
        let ghost middle = work@;
        match &instrs[idx] {
            RuntimeInstr::Jump { target }
            | RuntimeInstr::JumpIfZero { target, .. }
            | RuntimeInstr::JumpIfCmpFalse { target, .. }
            | RuntimeInstr::Call { target }
            | RuntimeInstr::ThreadSpawn { target, .. } => {
                work.push(*target);
            },
            _ => {},
        }
        proof {
            lemma_unset_count(marked_before, idx as int, count as int);
            assert forall|x: usize| rest.contains(x) implies work@.contains(x) by {
                let k = choose|k: int| 0 <= k < rest.len() && rest[k] == x;
                assert(work@[k] == x);
            }
            assert forall|j: int| #[trigger] may_follow(all, idx as int, j) implies work@.contains(
                j as usize,
            ) by {
                if falls_through && j == idx + 1 {
                    assert(middle[middle.len() - 1] == idx + 1);
                    assert(work@[middle.len() - 1] == idx + 1);
                } else {
                    assert(work@[work@.len() - 1] == j as usize);
                }
            }
            assert forall|w: int|
                0 <= w < work@.len() && (#[trigger] work@[w]) < count implies is_reachable(
                all,
                work@[w] as int,
            ) by {
                if w < rest.len() {
                    assert(work@[w] == rest[w]);
                } else {
                    assert(may_follow(all, idx as int, work@[w] as int));
                    lemma_reachable_step(all, idx as int, work@[w] as int);
                }
            }
        }
    }
    assert forall|i: int| 0 <= i < count implies #[trigger] reachable@[i] == is_reachable(
        all,
        i,
    ) by {
        if is_reachable(all, i) {
            let path = choose|path: Seq<int>| #[trigger]
                is_path(all, path) && path.last() == i;
            lemma_closed_covers_path(all, reachable@, path, path.len() - 1);
        }
    }
    reachable
}

/// The first n instructions without those that are not flagged.
pub open spec fn flagged_instrs(
    instrs: Seq<InstrView>,
    flags: Seq<bool>,
    n: int,
) -> Seq<InstrView>
    decreases n,
{
    if n <= 0 {
        seq![]
    } else if flags[n - 1] {
        flagged_instrs(instrs, flags, n - 1).push(instrs[n - 1])
    } else {
        flagged_instrs(instrs, flags, n - 1)
    }
}

/// Where an instruction goes when only flagged ones stay; what goes, and what
/// is past the end, is the new end.
pub open spec fn flagged_position(
    instrs: Seq<InstrView>,
    flags: Seq<bool>,
) -> spec_fn(usize) -> usize {
    |target: usize|
        if target < instrs.len() && flags[target as int] {
            flagged_instrs(instrs, flags, target as int).len() as usize
        } else {
            flagged_instrs(instrs, flags, instrs.len() as int).len() as usize
        }
}

/// The flagged instructions, targets renumbered.
pub open spec fn keep_flagged(instrs: Seq<InstrView>, flags: Seq<bool>) -> Seq<InstrView> {
    map_code_targets(
        flagged_instrs(instrs, flags, instrs.len() as int),
        flagged_position(instrs, flags),
    )
}

/// The instruction at `index` is a jump to the next one.
pub open spec fn jumps_to_next(instrs: Seq<InstrView>, index: int) -> bool {
    instrs[index] matches InstrView::Jump { target } && target == index + 1
}

/// The first n instructions without jumps to the next.
pub open spec fn effective_instrs(instrs: Seq<InstrView>, n: int) -> Seq<InstrView>
    decreases n,
{
    if n <= 0 {
        seq![]
    } else if jumps_to_next(instrs, n - 1) {
        effective_instrs(instrs, n - 1)
    } else {
        effective_instrs(instrs, n - 1).push(instrs[n - 1])
    }
}

/// Where an instruction goes when jumps to the next go: a target that was such
/// a jump becomes what follows it.
pub open spec fn effective_position(instrs: Seq<InstrView>) -> spec_fn(usize) -> usize {
    |target: usize|
        effective_instrs(
            instrs,
            if target < instrs.len() {
                target as int
            } else {
                instrs.len() as int
            },
        ).len() as usize
}

/// The instructions without jumps to the next, targets renumbered.
pub open spec fn drop_idle_jumps(instrs: Seq<InstrView>) -> Seq<InstrView> {
    map_code_targets(
        effective_instrs(instrs, instrs.len() as int),
        effective_position(instrs),
    )
}

/// No more instructions are flagged than there are, and longer prefixes hold
/// more of them.
pub proof fn lemma_flagged_len(instrs: Seq<InstrView>, flags: Seq<bool>, n: int, m: int)
    requires
        0 <= n <= m,
    ensures
        flagged_instrs(instrs, flags, n).len() <= n,
        flagged_instrs(instrs, flags, n).len() <= flagged_instrs(instrs, flags, m).len(),
    decreases m,
{
    if n < m {
        lemma_flagged_len(instrs, flags, n, m - 1);
    } else if n > 0 {
        lemma_flagged_len(instrs, flags, n - 1, n - 1);
    }
}

/// No more instructions are effective than there are, and longer prefixes hold
/// more of them.
pub proof fn lemma_effective_len(instrs: Seq<InstrView>, n: int, m: int)
    requires
        0 <= n <= m,
    ensures
        effective_instrs(instrs, n).len() <= n,
        effective_instrs(instrs, n).len() <= effective_instrs(instrs, m).len(),
    decreases m,
{
    if n < m {
        lemma_effective_len(instrs, n, m - 1);
    } else if n > 0 {
        lemma_effective_len(instrs, n - 1, n - 1);
    }
}

/// Keeps the flagged instructions and renumbers targets.
fn keep_reachable(instrs: Vec<RuntimeInstr>, reachable: &Vec<bool>) -> (kept: Vec<RuntimeInstr>)
    requires
        reachable@.len() == instrs@.len(),
    ensures
        instrs_view(kept@) == keep_flagged(instrs_view(instrs@), reachable@),
{
    let ghost all = instrs_view(instrs@);
    let count: usize = instrs.len();
    let mut positions: Vec<usize> = Vec::with_capacity(count);
    let mut out: Vec<RuntimeInstr> = Vec::with_capacity(count);
    for i in 0..count
        invariant
            count == instrs@.len(),
            reachable@.len() == count,
            all == instrs_view(instrs@),
            positions@.len() == i,
            instrs_view(out@) == flagged_instrs(all, reachable@, i as int),
            forall|j: int|
                0 <= j < i ==> #[trigger] positions@[j] == flagged_instrs(
                    all,
                    reachable@,
                    j,
                ).len(),
    {
        let ghost before = instrs_view(out@);
        assert(all[i as int] == instrs@[i as int]@);
        positions.push(out.len());
        if reachable[i] {
            out.push(instrs[i].clone());
            assert(instrs_view(out@) =~= before.push(all[i as int]));
        }
    }
    let end: usize = out.len();
    let mut remap: Vec<usize> = Vec::with_capacity(count);
    for i in 0..count
        invariant
            count == reachable@.len(),
            count == all.len(),
            positions@.len() == count,
            end == flagged_instrs(all, reachable@, count as int).len(),
            forall|j: int|
                0 <= j < count ==> #[trigger] positions@[j] == flagged_instrs(
                    all,
                    reachable@,
                    j,
                ).len(),
            remap@.len() == i,
            forall|j: usize|
                j < i ==> #[trigger] remap@[j as int] == flagged_position(all, reachable@)(j),
    {
        assert(positions@[i as int] == flagged_instrs(all, reachable@, i as int).len());
        if reachable[i] {
            remap.push(positions[i]);
        } else {
            remap.push(end);
        }
    }
    remap.push(end);
    let ghost kept = instrs_view(out@);
    remap_code(&mut out, &remap);
    proof {
        let f = clamped_lookup(remap@);
        let g = flagged_position(all, reachable@);
        assert forall|target: usize| #[trigger] f(target) == g(target) by {
            if target < count {
                assert(remap@[target as int] == g(target));
            }
        }
        assert forall|i: int| 0 <= i < kept.len() implies map_code_target(kept[i], f)
            == #[trigger] map_code_target(kept[i], g) by {}
        assert(instrs_view(out@) =~= keep_flagged(all, reachable@));
    }
    out
}

/// Drops jumps to the next instruction and renumbers targets.
fn drop_fallthrough_jumps(instrs: Vec<RuntimeInstr>) -> (kept: Vec<RuntimeInstr>)
    ensures
        instrs_view(kept@) == drop_idle_jumps(instrs_view(instrs@)),
{
    let ghost all = instrs_view(instrs@);
    let count: usize = instrs.len();
    let mut remap: Vec<usize> = Vec::with_capacity(count);
    let mut out: Vec<RuntimeInstr> = Vec::with_capacity(count);
    for i in 0..count
        invariant
            count == instrs@.len(),
            all == instrs_view(instrs@),
            remap@.len() == i,
            instrs_view(out@) == effective_instrs(all, i as int),
            forall|j: int|
                0 <= j < i ==> #[trigger] remap@[j] == effective_instrs(all, j).len(),
    {
        let ghost before = instrs_view(out@);
        assert(all[i as int] == instrs@[i as int]@);
        remap.push(out.len());
        let skip = match &instrs[i] {
            RuntimeInstr::Jump { target } => *target == i + 1,
            _ => false,
        };
        if !skip {
            out.push(instrs[i].clone());
            assert(instrs_view(out@) =~= before.push(all[i as int]));
        }
    }
    remap.push(out.len());
    let ghost kept = instrs_view(out@);
    remap_code(&mut out, &remap);
    proof {
        let f = clamped_lookup(remap@);
        let g = effective_position(all);
        assert forall|target: usize| #[trigger] f(target) == g(target) by {
            if target < count {
                assert(remap@[target as int] == effective_instrs(all, target as int).len());
            }
        }
        assert forall|i: int| 0 <= i < kept.len() implies map_code_target(kept[i], f)
            == #[trigger] map_code_target(kept[i], g) by {}
        assert(instrs_view(out@) =~= drop_idle_jumps(all));
    }
    out
}

/// Keeps the reachable instructions, then drops jumps to the next one.
pub fn compact_runtime_instrs(instrs: Vec<RuntimeInstr>, reachable: &Vec<bool>) -> (compact: Vec<
    RuntimeInstr,
>)
    requires
        reachable@.len() == instrs@.len(),
    ensures
        instrs_view(compact@) == drop_idle_jumps(
            keep_flagged(instrs_view(instrs@), reachable@),
        ),
{
    drop_fallthrough_jumps(keep_reachable(instrs, reachable))
}

/// For each instruction, whether it is reachable.
pub open spec fn reachable_flags(instrs: Seq<InstrView>) -> Seq<bool> {
    Seq::new(instrs.len(), |i: int| is_reachable(instrs, i))
}

/// The instructions with branches threaded, jumps to returns shortened, and
/// without unreachable code and idle jumps.
pub open spec fn simplify(instrs: Seq<InstrView>) -> Seq<InstrView> {
    let threaded_instrs = map_branch_targets(instrs, threading(instrs));
    let short = shorten_returns(threaded_instrs, instrs.len() as int);
    drop_idle_jumps(keep_flagged(short, reachable_flags(short)))
}

/// Shortening keeps the number of instructions.
pub proof fn lemma_shorten_len(instrs: Seq<InstrView>, n: int)
    requires
        0 <= n <= instrs.len(),
    ensures
        shorten_returns(instrs, n).len() == instrs.len(),
    decreases n,
{
    if n > 0 {
        lemma_shorten_len(instrs, n - 1);
    }
}

/// Threads branches through unconditional jumps.
fn thread_branches(instrs: &mut Vec<RuntimeInstr>)
    ensures
        instrs_view(final(instrs)@) == map_branch_targets(
            instrs_view(old(instrs)@),
            threading(instrs_view(old(instrs)@)),
        ),
{
    let ghost all = instrs_view(instrs@);
    let ghost f = threading(all);
    let count: usize = instrs.len();
    let mut ends: Vec<Option<usize>> = Vec::with_capacity(count);
    for i in 0..count
        invariant
            count == instrs@.len(),
            all == instrs_view(instrs@),
            f == threading(all),
            ends@.len() == i,
            forall|j: int|
                0 <= j < i ==> #[trigger] ends@[j] == match branch_target(all[j]) {
                    Some(target) => Some(f(target)),
                    None => None,
                },
    {
        assert(all[i as int] == instrs@[i as int]@);
        match runtime_branch_target(&instrs[i]) {
            Some(target) => ends.push(Some(thread_unconditional_jumps(instrs, target))),
            None => ends.push(None),
        }
    }
    for i in 0..count
        invariant
            count == instrs@.len(),
            count == all.len(),
            ends@.len() == count,
            forall|j: int|
                0 <= j < count ==> #[trigger] ends@[j] == match branch_target(all[j]) {
                    Some(target) => Some(f(target)),
                    None => None,
                },
            forall|j: int| i <= j < count ==> (#[trigger] instrs@[j])@ == all[j],
            forall|j: int|
                0 <= j < i ==> (#[trigger] instrs@[j])@ == map_branch_target(all[j], f),
    {
        assert(instrs@[i as int]@ == all[i as int]);
        assert(ends@[i as int] is Some == branch_target(all[i as int]) is Some);
        if let Some(end) = ends[i] {
            let moved = retarget_branch(&instrs[i], end);
            instrs.set(i, moved);
        }
    }
    assert(instrs_view(instrs@) =~= map_branch_targets(all, f));
}

/// Replaces jumps to returns by returns.
fn shorten_jumps_to_returns(instrs: &mut Vec<RuntimeInstr>)
    ensures
        instrs_view(final(instrs)@) == shorten_returns(
            instrs_view(old(instrs)@),
            old(instrs)@.len() as int,
        ),
{
    let ghost all = instrs_view(instrs@);
    let count: usize = instrs.len();
    for i in 0..count
        invariant
            count == instrs@.len(),
            count == all.len(),
            instrs_view(instrs@) == shorten_returns(all, i as int),
    {
        let ghost before = instrs_view(instrs@);
        assert(before[i as int] == instrs@[i as int]@);
        let to_return = match &instrs[i] {
            RuntimeInstr::Jump { target } => {
                if *target < count {
                    assert(before[*target as int] == instrs@[*target as int]@);
                    match &instrs[*target] {
                        RuntimeInstr::Return => true,
                        _ => false,
                    }
                } else {
                    false
                }
            },
            _ => false,
        };
        if to_return {
            instrs.set(i, RuntimeInstr::Return);
            assert(instrs_view(instrs@) =~= before.update(i as int, InstrView::Return));
        }
    }
}

/// Simplifies the control flow of a program.
pub fn simplify_runtime_control_flow_instrs(instrs: Vec<RuntimeInstr>) -> (simple: Vec<
    RuntimeInstr,
>)
    ensures
        instrs_view(simple@) == simplify(instrs_view(instrs@)),
{
    let ghost all = instrs_view(instrs@);
    let mut work = instrs;
    thread_branches(&mut work);
    assert(work@.len() == instrs_view(work@).len() == all.len());
    shorten_jumps_to_returns(&mut work);
    let ghost short = instrs_view(work@);
    let reachable = compute_runtime_reachable(&work);
    assert(reachable@ =~= reachable_flags(short));
    compact_runtime_instrs(work, &reachable)
}

/// Every jump, call and thread start names an instruction or the end.
pub open spec fn targets_in_bounds(instrs: Seq<InstrView>) -> bool {
    forall|i: int|
        0 <= i < instrs.len() ==> ((#[trigger] code_target(instrs[i])) matches Some(target)
            ==> target <= instrs.len())
}

/// After simplification every target is in bounds, whatever it was before.
pub proof fn law_simplified_targets_in_bounds(instrs: Seq<InstrView>)
    requires
        instrs.len() <= usize::MAX,
    ensures
        targets_in_bounds(simplify(instrs)),
        simplify(instrs).len() <= instrs.len(),
{
    let threaded_instrs = map_branch_targets(instrs, threading(instrs));
    let short = shorten_returns(threaded_instrs, instrs.len() as int);
    lemma_shorten_len(threaded_instrs, instrs.len() as int);
    let flags = reachable_flags(short);
    let kept = keep_flagged(short, flags);
    lemma_flagged_len(short, flags, short.len() as int, short.len() as int);
    lemma_idle_jumps_in_bounds(kept);
}

/// Dropping idle jumps leaves every target in bounds.
proof fn lemma_idle_jumps_in_bounds(instrs: Seq<InstrView>)
    requires
        instrs.len() <= usize::MAX,
    ensures
        targets_in_bounds(drop_idle_jumps(instrs)),
        drop_idle_jumps(instrs).len() <= instrs.len(),
{
    let kept = effective_instrs(instrs, instrs.len() as int);
    let out = drop_idle_jumps(instrs);
    let f = effective_position(instrs);
    lemma_effective_len(instrs, instrs.len() as int, instrs.len() as int);
    assert forall|i: int| 0 <= i < out.len() implies ((#[trigger] code_target(
        out[i],
    )) matches Some(target) ==> target <= out.len()) by {
        if let Some(target) = code_target(kept[i]) {
            let n = if target < instrs.len() {
                target as int
            } else {
                instrs.len() as int
            };
            lemma_effective_len(instrs, n, instrs.len() as int);
            assert(code_target(out[i]) == Some(f(target)));
        }
    }
}

/// Simplification keeps the program's slots in range.
pub proof fn lemma_simplify_in_range(instrs: Seq<InstrView>, bound: int)
    requires
        slots_below(instrs, bound),
    ensures
        slots_below(simplify(instrs), bound),
{
    let a = map_branch_targets(instrs, threading(instrs));
    assert forall|i: int| 0 <= i < a.len() implies #[trigger] instr_below(a[i], bound) by {
        assert(instr_below(instrs[i], bound));
    }
    let b = shorten_returns(a, instrs.len() as int);
    lemma_shorten_in_range(a, instrs.len() as int, bound);
    let flags = reachable_flags(b);
    let c = keep_flagged(b, flags);
    lemma_flagged_in_range(b, flags, b.len() as int, bound);
    assert forall|i: int| 0 <= i < c.len() implies #[trigger] instr_below(c[i], bound) by {
        assert(instr_below(flagged_instrs(b, flags, b.len() as int)[i], bound));
    }
    lemma_effective_in_range(c, c.len() as int, bound);
    let d = drop_idle_jumps(c);
    assert forall|i: int| 0 <= i < d.len() implies #[trigger] instr_below(d[i], bound) by {
        assert(instr_below(effective_instrs(c, c.len() as int)[i], bound));
    }
}

/// Shortening keeps slots in range.
proof fn lemma_shorten_in_range(instrs: Seq<InstrView>, n: int, bound: int)
    requires
        0 <= n <= instrs.len(),
        slots_below(instrs, bound),
    ensures
        slots_below(shorten_returns(instrs, n), bound),
        shorten_returns(instrs, n).len() == instrs.len(),
    decreases n,
{
    if n > 0 {
        lemma_shorten_in_range(instrs, n - 1, bound);
        let before = shorten_returns(instrs, n - 1);
        let after = shorten_returns(instrs, n);
        assert forall|i: int| 0 <= i < after.len() implies #[trigger] instr_below(
            after[i],
            bound,
        ) by {
            assert(instr_below(before[i], bound));
        }
    }
}

/// Flagged instructions keep their slots in range.
proof fn lemma_flagged_in_range(instrs: Seq<InstrView>, flags: Seq<bool>, n: int, bound: int)
    requires
        0 <= n <= instrs.len(),
        slots_below(instrs, bound),
    ensures
        slots_below(flagged_instrs(instrs, flags, n), bound),
    decreases n,
{
    if n > 0 {
        lemma_flagged_in_range(instrs, flags, n - 1, bound);
        assert(instr_below(instrs[n - 1], bound));
    }
}

/// Effective instructions keep their slots in range.
proof fn lemma_effective_in_range(instrs: Seq<InstrView>, n: int, bound: int)
    requires
        0 <= n <= instrs.len(),
        slots_below(instrs, bound),
    ensures
        slots_below(effective_instrs(instrs, n), bound),
    decreases n,
{
    if n > 0 {
        lemma_effective_in_range(instrs, n - 1, bound);
        assert(instr_below(instrs[n - 1], bound));
    }
}

} // verus!
