//! The passes in order: what the optimizer does to a lowered program.

use crate::ir::{
    instrs_view, stmts_view, LoweredStmt, ProgramView, RuntimeFloatBinOp, RuntimeProgram, StmtView,
};
use crate::optimizer::control_flow::{
    law_simplified_targets_in_bounds, lemma_simplify_in_range, simplify,
    simplify_runtime_control_flow_instrs, targets_in_bounds,
};
use crate::optimizer::copies::{
    copies_in_room, copy_propagate, copy_propagate_runtime_instrs, lemma_below_copies,
    lemma_copy_propagate_in_range,
};
use crate::optimizer::inline::{
    inline_leaf_calls, inline_leaf_calls_in_program, inline_room, lemma_inline_in_range,
    lemma_tail_calls_in_range, optimize_tail_calls, tail_calls,
};
use crate::optimizer::kernels::{
    fold_kernel, fold_kernels, fold_runtime_kernels, kernel_ends_program,
};
use crate::optimizer::lookahead::{lemma_look_ahead, look_ahead, optimize_lcg_lookahead};
use crate::optimizer::moves::{
    drop_overwritten_moves, drop_overwritten_moves_in_program, lemma_drop_moves_in_range,
};
use crate::optimizer::peephole::{
    float_fn, folds_in_room, is_float_unit, lemma_below_folds, lemma_peephole_in_range, peephole,
    peephole_optimize_runtime_instrs, FloatFn,
};
use crate::optimizer::prints::{
    const_fold, dead_print_elimination, ending, hoist_loop_invariants, join_prints,
    law_joining_prints_keeps_output, law_merging_runs_keeps_output, law_pruning_keeps_output,
    lemma_printed_cons, lemma_run_length, merge_runs, printed, prune_prints, run_length,
};
use crate::optimizer::probes::MAX_GROUP_PROBES;
use crate::optimizer::slots::{
    compact_runtime_program_slots, compact_slots, law_compaction_keeps_branches,
    law_compaction_keeps_slots_in_range, slots_below,
};
use crate::optimizer::specialize::{
    lemma_settle_branches_in_range, settle_branches, specialize_runtime_invariant_constants_instrs,
};
use crate::optimizer::unroll::{
    lemma_unroll_in_range, unroll_loops, unroll_runtime_small_counted_loops_in_program,
};
use crate::optimizer::versions::{
    eliminate_runtime_loop_bounds_checks_in_program, lemma_range_weaken, loop_checks,
};
use crate::optimizer::targets::branches_in_bounds;
use vstd::prelude::*;

verus! {

/// A statement with its runtime program, if it has one, replaced.
pub open spec fn map_program(
    stmt: StmtView,
    f: spec_fn(ProgramView) -> ProgramView,
) -> StmtView {
    match stmt {
        StmtView::RuntimeGeneric { program } => StmtView::RuntimeGeneric { program: f(program) },
        _ => stmt,
    }
}

/// Every statement with its runtime program, if it has one, replaced.
pub open spec fn map_programs(
    stmts: Seq<StmtView>,
    f: spec_fn(ProgramView) -> ProgramView,
) -> Seq<StmtView> {
    Seq::new(stmts.len(), |i: int| map_program(stmts[i], f))
}

/// The statement's runtime program, if it has one, is as required.
pub open spec fn program_is(stmt: StmtView, valid: spec_fn(ProgramView) -> bool) -> bool {
    match stmt {
        StmtView::RuntimeGeneric { program } => valid(program),
        _ => true,
    }
}

/// Every runtime program of the statements is as required.
pub open spec fn programs_are(stmts: Seq<StmtView>, valid: spec_fn(ProgramView) -> bool) -> bool {
    forall|i: int| 0 <= i < stmts.len() ==> program_is(#[trigger] stmts[i], valid)
}

/// Rewrites every runtime program of the statements.
fn rewrite_programs<G: Fn(RuntimeProgram) -> RuntimeProgram>(
    stmts: Vec<LoweredStmt>,
    rewrite: &G,
    Ghost(f): Ghost<spec_fn(ProgramView) -> ProgramView>,
    Ghost(before): Ghost<spec_fn(ProgramView) -> bool>,
    Ghost(after): Ghost<spec_fn(ProgramView) -> bool>,
) -> (rewritten: Vec<LoweredStmt>)
    requires
        programs_are(stmts_view(stmts@), before),
        forall|program: RuntimeProgram|
            before(program@) ==> #[trigger] call_requires(rewrite, (program,)),
        forall|program: RuntimeProgram, result: RuntimeProgram|
            before(program@) && #[trigger] call_ensures(rewrite, (program,), result) ==> result@
                == f(program@) && after(result@),
    ensures
        stmts_view(rewritten@) == map_programs(stmts_view(stmts@), f),
        programs_are(stmts_view(rewritten@), after),
{
    let ghost input = stmts_view(stmts@);
    let mut out: Vec<LoweredStmt> = Vec::with_capacity(stmts.len());
    for i in 0..stmts.len()
        invariant
            input == stmts_view(stmts@),
            programs_are(input, before),
            forall|program: RuntimeProgram|
                before(program@) ==> #[trigger] call_requires(rewrite, (program,)),
            forall|program: RuntimeProgram, result: RuntimeProgram|
                before(program@) && #[trigger] call_ensures(rewrite, (program,), result)
                    ==> result@ == f(program@) && after(result@),
            out@.len() == i,
            forall|j: int| 0 <= j < i ==> (#[trigger] out@[j])@ == map_program(input[j], f),
            forall|j: int| 0 <= j < i ==> program_is((#[trigger] out@[j])@, after),
    {
        assert(input[i as int] == stmts@[i as int]@);
        assert(program_is(input[i as int], before));
        match &stmts[i] {
            LoweredStmt::RuntimeGeneric { program } => {
                let program = rewrite(program.clone());
                out.push(LoweredStmt::RuntimeGeneric { program });
            },
            other => out.push(other.clone()),
        }
    }
    assert(stmts_view(out@) =~= map_programs(input, f));
    assert forall|i: int| 0 <= i < stmts_view(out@).len() implies program_is(
        #[trigger] stmts_view(out@)[i],
        after,
    ) by {
        assert(program_is(out@[i]@, after));
    }
    out
}

/// The program mentions only its own slots.
pub open spec fn slots_are_declared() -> spec_fn(ProgramView) -> bool {
    |program: ProgramView| slots_below(program.instrs, program.slots as int)
}

/// The program mentions only its own slots and can be given more.
pub open spec fn slots_can_grow() -> spec_fn(ProgramView) -> bool {
    |program: ProgramView|
        slots_below(program.instrs, program.slots as int) && program.slots + MAX_GROUP_PROBES
            <= usize::MAX
}

/// Besides, its targets leave room for what inlining adds.
pub open spec fn is_optimizable() -> spec_fn(ProgramView) -> bool {
    |program: ProgramView| slots_can_grow()(program) && inline_room(program.instrs, 0)
}

/// The program mentions only its own slots, can be given more, and its targets
/// are in bounds.
pub open spec fn is_simplified() -> spec_fn(ProgramView) -> bool {
    |program: ProgramView| slots_can_grow()(program) && targets_in_bounds(program.instrs)
}

/// The program mentions only its own slots, and its targets are in bounds.
pub open spec fn is_linked() -> spec_fn(ProgramView) -> bool {
    |program: ProgramView|
        slots_below(program.instrs, program.slots as int) && targets_in_bounds(program.instrs)
}

/// The program's jumps and calls name instructions or the end.
pub open spec fn is_wired() -> spec_fn(ProgramView) -> bool {
    |program: ProgramView| branches_in_bounds(program.instrs)
}

/// The program mentions only its own slots, and its jumps and calls name
/// instructions or the end.
pub open spec fn is_finished() -> spec_fn(ProgramView) -> bool {
    |program: ProgramView| slots_are_declared()(program) && branches_in_bounds(program.instrs)
}

/// Inlining of leaf routines as a function of programs.
pub open spec fn inline_pass() -> spec_fn(ProgramView) -> ProgramView {
    |program: ProgramView| ProgramView {
        slots: program.slots,
        instrs: inline_leaf_calls(program.instrs),
    }
}

fn inline_program(program: RuntimeProgram) -> (rewritten: RuntimeProgram)
    requires
        is_optimizable()(program@),
    ensures
        rewritten@ == inline_pass()(program@),
        slots_can_grow()(rewritten@),
{
    let RuntimeProgram { slots, instrs } = program;
    let mut instrs = instrs;
    proof {
        lemma_inline_in_range(instrs_view(instrs@), 0, slots as int);
    }
    inline_leaf_calls_in_program(&mut instrs);
    RuntimeProgram { slots, instrs }
}

/// Inlining of leaf routines in every runtime program.
pub fn inline_runtime_generic_leaf_calls(stmts: Vec<LoweredStmt>) -> (rewritten: Vec<LoweredStmt>)
    requires
        programs_are(stmts_view(stmts@), is_optimizable()),
    ensures
        stmts_view(rewritten@) == map_programs(stmts_view(stmts@), inline_pass()),
        programs_are(stmts_view(rewritten@), slots_can_grow()),
{
    rewrite_programs(
        stmts,
        &inline_program,
        Ghost(inline_pass()),
        Ghost(is_optimizable()),
        Ghost(slots_can_grow()),
    )
}

/// Replacement of tail calls by jumps as a function of programs.
pub open spec fn tail_call_pass() -> spec_fn(ProgramView) -> ProgramView {
    |program: ProgramView| ProgramView { slots: program.slots, instrs: tail_calls(program.instrs) }
}

fn tail_call_program(program: RuntimeProgram) -> (rewritten: RuntimeProgram)
    requires
        slots_can_grow()(program@),
    ensures
        rewritten@ == tail_call_pass()(program@),
        slots_can_grow()(rewritten@),
{
    let RuntimeProgram { slots, instrs } = program;
    let mut instrs = instrs;
    proof {
        lemma_tail_calls_in_range(instrs_view(instrs@), slots as int);
    }
    optimize_tail_calls(&mut instrs);
    RuntimeProgram { slots, instrs }
}

/// Replacement of tail calls by jumps in every runtime program.
pub fn tail_call_optimization(stmts: Vec<LoweredStmt>) -> (rewritten: Vec<LoweredStmt>)
    requires
        programs_are(stmts_view(stmts@), slots_can_grow()),
    ensures
        stmts_view(rewritten@) == map_programs(stmts_view(stmts@), tail_call_pass()),
        programs_are(stmts_view(rewritten@), slots_can_grow()),
{
    rewrite_programs(
        stmts,
        &tail_call_program,
        Ghost(tail_call_pass()),
        Ghost(slots_can_grow()),
        Ghost(slots_can_grow()),
    )
}

/// Simplification of control flow as a function of programs.
pub open spec fn simplify_pass() -> spec_fn(ProgramView) -> ProgramView {
    |program: ProgramView| ProgramView { slots: program.slots, instrs: simplify(program.instrs) }
}

fn simplify_program(program: RuntimeProgram) -> (rewritten: RuntimeProgram)
    requires
        slots_can_grow()(program@),
    ensures
        rewritten@ == simplify_pass()(program@),
        is_simplified()(rewritten@),
{
    let RuntimeProgram { slots, instrs } = program;
    let count: usize = instrs.len();
    proof {
        lemma_simplify_in_range(instrs_view(instrs@), slots as int);
        law_simplified_targets_in_bounds(instrs_view(instrs@));
    }
    let instrs = simplify_runtime_control_flow_instrs(instrs);
    RuntimeProgram { slots, instrs }
}

/// Simplification of control flow in every runtime program.
pub fn simplify_runtime_generic_control_flow(
    stmts: Vec<LoweredStmt>,
) -> (rewritten: Vec<LoweredStmt>)
    requires
        programs_are(stmts_view(stmts@), slots_can_grow()),
    ensures
        stmts_view(rewritten@) == map_programs(stmts_view(stmts@), simplify_pass()),
        programs_are(stmts_view(rewritten@), is_simplified()),
{
    rewrite_programs(
        stmts,
        &simplify_program,
        Ghost(simplify_pass()),
        Ghost(slots_can_grow()),
        Ghost(is_simplified()),
    )
}

/// Copy propagation as a function of programs.
pub open spec fn copy_pass() -> spec_fn(ProgramView) -> ProgramView {
    |program: ProgramView| ProgramView {
        slots: program.slots,
        instrs: copy_propagate(program.instrs, program.slots as nat),
    }
}

/// There is room for copy propagation.
pub open spec fn can_propagate() -> spec_fn(ProgramView) -> bool {
    |program: ProgramView| copies_in_room(program.instrs, program.slots as int)
}

/// Whatever the program is.
spec fn any_program() -> spec_fn(ProgramView) -> bool {
    |program: ProgramView| true
}

fn copy_propagate_program(program: RuntimeProgram) -> (rewritten: RuntimeProgram)
    requires
        can_propagate()(program@),
    ensures
        rewritten@ == copy_pass()(program@),
{
    let instrs = copy_propagate_runtime_instrs(program.slots, &program.instrs);
    RuntimeProgram { slots: program.slots, instrs }
}

/// Copy propagation in every runtime program.
pub fn copy_propagate_runtime_generic(stmts: Vec<LoweredStmt>) -> (rewritten: Vec<LoweredStmt>)
    requires
        programs_are(stmts_view(stmts@), can_propagate()),
    ensures
        stmts_view(rewritten@) == map_programs(stmts_view(stmts@), copy_pass()),
{
    rewrite_programs(
        stmts,
        &copy_propagate_program,
        Ghost(copy_pass()),
        Ghost(can_propagate()),
        Ghost(any_program()),
    )
}

/// There is room for copy propagation where slots are declared, and they stay
/// declared.
proof fn lemma_propagation_declared(stmts: Seq<StmtView>)
    requires
        programs_are(stmts, slots_can_grow()),
    ensures
        programs_are(stmts, can_propagate()),
        programs_are(map_programs(stmts, copy_pass()), slots_can_grow()),
{
    assert forall|i: int| 0 <= i < stmts.len() implies program_is(
        #[trigger] stmts[i],
        can_propagate(),
    ) by {
        assert(program_is(stmts[i], slots_can_grow()));
        if let StmtView::RuntimeGeneric { program } = stmts[i] {
            lemma_below_copies(program.instrs, program.slots as int);
        }
    }
    let after = map_programs(stmts, copy_pass());
    assert forall|i: int| 0 <= i < after.len() implies program_is(
        #[trigger] after[i],
        slots_can_grow(),
    ) by {
        assert(program_is(stmts[i], slots_can_grow()));
        if let StmtView::RuntimeGeneric { program } = stmts[i] {
            lemma_copy_propagate_in_range(program.instrs, program.slots as nat);
        }
    }
}

/// Settling of branches on constants as a function of programs.
pub open spec fn specialize_pass() -> spec_fn(ProgramView) -> ProgramView {
    |program: ProgramView| ProgramView {
        slots: program.slots,
        instrs: settle_branches(program.instrs),
    }
}

fn specialize_program(program: RuntimeProgram) -> (rewritten: RuntimeProgram)
    requires
        slots_can_grow()(program@),
    ensures
        rewritten@ == specialize_pass()(program@),
        slots_can_grow()(rewritten@),
{
    let RuntimeProgram { slots, instrs } = program;
    proof {
        lemma_settle_branches_in_range(instrs_view(instrs@), slots as int);
    }
    let instrs = specialize_runtime_invariant_constants_instrs(instrs);
    RuntimeProgram { slots, instrs }
}

/// Settling of branches on constants in every runtime program.
pub fn specialize_runtime_generic_invariant_constants(
    stmts: Vec<LoweredStmt>,
) -> (rewritten: Vec<LoweredStmt>)
    requires
        programs_are(stmts_view(stmts@), slots_can_grow()),
    ensures
        stmts_view(rewritten@) == map_programs(stmts_view(stmts@), specialize_pass()),
        programs_are(stmts_view(rewritten@), slots_can_grow()),
{
    rewrite_programs(
        stmts,
        &specialize_program,
        Ghost(specialize_pass()),
        Ghost(slots_can_grow()),
        Ghost(slots_can_grow()),
    )
}

/// Removal of redundant index checks as a function of programs.
pub open spec fn loop_checks_pass() -> spec_fn(ProgramView) -> ProgramView {
    |program: ProgramView| loop_checks(program)
}

fn loop_checks_program(program: RuntimeProgram) -> (rewritten: RuntimeProgram)
    requires
        is_simplified()(program@),
    ensures
        rewritten@ == loop_checks_pass()(program@),
        is_linked()(rewritten@),
{
    let mut program = program;
    eliminate_runtime_loop_bounds_checks_in_program(&mut program);
    program
}

/// Removal of redundant index checks in every runtime program.
pub fn eliminate_runtime_loop_bounds_checks(
    stmts: Vec<LoweredStmt>,
) -> (rewritten: Vec<LoweredStmt>)
    requires
        programs_are(stmts_view(stmts@), is_simplified()),
    ensures
        stmts_view(rewritten@) == map_programs(stmts_view(stmts@), loop_checks_pass()),
        programs_are(stmts_view(rewritten@), is_linked()),
{
    rewrite_programs(
        stmts,
        &loop_checks_program,
        Ghost(loop_checks_pass()),
        Ghost(is_simplified()),
        Ghost(is_linked()),
    )
}

/// Unrolling of small loops as a function of programs.
pub open spec fn unroll_pass() -> spec_fn(ProgramView) -> ProgramView {
    |program: ProgramView| ProgramView {
        slots: program.slots,
        instrs: unroll_loops(program.instrs),
    }
}

fn unroll_program(program: RuntimeProgram) -> (rewritten: RuntimeProgram)
    requires
        is_linked()(program@),
    ensures
        rewritten@ == unroll_pass()(program@),
        is_linked()(rewritten@),
{
    let RuntimeProgram { slots, instrs } = program;
    let mut instrs = instrs;
    let ghost all = instrs_view(instrs@);
    let count: usize = instrs.len();
    proof {
        lemma_range_weaken(all, slots as int, usize::MAX as int);
    }
    unroll_runtime_small_counted_loops_in_program(&mut instrs);
    let longer: usize = instrs.len();
    proof {
        lemma_unroll_in_range(all, slots as int);
    }
    RuntimeProgram { slots, instrs }
}

/// Unrolling of small loops in every runtime program.
pub fn unroll_runtime_small_counted_loops(stmts: Vec<LoweredStmt>) -> (rewritten: Vec<LoweredStmt>)
    requires
        programs_are(stmts_view(stmts@), is_linked()),
    ensures
        stmts_view(rewritten@) == map_programs(stmts_view(stmts@), unroll_pass()),
        programs_are(stmts_view(rewritten@), is_linked()),
{
    rewrite_programs(
        stmts,
        &unroll_program,
        Ghost(unroll_pass()),
        Ghost(is_linked()),
        Ghost(is_linked()),
    )
}

/// Lookahead over congruential steps as a function of programs.
pub open spec fn lookahead_pass() -> spec_fn(ProgramView) -> ProgramView {
    |program: ProgramView| ProgramView {
        slots: program.slots,
        instrs: look_ahead(program.instrs, program.instrs.len() as int),
    }
}

fn lookahead_program(program: RuntimeProgram) -> (rewritten: RuntimeProgram)
    requires
        is_linked()(program@),
    ensures
        rewritten@ == lookahead_pass()(program@),
        is_linked()(rewritten@),
{
    let RuntimeProgram { slots, instrs } = program;
    let mut instrs = instrs;
    proof {
        lemma_look_ahead(instrs_view(instrs@), instrs@.len() as int, slots as int);
    }
    optimize_lcg_lookahead(&mut instrs);
    RuntimeProgram { slots, instrs }
}

/// Lookahead over congruential steps in every runtime program.
pub fn lcg_lookahead_optimize_runtime_generic(
    stmts: Vec<LoweredStmt>,
) -> (rewritten: Vec<LoweredStmt>)
    requires
        programs_are(stmts_view(stmts@), is_linked()),
    ensures
        stmts_view(rewritten@) == map_programs(stmts_view(stmts@), lookahead_pass()),
        programs_are(stmts_view(rewritten@), is_linked()),
{
    rewrite_programs(
        stmts,
        &lookahead_program,
        Ghost(lookahead_pass()),
        Ghost(is_linked()),
        Ghost(is_linked()),
    )
}

/// Constant folding as a function of programs.
pub open spec fn peephole_pass(floats: FloatFn) -> spec_fn(ProgramView) -> ProgramView {
    |program: ProgramView|
        ProgramView {
            slots: program.slots,
            instrs: peephole(program.instrs, program.slots as nat, floats),
        }
}

/// There is room for constant folding.
pub open spec fn can_fold() -> spec_fn(ProgramView) -> bool {
    |program: ProgramView| folds_in_room(program.instrs, program.slots as int)
}

/// There is room for constant folding where slots are declared, and they stay
/// declared.
proof fn lemma_folding_declared(stmts: Seq<StmtView>, floats: FloatFn)
    requires
        programs_are(stmts, slots_are_declared()),
    ensures
        programs_are(stmts, can_fold()),
        programs_are(map_programs(stmts, peephole_pass(floats)), slots_are_declared()),
{
    assert forall|i: int| 0 <= i < stmts.len() implies program_is(
        #[trigger] stmts[i],
        can_fold(),
    ) by {
        assert(program_is(stmts[i], slots_are_declared()));
        if let StmtView::RuntimeGeneric { program } = stmts[i] {
            lemma_below_folds(program.instrs, program.slots as int);
        }
    }
    let after = map_programs(stmts, peephole_pass(floats));
    assert forall|i: int| 0 <= i < after.len() implies program_is(
        #[trigger] after[i],
        slots_are_declared(),
    ) by {
        assert(program_is(stmts[i], slots_are_declared()));
        if let StmtView::RuntimeGeneric { program } = stmts[i] {
            lemma_peephole_in_range(program.instrs, program.slots as nat, floats);
        }
    }
}

fn peephole_program<F: Fn(u16, RuntimeFloatBinOp, u64, u64) -> Option<u64>>(
    program: RuntimeProgram,
    eval_float: &F,
) -> (rewritten: RuntimeProgram)
    requires
        is_float_unit(*eval_float),
        can_fold()(program@),
    ensures
        rewritten@ == peephole_pass(float_fn(*eval_float))(program@),
{
    let instrs = peephole_optimize_runtime_instrs(program.slots, &program.instrs, eval_float);
    RuntimeProgram { slots: program.slots, instrs }
}

/// Constant folding in every runtime program.
pub fn peephole_optimize_runtime_generic<
    F: Fn(u16, RuntimeFloatBinOp, u64, u64) -> Option<u64>,
>(stmts: Vec<LoweredStmt>, eval_float: &F) -> (rewritten: Vec<LoweredStmt>)
    requires
        is_float_unit(*eval_float),
        programs_are(stmts_view(stmts@), can_fold()),
    ensures
        stmts_view(rewritten@) == map_programs(
            stmts_view(stmts@),
            peephole_pass(float_fn(*eval_float)),
        ),
{
    let ghost input = stmts_view(stmts@);
    let ghost f = peephole_pass(float_fn(*eval_float));
    let mut out: Vec<LoweredStmt> = Vec::with_capacity(stmts.len());
    for i in 0..stmts.len()
        invariant
            input == stmts_view(stmts@),
            f == peephole_pass(float_fn(*eval_float)),
            is_float_unit(*eval_float),
            programs_are(input, can_fold()),
            out@.len() == i,
            forall|j: int| 0 <= j < i ==> (#[trigger] out@[j])@ == map_program(input[j], f),
    {
        assert(input[i as int] == stmts@[i as int]@);
        assert(program_is(input[i as int], can_fold()));
        match &stmts[i] {
            LoweredStmt::RuntimeGeneric { program } => {
                let program = peephole_program(program.clone(), eval_float);
                out.push(LoweredStmt::RuntimeGeneric { program });
            },
            other => out.push(other.clone()),
        }
    }
    assert(stmts_view(out@) =~= map_programs(input, f));
    out
}

/// Removal of overwritten moves as a function of programs.
pub open spec fn overwritten_moves_pass() -> spec_fn(ProgramView) -> ProgramView {
    |program: ProgramView| ProgramView {
        slots: program.slots,
        instrs: drop_overwritten_moves(program.instrs),
    }
}

/// Removal of overwritten moves in every runtime program.
pub fn eliminate_overwritten_runtime_moves(stmts: Vec<LoweredStmt>) -> (rewritten: Vec<
    LoweredStmt,
>)
    ensures
        stmts_view(rewritten@) == map_programs(stmts_view(stmts@), overwritten_moves_pass()),
        programs_are(stmts_view(rewritten@), is_wired()),
{
    let ghost any = |program: ProgramView| true;
    rewrite_programs(
        stmts,
        &drop_overwritten_moves_in_program,
        Ghost(overwritten_moves_pass()),
        Ghost(any),
        Ghost(is_wired()),
    )
}

/// Closing of gaps in the slot numbering as a function of programs.
pub open spec fn compact_pass() -> spec_fn(ProgramView) -> ProgramView {
    |program: ProgramView| compact_slots(program)
}

fn compact_program(program: RuntimeProgram) -> (rewritten: RuntimeProgram)
    requires
        is_finished()(program@),
    ensures
        rewritten@ == compact_pass()(program@),
        is_finished()(rewritten@),
{
    let mut program = program;
    proof {
        law_compaction_keeps_slots_in_range(program@);
        law_compaction_keeps_branches(program@);
    }
    compact_runtime_program_slots(&mut program);
    program
}

/// Closing of gaps in the slot numbering in every runtime program.
pub fn compact_runtime_generic_slots(stmts: Vec<LoweredStmt>) -> (rewritten: Vec<LoweredStmt>)
    requires
        programs_are(stmts_view(stmts@), is_finished()),
    ensures
        stmts_view(rewritten@) == map_programs(stmts_view(stmts@), compact_pass()),
        programs_are(stmts_view(rewritten@), is_finished()),
{
    rewrite_programs(
        stmts,
        &compact_program,
        Ghost(compact_pass()),
        Ghost(is_finished()),
        Ghost(is_finished()),
    )
}

/// Replacing programs by others that are as required leaves them as required.
proof fn lemma_mapped_programs_are(
    stmts: Seq<StmtView>,
    f: spec_fn(ProgramView) -> ProgramView,
    before: spec_fn(ProgramView) -> bool,
    after: spec_fn(ProgramView) -> bool,
)
    requires
        programs_are(stmts, before),
        forall|program: ProgramView| #[trigger] before(program) ==> after(f(program)),
    ensures
        programs_are(map_programs(stmts, f), after),
{
    let out = map_programs(stmts, f);
    assert forall|i: int| 0 <= i < out.len() implies program_is(#[trigger] out[i], after) by {
        assert(program_is(stmts[i], before));
        assert(out[i] == map_program(stmts[i], f));
        if let StmtView::RuntimeGeneric { program } = stmts[i] {
            assert(before(program));
        }
    }
}

/// What the optimizer makes of a runtime program.
pub open spec fn optimized_program(floats: FloatFn) -> spec_fn(ProgramView) -> ProgramView {
    |program: ProgramView|
        {
            let inlined = tail_call_pass()(inline_pass()(program));
            let simple = simplify_pass()(inlined);
            let settled = simplify_pass()(specialize_pass()(copy_pass()(simple)));
            let unrolled = unroll_pass()(loop_checks_pass()(settled));
            let folded = peephole_pass(floats)(lookahead_pass()(unrolled));
            compact_pass()(overwritten_moves_pass()(folded))
        }
}

/// What the optimizer makes of the statement that a program ends with.
pub open spec fn optimized_ending(stmt: StmtView, floats: FloatFn) -> StmtView {
    if kernel_ends_program(stmt) {
        stmt
    } else {
        map_program(fold_kernel(stmt), optimized_program(floats))
    }
}

/// What the optimizer makes of the statements: equal prints are merged, prints
/// in a row joined, kernels folded, runtime programs optimized, and what never
/// runs or prints nothing removed.
pub open spec fn optimized(stmts: Seq<StmtView>, floats: FloatFn) -> Seq<StmtView> {
    let merged = merge_runs(stmts, 0);
    let joined = join_prints(merged, merged.len());
    let folded = fold_kernels(joined, 0);
    prune_prints(map_programs(folded, optimized_program(floats)), 0)
}

/// Every runtime program of the statements can be optimized.
pub open spec fn optimizable(stmts: Seq<StmtView>) -> bool {
    programs_are(stmts, is_optimizable())
}

/// Merging runs of prints leaves the programs alone.
proof fn lemma_merge_runs_programs(
    stmts: Seq<StmtView>,
    start: int,
    valid: spec_fn(ProgramView) -> bool,
)
    requires
        0 <= start <= stmts.len(),
        programs_are(stmts, valid),
    ensures
        programs_are(merge_runs(stmts, start), valid),
    decreases stmts.len() - start,
{
    if start < stmts.len() {
        let out = merge_runs(stmts, start);
        assert(program_is(stmts[start], valid));
        let next = match stmts[start] {
            StmtView::Print(text) => {
                lemma_run_length(stmts, start, text);
                start + run_length(stmts, start, text)
            },
            _ => start + 1,
        };
        lemma_merge_runs_programs(stmts, next, valid);
        let rest = merge_runs(stmts, next);
        assert forall|i: int| 0 <= i < out.len() implies program_is(#[trigger] out[i], valid) by {
            if i > 0 {
                assert(out[i] == rest[i - 1]);
            }
        }
    }
}

/// Joining prints leaves the programs alone.
proof fn lemma_join_prints_programs(
    stmts: Seq<StmtView>,
    n: nat,
    valid: spec_fn(ProgramView) -> bool,
)
    requires
        n <= stmts.len(),
        programs_are(stmts, valid),
    ensures
        programs_are(join_prints(stmts, n), valid),
    decreases n,
{
    if n > 0 {
        lemma_join_prints_programs(stmts, (n - 1) as nat, valid);
        let before = join_prints(stmts, (n - 1) as nat);
        let out = join_prints(stmts, n);
        assert(program_is(stmts[n - 1], valid));
        assert forall|i: int| 0 <= i < out.len() implies program_is(#[trigger] out[i], valid) by {
            if i < before.len() {
                assert(program_is(before[i], valid));
            }
        }
    }
}

/// Folding kernels leaves the programs alone.
proof fn lemma_fold_kernels_programs(
    stmts: Seq<StmtView>,
    start: int,
    valid: spec_fn(ProgramView) -> bool,
)
    requires
        0 <= start <= stmts.len(),
        programs_are(stmts, valid),
    ensures
        programs_are(fold_kernels(stmts, start), valid),
    decreases stmts.len() - start,
{
    if start < stmts.len() {
        let out = fold_kernels(stmts, start);
        assert(program_is(stmts[start], valid));
        if !kernel_ends_program(stmts[start]) {
            lemma_fold_kernels_programs(stmts, start + 1, valid);
            let rest = fold_kernels(stmts, start + 1);
            assert forall|i: int| 0 <= i < out.len() implies program_is(
                #[trigger] out[i],
                valid,
            ) by {
                if i > 0 {
                    assert(out[i] == rest[i - 1]);
                }
            }
        }
    }
}

/// Optimizes a lowered program. `eval_float` evaluates a floating-point
/// operation on the bits of its operands.
pub fn optimize_semantics_ir<F: Fn(u16, RuntimeFloatBinOp, u64, u64) -> Option<u64>>(
    stmts: Vec<LoweredStmt>,
    eval_float: &F,
) -> (result: Vec<LoweredStmt>)
    requires
        is_float_unit(*eval_float),
        optimizable(stmts_view(stmts@)),
    ensures
        stmts_view(result@) == optimized(stmts_view(stmts@), float_fn(*eval_float)),
        programs_are(stmts_view(result@), is_finished()),
{
    let ghost floats = float_fn(*eval_float);
    proof {
        lemma_merge_runs_programs(stmts_view(stmts@), 0, is_optimizable());
    }
    let stmts = hoist_loop_invariants(stmts);
    proof {
        lemma_join_prints_programs(stmts_view(stmts@), stmts@.len(), is_optimizable());
    }
    let stmts = const_fold(stmts);
    proof {
        lemma_fold_kernels_programs(stmts_view(stmts@), 0, is_optimizable());
    }
    let stmts = fold_runtime_kernels(stmts);
    let ghost folded = stmts_view(stmts@);
    let stmts = inline_runtime_generic_leaf_calls(stmts);
    let stmts = tail_call_optimization(stmts);
    let stmts = simplify_runtime_generic_control_flow(stmts);
    proof {
        lemma_programs_weaken(stmts_view(stmts@), is_simplified(), slots_can_grow());
    }
    proof {
        lemma_propagation_declared(stmts_view(stmts@));
    }
    let stmts = copy_propagate_runtime_generic(stmts);
    let stmts = specialize_runtime_generic_invariant_constants(stmts);
    let stmts = simplify_runtime_generic_control_flow(stmts);
    let stmts = eliminate_runtime_loop_bounds_checks(stmts);
    let stmts = unroll_runtime_small_counted_loops(stmts);
    let stmts = lcg_lookahead_optimize_runtime_generic(stmts);
    proof {
        lemma_programs_weaken(stmts_view(stmts@), is_linked(), slots_are_declared());
    }
    proof {
        lemma_folding_declared(stmts_view(stmts@), float_fn(*eval_float));
    }
    let stmts = peephole_optimize_runtime_generic(stmts, eval_float);
    proof {
        assert forall|program: ProgramView| #[trigger] slots_are_declared()(
            program,
        ) implies slots_are_declared()(overwritten_moves_pass()(program)) by {
            lemma_drop_moves_in_range(program.instrs, program.slots as int);
        }
        lemma_mapped_programs_are(
            stmts_view(stmts@),
            overwritten_moves_pass(),
            slots_are_declared(),
            slots_are_declared(),
        );
    }
    let stmts = eliminate_overwritten_runtime_moves(stmts);
    proof {
        lemma_programs_meet(stmts_view(stmts@), slots_are_declared(), is_wired(), is_finished());
    }
    let stmts = compact_runtime_generic_slots(stmts);
    proof {
        assert(stmts_view(stmts@) =~= map_programs(folded, optimized_program(floats)));
        lemma_prune_prints_programs(stmts_view(stmts@), 0, is_finished());
    }
    dead_print_elimination(stmts)
}

/// Programs that are as required are so in any wider sense.
proof fn lemma_programs_weaken(
    stmts: Seq<StmtView>,
    narrow: spec_fn(ProgramView) -> bool,
    wide: spec_fn(ProgramView) -> bool,
)
    requires
        programs_are(stmts, narrow),
        forall|program: ProgramView| #[trigger] narrow(program) ==> wide(program),
    ensures
        programs_are(stmts, wide),
{
    assert forall|i: int| 0 <= i < stmts.len() implies program_is(#[trigger] stmts[i], wide) by {
        assert(program_is(stmts[i], narrow));
        if let StmtView::RuntimeGeneric { program } = stmts[i] {
            assert(narrow(program));
        }
    }
}

/// Programs that are as required in two ways are so in both.
proof fn lemma_programs_meet(
    stmts: Seq<StmtView>,
    first: spec_fn(ProgramView) -> bool,
    second: spec_fn(ProgramView) -> bool,
    both: spec_fn(ProgramView) -> bool,
)
    requires
        programs_are(stmts, first),
        programs_are(stmts, second),
        forall|program: ProgramView|
            #[trigger] first(program) && second(program) ==> both(program),
    ensures
        programs_are(stmts, both),
{
    assert forall|i: int| 0 <= i < stmts.len() implies program_is(#[trigger] stmts[i], both) by {
        assert(program_is(stmts[i], first));
        assert(program_is(stmts[i], second));
        if let StmtView::RuntimeGeneric { program } = stmts[i] {
            assert(first(program));
        }
    }
}

/// Pruning leaves the programs that stay alone.
proof fn lemma_prune_prints_programs(
    stmts: Seq<StmtView>,
    start: int,
    valid: spec_fn(ProgramView) -> bool,
)
    requires
        0 <= start <= stmts.len(),
        programs_are(stmts, valid),
    ensures
        programs_are(prune_prints(stmts, start), valid),
    decreases stmts.len() - start,
{
    if start < stmts.len() {
        let out = prune_prints(stmts, start);
        assert(program_is(stmts[start], valid));
        lemma_prune_prints_programs(stmts, start + 1, valid);
        let rest = prune_prints(stmts, start + 1);
        assert forall|i: int| 0 <= i < out.len() implies program_is(#[trigger] out[i], valid) by {
            if out.len() == rest.len() + 1 && i > 0 {
                assert(program_is(rest[i - 1], valid));
            } else if i < rest.len() {
                assert(program_is(rest[i], valid));
            }
        }
    }
}

/// Replacing programs keeps what is printed; the ending has its program
/// replaced.
proof fn lemma_map_programs_output(
    stmts: Seq<StmtView>,
    f: spec_fn(ProgramView) -> ProgramView,
    start: int,
)
    requires
        0 <= start <= stmts.len(),
    ensures
        printed(map_programs(stmts, f), start) == printed(stmts, start),
        ending(map_programs(stmts, f), start) == (match ending(stmts, start) {
            Some(stmt) => Some(map_program(stmt, f)),
            None => None,
        }),
    decreases stmts.len() - start,
{
    if start < stmts.len() {
        lemma_map_programs_output(stmts, f, start + 1);
    }
}

/// A statement with its kernel folded, unless the kernel ends the program.
spec fn folded_ending(stmt: StmtView) -> StmtView {
    if kernel_ends_program(stmt) {
        stmt
    } else {
        fold_kernel(stmt)
    }
}

/// Folding kernels keeps what is printed; the ending is folded.
proof fn lemma_fold_kernels_output(stmts: Seq<StmtView>, start: int)
    requires
        0 <= start <= stmts.len(),
    ensures
        printed(fold_kernels(stmts, start), 0) == printed(stmts, start),
        ending(fold_kernels(stmts, start), 0) == (match ending(stmts, start) {
            Some(stmt) => Some(folded_ending(stmt)),
            None => None,
        }),
    decreases stmts.len() - start,
{
    if start < stmts.len() {
        if kernel_ends_program(stmts[start]) {
            assert(fold_kernels(stmts, start) =~= seq![stmts[start]] + Seq::<StmtView>::empty());
            lemma_printed_cons(stmts[start], Seq::<StmtView>::empty());
        } else {
            lemma_fold_kernels_output(stmts, start + 1);
            lemma_printed_cons(fold_kernel(stmts[start]), fold_kernels(stmts, start + 1));
        }
    }
}

/// Optimization keeps what a program prints before it ends, and it ends with
/// what the optimizer makes of its ending: with none if it had none.
pub proof fn law_optimization_keeps_output(stmts: Seq<StmtView>, floats: FloatFn)
    ensures
        printed(optimized(stmts, floats), 0) == printed(stmts, 0),
        ending(optimized(stmts, floats), 0) == (match ending(stmts, 0) {
            Some(stmt) => Some(optimized_ending(stmt, floats)),
            None => None,
        }),
{
    let merged = merge_runs(stmts, 0);
    law_merging_runs_keeps_output(stmts, 0);
    let joined = join_prints(merged, merged.len());
    law_joining_prints_keeps_output(merged, merged.len());
    assert(merged.take(merged.len() as int) =~= merged);
    let folded = fold_kernels(joined, 0);
    lemma_fold_kernels_output(joined, 0);
    let mapped = map_programs(folded, optimized_program(floats));
    lemma_map_programs_output(folded, optimized_program(floats), 0);
    law_pruning_keeps_output(mapped, 0);
}

} // verus!
