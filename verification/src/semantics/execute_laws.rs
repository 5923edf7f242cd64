//! What holds of every run: a parallel loop does what its rounds do one after
//! another, however many threads there are, and a pure function prints nothing.

use crate::ast::{ExprView, FunctionView, ReductionView, Span, StmtNode, TypeView};
use crate::diagnostic::DiagnosticView;
use crate::ir::StmtView;
use crate::semantics::dispatch::{candidates, method_called};
use crate::semantics::environment::meaning;
use crate::semantics::evaluate::{all_evaluated, evaluated, name_expr};
use crate::semantics::execute::{
    branch_ran, call_ran, calls_left, closed_behind, deeper, function_called, items_ran, loop_ran,
    loops_ran, opened, parallel_ran, params_bound, put_together, range_evaluated, range_ran,
    round_env, round_reduced, round_start, rounds_ran, rounds_reduced, stmt_ran, stmts_ran,
    while_ran, with_env, Called,
};
use crate::semantics::expressions::CallResultView;
use crate::semantics::flow::{
    part_size, parts_of, range_len, range_rest, range_start, range_value, range_values, FlowView,
    ForRange, LOOP_LIMIT, MAX_CALL_DEPTH,
};
use crate::semantics::index::IndexView;
use crate::semantics::names::{function_names, lemma_position_from, position_of};
use crate::semantics::operations::{borrowed, handed_out, reduced, ValueOperations};
use crate::semantics::outputs::items_of;
use crate::semantics::purity::{marked_after, pure_stmt, pure_stmts, purity};
use crate::semantics::receivers::{method_args, method_ran, Ran};
use crate::semantics::spans::place_of_expr;
use crate::semantics::state::{plain, FailureView, Scopes, StateView};
use crate::semantics::values::ValueView;
use vstd::prelude::*;

verus! {

/// What parts of the rounds of a parallel loop lower to, each on its own and one
/// behind the other.
pub open spec fn parts_ran<O: ValueOperations>(
    ops: O,
    index: IndexView,
    threads: usize,
    calls: usize,
    name: Seq<char>,
    body: Seq<StmtNode>,
    rounds: Seq<ValueView>,
    parts: Seq<(usize, usize)>,
    before: Seq<StmtView>,
    state: StateView,
    span: Span,
) -> Result<Seq<StmtView>, FailureView>
    decreases parts.len(),
{
    if parts.len() == 0 {
        Ok(before)
    } else {
        match rounds_ran(
            ops,
            index,
            threads,
            calls,
            name,
            body,
            rounds.subrange(parts[0].0 as int, parts[0].1 as int),
            0,
            Seq::empty(),
            state,
            span,
        ) {
            Err(failure) => Err(failure),
            Ok(lowered) => parts_ran(
                ops,
                index,
                threads,
                calls,
                name,
                body,
                rounds,
                parts.skip(1),
                before + lowered,
                state,
                span,
            ),
        }
    }
}

/// A part of the rounds does what these do among all rounds.
proof fn lemma_part_of_rounds<O: ValueOperations>(
    ops: O,
    index: IndexView,
    threads: usize,
    calls: usize,
    name: Seq<char>,
    body: Seq<StmtNode>,
    rounds: Seq<ValueView>,
    start: int,
    end: int,
    from: int,
    first: Seq<StmtView>,
    before: Seq<StmtView>,
    state: StateView,
    span: Span,
)
    requires
        0 <= start <= end <= rounds.len(),
        0 <= from <= end - start,
    ensures
        rounds_ran(
            ops,
            index,
            threads,
            calls,
            name,
            body,
            rounds,
            start + from,
            first + before,
            state,
            span,
        ) == (match rounds_ran(
            ops,
            index,
            threads,
            calls,
            name,
            body,
            rounds.subrange(start, end),
            from,
            before,
            state,
            span,
        ) {
            Err(failure) => Err(failure),
            Ok(lowered) => rounds_ran(
                ops,
                index,
                threads,
                calls,
                name,
                body,
                rounds,
                end,
                first + lowered,
                state,
                span,
            ),
        }),
    decreases end - start - from,
{
    let part = rounds.subrange(start, end);
    if from < end - start {
        assert(part[from] == rounds[start + from]);
        let (flow, after) = stmts_ran(
            ops,
            index,
            threads,
            calls,
            body,
            0,
            round_start(ops, name, part[from], state),
        );
        assert((first + before) + after.lowered =~= first + (before + after.lowered));
        lemma_part_of_rounds(
            ops,
            index,
            threads,
            calls,
            name,
            body,
            rounds,
            start,
            end,
            from + 1,
            first,
            before + after.lowered,
            state,
            span,
        );
    }
}

/// Parallel loops are deterministic: the parts that their rounds are handed out
/// in, put together in order, are what the rounds do one after another.
pub proof fn law_rounds_in_parts<O: ValueOperations>(
    ops: O,
    index: IndexView,
    threads: usize,
    calls: usize,
    name: Seq<char>,
    body: Seq<StmtNode>,
    rounds: Seq<ValueView>,
    size: nat,
    from: nat,
    before: Seq<StmtView>,
    state: StateView,
    span: Span,
)
    requires
        size > 0,
        from <= rounds.len() <= usize::MAX,
    ensures
        parts_ran(
            ops,
            index,
            threads,
            calls,
            name,
            body,
            rounds,
            parts_of(rounds.len(), size, from),
            before,
            state,
            span,
        ) == rounds_ran(
            ops,
            index,
            threads,
            calls,
            name,
            body,
            rounds,
            from as int,
            before,
            state,
            span,
        ),
    decreases rounds.len() - from,
{
    if from < rounds.len() {
        let end = if from + size < rounds.len() {
            from + size
        } else {
            rounds.len()
        };
        let parts = parts_of(rounds.len(), size, from);
        let rest = parts_of(rounds.len(), size, end);
        assert(parts == seq![(from as usize, end as usize)] + rest);
        assert(parts.skip(1) =~= rest);
        assert(before + Seq::<StmtView>::empty() =~= before);
        lemma_part_of_rounds(
            ops,
            index,
            threads,
            calls,
            name,
            body,
            rounds,
            from as int,
            end as int,
            0,
            before,
            Seq::empty(),
            state,
            span,
        );
        if let Ok(lowered) = rounds_ran(
            ops,
            index,
            threads,
            calls,
            name,
            body,
            rounds.subrange(from as int, end as int),
            0,
            Seq::empty(),
            state,
            span,
        ) {
            law_rounds_in_parts(
                ops,
                index,
                threads,
                calls,
                name,
                body,
                rounds,
                size,
                end,
                before + lowered,
                state,
                span,
            );
        }
    } else {
        assert(parts_of(rounds.len(), size, from) =~= Seq::empty());
    }
}

/// A way to put results together for which brackets do not matter.
pub open spec fn brackets_do_not_matter<O: ValueOperations>(
    ops: O,
    reduction: ReductionView,
    span: Span,
) -> bool {
    forall|a: ValueView, b: ValueView, c: ValueView|
        #![trigger put_together(
            ops,
            reduction.op,
            a,
            b,
            span,
        ), put_together(ops, reduction.op, b, c, span)]
        put_together(ops, reduction.op, b, c, span) is Ok ==> (match put_together(
            ops,
            reduction.op,
            a,
            b,
            span,
        ) {
            Err(error) => Err(error),
            Ok(left) => put_together(ops, reduction.op, left, c, span),
        }) == put_together(
            ops,
            reduction.op,
            a,
            put_together(ops, reduction.op, b, c, span)->Ok_0,
            span,
        )
}

/// What a reduction comes to once two results are put together.
pub open spec fn reduced_to(outcome: Result<ValueView, DiagnosticView>) -> Result<
    Option<ValueView>,
    FailureView,
> {
    match outcome {
        Ok(value) => Ok(Some(value)),
        Err(error) => Err(plain(error)),
    }
}

/// What comes before a part of a reduction can be put together with what the
/// part has come to.
proof fn lemma_reduction_behind<O: ValueOperations>(
    ops: O,
    index: IndexView,
    name: Seq<char>,
    reduction: ReductionView,
    ty: TypeView,
    rounds: Seq<ValueView>,
    from: int,
    left: ValueView,
    so_far: ValueView,
    result: ValueView,
    env: Scopes,
    span: Span,
)
    requires
        0 <= from,
        brackets_do_not_matter(ops, reduction, span),
        rounds_reduced(
            ops,
            index,
            name,
            reduction,
            ty,
            rounds,
            from,
            Some(so_far),
            env,
            span,
        ) == Ok::<Option<ValueView>, FailureView>(Some(result)),
    ensures
        match put_together(ops, reduction.op, left, so_far, span) {
            Err(error) => put_together(ops, reduction.op, left, result, span) == Err::<
                ValueView,
                DiagnosticView,
            >(error),
            Ok(value) => rounds_reduced(
                ops,
                index,
                name,
                reduction,
                ty,
                rounds,
                from,
                Some(value),
                env,
                span,
            ) == reduced_to(put_together(ops, reduction.op, left, result, span)),
        },
    decreases rounds.len() - from,
{
    if from < rounds.len() {
        let value = round_reduced(
            ops,
            index,
            name,
            reduction,
            ty,
            rounds[from],
            env,
            span,
        )->Ok_0;
        let next = put_together(ops, reduction.op, so_far, value, span)->Ok_0;
        assert(put_together(ops, reduction.op, so_far, value, span) is Ok);
        lemma_reduction_behind(
            ops,
            index,
            name,
            reduction,
            ty,
            rounds,
            from + 1,
            left,
            next,
            result,
            env,
            span,
        );
        assert((match put_together(ops, reduction.op, left, so_far, span) {
            Err(error) => Err(error),
            Ok(before) => put_together(ops, reduction.op, before, value, span),
        }) == put_together(ops, reduction.op, left, next, span));
    }
}

/// Reductions are deterministic: where brackets do not matter, a part that
/// comes to a result can be reduced on its own, and put together with what came
/// before it this is what the rounds come to one after another.
pub proof fn law_reduction_in_parts<O: ValueOperations>(
    ops: O,
    index: IndexView,
    name: Seq<char>,
    reduction: ReductionView,
    ty: TypeView,
    rounds: Seq<ValueView>,
    from: int,
    left: ValueView,
    result: ValueView,
    env: Scopes,
    span: Span,
)
    requires
        0 <= from < rounds.len(),
        brackets_do_not_matter(ops, reduction, span),
        rounds_reduced(ops, index, name, reduction, ty, rounds, from, None, env, span) == Ok::<
            Option<ValueView>,
            FailureView,
        >(Some(result)),
    ensures
        rounds_reduced(
            ops,
            index,
            name,
            reduction,
            ty,
            rounds,
            from,
            Some(left),
            env,
            span,
        ) == reduced_to(put_together(ops, reduction.op, left, result, span)),
{
    let value = round_reduced(
        ops,
        index,
        name,
        reduction,
        ty,
        rounds[from],
        env,
        span,
    )->Ok_0;
    lemma_reduction_behind(
        ops,
        index,
        name,
        reduction,
        ty,
        rounds,
        from + 1,
        left,
        value,
        result,
        env,
        span,
    );
}

/// Rounds that are handed out come to what they come to in parts, and
/// reductions to what they come to one round after another.
pub open spec fn threads_keep_order<O: ValueOperations>(
    ops: O,
    index: IndexView,
    threads: usize,
) -> bool {
    &&& forall|
        calls: usize,
        name: Seq<char>,
        body: Seq<StmtNode>,
        rounds: Seq<ValueView>,
        state: StateView,
        span: Span,
    |
        #![trigger handed_out(ops, calls, name, body, rounds, state, span)]
        0 < rounds.len() <= LOOP_LIMIT ==> handed_out(ops, calls, name, body, rounds, state, span)
            == parts_ran(
            ops,
            index,
            threads,
            calls,
            name,
            body,
            rounds,
            parts_of(rounds.len(), part_size(rounds.len(), threads as nat), 0),
            Seq::empty(),
            state,
            span,
        )
    &&& forall|
        name: Seq<char>,
        reduction: ReductionView,
        ty: TypeView,
        rounds: Seq<ValueView>,
        env: Scopes,
        span: Span,
    |
        #![trigger reduced(ops, name, reduction, ty, rounds, env, span)]
        reduced(ops, name, reduction, ty, rounds, env, span) == rounds_reduced(
            ops,
            index,
            name,
            reduction,
            ty,
            rounds,
            0,
            None,
            env,
            span,
        )
}

/// Each part has rounds.
proof fn lemma_part_size(total: nat, threads: nat)
    requires
        total > 0,
        threads > 0,
    ensures
        part_size(total, threads) > 0,
{
    let workers = if threads < total {
        threads
    } else {
        total
    };
    assert((total + workers - 1) as nat / workers > 0) by (nonlinear_arith)
        requires
            total > 0,
            workers > 0,
            workers <= total,
    ;
}

/// The number of threads does not matter: where rounds that are handed out keep
/// their order, a statement does what it does on one thread.
pub proof fn law_threads_do_not_matter<O: ValueOperations>(
    ops: O,
    index: IndexView,
    threads: usize,
    calls: usize,
    stmt: StmtNode,
    state: StateView,
)
    requires
        threads > 0,
        threads_keep_order(ops, index, threads),
    ensures
        stmt_ran(
            ops,
            index,
            threads,
            calls,
            stmt,
            state,
        ) == stmt_ran(ops, index, 1, calls, stmt, state),
    decreases 5 * calls_left(calls) + 3, stmt, 1int, 0int,
{
    match stmt {
        StmtNode::Call { name, args, .. } => {
            if let Some(at) = position_of(function_names(index.functions), name) {
                let (values, env) = all_evaluated(ops, index, args, 0, Seq::empty(), state.env);
                if let Ok(values) = values {
                    let now = with_env(state, env);
                    let function = index.functions[at];
                    lemma_threads_function(ops, index, threads, calls, function, values, now);
                }
            }
        },
        StmtNode::MethodCall { receiver, name, args, span } => {
            lemma_threads_method(ops, index, threads, calls, receiver, name, args, span, state);
        },
        StmtNode::Block { stmts, .. } => {
            lemma_threads_stmts(ops, index, threads, calls, stmts, 0, opened(state));
        },
        StmtNode::If { .. } => {
            lemma_threads_branch(ops, index, threads, calls, stmt, state);
        },
        StmtNode::While { .. }
        | StmtNode::Loop { .. }
        | StmtNode::For { .. }
        | StmtNode::ForEach { .. } => {
            lemma_threads_loops(ops, index, threads, calls, stmt, state);
        },
        StmtNode::ParFor { .. } => {
            lemma_threads_parallel(ops, index, threads, calls, stmt, state);
        },
        _ => {},
    }
}

/// The same of a branch.
proof fn lemma_threads_branch<O: ValueOperations>(
    ops: O,
    index: IndexView,
    threads: usize,
    calls: usize,
    stmt: StmtNode,
    state: StateView,
)
    requires
        threads > 0,
        threads_keep_order(ops, index, threads),
    ensures
        branch_ran(ops, index, threads, calls, stmt, state) == branch_ran(
            ops,
            index,
            1,
            calls,
            stmt,
            state,
        ),
    decreases 5 * calls_left(calls) + 3, stmt, 0int, 0int,
{
    match stmt {
        StmtNode::If { cond, then_branch, else_branch, .. } => {
            let env = evaluated(ops, index, cond, state.env).1;
            let inside = opened(with_env(state, env));
            lemma_threads_stmts(ops, index, threads, calls, then_branch, 0, inside);
            if let Some(branch) = else_branch {
                lemma_threads_stmts(ops, index, threads, calls, branch, 0, inside);
            }
        },
        _ => {},
    }
}

/// The same of a loop.
proof fn lemma_threads_loops<O: ValueOperations>(
    ops: O,
    index: IndexView,
    threads: usize,
    calls: usize,
    stmt: StmtNode,
    state: StateView,
)
    requires
        threads > 0,
        threads_keep_order(ops, index, threads),
    ensures
        loops_ran(ops, index, threads, calls, stmt, state) == loops_ran(
            ops,
            index,
            1,
            calls,
            stmt,
            state,
        ),
    decreases 5 * calls_left(calls) + 3, stmt, 0int, 0int,
{
    match stmt {
        StmtNode::While { cond, body, .. } => {
            lemma_threads_while(
                ops,
                index,
                threads,
                calls,
                cond,
                body,
                0,
                StateView { loop_depth: deeper(state.loop_depth), ..state },
            );
        },
        StmtNode::Loop { body, span } => {
            lemma_threads_loop(
                ops,
                index,
                threads,
                calls,
                body,
                span,
                0,
                StateView { loop_depth: deeper(state.loop_depth), ..state },
            );
        },
        StmtNode::For { name, start, end, body, span } => {
            let (range, env) = range_evaluated(ops, index, start, end, span, state.env);
            if let Ok((range, ty)) = range {
                lemma_threads_range(
                    ops,
                    index,
                    threads,
                    calls,
                    name,
                    range,
                    ty,
                    body,
                    span,
                    0,
                    StateView { env, loop_depth: deeper(state.loop_depth), ..state },
                );
            }
        },
        StmtNode::ForEach { name, iterable, body, span } => {
            let (value, env) = evaluated(ops, index, iterable, state.env);
            if let Ok(value) = value {
                if let Ok((items, ty)) = items_of(value, place_of_expr(iterable)) {
                    lemma_threads_items(
                        ops,
                        index,
                        threads,
                        calls,
                        name,
                        items,
                        ty,
                        body,
                        span,
                        0,
                        StateView { env, loop_depth: deeper(state.loop_depth), ..state },
                    );
                }
            }
        },
        _ => {},
    }
}

/// The same of a parallel loop.
proof fn lemma_threads_parallel<O: ValueOperations>(
    ops: O,
    index: IndexView,
    threads: usize,
    calls: usize,
    stmt: StmtNode,
    state: StateView,
)
    requires
        threads > 0,
        threads_keep_order(ops, index, threads),
    ensures
        parallel_ran(ops, index, threads, calls, stmt, state) == parallel_ran(
            ops,
            index,
            1,
            calls,
            stmt,
            state,
        ),
    decreases 5 * calls_left(calls) + 3, stmt, 0int, 0int,
{
    match stmt {
        StmtNode::ParFor { name, start, end, body, reduction, span } => {
            let (range, env) = range_evaluated(ops, index, start, end, span, state.env);
            if let Ok((range, _)) = range {
                let rounds = range_values(range);
                let now = with_env(state, env);
                if 0 < rounds.len() <= LOOP_LIMIT {
                    lemma_threads_rounds(
                        ops,
                        index,
                        threads,
                        calls,
                        name,
                        body,
                        rounds,
                        0,
                        Seq::empty(),
                        now,
                        span,
                    );
                    let size = part_size(rounds.len(), threads as nat);
                    lemma_part_size(rounds.len(), threads as nat);
                    law_rounds_in_parts(
                        ops,
                        index,
                        threads,
                        calls,
                        name,
                        body,
                        rounds,
                        size,
                        0,
                        Seq::empty(),
                        now,
                        span,
                    );
                }
            }
        },
        _ => {},
    }
}

/// The number of threads does not matter for a method call.
proof fn lemma_threads_method<O: ValueOperations>(
    ops: O,
    index: IndexView,
    threads: usize,
    calls: usize,
    receiver: Seq<char>,
    method: Seq<char>,
    args: Seq<ExprView>,
    span: Span,
    state: StateView,
)
    requires
        threads > 0,
        threads_keep_order(ops, index, threads),
    ensures
        method_ran(ops, index, threads, calls, receiver, method, args, span, state) == method_ran(
            ops,
            index,
            1,
            calls,
            receiver,
            method,
            args,
            span,
            state,
        ),
    decreases 5 * calls_left(calls) + 1,
{
    if let (Ok(values), env) = method_args(ops, index, method, args, 0, Seq::empty(), state.env) {
        if let Some(binding) = meaning(env, receiver) {
            let found = method_called(
                index,
                candidates(binding.ty, method),
                0,
                receiver,
                binding.ty,
                binding.mutable,
                method,
                values.len(),
                span,
            );
            if let Ok(Some((at, changes))) = found {
                let lent = borrowed(ops, name_expr(receiver, span), env, changes, span);
                if let (Ok(reference), env) = lent {
                    lemma_threads_function(
                        ops,
                        index,
                        threads,
                        calls,
                        index.functions[at],
                        seq![reference] + values,
                        StateView { env, ..state },
                    );
                }
            }
        }
    }
}

/// The number of threads does not matter for a call.
proof fn lemma_threads_function<O: ValueOperations>(
    ops: O,
    index: IndexView,
    threads: usize,
    calls: usize,
    function: FunctionView,
    args: Seq<ValueView>,
    state: StateView,
)
    requires
        threads > 0,
        threads_keep_order(ops, index, threads),
    ensures
        function_called(ops, index, threads, calls, function, args, state) == function_called(
            ops,
            index,
            1,
            calls,
            function,
            args,
            state,
        ),
    decreases 5 * calls_left(calls),
{
    if calls < MAX_CALL_DEPTH {
        let inside = opened(state);
        let (_, env) = params_bound(ops, index, function.params, args, 0, inside.env);
        let deep = (calls + 1) as usize;
        lemma_threads_stmts(ops, index, threads, deep, function.body, 0, with_env(inside, env));
    }
}

/// The number of threads does not matter for statements.
proof fn lemma_threads_stmts<O: ValueOperations>(
    ops: O,
    index: IndexView,
    threads: usize,
    calls: usize,
    stmts: Seq<StmtNode>,
    from: int,
    state: StateView,
)
    requires
        threads > 0,
        threads_keep_order(ops, index, threads),
    ensures
        stmts_ran(ops, index, threads, calls, stmts, from, state) == stmts_ran(
            ops,
            index,
            1,
            calls,
            stmts,
            from,
            state,
        ),
    decreases 5 * calls_left(calls) + 3, stmts, 0int, stmts.len() - from,
{
    if 0 <= from < stmts.len() {
        law_threads_do_not_matter(ops, index, threads, calls, stmts[from], state);
        let next = stmt_ran(ops, index, threads, calls, stmts[from], state).1;
        lemma_threads_stmts(ops, index, threads, calls, stmts, from + 1, next);
    }
}

/// The number of threads does not matter for a while loop.
proof fn lemma_threads_while<O: ValueOperations>(
    ops: O,
    index: IndexView,
    threads: usize,
    calls: usize,
    cond: ExprView,
    body: Seq<StmtNode>,
    rounds: usize,
    state: StateView,
)
    requires
        threads > 0,
        threads_keep_order(ops, index, threads),
    ensures
        while_ran(ops, index, threads, calls, cond, body, rounds, state) == while_ran(
            ops,
            index,
            1,
            calls,
            cond,
            body,
            rounds,
            state,
        ),
    decreases 5 * calls_left(calls) + 3, body, 1int, LOOP_LIMIT - rounds,
{
    if rounds < LOOP_LIMIT {
        let env = evaluated(ops, index, cond, state.env).1;
        let inside = opened(with_env(state, env));
        lemma_threads_stmts(ops, index, threads, calls, body, 0, inside);
        let next = closed_behind(ops, stmts_ran(ops, index, threads, calls, body, 0, inside)).1;
        lemma_threads_while(ops, index, threads, calls, cond, body, (rounds + 1) as usize, next);
    }
}

/// The number of threads does not matter for a loop without a condition.
proof fn lemma_threads_loop<O: ValueOperations>(
    ops: O,
    index: IndexView,
    threads: usize,
    calls: usize,
    body: Seq<StmtNode>,
    span: Span,
    rounds: usize,
    state: StateView,
)
    requires
        threads > 0,
        threads_keep_order(ops, index, threads),
    ensures
        loop_ran(ops, index, threads, calls, body, span, rounds, state) == loop_ran(
            ops,
            index,
            1,
            calls,
            body,
            span,
            rounds,
            state,
        ),
    decreases 5 * calls_left(calls) + 3, body, 1int, LOOP_LIMIT - rounds,
{
    if rounds < LOOP_LIMIT {
        lemma_threads_stmts(ops, index, threads, calls, body, 0, opened(state));
        let next = closed_behind(
            ops,
            stmts_ran(ops, index, threads, calls, body, 0, opened(state)),
        ).1;
        lemma_threads_loop(ops, index, threads, calls, body, span, (rounds + 1) as usize, next);
    }
}

/// The number of threads does not matter for a loop over a range.
proof fn lemma_threads_range<O: ValueOperations>(
    ops: O,
    index: IndexView,
    threads: usize,
    calls: usize,
    name: Seq<char>,
    range: ForRange,
    ty: TypeView,
    body: Seq<StmtNode>,
    span: Span,
    rounds: usize,
    state: StateView,
)
    requires
        threads > 0,
        threads_keep_order(ops, index, threads),
    ensures
        range_ran(
            ops,
            index,
            threads,
            calls,
            name,
            range,
            ty,
            body,
            span,
            rounds,
            state,
        ) == range_ran(
            ops,
            index,
            1,
            calls,
            name,
            range,
            ty,
            body,
            span,
            rounds,
            state,
        ),
    decreases 5 * calls_left(calls) + 3, body, 1int, LOOP_LIMIT - rounds,
{
    if rounds < LOOP_LIMIT && range_len(range) > 0 {
        let value = range_value(range, range_start(range));
        let inside = with_env(state, round_env(state.env, name, value, ty));
        lemma_threads_stmts(ops, index, threads, calls, body, 0, inside);
        let next = closed_behind(ops, stmts_ran(ops, index, threads, calls, body, 0, inside)).1;
        lemma_threads_range(
            ops,
            index,
            threads,
            calls,
            name,
            range_rest(range),
            ty,
            body,
            span,
            (rounds + 1) as usize,
            next,
        );
    }
}

/// The number of threads does not matter for a loop over items.
proof fn lemma_threads_items<O: ValueOperations>(
    ops: O,
    index: IndexView,
    threads: usize,
    calls: usize,
    name: Seq<char>,
    items: Seq<ValueView>,
    ty: TypeView,
    body: Seq<StmtNode>,
    span: Span,
    rounds: usize,
    state: StateView,
)
    requires
        threads > 0,
        threads_keep_order(ops, index, threads),
    ensures
        items_ran(
            ops,
            index,
            threads,
            calls,
            name,
            items,
            ty,
            body,
            span,
            rounds,
            state,
        ) == items_ran(
            ops,
            index,
            1,
            calls,
            name,
            items,
            ty,
            body,
            span,
            rounds,
            state,
        ),
    decreases 5 * calls_left(calls) + 3, body, 1int, LOOP_LIMIT - rounds,
{
    if rounds < LOOP_LIMIT && rounds < items.len() {
        let inside = with_env(state, round_env(state.env, name, items[rounds as int], ty));
        lemma_threads_stmts(ops, index, threads, calls, body, 0, inside);
        let next = closed_behind(ops, stmts_ran(ops, index, threads, calls, body, 0, inside)).1;
        lemma_threads_items(
            ops,
            index,
            threads,
            calls,
            name,
            items,
            ty,
            body,
            span,
            (rounds + 1) as usize,
            next,
        );
    }
}

/// The number of threads does not matter for the rounds of a parallel loop.
proof fn lemma_threads_rounds<O: ValueOperations>(
    ops: O,
    index: IndexView,
    threads: usize,
    calls: usize,
    name: Seq<char>,
    body: Seq<StmtNode>,
    rounds: Seq<ValueView>,
    from: int,
    before: Seq<StmtView>,
    state: StateView,
    span: Span,
)
    requires
        threads > 0,
        threads_keep_order(ops, index, threads),
    ensures
        rounds_ran(ops, index, threads, calls, name, body, rounds, from, before, state, span)
            == rounds_ran(ops, index, 1, calls, name, body, rounds, from, before, state, span),
    decreases 5 * calls_left(calls) + 3, body, 1int, rounds.len() - from,
{
    if 0 <= from < rounds.len() {
        let start = round_start(ops, name, rounds[from], state);
        lemma_threads_stmts(ops, index, threads, calls, body, 0, start);
        let end = stmts_ran(ops, index, threads, calls, body, 0, start).1;
        lemma_threads_rounds(
            ops,
            index,
            threads,
            calls,
            name,
            body,
            rounds,
            from + 1,
            before + end.lowered,
            state,
            span,
        );
    }
}

/// A call lowers nothing, and does not leave the program.
pub open spec fn is_quiet_call(outcome: Called, state: StateView) -> bool {
    outcome.1.lowered == state.lowered && outcome.0 != Ok::<CallResultView, FailureView>(
        CallResultView::Exit,
    )
}

/// A statement lowers nothing, and does not leave the program.
pub open spec fn is_quiet(ran: Ran, state: StateView) -> bool {
    ran.1.lowered == state.lowered && ran.0 != Ok::<FlowView, FailureView>(FlowView::Exit)
}

/// Calls of marked functions are quiet.
spec fn marked_are_quiet<O: ValueOperations>(
    ops: O,
    index: IndexView,
    threads: usize,
    flags: Seq<bool>,
) -> bool {
    forall|at: int, calls: usize, args: Seq<ValueView>, state: StateView|
        0 <= at < index.functions.len() && at < flags.len() && flags[at] ==> is_quiet_call(
            #[trigger] function_called(
                ops,
                index,
                threads,
                calls,
                index.functions[at],
                args,
                state,
            ),
            state,
        )
}

/// A call without effects is quiet.
proof fn lemma_quiet_call<O: ValueOperations>(
    ops: O,
    index: IndexView,
    threads: usize,
    calls: usize,
    flags: Seq<bool>,
    stmt: StmtNode,
    state: StateView,
)
    requires
        marked_are_quiet(ops, index, threads, flags),
        pure_stmt(stmt, index.functions, flags),
    ensures
        stmt matches StmtNode::Call { name, args, span } ==> is_quiet(
            call_ran(ops, index, threads, calls, name, args, span, state),
            state,
        ),
{
    if let StmtNode::Call { name, args, .. } = stmt {
        lemma_position_from(function_names(index.functions), name, 0);
        if let Some(at) = position_of(function_names(index.functions), name) {
            let (values, env) = all_evaluated(ops, index, args, 0, Seq::empty(), state.env);
            if let Ok(values) = values {
                let function = index.functions[at];
                let now = with_env(state, env);
                assert(is_quiet_call(
                    function_called(ops, index, threads, calls, function, values, now),
                    now,
                ));
            }
        }
    }
}

/// A statement without effects is quiet.
proof fn lemma_quiet_stmt<O: ValueOperations>(
    ops: O,
    index: IndexView,
    threads: usize,
    calls: usize,
    flags: Seq<bool>,
    stmt: StmtNode,
    state: StateView,
)
    requires
        threads > 0,
        index.functions.len() <= usize::MAX,
        threads_keep_order(ops, index, threads),
        marked_are_quiet(ops, index, threads, flags),
        pure_stmt(stmt, index.functions, flags),
    ensures
        is_quiet(stmt_ran(ops, index, threads, calls, stmt, state), state),
    decreases 5 * calls_left(calls) + 3, stmt, 1int, 0int,
{
    match stmt {
        StmtNode::Call { .. } => {
            lemma_quiet_call(ops, index, threads, calls, flags, stmt, state);
        },
        StmtNode::Block { stmts, .. } => {
            lemma_quiet_stmts(ops, index, threads, calls, flags, stmts, 0, opened(state));
        },
        StmtNode::If { .. } => {
            lemma_quiet_branch(ops, index, threads, calls, flags, stmt, state);
        },
        StmtNode::While { .. }
        | StmtNode::Loop { .. }
        | StmtNode::For { .. }
        | StmtNode::ForEach { .. } => {
            lemma_quiet_loops(ops, index, threads, calls, flags, stmt, state);
        },
        StmtNode::ParFor { .. } => {
            lemma_quiet_parallel(ops, index, threads, calls, flags, stmt, state);
        },
        _ => {},
    }
}

/// The same of a branch.
proof fn lemma_quiet_branch<O: ValueOperations>(
    ops: O,
    index: IndexView,
    threads: usize,
    calls: usize,
    flags: Seq<bool>,
    stmt: StmtNode,
    state: StateView,
)
    requires
        threads > 0,
        index.functions.len() <= usize::MAX,
        threads_keep_order(ops, index, threads),
        marked_are_quiet(ops, index, threads, flags),
        pure_stmt(stmt, index.functions, flags),
    ensures
        stmt is If ==> is_quiet(branch_ran(ops, index, threads, calls, stmt, state), state),
    decreases 5 * calls_left(calls) + 3, stmt, 0int, 0int,
{
    match stmt {
        StmtNode::If { cond, then_branch, else_branch, .. } => {
            let env = evaluated(ops, index, cond, state.env).1;
            let inside = opened(with_env(state, env));
            lemma_quiet_stmts(ops, index, threads, calls, flags, then_branch, 0, inside);
            if let Some(branch) = else_branch {
                lemma_quiet_stmts(ops, index, threads, calls, flags, branch, 0, inside);
            }
        },
        _ => {},
    }
}

/// The same of a loop.
proof fn lemma_quiet_loops<O: ValueOperations>(
    ops: O,
    index: IndexView,
    threads: usize,
    calls: usize,
    flags: Seq<bool>,
    stmt: StmtNode,
    state: StateView,
)
    requires
        threads > 0,
        index.functions.len() <= usize::MAX,
        threads_keep_order(ops, index, threads),
        marked_are_quiet(ops, index, threads, flags),
        pure_stmt(stmt, index.functions, flags),
    ensures
        stmt is While || stmt is Loop || stmt is For || stmt is ForEach ==> is_quiet(
            loops_ran(ops, index, threads, calls, stmt, state),
            state,
        ),
    decreases 5 * calls_left(calls) + 3, stmt, 0int, 0int,
{
    match stmt {
        StmtNode::While { cond, body, .. } => {
            let inside = StateView { loop_depth: deeper(state.loop_depth), ..state };
            lemma_quiet_while(ops, index, threads, calls, flags, cond, body, 0, inside);
        },
        StmtNode::Loop { body, span } => {
            let inside = StateView { loop_depth: deeper(state.loop_depth), ..state };
            lemma_quiet_loop(ops, index, threads, calls, flags, body, span, 0, inside);
        },
        StmtNode::For { name, start, end, body, span } => {
            let (range, env) = range_evaluated(ops, index, start, end, span, state.env);
            if let Ok((range, ty)) = range {
                let inside = StateView { env, loop_depth: deeper(state.loop_depth), ..state };
                lemma_quiet_range(
                    ops,
                    index,
                    threads,
                    calls,
                    flags,
                    name,
                    range,
                    ty,
                    body,
                    span,
                    0,
                    inside,
                );
            }
        },
        StmtNode::ForEach { name, iterable, body, span } => {
            let (value, env) = evaluated(ops, index, iterable, state.env);
            if let Ok(value) = value {
                if let Ok((items, ty)) = items_of(value, place_of_expr(iterable)) {
                    let inside = StateView { env, loop_depth: deeper(state.loop_depth), ..state };
                    lemma_quiet_items(
                        ops,
                        index,
                        threads,
                        calls,
                        flags,
                        name,
                        items,
                        ty,
                        body,
                        span,
                        0,
                        inside,
                    );
                }
            }
        },
        _ => {},
    }
}

/// The same of a parallel loop.
proof fn lemma_quiet_parallel<O: ValueOperations>(
    ops: O,
    index: IndexView,
    threads: usize,
    calls: usize,
    flags: Seq<bool>,
    stmt: StmtNode,
    state: StateView,
)
    requires
        threads > 0,
        index.functions.len() <= usize::MAX,
        threads_keep_order(ops, index, threads),
        marked_are_quiet(ops, index, threads, flags),
        pure_stmt(stmt, index.functions, flags),
    ensures
        stmt is ParFor ==> is_quiet(parallel_ran(ops, index, threads, calls, stmt, state), state),
    decreases 5 * calls_left(calls) + 3, stmt, 0int, 0int,
{
    match stmt {
        StmtNode::ParFor { name, start, end, body, reduction, span } => {
            let (range, env) = range_evaluated(ops, index, start, end, span, state.env);
            if let Ok((range, _)) = range {
                let rounds = range_values(range);
                let now = with_env(state, env);
                if 0 < rounds.len() <= LOOP_LIMIT {
                    lemma_quiet_rounds(
                        ops,
                        index,
                        threads,
                        calls,
                        flags,
                        name,
                        body,
                        rounds,
                        0,
                        Seq::empty(),
                        now,
                        span,
                    );
                    let size = part_size(rounds.len(), threads as nat);
                    lemma_part_size(rounds.len(), threads as nat);
                    law_rounds_in_parts(
                        ops,
                        index,
                        threads,
                        calls,
                        name,
                        body,
                        rounds,
                        size,
                        0,
                        Seq::empty(),
                        now,
                        span,
                    );
                    assert(state.lowered + Seq::<StmtView>::empty() =~= state.lowered);
                }
            }
        },
        _ => {},
    }
}

/// Statements without effects are quiet.
proof fn lemma_quiet_stmts<O: ValueOperations>(
    ops: O,
    index: IndexView,
    threads: usize,
    calls: usize,
    flags: Seq<bool>,
    stmts: Seq<StmtNode>,
    from: int,
    state: StateView,
)
    requires
        threads > 0,
        index.functions.len() <= usize::MAX,
        threads_keep_order(ops, index, threads),
        marked_are_quiet(ops, index, threads, flags),
        pure_stmts(stmts, index.functions, flags),
    ensures
        is_quiet(stmts_ran(ops, index, threads, calls, stmts, from, state), state),
    decreases 5 * calls_left(calls) + 3, stmts, 0int, stmts.len() - from,
{
    if 0 <= from < stmts.len() {
        lemma_quiet_stmt(ops, index, threads, calls, flags, stmts[from], state);
        let next = stmt_ran(ops, index, threads, calls, stmts[from], state).1;
        lemma_quiet_stmts(ops, index, threads, calls, flags, stmts, from + 1, next);
    }
}

/// A while loop without effects is quiet.
proof fn lemma_quiet_while<O: ValueOperations>(
    ops: O,
    index: IndexView,
    threads: usize,
    calls: usize,
    flags: Seq<bool>,
    cond: ExprView,
    body: Seq<StmtNode>,
    rounds: usize,
    state: StateView,
)
    requires
        threads > 0,
        index.functions.len() <= usize::MAX,
        threads_keep_order(ops, index, threads),
        marked_are_quiet(ops, index, threads, flags),
        pure_stmts(body, index.functions, flags),
    ensures
        is_quiet(while_ran(ops, index, threads, calls, cond, body, rounds, state), state),
    decreases 5 * calls_left(calls) + 3, body, 1int, LOOP_LIMIT - rounds,
{
    if rounds < LOOP_LIMIT {
        let env = evaluated(ops, index, cond, state.env).1;
        let inside = opened(with_env(state, env));
        lemma_quiet_stmts(ops, index, threads, calls, flags, body, 0, inside);
        let next = closed_behind(ops, stmts_ran(ops, index, threads, calls, body, 0, inside)).1;
        lemma_quiet_while(
            ops,
            index,
            threads,
            calls,
            flags,
            cond,
            body,
            (rounds + 1) as usize,
            next,
        );
    }
}

/// A loop without a condition and without effects is quiet.
proof fn lemma_quiet_loop<O: ValueOperations>(
    ops: O,
    index: IndexView,
    threads: usize,
    calls: usize,
    flags: Seq<bool>,
    body: Seq<StmtNode>,
    span: Span,
    rounds: usize,
    state: StateView,
)
    requires
        threads > 0,
        index.functions.len() <= usize::MAX,
        threads_keep_order(ops, index, threads),
        marked_are_quiet(ops, index, threads, flags),
        pure_stmts(body, index.functions, flags),
    ensures
        is_quiet(loop_ran(ops, index, threads, calls, body, span, rounds, state), state),
    decreases 5 * calls_left(calls) + 3, body, 1int, LOOP_LIMIT - rounds,
{
    if rounds < LOOP_LIMIT {
        let inside = opened(state);
        lemma_quiet_stmts(ops, index, threads, calls, flags, body, 0, inside);
        let next = closed_behind(ops, stmts_ran(ops, index, threads, calls, body, 0, inside)).1;
        lemma_quiet_loop(
            ops,
            index,
            threads,
            calls,
            flags,
            body,
            span,
            (rounds + 1) as usize,
            next,
        );
    }
}

/// A loop over a range without effects is quiet.
proof fn lemma_quiet_range<O: ValueOperations>(
    ops: O,
    index: IndexView,
    threads: usize,
    calls: usize,
    flags: Seq<bool>,
    name: Seq<char>,
    range: ForRange,
    ty: TypeView,
    body: Seq<StmtNode>,
    span: Span,
    rounds: usize,
    state: StateView,
)
    requires
        threads > 0,
        index.functions.len() <= usize::MAX,
        threads_keep_order(ops, index, threads),
        marked_are_quiet(ops, index, threads, flags),
        pure_stmts(body, index.functions, flags),
    ensures
        is_quiet(
            range_ran(ops, index, threads, calls, name, range, ty, body, span, rounds, state),
            state,
        ),
    decreases 5 * calls_left(calls) + 3, body, 1int, LOOP_LIMIT - rounds,
{
    if rounds < LOOP_LIMIT && range_len(range) > 0 {
        let value = range_value(range, range_start(range));
        let inside = with_env(state, round_env(state.env, name, value, ty));
        lemma_quiet_stmts(ops, index, threads, calls, flags, body, 0, inside);
        let next = closed_behind(ops, stmts_ran(ops, index, threads, calls, body, 0, inside)).1;
        lemma_quiet_range(
            ops,
            index,
            threads,
            calls,
            flags,
            name,
            range_rest(range),
            ty,
            body,
            span,
            (rounds + 1) as usize,
            next,
        );
    }
}

/// A loop over items without effects is quiet.
proof fn lemma_quiet_items<O: ValueOperations>(
    ops: O,
    index: IndexView,
    threads: usize,
    calls: usize,
    flags: Seq<bool>,
    name: Seq<char>,
    items: Seq<ValueView>,
    ty: TypeView,
    body: Seq<StmtNode>,
    span: Span,
    rounds: usize,
    state: StateView,
)
    requires
        threads > 0,
        index.functions.len() <= usize::MAX,
        threads_keep_order(ops, index, threads),
        marked_are_quiet(ops, index, threads, flags),
        pure_stmts(body, index.functions, flags),
    ensures
        is_quiet(
            items_ran(ops, index, threads, calls, name, items, ty, body, span, rounds, state),
            state,
        ),
    decreases 5 * calls_left(calls) + 3, body, 1int, LOOP_LIMIT - rounds,
{
    if rounds < LOOP_LIMIT && rounds < items.len() {
        let inside = with_env(state, round_env(state.env, name, items[rounds as int], ty));
        lemma_quiet_stmts(ops, index, threads, calls, flags, body, 0, inside);
        let next = closed_behind(ops, stmts_ran(ops, index, threads, calls, body, 0, inside)).1;
        lemma_quiet_items(
            ops,
            index,
            threads,
            calls,
            flags,
            name,
            items,
            ty,
            body,
            span,
            (rounds + 1) as usize,
            next,
        );
    }
}

/// The rounds of a parallel loop without effects lower nothing.
proof fn lemma_quiet_rounds<O: ValueOperations>(
    ops: O,
    index: IndexView,
    threads: usize,
    calls: usize,
    flags: Seq<bool>,
    name: Seq<char>,
    body: Seq<StmtNode>,
    rounds: Seq<ValueView>,
    from: int,
    before: Seq<StmtView>,
    state: StateView,
    span: Span,
)
    requires
        threads > 0,
        index.functions.len() <= usize::MAX,
        threads_keep_order(ops, index, threads),
        marked_are_quiet(ops, index, threads, flags),
        pure_stmts(body, index.functions, flags),
    ensures
        rounds_ran(
            ops,
            index,
            threads,
            calls,
            name,
            body,
            rounds,
            from,
            before,
            state,
            span,
        ) matches Ok(lowered) ==> lowered == before,
    decreases 5 * calls_left(calls) + 3, body, 1int, rounds.len() - from,
{
    if 0 <= from < rounds.len() {
        let start = round_start(ops, name, rounds[from], state);
        lemma_quiet_stmts(ops, index, threads, calls, flags, body, 0, start);
        assert(before + Seq::<StmtView>::empty() =~= before);
        lemma_quiet_rounds(
            ops,
            index,
            threads,
            calls,
            flags,
            name,
            body,
            rounds,
            from + 1,
            before,
            state,
            span,
        );
    }
}

/// A function whose body has no effects is quiet.
proof fn lemma_quiet_function<O: ValueOperations>(
    ops: O,
    index: IndexView,
    threads: usize,
    calls: usize,
    flags: Seq<bool>,
    function: FunctionView,
    args: Seq<ValueView>,
    state: StateView,
)
    requires
        threads > 0,
        index.functions.len() <= usize::MAX,
        threads_keep_order(ops, index, threads),
        marked_are_quiet(ops, index, threads, flags),
        pure_stmts(function.body, index.functions, flags),
    ensures
        is_quiet_call(function_called(ops, index, threads, calls, function, args, state), state),
{
    if calls < MAX_CALL_DEPTH {
        let inside = opened(state);
        let (_, env) = params_bound(ops, index, function.params, args, 0, inside.env);
        let deep = (calls + 1) as usize;
        let start = with_env(inside, env);
        lemma_quiet_stmts(ops, index, threads, deep, flags, function.body, 0, start);
    }
}

/// Functions that are marked after some rounds are quiet.
proof fn lemma_marked_are_quiet<O: ValueOperations>(
    ops: O,
    index: IndexView,
    threads: usize,
    rounds: nat,
)
    requires
        threads > 0,
        index.functions.len() <= usize::MAX,
        threads_keep_order(ops, index, threads),
    ensures
        marked_are_quiet(ops, index, threads, marked_after(index.functions, rounds)),
    decreases rounds,
{
    let flags = marked_after(index.functions, rounds);
    if rounds > 0 {
        let before = marked_after(index.functions, (rounds - 1) as nat);
        lemma_marked_are_quiet(ops, index, threads, (rounds - 1) as nat);
        assert forall|at: int, calls: usize, args: Seq<ValueView>, state: StateView|
            0 <= at < index.functions.len() && at < flags.len() && flags[at] implies is_quiet_call(
            #[trigger] function_called(
                ops,
                index,
                threads,
                calls,
                index.functions[at],
                args,
                state,
            ),
            state,
        ) by {
            let function = index.functions[at];
            lemma_quiet_function(ops, index, threads, calls, before, function, args, state);
        }
    }
}

/// A pure function prints nothing and does not leave the program, so nothing is
/// lost where its value alone is taken.
pub proof fn law_pure_functions_are_quiet<O: ValueOperations>(
    ops: O,
    index: IndexView,
    threads: usize,
    calls: usize,
    at: int,
    args: Seq<ValueView>,
    state: StateView,
)
    requires
        threads > 0,
        index.functions.len() <= usize::MAX,
        threads_keep_order(ops, index, threads),
        0 <= at < index.functions.len(),
        purity(index.functions)[at],
    ensures
        is_quiet_call(
            function_called(ops, index, threads, calls, index.functions[at], args, state),
            state,
        ),
{
    lemma_marked_are_quiet(ops, index, threads, index.functions.len());
}

} // verus!
