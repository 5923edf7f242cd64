//! What a statement that succeeds leaves as it was.

use crate::ast::{ExprView, FunctionView, ParamView, Span, StmtNode, TypeView};
use crate::semantics::dispatch::{candidates, method_called};
use crate::semantics::environment::{fresh_binding, meaning, with_name};
use crate::semantics::evaluate::{all_evaluated, evaluated, name_expr};
use crate::semantics::execute::{
    branch_ran, call_ran, calls_left, closed, closed_behind, deeper, function_called, items_ran,
    loop_ran, loops_ran, opened, parallel_ran, params_bound, range_evaluated, range_ran,
    reduction_done, round_env, stmt_ran, stmts_ran, while_ran, with_env, Called,
};
use crate::semantics::flow::{
    range_len, range_rest, range_start, range_value, FlowView, ForRange, LOOP_LIMIT, MAX_CALL_DEPTH,
};
use crate::semantics::index::IndexView;
use crate::semantics::names::{function_names, position_of};
use crate::semantics::operations::{borrowed, coerced, ValueOperations};
use crate::semantics::outputs::items_of;
use crate::semantics::receivers::{method_args, method_ran, Ran};
use crate::semantics::scope_laws::{
    lemma_assign_field_element_scopes, lemma_assign_field_scopes, lemma_assign_index_scopes,
    lemma_assign_scopes, lemma_changed_scopes, lemma_expr_scopes, lemma_exprs_scopes,
    lemma_field_method_scopes, lemma_let_scopes, lemma_method_args_scopes, lemma_own_method_scopes,
    operations_keep_scopes,
};
use crate::semantics::spans::place_of_expr;
use crate::semantics::state::{Scopes, StateView};
use crate::semantics::values::ValueView;
use vstd::prelude::*;

verus! {

/// One run stands as deep in loops and in scopes as another, and what the other
/// has lowered comes first in what it has lowered. In how many calls a run stands
/// is no part of it: that is handed down.
pub open spec fn stands_as_before(after: StateView, before: StateView) -> bool {
    &&& after.loop_depth == before.loop_depth
    &&& after.env.len() == before.env.len()
    &&& before.lowered.len() <= after.lowered.len()
    &&& forall|i: int|
        0 <= i < before.lowered.len() ==> #[trigger] after.lowered[i] == before.lowered[i]
}

/// A program goes on with the next round of a loop, or behind the loop.
pub open spec fn leaves_round(flow: FlowView) -> bool {
    flow == FlowView::BreakLoop || flow == FlowView::ContinueLoop
}

/// If a statement succeeds, the run stands as before, and a round of a loop is
/// left only inside of a loop.
pub open spec fn is_tidy(ran: Ran, state: StateView) -> bool {
    ran.0 matches Ok(flow) ==> stands_as_before(ran.1, state) && (leaves_round(flow)
        ==> state.loop_depth > 0)
}

/// If a call succeeds, the run stands as before.
pub open spec fn is_tidy_call(outcome: Called, state: StateView) -> bool {
    outcome.0 is Ok ==> stands_as_before(outcome.1, state)
}

/// A block that is tidy inside its scope is tidy.
proof fn lemma_closed_tidy<O: ValueOperations>(
    ops: O,
    ran: Ran,
    inside: StateView,
    outer: StateView,
)
    requires
        operations_keep_scopes(ops),
        is_tidy(ran, inside),
        inside.env.len() == outer.env.len() + 1,
        inside.loop_depth == outer.loop_depth,
        inside.lowered == outer.lowered,
    ensures
        is_tidy(closed_behind(ops, ran), outer),
        closed(ops, ran).0 matches Ok(flow) ==> ran.0 == closed(ops, ran).0 && stands_as_before(
            closed(ops, ran).1,
            outer,
        ),
{
}

/// The bounds of a range leave the scopes.
proof fn lemma_range_scopes<O: ValueOperations>(
    ops: O,
    index: IndexView,
    start: ExprView,
    end: ExprView,
    span: Span,
    env: Scopes,
)
    requires
        operations_keep_scopes(ops),
    ensures
        range_evaluated(ops, index, start, end, span, env).1.len() == env.len(),
{
    lemma_expr_scopes(ops, index, start, env);
    lemma_expr_scopes(ops, index, end, evaluated(ops, index, start, env).1);
}

/// A call is tidy.
proof fn lemma_call_tidy<O: ValueOperations>(
    ops: O,
    index: IndexView,
    threads: usize,
    calls: usize,
    name: Seq<char>,
    args: Seq<ExprView>,
    span: Span,
    state: StateView,
)
    requires
        operations_keep_scopes(ops),
    ensures
        is_tidy(call_ran(ops, index, threads, calls, name, args, span, state), state),
    decreases 5 * calls_left(calls) + 1,
{
    lemma_exprs_scopes(ops, index, args, 0, Seq::empty(), state.env);
    if let Some(at) = position_of(function_names(index.functions), name) {
        let (values, env) = all_evaluated(ops, index, args, 0, Seq::empty(), state.env);
        if let Ok(values) = values {
            let now = with_env(state, env);
            lemma_function_tidy(ops, index, threads, calls, index.functions[at], values, now);
        }
    }
}

/// A method call is tidy.
proof fn lemma_method_tidy<O: ValueOperations>(
    ops: O,
    index: IndexView,
    threads: usize,
    calls: usize,
    receiver: Seq<char>,
    method: Seq<char>,
    args: Seq<ExprView>,
    span: Span,
    state: StateView,
)
    requires
        operations_keep_scopes(ops),
    ensures
        is_tidy(
            method_ran(ops, index, threads, calls, receiver, method, args, span, state),
            state,
        ),
    decreases 5 * calls_left(calls) + 1,
{
    lemma_method_args_scopes(ops, index, method, args, 0, Seq::empty(), state.env);
    if let (Ok(values), env) = method_args(ops, index, method, args, 0, Seq::empty(), state.env) {
        lemma_own_method_scopes(ops, receiver, method, values, span, env);
        if let Some(binding) = meaning(env, receiver) {
            let found = method_called(
                index,
                candidates(binding.ty, method),
                0,
                receiver,
                binding.ty,
                binding.mutable,
                method,
                values.len(),
                span,
            );
            if let Ok(Some((at, changes))) = found {
                let lent = borrowed(ops, name_expr(receiver, span), env, changes, span);
                if let (Ok(reference), env) = lent {
                    lemma_function_tidy(
                        ops,
                        index,
                        threads,
                        calls,
                        index.functions[at],
                        seq![reference] + values,
                        StateView { env, ..state },
                    );
                }
            }
        }
    }
}

/// A reduction leaves the scopes.
proof fn lemma_reduction_scopes<O: ValueOperations>(
    ops: O,
    index: IndexView,
    threads: usize,
    stmt: StmtNode,
    env: Scopes,
)
    ensures
        stmt matches StmtNode::ParFor { name, reduction: Some(reduction), span, .. } ==> forall|
            rounds: Seq<ValueView>,
        |
            (#[trigger] reduction_done(
                ops,
                index,
                threads,
                name,
                reduction,
                rounds,
                span,
                env,
            )).1.len() == env.len(),
{
    lemma_changed_scopes();
}

/// A statement is tidy.
proof fn lemma_stmt_tidy<O: ValueOperations>(
    ops: O,
    index: IndexView,
    threads: usize,
    calls: usize,
    stmt: StmtNode,
    state: StateView,
)
    requires
        operations_keep_scopes(ops),
    ensures
        is_tidy(stmt_ran(ops, index, threads, calls, stmt, state), state),
        stmt_ran(ops, index, threads, calls, stmt, state).0 matches Ok(flow) ==> (stmt is While
            || stmt is Loop || stmt is For || stmt is ForEach || stmt is ParFor) ==> !leaves_round(
            flow,
        ),
    decreases 5 * calls_left(calls) + 3, stmt, 1int, 0int,
{
    match stmt {
        StmtNode::Let { name, mutable, ty, expr, span } => {
            lemma_let_scopes(ops, index, name, mutable, ty, expr, span, state.env);
        },
        StmtNode::Assign { name, expr, span } => {
            lemma_assign_scopes(ops, index, name, expr, span, state.env);
        },
        StmtNode::AssignField { receiver, field, expr, span } => {
            lemma_assign_field_scopes(ops, index, receiver, field, expr, span, state.env);
        },
        StmtNode::AssignIndex { name, index: at, expr, span } => {
            lemma_assign_index_scopes(ops, index, name, at, expr, span, state.env);
        },
        StmtNode::AssignStructListIndex { receiver, field, index: at, expr, span } => {
            lemma_assign_field_element_scopes(
                ops,
                index,
                receiver,
                field,
                at,
                expr,
                span,
                state.env,
            );
        },
        StmtNode::Call { name, args, span } => {
            lemma_call_tidy(ops, index, threads, calls, name, args, span, state);
        },
        StmtNode::MethodCall { receiver, name, args, span } => {
            lemma_method_tidy(ops, index, threads, calls, receiver, name, args, span, state);
        },
        StmtNode::StructListMethodCall { receiver, field, name, args, span } => {
            lemma_field_method_scopes(ops, index, receiver, field, name, args, span, state.env);
        },
        StmtNode::Return { expr, .. } => {
            if let Some(expr) = expr {
                lemma_expr_scopes(ops, index, expr, state.env);
            }
        },
        StmtNode::Print { expr, .. } => {
            lemma_expr_scopes(ops, index, expr, state.env);
        },
        StmtNode::Exit { expr, .. } => {
            lemma_expr_scopes(ops, index, expr, state.env);
        },
        StmtNode::BenchLoop { iterations, .. } => {
            lemma_expr_scopes(ops, index, iterations, state.env);
        },
        StmtNode::Block { stmts, .. } => {
            let inside = opened(state);
            lemma_stmts_tidy(ops, index, threads, calls, stmts, 0, inside);
            let ran = stmts_ran(ops, index, threads, calls, stmts, 0, inside);
            lemma_closed_tidy(ops, ran, inside, state);
        },
        StmtNode::If { .. } => {
            lemma_tidy_branch(ops, index, threads, calls, stmt, state);
        },
        StmtNode::While { .. }
        | StmtNode::Loop { .. }
        | StmtNode::For { .. }
        | StmtNode::ForEach { .. } => {
            lemma_tidy_loops(ops, index, threads, calls, stmt, state);
        },
        StmtNode::ParFor { .. } => {
            lemma_tidy_parallel(ops, index, threads, calls, stmt, state);
        },
        StmtNode::Assert { cond, .. } => {
            lemma_expr_scopes(ops, index, cond, state.env);
        },
        _ => {},
    }
}

/// The same of a branch.
proof fn lemma_tidy_branch<O: ValueOperations>(
    ops: O,
    index: IndexView,
    threads: usize,
    calls: usize,
    stmt: StmtNode,
    state: StateView,
)
    requires
        operations_keep_scopes(ops),
    ensures
        is_tidy(branch_ran(ops, index, threads, calls, stmt, state), state),
    decreases 5 * calls_left(calls) + 3, stmt, 0int, 0int,
{
    match stmt {
        StmtNode::If { cond, then_branch, else_branch, .. } => {
            lemma_expr_scopes(ops, index, cond, state.env);
            let env = evaluated(ops, index, cond, state.env).1;
            let now = with_env(state, env);
            let inside = opened(now);
            lemma_stmts_tidy(ops, index, threads, calls, then_branch, 0, inside);
            let ran = stmts_ran(ops, index, threads, calls, then_branch, 0, inside);
            lemma_closed_tidy(ops, ran, inside, now);
            if let Some(branch) = else_branch {
                lemma_stmts_tidy(ops, index, threads, calls, branch, 0, inside);
                let other = stmts_ran(ops, index, threads, calls, branch, 0, inside);
                lemma_closed_tidy(ops, other, inside, now);
            }
        },
        _ => {},
    }
}

/// The same of a loop.
proof fn lemma_tidy_loops<O: ValueOperations>(
    ops: O,
    index: IndexView,
    threads: usize,
    calls: usize,
    stmt: StmtNode,
    state: StateView,
)
    requires
        operations_keep_scopes(ops),
    ensures
        is_tidy_loop(loops_ran(ops, index, threads, calls, stmt, state), state),
    decreases 5 * calls_left(calls) + 3, stmt, 0int, 0int,
{
    match stmt {
        StmtNode::While { cond, body, .. } => {
            let inside = StateView { loop_depth: deeper(state.loop_depth), ..state };
            lemma_while_tidy(ops, index, threads, calls, cond, body, 0, inside);
        },
        StmtNode::Loop { body, span } => {
            let inside = StateView { loop_depth: deeper(state.loop_depth), ..state };
            lemma_loop_tidy(ops, index, threads, calls, body, span, 0, inside);
        },
        StmtNode::For { name, start, end, body, span } => {
            lemma_range_scopes(ops, index, start, end, span, state.env);
            let (range, env) = range_evaluated(ops, index, start, end, span, state.env);
            if let Ok((range, ty)) = range {
                let inside = StateView { env, loop_depth: deeper(state.loop_depth), ..state };
                lemma_range_tidy(
                    ops,
                    index,
                    threads,
                    calls,
                    name,
                    range,
                    ty,
                    body,
                    span,
                    0,
                    inside,
                );
            }
        },
        StmtNode::ForEach { name, iterable, body, span } => {
            lemma_expr_scopes(ops, index, iterable, state.env);
            let (value, env) = evaluated(ops, index, iterable, state.env);
            if let Ok(value) = value {
                if let Ok((items, ty)) = items_of(value, place_of_expr(iterable)) {
                    let inside = StateView { env, loop_depth: deeper(state.loop_depth), ..state };
                    lemma_items_tidy(
                        ops,
                        index,
                        threads,
                        calls,
                        name,
                        items,
                        ty,
                        body,
                        span,
                        0,
                        inside,
                    );
                }
            }
        },
        _ => {},
    }
}

/// The same of a parallel loop.
proof fn lemma_tidy_parallel<O: ValueOperations>(
    ops: O,
    index: IndexView,
    threads: usize,
    calls: usize,
    stmt: StmtNode,
    state: StateView,
)
    requires
        operations_keep_scopes(ops),
    ensures
        is_tidy_loop(parallel_ran(ops, index, threads, calls, stmt, state), state),
    decreases 5 * calls_left(calls) + 3, stmt, 0int, 0int,
{
    match stmt {
        StmtNode::ParFor { name, start, end, body, reduction, span } => {
            lemma_range_scopes(ops, index, start, end, span, state.env);
            let env = range_evaluated(ops, index, start, end, span, state.env).1;
            lemma_reduction_scopes(ops, index, threads, stmt, env);
        },
        _ => {},
    }
}

/// Statements are tidy.
proof fn lemma_stmts_tidy<O: ValueOperations>(
    ops: O,
    index: IndexView,
    threads: usize,
    calls: usize,
    stmts: Seq<StmtNode>,
    from: int,
    state: StateView,
)
    requires
        operations_keep_scopes(ops),
    ensures
        is_tidy(stmts_ran(ops, index, threads, calls, stmts, from, state), state),
    decreases 5 * calls_left(calls) + 3, stmts, 0int, stmts.len() - from,
{
    if 0 <= from < stmts.len() {
        lemma_stmt_tidy(ops, index, threads, calls, stmts[from], state);
        let (flow, next) = stmt_ran(ops, index, threads, calls, stmts[from], state);
        if flow is Ok {
            lemma_stmts_tidy(ops, index, threads, calls, stmts, from + 1, next);
        }
    }
}

/// A loop is tidy, and what leaves its rounds stays inside it.
spec fn is_tidy_loop(ran: Ran, state: StateView) -> bool {
    is_tidy(ran, state) && (ran.0 matches Ok(flow) ==> !leaves_round(flow))
}

/// A while loop is tidy.
proof fn lemma_while_tidy<O: ValueOperations>(
    ops: O,
    index: IndexView,
    threads: usize,
    calls: usize,
    cond: ExprView,
    body: Seq<StmtNode>,
    rounds: usize,
    state: StateView,
)
    requires
        operations_keep_scopes(ops),
    ensures
        is_tidy_loop(while_ran(ops, index, threads, calls, cond, body, rounds, state), state),
    decreases 5 * calls_left(calls) + 3, body, 1int, LOOP_LIMIT - rounds,
{
    lemma_expr_scopes(ops, index, cond, state.env);
    if rounds < LOOP_LIMIT {
        let now = with_env(state, evaluated(ops, index, cond, state.env).1);
        let inside = opened(now);
        lemma_stmts_tidy(ops, index, threads, calls, body, 0, inside);
        let ran = stmts_ran(ops, index, threads, calls, body, 0, inside);
        lemma_closed_tidy(ops, ran, inside, now);
        let (flow, next) = closed_behind(ops, ran);
        if flow is Ok {
            lemma_while_tidy(ops, index, threads, calls, cond, body, (rounds + 1) as usize, next);
        }
    }
}

/// A loop without a condition is tidy.
proof fn lemma_loop_tidy<O: ValueOperations>(
    ops: O,
    index: IndexView,
    threads: usize,
    calls: usize,
    body: Seq<StmtNode>,
    span: Span,
    rounds: usize,
    state: StateView,
)
    requires
        operations_keep_scopes(ops),
    ensures
        is_tidy_loop(loop_ran(ops, index, threads, calls, body, span, rounds, state), state),
    decreases 5 * calls_left(calls) + 3, body, 1int, LOOP_LIMIT - rounds,
{
    if rounds < LOOP_LIMIT {
        let inside = opened(state);
        lemma_stmts_tidy(ops, index, threads, calls, body, 0, inside);
        let ran = stmts_ran(ops, index, threads, calls, body, 0, inside);
        lemma_closed_tidy(ops, ran, inside, state);
        let (flow, next) = closed_behind(ops, ran);
        if flow is Ok {
            lemma_loop_tidy(ops, index, threads, calls, body, span, (rounds + 1) as usize, next);
        }
    }
}

/// A loop over a range is tidy.
proof fn lemma_range_tidy<O: ValueOperations>(
    ops: O,
    index: IndexView,
    threads: usize,
    calls: usize,
    name: Seq<char>,
    range: ForRange,
    ty: TypeView,
    body: Seq<StmtNode>,
    span: Span,
    rounds: usize,
    state: StateView,
)
    requires
        operations_keep_scopes(ops),
    ensures
        is_tidy_loop(
            range_ran(ops, index, threads, calls, name, range, ty, body, span, rounds, state),
            state,
        ),
    decreases 5 * calls_left(calls) + 3, body, 1int, LOOP_LIMIT - rounds,
{
    if rounds < LOOP_LIMIT && range_len(range) > 0 {
        let value = range_value(range, range_start(range));
        let inside = with_env(state, round_env(state.env, name, value, ty));
        lemma_stmts_tidy(ops, index, threads, calls, body, 0, inside);
        let ran = stmts_ran(ops, index, threads, calls, body, 0, inside);
        lemma_closed_tidy(ops, ran, inside, state);
        let (flow, next) = closed_behind(ops, ran);
        if flow is Ok {
            lemma_range_tidy(
                ops,
                index,
                threads,
                calls,
                name,
                range_rest(range),
                ty,
                body,
                span,
                (rounds + 1) as usize,
                next,
            );
        }
    }
}

/// A loop over items is tidy.
proof fn lemma_items_tidy<O: ValueOperations>(
    ops: O,
    index: IndexView,
    threads: usize,
    calls: usize,
    name: Seq<char>,
    items: Seq<ValueView>,
    ty: TypeView,
    body: Seq<StmtNode>,
    span: Span,
    rounds: usize,
    state: StateView,
)
    requires
        operations_keep_scopes(ops),
    ensures
        is_tidy_loop(
            items_ran(ops, index, threads, calls, name, items, ty, body, span, rounds, state),
            state,
        ),
    decreases 5 * calls_left(calls) + 3, body, 1int, LOOP_LIMIT - rounds,
{
    if rounds < LOOP_LIMIT && rounds < items.len() {
        let inside = with_env(state, round_env(state.env, name, items[rounds as int], ty));
        lemma_stmts_tidy(ops, index, threads, calls, body, 0, inside);
        let ran = stmts_ran(ops, index, threads, calls, body, 0, inside);
        lemma_closed_tidy(ops, ran, inside, state);
        let (flow, next) = closed_behind(ops, ran);
        if flow is Ok {
            lemma_items_tidy(
                ops,
                index,
                threads,
                calls,
                name,
                items,
                ty,
                body,
                span,
                (rounds + 1) as usize,
                next,
            );
        }
    }
}

/// Parameters that are bound leave the scopes.
proof fn lemma_params_scopes<O: ValueOperations>(
    ops: O,
    index: IndexView,
    params: Seq<ParamView>,
    args: Seq<ValueView>,
    from: int,
    env: Scopes,
)
    ensures
        params_bound(ops, index, params, args, from, env).1.len() == env.len(),
    decreases params.len() - from,
{
    if 0 <= from < params.len() {
        let param = params[from];
        if let Ok(value) = coerced(ops, args[from], param.ty, param.span) {
            let more = with_name(env, param.name, fresh_binding(value, param.ty, false));
            lemma_params_scopes(ops, index, params, args, from + 1, more);
        }
    }
}

/// A call of a function is tidy.
proof fn lemma_function_tidy<O: ValueOperations>(
    ops: O,
    index: IndexView,
    threads: usize,
    calls: usize,
    function: FunctionView,
    args: Seq<ValueView>,
    state: StateView,
)
    requires
        operations_keep_scopes(ops),
    ensures
        is_tidy_call(
            function_called(ops, index, threads, calls, function, args, state),
            state,
        ),
    decreases 5 * calls_left(calls),
{
    if calls < MAX_CALL_DEPTH {
        let deep = (calls + 1) as usize;
        let inside = opened(state);
        lemma_params_scopes(ops, index, function.params, args, 0, inside.env);
        let (_, env) = params_bound(ops, index, function.params, args, 0, inside.env);
        let start = with_env(inside, env);
        lemma_stmts_tidy(ops, index, threads, deep, function.body, 0, start);
        let ran = stmts_ran(ops, index, threads, deep, function.body, 0, start);
        lemma_closed_tidy(ops, ran, start, state);
    }
}

/// A statement that succeeds leaves the run as deep in loops and in scopes as it
/// was, inside of as many calls, and adds to what is lowered. It leaves the round of a loop
/// only inside of one, and a loop leaves no round of the loop around it.
pub proof fn law_statements_are_tidy<O: ValueOperations>(
    ops: O,
    index: IndexView,
    threads: usize,
    calls: usize,
    stmt: StmtNode,
    state: StateView,
)
    requires
        operations_keep_scopes(ops),
    ensures
        is_tidy(stmt_ran(ops, index, threads, calls, stmt, state), state),
        stmt_ran(ops, index, threads, calls, stmt, state).0 matches Ok(flow) ==> (stmt is While
            || stmt is Loop || stmt is For || stmt is ForEach || stmt is ParFor) ==> !leaves_round(
            flow,
        ),
{
    lemma_stmt_tidy(ops, index, threads, calls, stmt, state);
}

/// The same of a call.
pub proof fn law_calls_are_tidy<O: ValueOperations>(
    ops: O,
    index: IndexView,
    threads: usize,
    calls: usize,
    function: FunctionView,
    args: Seq<ValueView>,
    state: StateView,
)
    requires
        operations_keep_scopes(ops),
    ensures
        is_tidy_call(function_called(ops, index, threads, calls, function, args, state), state),
{
    lemma_function_tidy(ops, index, threads, calls, function, args, state);
}

} // verus!
