//! What statements and functions do.

use crate::ast::{
    exprs_view, params_view, stmts_node_view, BinaryOp, Expr, ExprView, Function, FunctionParam,
    FunctionView, ParForReduction, ParamView, ReductionOp, ReductionView, Span, Stmt, StmtNode,
    TypeName, TypeView,
};
use crate::copy::copy_type;
use crate::diagnostic::{message_at_span, type_message, Diagnostic, DiagnosticView};
use crate::ir::{stmts_view, LoweredStmt, StmtView};
use crate::semantics::assignments::{
    assign_done, assign_field_done, assign_field_element_done, assign_index_done, changed,
    done_view, exec_assign, exec_assign_field, exec_assign_field_element, exec_assign_index,
    exec_field_method, exec_let, field_method_done, finish, let_done, undone, Done,
};
use crate::semantics::environment::{fresh_binding, scope_view, with_name, Binding, Env};
use crate::semantics::evaluate::{all_evaluated, eval_all, eval_expr, evaluated};
use crate::semantics::expressions::{find_called, CallResult, CallResultView};
use crate::semantics::flow::{
    after_body, assert_condition, assertion_failure, break_flow, call_step, check_argument_count,
    check_call_depth, check_parallel_flow, coerce_for_range, continue_flow, count_round, decided,
    enter_round, failed_assertion, finish_call, for_range_values, function_note, if_condition,
    is_handed_out, next_in_range, next_round, optional_value, panic_failure, parallel_problem,
    range_between, range_end_type, range_len, range_rest, range_start, range_type, range_value,
    range_values, too_deep, while_condition, wrong_arguments, CallStep, CallStepView, Flow,
    FlowView, ForRange, LoopStep, LOOP_LIMIT, MAX_CALL_DEPTH, PARFOR_MIN_ITERATIONS,
};
use crate::semantics::index::{IndexView, ProgramIndex};
use crate::semantics::known::{ensure_type_known, type_problem};
use crate::semantics::names::{function_names, position_of, source_name, unknown_function};
use crate::semantics::operations::{
    are_operations, binary, call_and_state, called, coerce, coerced, combined, handed_out,
    lowered_or_failure, message_text, optional_or_failure, parallel, reduce, reduced, release,
    released, shown, shown_as, told, type_of, typed, value_view, ValueOperations,
};
use crate::semantics::outputs::{
    bench_rounds, exit_code, foreach_items, items_of, print_output, printed, word_of, Printed,
    PrintedView,
};
use crate::semantics::qualified::optional_expr;
use crate::semantics::receivers::{
    exec_method, flow_of_call, go_on_behind_call, goes_on, method_ran, ran_view, Ran,
};
use crate::semantics::reductions::{
    combine_reduction, finish_reduction, kept, reduction_target, takes_variable, target_type,
};
use crate::semantics::spans::{expr_span, note_on_stmt, place_of_expr, statement_note};
use crate::semantics::state::{
    noted, plain, start_with, Failure, FailureView, Scopes, State, StateView,
};
use crate::semantics::statements::assign;
use crate::semantics::values::{copy_value, values_view, Value, ValueView};
use vstd::prelude::*;

verus! {

/// A run that stops with an error.
pub open spec fn stopped(error: DiagnosticView, state: StateView) -> Ran {
    (Err(plain(error)), state)
}

/// Where a run stands with other names.
pub open spec fn with_env(state: StateView, env: Scopes) -> StateView {
    StateView { env, ..state }
}

/// Where a run stands in a new scope.
pub open spec fn opened(state: StateView) -> StateView {
    with_env(state, state.env.push(Map::empty()))
}

/// A run once the innermost scope is closed. That it fails is known if that
/// fails.
pub open spec fn closed<O: ValueOperations>(ops: O, ran: Ran) -> Ran {
    let env = ran.1.env;
    let popped = if env.len() > 0 {
        env.last()
    } else {
        Map::empty()
    };
    let left = if env.len() > 0 {
        env.drop_last()
    } else {
        env
    };
    match released(ops, popped, left) {
        (Some(error), env) => stopped(error, with_env(ran.1, env)),
        (None, env) => (ran.0, with_env(ran.1, env)),
    }
}

/// A run that closes the innermost scope unless it fails.
pub open spec fn closed_behind<O: ValueOperations>(ops: O, ran: Ran) -> Ran {
    match ran.0 {
        Err(_) => ran,
        Ok(_) => closed(ops, ran),
    }
}

/// One loop deeper.
pub open spec fn deeper(depth: usize) -> usize {
    if depth < usize::MAX {
        (depth + 1) as usize
    } else {
        depth
    }
}

/// One loop less deep.
pub open spec fn shallower(depth: usize) -> usize {
    if depth > 0 {
        (depth - 1) as usize
    } else {
        depth
    }
}

/// A run that stops because its innermost loop has too many rounds: it is no
/// longer in the loop.
pub open spec fn stopped_at_limit(error: DiagnosticView, state: StateView) -> Ran {
    stopped(error, StateView { loop_depth: shallower(state.loop_depth), ..state })
}

/// A run as deep in loops as before.
pub open spec fn at_depth(ran: Ran, depth: usize) -> Ran {
    match ran.0 {
        Err(_) => ran,
        Ok(_) => (ran.0, StateView { loop_depth: depth, ..ran.1 }),
    }
}

/// The names of a round with the value that its variable has.
pub open spec fn round_env(
    env: Scopes,
    name: Seq<char>,
    value: ValueView,
    ty: TypeView,
) -> Scopes {
    with_name(env.push(Map::empty()), name, fresh_binding(value, ty, false))
}

/// What a range that is written down comes to, and the type of its values.
pub open spec fn range_evaluated<O: ValueOperations>(
    ops: O,
    index: IndexView,
    start: ExprView,
    end: ExprView,
    span: Span,
    env: Scopes,
) -> (Result<(ForRange, TypeView), FailureView>, Scopes) {
    match evaluated(ops, index, start, env) {
        (Err(failure), env) => (Err(failure), env),
        (Ok(first), env) => match evaluated(ops, index, end, env) {
            (Err(failure), env) => (Err(failure), env),
            (Ok(last), env) => match range_type(first, span) {
                Err(error) => (Err(plain(error)), env),
                Ok(ty) => match coerced(ops, last, ty, span) {
                    Err(error) => (Err(plain(error)), env),
                    Ok(last) => match range_between(first, last, span) {
                        Err(error) => (Err(plain(error)), env),
                        Ok(range) => (Ok((range, ty)), env),
                    },
                },
            },
        },
    }
}

/// The text that is printed.
pub open spec fn printed_text<O: ValueOperations>(ops: O, output: PrintedView) -> Seq<char> {
    match output {
        PrintedView::Text(text) => text,
        _ => shown_as(ops, output),
    }
}

/// A run that has lowered one statement more.
pub open spec fn lowers(state: StateView, env: Scopes, stmt: StmtView) -> StateView {
    StateView { env, lowered: state.lowered.push(stmt), ..state }
}

/// What printing does.
pub open spec fn print_ran<O: ValueOperations>(
    ops: O,
    index: IndexView,
    expr: ExprView,
    span: Span,
    state: StateView,
) -> Ran {
    match evaluated(ops, index, expr, state.env) {
        (Err(failure), env) => (Err(failure), with_env(state, env)),
        (Ok(value), env) => match printed(value, span) {
            Err(error) => stopped(error, with_env(state, env)),
            Ok(output) => (
                Ok(FlowView::Next),
                lowers(state, env, StmtView::Print(printed_text(ops, output))),
            ),
        },
    }
}

/// What leaving the program does.
pub open spec fn exit_ran<O: ValueOperations>(
    ops: O,
    index: IndexView,
    expr: ExprView,
    span: Span,
    state: StateView,
) -> Ran {
    match evaluated(ops, index, expr, state.env) {
        (Err(failure), env) => (Err(failure), with_env(state, env)),
        (Ok(value), env) => match word_of(
            value,
            "exit expects a non-negative integer"@,
            "exit code out of range for u64"@,
            "exit expects an integer"@,
            span,
        ) {
            Err(error) => stopped(error, with_env(state, env)),
            Ok(code) => (Ok(FlowView::Exit), lowers(state, env, StmtView::Exit(code))),
        },
    }
}

/// What a loop that is measured does.
pub open spec fn bench_ran<O: ValueOperations>(
    ops: O,
    index: IndexView,
    expr: ExprView,
    span: Span,
    state: StateView,
) -> Ran {
    match evaluated(ops, index, expr, state.env) {
        (Err(failure), env) => (Err(failure), with_env(state, env)),
        (Ok(value), env) => match word_of(
            value,
            "benchloop expects a non-negative integer"@,
            "benchloop iterations out of range"@,
            "benchloop expects an integer"@,
            span,
        ) {
            Err(error) => stopped(error, with_env(state, env)),
            Ok(iterations) => (
                Ok(FlowView::Exit),
                lowers(state, env, StmtView::RuntimeBenchLoop { iterations }),
            ),
        },
    }
}

/// How many calls may still be made inside of some.
pub open spec fn calls_left(calls: usize) -> int {
    if calls < MAX_CALL_DEPTH {
        MAX_CALL_DEPTH - calls
    } else {
        0
    }
}

/// What a call does.
pub open spec fn call_ran<O: ValueOperations>(
    ops: O,
    index: IndexView,
    threads: usize,
    calls: usize,
    name: Seq<char>,
    args: Seq<ExprView>,
    span: Span,
    state: StateView,
) -> Ran
    decreases 5 * calls_left(calls) + 1,
{
    match position_of(function_names(index.functions), name) {
        None => stopped(message_at_span(unknown_function(name), span), state),
        Some(at) => match all_evaluated(ops, index, args, 0, Seq::empty(), state.env) {
            (Err(failure), env) => (Err(failure), with_env(state, env)),
            (Ok(values), env) => flow_of_call(
                function_called(
                    ops,
                    index,
                    threads,
                    calls,
                    index.functions[at],
                    values,
                    with_env(state, env),
                ),
            ),
        },
    }
}

/// What is said of an assertion that does not hold, once its message is known.
pub open spec fn assertion_failed(message: Option<Seq<char>>, span: Span) -> FailureView {
    noted(plain(message_at_span(failed_assertion(message), span)), "statement::assert"@)
}

/// What an assertion does.
pub open spec fn assert_ran<O: ValueOperations>(
    ops: O,
    index: IndexView,
    cond: ExprView,
    message: Option<ExprView>,
    span: Span,
    state: StateView,
) -> Ran {
    match evaluated(ops, index, cond, state.env) {
        (Err(failure), env) => (Err(failure), with_env(state, env)),
        (Ok(value), env) => match decided(
            value,
            "assert condition must be bool"@,
            place_of_expr(cond),
        ) {
            Err(error) => stopped(error, with_env(state, env)),
            Ok(true) => (Ok(FlowView::Next), with_env(state, env)),
            Ok(false) => match message {
                None => (Err(assertion_failed(None, span)), with_env(state, env)),
                Some(message) => match evaluated(ops, index, message, env) {
                    (Err(failure), env) => (Err(failure), with_env(state, env)),
                    (Ok(value), env) => match told(ops, value, span) {
                        Err(error) => stopped(error, with_env(state, env)),
                        Ok(text) => (
                            Err(assertion_failed(Some(text), span)),
                            with_env(state, env),
                        ),
                    },
                },
            },
        },
    }
}

/// What a panic does.
pub open spec fn panic_ran<O: ValueOperations>(
    ops: O,
    index: IndexView,
    message: ExprView,
    span: Span,
    state: StateView,
) -> Ran {
    match evaluated(ops, index, message, state.env) {
        (Err(failure), env) => (Err(failure), with_env(state, env)),
        (Ok(value), env) => match told(ops, value, span) {
            Err(error) => stopped(error, with_env(state, env)),
            Ok(text) => (
                Err(noted(plain(message_at_span("panic: "@ + text, span)), "statement::panic"@)),
                with_env(state, env),
            ),
        },
    }
}

/// What a return does.
pub open spec fn return_ran<O: ValueOperations>(
    ops: O,
    index: IndexView,
    expr: Option<ExprView>,
    state: StateView,
) -> Ran {
    match expr {
        None => (Ok(FlowView::Return(None)), state),
        Some(expr) => match evaluated(ops, index, expr, state.env) {
            (Err(failure), env) => (Err(failure), with_env(state, env)),
            (Ok(value), env) => (Ok(FlowView::Return(Some(value))), with_env(state, env)),
        },
    }
}

/// What a round of a reduction gives.
pub open spec fn round_reduced<O: ValueOperations>(
    ops: O,
    index: IndexView,
    name: Seq<char>,
    reduction: ReductionView,
    ty: TypeView,
    value: ValueView,
    env: Scopes,
    span: Span,
) -> Result<ValueView, FailureView> {
    let given = if (reduction.expr matches ExprView::Ident { name: used, .. } && used == name) {
        Ok::<ValueView, FailureView>(value)
    } else {
        evaluated(
            ops,
            index,
            reduction.expr,
            round_env(env, name, value, typed(ops, value)),
        ).0
    };
    match given {
        Err(failure) => Err(failure),
        Ok(value) => match coerced(ops, value, ty, span) {
            Err(error) => Err(plain(error)),
            Ok(value) => Ok(value),
        },
    }
}

/// Two results of a reduction put together.
pub open spec fn put_together<O: ValueOperations>(
    ops: O,
    op: ReductionOp,
    left: ValueView,
    right: ValueView,
    span: Span,
) -> Result<ValueView, DiagnosticView> {
    match op {
        ReductionOp::Sum => combined(ops, BinaryOp::Add, left, right, span),
        ReductionOp::Min => match combined(ops, BinaryOp::Le, left, right, span) {
            Err(error) => Err(error),
            Ok(compared) => kept(op, left, right, compared, span),
        },
        ReductionOp::Max => match combined(ops, BinaryOp::Ge, left, right, span) {
            Err(error) => Err(error),
            Ok(compared) => kept(op, left, right, compared, span),
        },
    }
}

/// What the results of the parts of a reduction come to from one on, put
/// together from the left with what came before. A part without rounds has none.
pub open spec fn parts_together<O: ValueOperations>(
    ops: O,
    op: ReductionOp,
    parts: Seq<Option<ValueView>>,
    from: int,
    before: Option<ValueView>,
    span: Span,
) -> Result<Option<ValueView>, FailureView>
    decreases parts.len() - from,
{
    if from < 0 || from >= parts.len() {
        Ok(before)
    } else {
        match (before, parts[from]) {
            (Some(left), Some(right)) => match put_together(ops, op, left, right, span) {
                Err(error) => Err(plain(error)),
                Ok(value) => parts_together(ops, op, parts, from + 1, Some(value), span),
            },
            (None, part) => parts_together(ops, op, parts, from + 1, part, span),
            (Some(left), None) => parts_together(ops, op, parts, from + 1, Some(left), span),
        }
    }
}

/// The results of parts as mathematical values.
pub open spec fn parts_view(parts: Seq<Option<Value>>) -> Seq<Option<ValueView>> {
    Seq::new(parts.len(), |i: int| optional_value(parts[i]))
}

/// What the rounds of a reduction come to from one on, put together with what
/// came before.
pub open spec fn rounds_reduced<O: ValueOperations>(
    ops: O,
    index: IndexView,
    name: Seq<char>,
    reduction: ReductionView,
    ty: TypeView,
    rounds: Seq<ValueView>,
    from: int,
    before: Option<ValueView>,
    env: Scopes,
    span: Span,
) -> Result<Option<ValueView>, FailureView>
    decreases rounds.len() - from,
{
    if from < 0 || from >= rounds.len() {
        Ok(before)
    } else {
        match round_reduced(ops, index, name, reduction, ty, rounds[from], env, span) {
            Err(failure) => Err(failure),
            Ok(value) => match before {
                None => rounds_reduced(
                    ops,
                    index,
                    name,
                    reduction,
                    ty,
                    rounds,
                    from + 1,
                    Some(value),
                    env,
                    span,
                ),
                Some(left) => match put_together(ops, reduction.op, left, value, span) {
                    Err(error) => Err(plain(error)),
                    Ok(value) => rounds_reduced(
                        ops,
                        index,
                        name,
                        reduction,
                        ty,
                        rounds,
                        from + 1,
                        Some(value),
                        env,
                        span,
                    ),
                },
            },
        }
    }
}

/// What a reduction does.
pub open spec fn reduction_done<O: ValueOperations>(
    ops: O,
    index: IndexView,
    threads: usize,
    name: Seq<char>,
    reduction: ReductionView,
    rounds: Seq<ValueView>,
    span: Span,
    env: Scopes,
) -> Done {
    match target_type(env, reduction.target, reduction.span) {
        Err(error) => undone(error, env),
        Ok(ty) => {
            let takes = reduction.expr matches ExprView::Ident { name: used, .. } && used == name;
            let result = if !takes && threads > 1 && rounds.len() >= PARFOR_MIN_ITERATIONS {
                reduced(ops, name, reduction, ty, rounds, env, span)
            } else {
                rounds_reduced(ops, index, name, reduction, ty, rounds, 0, None, env, span)
            };
            match result {
                Err(failure) => (Err(failure), env),
                Ok(None) => undone(
                    type_message("reduction requires at least one iteration"@, span),
                    env,
                ),
                Ok(Some(value)) => changed(env, reduction.target, Ok(value), reduction.span),
            }
        },
    }
}

/// What a statement that changes names only does.
pub open spec fn change_done<O: ValueOperations>(
    ops: O,
    index: IndexView,
    stmt: StmtNode,
    env: Scopes,
) -> Done {
    match stmt {
        StmtNode::Let {
            name,
            mutable,
            ty,
            expr,
            span,
        } => let_done(ops, index, name, mutable, ty, expr, span, env),
        StmtNode::Assign { name, expr, span } => assign_done(ops, index, name, expr, span, env),
        StmtNode::AssignField {
            receiver,
            field,
            expr,
            span,
        } => assign_field_done(ops, index, receiver, field, expr, span, env),
        StmtNode::AssignIndex {
            name,
            index: at,
            expr,
            span,
        } => assign_index_done(ops, index, name, at, expr, span, env),
        StmtNode::AssignStructListIndex {
            receiver,
            field,
            index: at,
            expr,
            span,
        } => assign_field_element_done(ops, index, receiver, field, at, expr, span, env),
        StmtNode::StructListMethodCall {
            receiver,
            field,
            name,
            args,
            span,
        } => field_method_done(ops, index, receiver, field, name, args, span, env),
        _ => (Ok(()), env),
    }
}

/// What a branch does.
pub open spec fn branch_ran<O: ValueOperations>(
    ops: O,
    index: IndexView,
    threads: usize,
    calls: usize,
    stmt: StmtNode,
    state: StateView,
) -> Ran
    decreases 5 * calls_left(calls) + 3, stmt, 0int, 0int,
{
    match stmt {
        StmtNode::If { cond, then_branch, else_branch, .. } => match evaluated(
            ops,
            index,
            cond,
            state.env,
        ) {
            (Err(failure), env) => (Err(failure), with_env(state, env)),
            (Ok(value), env) => match decided(
                value,
                "if condition must be bool"@,
                place_of_expr(cond),
            ) {
                Err(error) => stopped(error, with_env(state, env)),
                Ok(true) => closed_behind(
                    ops,
                    stmts_ran(
                        ops,
                        index,
                        threads,
                        calls,
                        then_branch,
                        0,
                        opened(with_env(state, env)),
                    ),
                ),
                Ok(false) => match else_branch {
                    None => (Ok(FlowView::Next), with_env(state, env)),
                    Some(branch) => closed_behind(
                        ops,
                        stmts_ran(
                            ops,
                            index,
                            threads,
                            calls,
                            branch,
                            0,
                            opened(with_env(state, env)),
                        ),
                    ),
                },
            },
        },
        _ => (Ok(FlowView::Next), state),
    }
}

/// What a loop does.
pub open spec fn loops_ran<O: ValueOperations>(
    ops: O,
    index: IndexView,
    threads: usize,
    calls: usize,
    stmt: StmtNode,
    state: StateView,
) -> Ran
    decreases 5 * calls_left(calls) + 3, stmt, 0int, 0int,
{
    match stmt {
        StmtNode::While { cond, body, .. } => at_depth(
            while_ran(
                ops,
                index,
                threads,
                calls,
                cond,
                body,
                0,
                StateView { loop_depth: deeper(state.loop_depth), ..state },
            ),
            state.loop_depth,
        ),
        StmtNode::Loop { body, span } => at_depth(
            loop_ran(
                ops,
                index,
                threads,
                calls,
                body,
                span,
                0,
                StateView { loop_depth: deeper(state.loop_depth), ..state },
            ),
            state.loop_depth,
        ),
        StmtNode::For { name, start, end, body, span } => match range_evaluated(
            ops,
            index,
            start,
            end,
            span,
            state.env,
        ) {
            (Err(failure), env) => (Err(failure), with_env(state, env)),
            (Ok((range, ty)), env) => at_depth(
                range_ran(
                    ops,
                    index,
                    threads,
                    calls,
                    name,
                    range,
                    ty,
                    body,
                    span,
                    0,
                    StateView { env, loop_depth: deeper(state.loop_depth), ..state },
                ),
                state.loop_depth,
            ),
        },
        StmtNode::ForEach { name, iterable, body, span } => match evaluated(
            ops,
            index,
            iterable,
            state.env,
        ) {
            (Err(failure), env) => (Err(failure), with_env(state, env)),
            (Ok(value), env) => match items_of(value, place_of_expr(iterable)) {
                Err(error) => stopped(error, with_env(state, env)),
                Ok((items, ty)) => at_depth(
                    items_ran(
                        ops,
                        index,
                        threads,
                        calls,
                        name,
                        items,
                        ty,
                        body,
                        span,
                        0,
                        StateView { env, loop_depth: deeper(state.loop_depth), ..state },
                    ),
                    state.loop_depth,
                ),
            },
        },
        _ => (Ok(FlowView::Next), state),
    }
}

/// What a parallel loop does.
pub open spec fn parallel_ran<O: ValueOperations>(
    ops: O,
    index: IndexView,
    threads: usize,
    calls: usize,
    stmt: StmtNode,
    state: StateView,
) -> Ran
    decreases 5 * calls_left(calls) + 3, stmt, 0int, 0int,
{
    match stmt {
        StmtNode::ParFor { name, start, end, body, reduction, span } => match range_evaluated(
            ops,
            index,
            start,
            end,
            span,
            state.env,
        ) {
            (Err(failure), env) => (Err(failure), with_env(state, env)),
            (Ok((range, _)), env) => {
                let rounds = range_values(range);
                if rounds.len() > LOOP_LIMIT {
                    stopped(type_message("loop limit exceeded"@, span), with_env(state, env))
                } else if rounds.len() == 0 {
                    (Ok(FlowView::Next), with_env(state, env))
                } else {
                    match reduction {
                        Some(reduction) => goes_on(
                            reduction_done(
                                ops,
                                index,
                                threads,
                                name,
                                reduction,
                                rounds,
                                span,
                                env,
                            ),
                            state,
                        ),
                        None => {
                            let lowered = if threads > 1 && rounds.len()
                                >= PARFOR_MIN_ITERATIONS {
                                handed_out(
                                    ops,
                                    calls,
                                    name,
                                    body,
                                    rounds,
                                    with_env(state, env),
                                    span,
                                )
                            } else {
                                rounds_ran(
                                    ops,
                                    index,
                                    threads,
                                    calls,
                                    name,
                                    body,
                                    rounds,
                                    0,
                                    Seq::empty(),
                                    with_env(state, env),
                                    span,
                                )
                            };
                            match lowered {
                                Err(failure) => (Err(failure), with_env(state, env)),
                                Ok(lowered) => (
                                    Ok(FlowView::Next),
                                    StateView { env, lowered: state.lowered + lowered, ..state },
                                ),
                            }
                        },
                    }
                }
            },
        },
        _ => (Ok(FlowView::Next), state),
    }
}

/// What a statement does.
pub open spec fn stmt_ran<O: ValueOperations>(
    ops: O,
    index: IndexView,
    threads: usize,
    calls: usize,
    stmt: StmtNode,
    state: StateView,
) -> Ran
    decreases 5 * calls_left(calls) + 3, stmt, 1int, 0int,
{
    match stmt {
        StmtNode::Let { .. }
        | StmtNode::Assign { .. }
        | StmtNode::AssignField { .. }
        | StmtNode::AssignIndex { .. }
        | StmtNode::AssignStructListIndex { .. }
        | StmtNode::StructListMethodCall { .. } => goes_on(
            change_done(ops, index, stmt, state.env),
            state,
        ),
        StmtNode::Call {
            name,
            args,
            span,
        } => call_ran(ops, index, threads, calls, name, args, span, state),
        StmtNode::MethodCall { receiver, name, args, span } => method_ran(
            ops,
            index,
            threads,
            calls,
            receiver,
            name,
            args,
            span,
            state,
        ),
        StmtNode::Return { expr, .. } => return_ran(ops, index, expr, state),
        StmtNode::Print { expr, span } => print_ran(ops, index, expr, span, state),
        StmtNode::Exit { expr, span } => exit_ran(ops, index, expr, span, state),
        StmtNode::BenchLoop { iterations, span } => bench_ran(ops, index, iterations, span, state),
        StmtNode::Block { stmts, .. } => closed_behind(
            ops,
            stmts_ran(ops, index, threads, calls, stmts, 0, opened(state)),
        ),
        StmtNode::If { .. } => branch_ran(ops, index, threads, calls, stmt, state),
        StmtNode::While { .. }
        | StmtNode::Loop { .. }
        | StmtNode::For { .. }
        | StmtNode::ForEach { .. } => loops_ran(ops, index, threads, calls, stmt, state),
        StmtNode::ParFor { .. } => parallel_ran(ops, index, threads, calls, stmt, state),
        StmtNode::Assert { cond, message, span } => assert_ran(
            ops,
            index,
            cond,
            message,
            span,
            state,
        ),
        StmtNode::Panic { message, span } => panic_ran(ops, index, message, span, state),
        StmtNode::Break { span } => if state.loop_depth == 0 {
            stopped(type_message("break used outside loop"@, span), state)
        } else {
            (Ok(FlowView::BreakLoop), state)
        },
        StmtNode::Continue { span } => if state.loop_depth == 0 {
            stopped(type_message("continue used outside loop"@, span), state)
        } else {
            (Ok(FlowView::ContinueLoop), state)
        },
    }
}

/// What statements do from one on: one after another, until one does not go on.
pub open spec fn stmts_ran<O: ValueOperations>(
    ops: O,
    index: IndexView,
    threads: usize,
    calls: usize,
    stmts: Seq<StmtNode>,
    from: int,
    state: StateView,
) -> Ran
    decreases 5 * calls_left(calls) + 3, stmts, 0int, stmts.len() - from,
{
    if from < 0 || from >= stmts.len() {
        (Ok(FlowView::Next), state)
    } else {
        match stmt_ran(ops, index, threads, calls, stmts[from], state) {
            (Err(failure), state) => (Err(noted(failure, note_on_stmt(stmts[from]))), state),
            (Ok(flow), state) => if flow == FlowView::Next {
                stmts_ran(ops, index, threads, calls, stmts, from + 1, state)
            } else {
                (Ok(flow), state)
            },
        }
    }
}

/// What a while loop does after some rounds.
pub open spec fn while_ran<O: ValueOperations>(
    ops: O,
    index: IndexView,
    threads: usize,
    calls: usize,
    cond: ExprView,
    body: Seq<StmtNode>,
    rounds: usize,
    state: StateView,
) -> Ran
    decreases 5 * calls_left(calls) + 3, body, 1int, LOOP_LIMIT - rounds,
{
    match evaluated(ops, index, cond, state.env) {
        (Err(failure), env) => (Err(failure), with_env(state, env)),
        (Ok(value), env) => match decided(
            value,
            "while condition must be bool"@,
            place_of_expr(cond),
        ) {
            Err(error) => stopped(error, with_env(state, env)),
            Ok(false) => (Ok(FlowView::Next), with_env(state, env)),
            Ok(true) => match next_round(rounds, place_of_expr(cond)) {
                Err(error) => stopped(error, with_env(state, env)),
                Ok(rounds) => match closed_behind(
                    ops,
                    stmts_ran(ops, index, threads, calls, body, 0, opened(with_env(state, env))),
                ) {
                    (Err(failure), state) => (Err(failure), state),
                    (Ok(flow), state) => match flow {
                        FlowView::Next | FlowView::ContinueLoop => while_ran(
                            ops,
                            index,
                            threads,
                            calls,
                            cond,
                            body,
                            rounds,
                            state,
                        ),
                        FlowView::BreakLoop => (Ok(FlowView::Next), state),
                        _ => (Ok(flow), state),
                    },
                },
            },
        },
    }
}

/// What a loop without a condition does after some rounds.
pub open spec fn loop_ran<O: ValueOperations>(
    ops: O,
    index: IndexView,
    threads: usize,
    calls: usize,
    body: Seq<StmtNode>,
    span: Span,
    rounds: usize,
    state: StateView,
) -> Ran
    decreases 5 * calls_left(calls) + 3, body, 1int, LOOP_LIMIT - rounds,
{
    match next_round(rounds, span) {
        Err(error) => stopped_at_limit(error, state),
        Ok(rounds) => match closed_behind(
            ops,
            stmts_ran(ops, index, threads, calls, body, 0, opened(state)),
        ) {
            (Err(failure), state) => (Err(failure), state),
            (Ok(flow), state) => match flow {
                FlowView::Next | FlowView::ContinueLoop => loop_ran(
                    ops,
                    index,
                    threads,
                    calls,
                    body,
                    span,
                    rounds,
                    state,
                ),
                FlowView::BreakLoop => (Ok(FlowView::Next), state),
                _ => (Ok(flow), state),
            },
        },
    }
}

/// What a loop over a range does after some rounds.
pub open spec fn range_ran<O: ValueOperations>(
    ops: O,
    index: IndexView,
    threads: usize,
    calls: usize,
    name: Seq<char>,
    range: ForRange,
    ty: TypeView,
    body: Seq<StmtNode>,
    span: Span,
    rounds: usize,
    state: StateView,
) -> Ran
    decreases 5 * calls_left(calls) + 3, body, 1int, LOOP_LIMIT - rounds,
{
    if range_len(range) == 0 {
        (Ok(FlowView::Next), state)
    } else {
        match next_round(rounds, span) {
            Err(error) => stopped_at_limit(error, state),
            Ok(rounds) => match closed_behind(
                ops,
                stmts_ran(
                    ops,
                    index,
                    threads,
                    calls,
                    body,
                    0,
                    with_env(
                        state,
                        round_env(
                            state.env,
                            name,
                            range_value(range, range_start(range)),
                            ty,
                        ),
                    ),
                ),
            ) {
                (Err(failure), state) => (Err(failure), state),
                (Ok(flow), state) => match flow {
                    FlowView::Next | FlowView::ContinueLoop => range_ran(
                        ops,
                        index,
                        threads,
                        calls,
                        name,
                        range_rest(range),
                        ty,
                        body,
                        span,
                        rounds,
                        state,
                    ),
                    FlowView::BreakLoop => (Ok(FlowView::Next), state),
                    _ => (Ok(flow), state),
                },
            },
        }
    }
}

/// What a loop over items does after some rounds.
pub open spec fn items_ran<O: ValueOperations>(
    ops: O,
    index: IndexView,
    threads: usize,
    calls: usize,
    name: Seq<char>,
    items: Seq<ValueView>,
    ty: TypeView,
    body: Seq<StmtNode>,
    span: Span,
    rounds: usize,
    state: StateView,
) -> Ran
    decreases 5 * calls_left(calls) + 3, body, 1int, LOOP_LIMIT - rounds,
{
    if rounds >= items.len() {
        (Ok(FlowView::Next), state)
    } else {
        match next_round(rounds, span) {
            Err(error) => stopped_at_limit(error, state),
            Ok(next) => match closed_behind(
                ops,
                stmts_ran(
                    ops,
                    index,
                    threads,
                    calls,
                    body,
                    0,
                    with_env(
                        state,
                        round_env(state.env, name, items[rounds as int], ty),
                    ),
                ),
            ) {
                (Err(failure), state) => (Err(failure), state),
                (Ok(flow), state) => match flow {
                    FlowView::Next | FlowView::ContinueLoop => items_ran(
                        ops,
                        index,
                        threads,
                        calls,
                        name,
                        items,
                        ty,
                        body,
                        span,
                        next,
                        state,
                    ),
                    FlowView::BreakLoop => (Ok(FlowView::Next), state),
                    _ => (Ok(flow), state),
                },
            },
        }
    }
}

/// Where a round of a parallel loop starts: with names of its own, and with
/// nothing lowered.
pub open spec fn round_start<O: ValueOperations>(
    ops: O,
    name: Seq<char>,
    value: ValueView,
    state: StateView,
) -> StateView {
    StateView {
        env: round_env(state.env, name, value, typed(ops, value)),
        loop_depth: deeper(state.loop_depth),
        lowered: Seq::empty(),
    }
}

/// What the rounds of a parallel loop lower to from one on, behind what those
/// before them do.
pub open spec fn rounds_ran<O: ValueOperations>(
    ops: O,
    index: IndexView,
    threads: usize,
    calls: usize,
    name: Seq<char>,
    body: Seq<StmtNode>,
    rounds: Seq<ValueView>,
    from: int,
    before: Seq<StmtView>,
    state: StateView,
    span: Span,
) -> Result<Seq<StmtView>, FailureView>
    decreases 5 * calls_left(calls) + 3, body, 1int, rounds.len() - from,
{
    if from < 0 || from >= rounds.len() {
        Ok(before)
    } else {
        match stmts_ran(
            ops,
            index,
            threads,
            calls,
            body,
            0,
            round_start(ops, name, rounds[from], state),
        ) {
            (Err(failure), _) => Err(failure),
            (Ok(flow), end) => match parallel_problem(flow, span) {
                Some(problem) => Err(plain(problem)),
                None => rounds_ran(
                    ops,
                    index,
                    threads,
                    calls,
                    name,
                    body,
                    rounds,
                    from + 1,
                    before + end.lowered,
                    state,
                    span,
                ),
            },
        }
    }
}

/// The names once the parameters from one on have their arguments.
pub open spec fn params_bound<O: ValueOperations>(
    ops: O,
    index: IndexView,
    params: Seq<ParamView>,
    args: Seq<ValueView>,
    from: int,
    env: Scopes,
) -> Done
    decreases params.len() - from,
{
    if from < 0 || from >= params.len() {
        (Ok(()), env)
    } else {
        let param = params[from];
        match type_problem(param.ty, index, param.span) {
            Some(problem) => undone(problem, env),
            None => match coerced(ops, args[from], param.ty, param.span) {
                Err(error) => undone(error, env),
                Ok(value) => params_bound(
                    ops,
                    index,
                    params,
                    args,
                    from + 1,
                    with_name(env, param.name, fresh_binding(value, param.ty, false)),
                ),
            },
        }
    }
}

/// What a call comes to, or why it fails, and where the run stands then.
pub type Called = (Result<CallResultView, FailureView>, StateView);

/// What a function comes to once its body has run.
pub open spec fn call_finished<O: ValueOperations>(
    ops: O,
    function: FunctionView,
    ran: Ran,
) -> Called {
    match ran {
        (Err(failure), state) => (Err(failure), state),
        (Ok(flow), state) => match call_step(function, flow) {
            Err(error) => (Err(plain(error)), state),
            Ok(CallStepView::Nothing) => (Ok(CallResultView::Continue(None)), state),
            Ok(CallStepView::Exit) => (Ok(CallResultView::Exit), state),
            Ok(CallStepView::Give { value, ty }) => match coerced(ops, value, ty, function.span) {
                Err(error) => (Err(plain(error)), state),
                Ok(value) => (Ok(CallResultView::Continue(Some(value))), state),
            },
        },
    }
}

/// What a function does inside its call.
pub open spec fn function_ran<O: ValueOperations>(
    ops: O,
    index: IndexView,
    threads: usize,
    calls: usize,
    function: FunctionView,
    args: Seq<ValueView>,
    state: StateView,
) -> Called
    decreases 5 * calls_left(calls) + 4,
{
    let inside = opened(state);
    if args.len() != function.params.len() {
        (
            Err(
                plain(
                    type_message(
                        wrong_arguments(function.name, function.params.len(), args.len()),
                        function.span,
                    ),
                ),
            ),
            inside,
        )
    } else {
        match params_bound(ops, index, function.params, args, 0, inside.env) {
            (Err(failure), env) => (Err(failure), with_env(inside, env)),
            (Ok(()), env) => call_finished(
                ops,
                function,
                closed(
                    ops,
                    stmts_ran(ops, index, threads, calls, function.body, 0, with_env(inside, env)),
                ),
            ),
        }
    }
}

/// What a call of a function does.
pub open spec fn function_called<O: ValueOperations>(
    ops: O,
    index: IndexView,
    threads: usize,
    calls: usize,
    function: FunctionView,
    args: Seq<ValueView>,
    state: StateView,
) -> Called
    decreases 5 * calls_left(calls),
{
    if calls >= MAX_CALL_DEPTH {
        (Err(plain(type_message(too_deep(), function.span))), state)
    } else {
        let (result, end) = function_ran(
            ops,
            index,
            threads,
            (calls + 1) as usize,
            function,
            args,
            state,
        );
        (
            match result {
                Ok(found) => Ok(found),
                Err(failure) => Err(
                    noted(failure, "in function '"@ + source_name(function.name) + "'"@),
                ),
            },
            end,
        )
    }
}

/// Closes the innermost scope.
fn close<O: ValueOperations>(ops: &O, flow: Result<Flow, Failure>, state: State) -> (result: (
    Result<Flow, Failure>,
    State,
))
    requires
        are_operations(*ops),
    ensures
        ran_view(result) == closed(*ops, ran_view((flow, state))),
{
    let State { env, loop_depth, lowered } = state;
    let ghost inner = env@;
    let mut env = env;
    let popped = env.pop();
    proof {
        if inner.len() == 0 {
            assert(scope_view(popped@) =~= Map::empty());
        }
    }
    let (outcome, env) = release(ops, popped, env);
    let state = State { env, loop_depth, lowered };
    match outcome {
        Err(error) => (Err(Failure::of(error)), state),
        Ok(()) => (flow, state),
    }
}

/// Closes the innermost scope unless the run fails.
fn close_behind<O: ValueOperations>(ops: &O, ran: (Result<Flow, Failure>, State)) -> (result: (
    Result<Flow, Failure>,
    State,
))
    requires
        are_operations(*ops),
    ensures
        ran_view(result) == closed_behind(*ops, ran_view(ran)),
{
    match ran {
        (Err(failure), state) => (Err(failure), state),
        (Ok(flow), state) => close(ops, Ok(flow), state),
    }
}

/// Opens a scope.
fn open(state: State) -> (inside: State)
    ensures
        inside@ == opened(state@),
{
    let mut state = state;
    state.env.push();
    state
}

/// Opens the scope of a round.
fn open_round(state: State, name: &String, value: Value, ty: TypeName) -> (inside: State)
    ensures
        inside@ == with_env(state@, round_env(state@.env, name@, value@, ty@)),
{
    let mut state = state;
    enter_round(&mut state.env, name, value, ty);
    state
}

/// One loop deeper.
fn go_deeper(depth: usize) -> (inner: usize)
    ensures
        inner == deeper(depth),
{
    if depth < usize::MAX {
        depth + 1
    } else {
        depth
    }
}

/// One loop less deep.
fn go_shallower(depth: usize) -> (outer: usize)
    ensures
        outer == shallower(depth),
{
    if depth > 0 {
        depth - 1
    } else {
        depth
    }
}

/// Leaves a loop.
fn leave_loop(ran: (Result<Flow, Failure>, State), depth: usize) -> (result: (
    Result<Flow, Failure>,
    State,
))
    ensures
        ran_view(result) == at_depth(ran_view(ran), depth),
{
    match ran {
        (Err(failure), state) => (Err(failure), state),
        (Ok(flow), state) => {
            let mut state = state;
            state.loop_depth = depth;
            (Ok(flow), state)
        },
    }
}

/// What a range that is written down comes to, and the type of its values.
fn eval_range<O: ValueOperations>(
    ops: &O,
    index: &ProgramIndex,
    start: &Expr,
    end: &Expr,
    span: Span,
    env: Env,
) -> (result: (Result<(ForRange, TypeName), Failure>, Env))
    requires
        are_operations(*ops),
    ensures
        ({
            let goal = range_evaluated(*ops, index@, start@, end@, span, env@);
            &&& result.1@ == goal.1
            &&& match goal.0 {
                Ok((range, ty)) => result.0 matches Ok((found, found_type)) && found == range
                    && found_type@ == ty,
                Err(failure) => result.0 matches Err(found) && found@ == failure,
            }
        }),
{
    match eval_expr(ops, index, start, env) {
        (Err(failure), env) => (Err(failure), env),
        (Ok(first), env) => match eval_expr(ops, index, end, env) {
            (Err(failure), env) => (Err(failure), env),
            (Ok(last), env) => match range_end_type(&first, span) {
                Err(error) => (Err(Failure::of(error)), env),
                Ok(ty) => match coerce(ops, last, &ty, span) {
                    Err(error) => (Err(Failure::of(error)), env),
                    Ok(last) => match coerce_for_range(&first, &last, span) {
                        Err(error) => (Err(Failure::of(error)), env),
                        Ok(range) => (Ok((range, ty)), env),
                    },
                },
            },
        },
    }
}

/// A run that has lowered one statement more.
fn lower_one(
    env: Env,
    loop_depth: usize,
    lowered: Vec<LoweredStmt>,
    stmt: LoweredStmt,
) -> (state: State)
    ensures
        state@ == (StateView {
            env: env@,
            loop_depth,
            lowered: stmts_view(lowered@).push(stmt@),
        }),
{
    let ghost before = stmts_view(lowered@);
    let mut lowered = lowered;
    lowered.push(stmt);
    assert(stmts_view(lowered@) =~= before.push(stmt@));
    State { env, loop_depth, lowered }
}

/// Prints a value.
fn exec_print<O: ValueOperations>(
    ops: &O,
    index: &ProgramIndex,
    expr: &Expr,
    span: Span,
    state: State,
) -> (result: (Result<Flow, Failure>, State))
    requires
        are_operations(*ops),
    ensures
        ran_view(result) == print_ran(*ops, index@, expr@, span, state@),
{
    let State { env, loop_depth, lowered } = state;
    match eval_expr(ops, index, expr, env) {
        (Err(failure), env) => (Err(failure), State { env, loop_depth, lowered }),
        (Ok(value), env) => match print_output(&value, span) {
            Err(error) => (
                Err(Failure::of(error)),
                State { env, loop_depth, lowered },
            ),
            Ok(output) => {
                let text = match output {
                    Printed::Text(text) => text,
                    Printed::Float { bits, value } => shown(ops, Printed::Float { bits, value }),
                };
                (
                    Ok(Flow::Next),
                    lower_one(env, loop_depth, lowered, LoweredStmt::Print(text)),
                )
            },
        },
    }
}

/// Leaves the program.
fn exec_exit<O: ValueOperations>(
    ops: &O,
    index: &ProgramIndex,
    expr: &Expr,
    span: Span,
    state: State,
) -> (result: (Result<Flow, Failure>, State))
    requires
        are_operations(*ops),
    ensures
        ran_view(result) == exit_ran(*ops, index@, expr@, span, state@),
{
    let State { env, loop_depth, lowered } = state;
    match eval_expr(ops, index, expr, env) {
        (Err(failure), env) => (Err(failure), State { env, loop_depth, lowered }),
        (Ok(value), env) => match exit_code(&value, span) {
            Err(error) => (
                Err(Failure::of(error)),
                State { env, loop_depth, lowered },
            ),
            Ok(code) => (
                Ok(Flow::Exit),
                lower_one(env, loop_depth, lowered, LoweredStmt::Exit(code)),
            ),
        },
    }
}

/// Measures a loop.
fn exec_bench<O: ValueOperations>(
    ops: &O,
    index: &ProgramIndex,
    expr: &Expr,
    span: Span,
    state: State,
) -> (result: (Result<Flow, Failure>, State))
    requires
        are_operations(*ops),
    ensures
        ran_view(result) == bench_ran(*ops, index@, expr@, span, state@),
{
    let State { env, loop_depth, lowered } = state;
    match eval_expr(ops, index, expr, env) {
        (Err(failure), env) => (Err(failure), State { env, loop_depth, lowered }),
        (Ok(value), env) => match bench_rounds(&value, span) {
            Err(error) => (
                Err(Failure::of(error)),
                State { env, loop_depth, lowered },
            ),
            Ok(iterations) => (
                Ok(Flow::Exit),
                lower_one(
                    env,
                    loop_depth,
                    lowered,
                    LoweredStmt::RuntimeBenchLoop { iterations },
                ),
            ),
        },
    }
}

/// Calls a function.
fn exec_call<O: ValueOperations>(
    ops: &O,
    index: &ProgramIndex,
    threads: usize,
    calls: usize,
    name: &String,
    args: &Vec<Expr>,
    span: Span,
    state: State,
) -> (result: (Result<Flow, Failure>, State))
    requires
        are_operations(*ops),
    ensures
        ran_view(result) == call_ran(
            *ops,
            index@,
            threads,
            calls,
            name@,
            exprs_view(args@),
            span,
            state@,
        ),
    decreases 5 * calls_left(calls) + 1,
{
    match find_called(index, name, span) {
        Err(error) => (Err(Failure::of(error)), state),
        Ok(at) => {
            let State { env, loop_depth, lowered } = state;
            match eval_all(ops, index, args, env) {
                (Err(failure), env) => (
                    Err(failure),
                    State { env, loop_depth, lowered },
                ),
                (Ok(values), env) => {
                    assert(index@.functions[at as int] == index.functions@[at as int]@);
                    go_on_behind_call(
                        exec_function(
                            ops,
                            index,
                            threads,
                            calls,
                            &index.functions[at],
                            &values,
                            State { env, loop_depth, lowered },
                        ),
                    )
                },
            }
        },
    }
}

/// Checks an assertion.
fn exec_assert<O: ValueOperations>(
    ops: &O,
    index: &ProgramIndex,
    cond: &Expr,
    message: &Option<Expr>,
    span: Span,
    state: State,
) -> (result: (Result<Flow, Failure>, State))
    requires
        are_operations(*ops),
    ensures
        ran_view(result) == assert_ran(
            *ops,
            index@,
            cond@,
            optional_expr(*message),
            span,
            state@,
        ),
{
    let State { env, loop_depth, lowered } = state;
    let (value, env) = eval_expr(ops, index, cond, env);
    let holds = match value {
        Err(failure) => {
            return (Err(failure), State { env, loop_depth, lowered });
        },
        Ok(value) => assert_condition(&value, expr_span(cond)),
    };
    match holds {
        Err(error) => (Err(Failure::of(error)), State { env, loop_depth, lowered }),
        Ok(true) => (Ok(Flow::Next), State { env, loop_depth, lowered }),
        Ok(false) => {
            let (text, env): (Option<String>, Env) = match message {
                None => (None, env),
                Some(message) => {
                    let (value, env) = eval_expr(ops, index, message, env);
                    match value {
                        Err(failure) => {
                            return (
                                Err(failure),
                                State { env, loop_depth, lowered },
                            );
                        },
                        Ok(value) => match message_text(ops, value, span) {
                            Err(error) => {
                                return (
                                    Err(Failure::of(error)),
                                    State { env, loop_depth, lowered },
                                );
                            },
                            Ok(text) => (Some(text), env),
                        },
                    }
                },
            };
            let failure = Failure::of(assertion_failure(text, span)).noted(
                "statement::assert".to_string(),
            );
            (Err(failure), State { env, loop_depth, lowered })
        },
    }
}

/// Panics.
fn exec_panic<O: ValueOperations>(
    ops: &O,
    index: &ProgramIndex,
    message: &Expr,
    span: Span,
    state: State,
) -> (result: (Result<Flow, Failure>, State))
    requires
        are_operations(*ops),
    ensures
        ran_view(result) == panic_ran(*ops, index@, message@, span, state@),
{
    let State { env, loop_depth, lowered } = state;
    let (value, env) = eval_expr(ops, index, message, env);
    let state = State { env, loop_depth, lowered };
    match value {
        Err(failure) => (Err(failure), state),
        Ok(value) => match message_text(ops, value, span) {
            Err(error) => (Err(Failure::of(error)), state),
            Ok(text) => (
                Err(
                    Failure::of(panic_failure(&text, span)).noted("statement::panic".to_string()),
                ),
                state,
            ),
        },
    }
}

/// Returns from a function.
fn exec_return<O: ValueOperations>(
    ops: &O,
    index: &ProgramIndex,
    expr: &Option<Expr>,
    state: State,
) -> (result: (Result<Flow, Failure>, State))
    requires
        are_operations(*ops),
    ensures
        ran_view(result) == return_ran(*ops, index@, optional_expr(*expr), state@),
{
    match expr {
        None => (Ok(Flow::Return(None)), state),
        Some(expr) => {
            let State { env, loop_depth, lowered } = state;
            let (value, env) = eval_expr(ops, index, expr, env);
            let state = State { env, loop_depth, lowered };
            match value {
                Err(failure) => (Err(failure), state),
                Ok(value) => (Ok(Flow::Return(Some(value))), state),
            }
        },
    }
}

/// What a round of a reduction gives.
fn reduce_round<O: ValueOperations>(
    ops: &O,
    index: &ProgramIndex,
    name: &String,
    reduction: &ParForReduction,
    ty: &TypeName,
    value: &Value,
    env: &Env,
    span: Span,
) -> (result: Result<Value, Failure>)
    requires
        are_operations(*ops),
    ensures
        match round_reduced(*ops, index@, name@, reduction@, ty@, value@, env@, span) {
            Ok(value) => result matches Ok(found) && found@ == value,
            Err(failure) => result matches Err(found) && found@ == failure,
        },
{
    let given = if takes_variable(reduction, name) {
        copy_value(value)
    } else {
        let mut local = env.clone();
        let variable = type_of(ops, value);
        enter_round(&mut local, name, copy_value(value), variable);
        let (given, _) = eval_expr(ops, index, &reduction.expr, local);
        match given {
            Err(failure) => {
                return Err(failure);
            },
            Ok(given) => given,
        }
    };
    match coerce(ops, given, ty, span) {
        Err(error) => Err(Failure::of(error)),
        Ok(value) => Ok(value),
    }
}

/// Puts two results of a reduction together.
pub fn combine<O: ValueOperations>(
    ops: &O,
    op: ReductionOp,
    left: Value,
    right: Value,
    span: Span,
) -> (outcome: Result<Value, Diagnostic>)
    requires
        are_operations(*ops),
    ensures
        value_view(outcome) == put_together(*ops, op, left@, right@, span),
{
    match op {
        ReductionOp::Sum => binary(ops, BinaryOp::Add, left, right, span),
        ReductionOp::Min => match binary(
            ops,
            BinaryOp::Le,
            copy_value(&left),
            copy_value(&right),
            span,
        ) {
            Err(error) => Err(error),
            Ok(compared) => combine_reduction(op, left, right, &compared, span),
        },
        ReductionOp::Max => match binary(
            ops,
            BinaryOp::Ge,
            copy_value(&left),
            copy_value(&right),
            span,
        ) {
            Err(error) => Err(error),
            Ok(compared) => combine_reduction(op, left, right, &compared, span),
        },
    }
}

/// Puts the results of the parts of a reduction together, from the left.
pub fn combine_parts<O: ValueOperations>(
    ops: &O,
    op: ReductionOp,
    parts: &Vec<Option<Value>>,
    span: Span,
) -> (outcome: Result<Option<Value>, Failure>)
    requires
        are_operations(*ops),
    ensures
        optional_or_failure(outcome) == parts_together(*ops, op, parts_view(parts@), 0, None, span),
{
    let ghost all = parts_view(parts@);
    let mut result: Option<Value> = None;
    for i in 0..parts.len()
        invariant
            are_operations(*ops),
            all == parts_view(parts@),
            parts_together(*ops, op, all, 0, None, span) == parts_together(
                *ops,
                op,
                all,
                i as int,
                optional_value(result),
                span,
            ),
    {
        assert(all[i as int] == optional_value(parts@[i as int]));
        if let Some(part) = &parts[i] {
            let part = copy_value(part);
            result = match result {
                None => Some(part),
                Some(left) => match combine(ops, op, left, part, span) {
                    Err(error) => {
                        return Err(Failure::of(error));
                    },
                    Ok(value) => Some(value),
                },
            };
        }
    }
    Ok(result)
}

/// What some rounds of a reduction come to, one after another.
pub fn reduce_rounds<O: ValueOperations>(
    ops: &O,
    index: &ProgramIndex,
    name: &String,
    reduction: &ParForReduction,
    ty: &TypeName,
    rounds: &Vec<Value>,
    env: &Env,
    span: Span,
) -> (result: Result<Option<Value>, Failure>)
    requires
        are_operations(*ops),
    ensures
        optional_or_failure(result) == rounds_reduced(
            *ops,
            index@,
            name@,
            reduction@,
            ty@,
            values_view(rounds@),
            0,
            None,
            env@,
            span,
        ),
{
    let ghost all = values_view(rounds@);
    let ghost goal = rounds_reduced(
        *ops,
        index@,
        name@,
        reduction@,
        ty@,
        all,
        0,
        None,
        env@,
        span,
    );
    let mut before: Option<Value> = None;
    for i in 0..rounds.len()
        invariant
            are_operations(*ops),
            all == values_view(rounds@),
            goal == rounds_reduced(
                *ops,
                index@,
                name@,
                reduction@,
                ty@,
                all,
                0,
                None,
                env@,
                span,
            ),
            goal == rounds_reduced(
                *ops,
                index@,
                name@,
                reduction@,
                ty@,
                all,
                i as int,
                optional_value(before),
                env@,
                span,
            ),
    {
        assert(all[i as int] == rounds@[i as int]@);
        let value = match reduce_round(ops, index, name, reduction, ty, &rounds[i], env, span) {
            Err(failure) => {
                return Err(failure);
            },
            Ok(value) => value,
        };
        before = match before {
            None => Some(value),
            Some(left) => match combine(ops, reduction.op, left, value, span) {
                Err(error) => {
                    return Err(Failure::of(error));
                },
                Ok(value) => Some(value),
            },
        };
    }
    Ok(before)
}

/// Reduces the rounds of a parallel loop.
fn exec_reduction<O: ValueOperations>(
    ops: &O,
    index: &ProgramIndex,
    threads: usize,
    name: &String,
    reduction: &ParForReduction,
    rounds: &Vec<Value>,
    span: Span,
    env: Env,
) -> (result: (Result<(), Failure>, Env))
    requires
        are_operations(*ops),
    ensures
        done_view(result) == reduction_done(
            *ops,
            index@,
            threads,
            name@,
            reduction@,
            values_view(rounds@),
            span,
            env@,
        ),
{
    assert(values_view(rounds@).len() == rounds@.len());
    let ty = match reduction_target(&env, reduction) {
        Err(error) => {
            return (Err(Failure::of(error)), env);
        },
        Ok(ty) => ty,
    };
    let reduced = if !takes_variable(reduction, name) && is_handed_out(threads, rounds.len()) {
        reduce(ops, name, reduction, &ty, rounds, &env, span)
    } else {
        reduce_rounds(ops, index, name, reduction, &ty, rounds, &env, span)
    };
    match reduced {
        Err(failure) => (Err(failure), env),
        Ok(reduced) => match finish_reduction(reduced, span) {
            Err(error) => (Err(Failure::of(error)), env),
            Ok(value) => {
                let mut env = env;
                let outcome = assign(&mut env, &reduction.target, value, reduction.span);
                finish(outcome, env)
            },
        },
    }
}

/// Runs statements one after another, until one does not go on.
pub fn exec_stmts<O: ValueOperations>(
    ops: &O,
    index: &ProgramIndex,
    threads: usize,
    calls: usize,
    stmts: &Vec<Stmt>,
    state: State,
) -> (result: (Result<Flow, Failure>, State))
    requires
        are_operations(*ops),
    ensures
        ran_view(result) == stmts_ran(
            *ops,
            index@,
            threads,
            calls,
            stmts_node_view(stmts@),
            0,
            state@,
        ),
    decreases 5 * calls_left(calls) + 3, stmts, 0int,
{
    let ghost all = stmts_node_view(stmts@);
    let ghost goal = stmts_ran(*ops, index@, threads, calls, all, 0, state@);
    let mut now = state;
    for i in 0..stmts.len()
        invariant
            are_operations(*ops),
            all == stmts_node_view(stmts@),
            goal == stmts_ran(*ops, index@, threads, calls, all, 0, state@),
            goal == stmts_ran(*ops, index@, threads, calls, all, i as int, now@),
    {
        assert(all[i as int] == stmts@[i as int]@);
        let (flow, next) = exec_stmt(ops, index, threads, calls, &stmts[i], now);
        now = next;
        match flow {
            Err(failure) => {
                return (Err(failure.noted(statement_note(&stmts[i]))), now);
            },
            Ok(Flow::Next) => {},
            Ok(flow) => {
                return (Ok(flow), now);
            },
        }
    }
    (Ok(Flow::Next), now)
}

/// Runs statements in a scope of their own.
fn exec_scope<O: ValueOperations>(
    ops: &O,
    index: &ProgramIndex,
    threads: usize,
    calls: usize,
    stmts: &Vec<Stmt>,
    state: State,
) -> (result: (Result<Flow, Failure>, State))
    requires
        are_operations(*ops),
    ensures
        ran_view(result) == closed_behind(
            *ops,
            stmts_ran(*ops, index@, threads, calls, stmts_node_view(stmts@), 0, opened(state@)),
        ),
    decreases 5 * calls_left(calls) + 3, stmts, 1int,
{
    close_behind(ops, exec_stmts(ops, index, threads, calls, stmts, open(state)))
}

/// Runs a while loop.
fn exec_while<O: ValueOperations>(
    ops: &O,
    index: &ProgramIndex,
    threads: usize,
    calls: usize,
    cond: &Expr,
    body: &Vec<Stmt>,
    state: State,
) -> (result: (Result<Flow, Failure>, State))
    requires
        are_operations(*ops),
    ensures
        ran_view(result) == while_ran(
            *ops,
            index@,
            threads,
            calls,
            cond@,
            stmts_node_view(body@),
            0,
            state@,
        ),
    decreases 5 * calls_left(calls) + 3, body, 2int,
{
    let ghost stmts = stmts_node_view(body@);
    let ghost goal = while_ran(*ops, index@, threads, calls, cond@, stmts, 0, state@);
    let mut now = state;
    let mut rounds: usize = 0;
    loop
        invariant
            are_operations(*ops),
            stmts == stmts_node_view(body@),
            rounds <= LOOP_LIMIT,
            goal == while_ran(*ops, index@, threads, calls, cond@, stmts, 0, state@),
            goal == while_ran(*ops, index@, threads, calls, cond@, stmts, rounds, now@),
        decreases LOOP_LIMIT - rounds,
    {
        let State { env, loop_depth, lowered } = now;
        let (value, env) = eval_expr(ops, index, cond, env);
        now = State { env, loop_depth, lowered };
        let holds = match value {
            Err(failure) => {
                return (Err(failure), now);
            },
            Ok(value) => while_condition(&value, expr_span(cond)),
        };
        match holds {
            Err(error) => {
                return (Err(Failure::of(error)), now);
            },
            Ok(false) => {
                return (Ok(Flow::Next), now);
            },
            Ok(true) => {},
        }
        match count_round(rounds, expr_span(cond)) {
            Err(error) => {
                return (Err(Failure::of(error)), now);
            },
            Ok(next) => {
                rounds = next;
            },
        }
        let (flow, next) = exec_scope(ops, index, threads, calls, body, now);
        now = next;
        match flow {
            Err(failure) => {
                return (Err(failure), now);
            },
            Ok(flow) => match after_body(flow) {
                LoopStep::Again => {},
                LoopStep::Done => {
                    return (Ok(Flow::Next), now);
                },
                LoopStep::Leave(flow) => {
                    return (Ok(flow), now);
                },
            },
        }
    }
}

/// Runs a loop without a condition.
fn exec_loop<O: ValueOperations>(
    ops: &O,
    index: &ProgramIndex,
    threads: usize,
    calls: usize,
    body: &Vec<Stmt>,
    span: Span,
    state: State,
) -> (result: (Result<Flow, Failure>, State))
    requires
        are_operations(*ops),
    ensures
        ran_view(result) == loop_ran(
            *ops,
            index@,
            threads,
            calls,
            stmts_node_view(body@),
            span,
            0,
            state@,
        ),
    decreases 5 * calls_left(calls) + 3, body, 2int,
{
    let ghost stmts = stmts_node_view(body@);
    let ghost goal = loop_ran(*ops, index@, threads, calls, stmts, span, 0, state@);
    let mut now = state;
    let mut rounds: usize = 0;
    loop
        invariant
            are_operations(*ops),
            stmts == stmts_node_view(body@),
            rounds <= LOOP_LIMIT,
            goal == loop_ran(*ops, index@, threads, calls, stmts, span, 0, state@),
            goal == loop_ran(*ops, index@, threads, calls, stmts, span, rounds, now@),
        decreases LOOP_LIMIT - rounds,
    {
        match count_round(rounds, span) {
            Err(error) => {
                now.loop_depth = go_shallower(now.loop_depth);
                return (Err(Failure::of(error)), now);
            },
            Ok(next) => {
                rounds = next;
            },
        }
        let (flow, next) = exec_scope(ops, index, threads, calls, body, now);
        now = next;
        match flow {
            Err(failure) => {
                return (Err(failure), now);
            },
            Ok(flow) => match after_body(flow) {
                LoopStep::Again => {},
                LoopStep::Done => {
                    return (Ok(Flow::Next), now);
                },
                LoopStep::Leave(flow) => {
                    return (Ok(flow), now);
                },
            },
        }
    }
}

/// Runs a loop over a range.
fn exec_range<O: ValueOperations>(
    ops: &O,
    index: &ProgramIndex,
    threads: usize,
    calls: usize,
    name: &String,
    range: ForRange,
    ty: &TypeName,
    body: &Vec<Stmt>,
    span: Span,
    state: State,
) -> (result: (Result<Flow, Failure>, State))
    requires
        are_operations(*ops),
    ensures
        ran_view(result) == range_ran(
            *ops,
            index@,
            threads,
            calls,
            name@,
            range,
            ty@,
            stmts_node_view(body@),
            span,
            0,
            state@,
        ),
    decreases 5 * calls_left(calls) + 3, body, 2int,
{
    let ghost stmts = stmts_node_view(body@);
    let ghost goal = range_ran(
        *ops,
        index@,
        threads,
        calls,
        name@,
        range,
        ty@,
        stmts,
        span,
        0,
        state@,
    );
    let mut now = state;
    let mut rest = range;
    let mut rounds: usize = 0;
    loop
        invariant
            are_operations(*ops),
            stmts == stmts_node_view(body@),
            rounds <= LOOP_LIMIT,
            goal == range_ran(
                *ops,
                index@,
                threads,
                calls,
                name@,
                range,
                ty@,
                stmts,
                span,
                0,
                state@,
            ),
            goal == range_ran(
                *ops,
                index@,
                threads,
                calls,
                name@,
                rest,
                ty@,
                stmts,
                span,
                rounds,
                now@,
            ),
        decreases LOOP_LIMIT - rounds,
    {
        let value = match next_in_range(rest) {
            None => {
                return (Ok(Flow::Next), now);
            },
            Some((value, next)) => {
                rest = next;
                value
            },
        };
        match count_round(rounds, span) {
            Err(error) => {
                now.loop_depth = go_shallower(now.loop_depth);
                return (Err(Failure::of(error)), now);
            },
            Ok(next) => {
                rounds = next;
            },
        }
        let inside = open_round(now, name, value, copy_type(ty));
        let ran = exec_stmts(ops, index, threads, calls, body, inside);
        let (flow, next) = close_behind(ops, ran);
        now = next;
        match flow {
            Err(failure) => {
                return (Err(failure), now);
            },
            Ok(flow) => match after_body(flow) {
                LoopStep::Again => {},
                LoopStep::Done => {
                    return (Ok(Flow::Next), now);
                },
                LoopStep::Leave(flow) => {
                    return (Ok(flow), now);
                },
            },
        }
    }
}

/// Runs a loop over items.
fn exec_items<O: ValueOperations>(
    ops: &O,
    index: &ProgramIndex,
    threads: usize,
    calls: usize,
    name: &String,
    items: &Vec<Value>,
    ty: &TypeName,
    body: &Vec<Stmt>,
    span: Span,
    state: State,
) -> (result: (Result<Flow, Failure>, State))
    requires
        are_operations(*ops),
    ensures
        ran_view(result) == items_ran(
            *ops,
            index@,
            threads,
            calls,
            name@,
            values_view(items@),
            ty@,
            stmts_node_view(body@),
            span,
            0,
            state@,
        ),
    decreases 5 * calls_left(calls) + 3, body, 2int,
{
    let ghost stmts = stmts_node_view(body@);
    let ghost all = values_view(items@);
    let ghost goal = items_ran(
        *ops,
        index@,
        threads,
        calls,
        name@,
        all,
        ty@,
        stmts,
        span,
        0,
        state@,
    );
    let mut now = state;
    let mut rounds: usize = 0;
    while rounds < items.len()
        invariant
            are_operations(*ops),
            stmts == stmts_node_view(body@),
            all == values_view(items@),
            all.len() == items@.len(),
            rounds <= LOOP_LIMIT,
            goal == items_ran(
                *ops,
                index@,
                threads,
                calls,
                name@,
                all,
                ty@,
                stmts,
                span,
                0,
                state@,
            ),
            goal == items_ran(
                *ops,
                index@,
                threads,
                calls,
                name@,
                all,
                ty@,
                stmts,
                span,
                rounds,
                now@,
            ),
        decreases LOOP_LIMIT - rounds,
    {
        assert(all[rounds as int] == items@[rounds as int]@);
        let at: usize = rounds;
        match count_round(rounds, span) {
            Err(error) => {
                now.loop_depth = go_shallower(now.loop_depth);
                return (Err(Failure::of(error)), now);
            },
            Ok(next) => {
                rounds = next;
            },
        }
        let inside = open_round(now, name, copy_value(&items[at]), copy_type(ty));
        let ran = exec_stmts(ops, index, threads, calls, body, inside);
        let (flow, next) = close_behind(ops, ran);
        now = next;
        match flow {
            Err(failure) => {
                return (Err(failure), now);
            },
            Ok(flow) => match after_body(flow) {
                LoopStep::Again => {},
                LoopStep::Done => {
                    return (Ok(Flow::Next), now);
                },
                LoopStep::Leave(flow) => {
                    return (Ok(flow), now);
                },
            },
        }
    }
    (Ok(Flow::Next), now)
}

/// What some rounds of a parallel loop lower to, one after another.
pub fn exec_rounds<O: ValueOperations>(
    ops: &O,
    index: &ProgramIndex,
    threads: usize,
    calls: usize,
    name: &String,
    body: &Vec<Stmt>,
    rounds: &Vec<Value>,
    state: &State,
    span: Span,
) -> (result: Result<Vec<LoweredStmt>, Failure>)
    requires
        are_operations(*ops),
    ensures
        lowered_or_failure(result) == rounds_ran(
            *ops,
            index@,
            threads,
            calls,
            name@,
            stmts_node_view(body@),
            values_view(rounds@),
            0,
            Seq::empty(),
            state@,
            span,
        ),
    decreases 5 * calls_left(calls) + 3, body, 2int,
{
    let ghost stmts = stmts_node_view(body@);
    let ghost all = values_view(rounds@);
    let ghost goal = rounds_ran(
        *ops,
        index@,
        threads,
        calls,
        name@,
        stmts,
        all,
        0,
        Seq::empty(),
        state@,
        span,
    );
    let mut lowered: Vec<LoweredStmt> = Vec::new();
    assert(stmts_view(lowered@) =~= Seq::empty());
    for i in 0..rounds.len()
        invariant
            are_operations(*ops),
            stmts == stmts_node_view(body@),
            all == values_view(rounds@),
            goal == rounds_ran(
                *ops,
                index@,
                threads,
                calls,
                name@,
                stmts,
                all,
                0,
                Seq::empty(),
                state@,
                span,
            ),
            goal == rounds_ran(
                *ops,
                index@,
                threads,
                calls,
                name@,
                stmts,
                all,
                i as int,
                stmts_view(lowered@),
                state@,
                span,
            ),
    {
        assert(all[i as int] == rounds@[i as int]@);
        let start = start_round(ops, name, &rounds[i], state);
        let (flow, end) = exec_stmts(ops, index, threads, calls, body, start);
        let flow = match flow {
            Err(failure) => {
                return Err(failure);
            },
            Ok(flow) => flow,
        };
        match check_parallel_flow(&flow, span) {
            Err(error) => {
                return Err(Failure::of(error));
            },
            Ok(()) => {},
        }
        let mut more = end.lowered;
        let ghost before = stmts_view(lowered@);
        let ghost added = stmts_view(more@);
        lowered.append(&mut more);
        assert(stmts_view(lowered@) =~= before + added);
    }
    Ok(lowered)
}

/// Where a round of a parallel loop starts.
fn start_round<O: ValueOperations>(ops: &O, name: &String, value: &Value, state: &State) -> (start:
    State)
    requires
        are_operations(*ops),
    ensures
        start@ == round_start(*ops, name@, value@, state@),
{
    let mut env = state.env.clone();
    let ty = type_of(ops, value);
    enter_round(&mut env, name, copy_value(value), ty);
    let lowered: Vec<LoweredStmt> = Vec::new();
    assert(stmts_view(lowered@) =~= Seq::empty());
    State {
        env,
        loop_depth: go_deeper(state.loop_depth),
        lowered,
    }
}

/// Runs a parallel loop.
fn exec_parallel<O: ValueOperations>(
    ops: &O,
    index: &ProgramIndex,
    threads: usize,
    calls: usize,
    stmt: &Stmt,
    state: State,
) -> (result: (Result<Flow, Failure>, State))
    requires
        are_operations(*ops),
        stmt is ParFor,
    ensures
        ran_view(result) == parallel_ran(*ops, index@, threads, calls, stmt@, state@),
    decreases 5 * calls_left(calls) + 3, stmt, 0int,
{
    match stmt {
        Stmt::ParFor { name, start, end, body, reduction, span } => {
            let State { env, loop_depth, lowered } = state;
            let (range, env) = eval_range(ops, index, start, end, *span, env);
            let range: ForRange = match range {
                Err(failure) => {
                    return (Err(failure), State { env, loop_depth, lowered });
                },
                Ok((range, _)) => range,
            };
            let rounds = for_range_values(range);
            assert(values_view(rounds@).len() == rounds@.len());
            if rounds.len() > LOOP_LIMIT {
                return (
                    Err(Failure::of(Diagnostic::about_types("loop limit exceeded", *span))),
                    State { env, loop_depth, lowered },
                );
            }
            if rounds.len() == 0 {
                return (Ok(Flow::Next), State { env, loop_depth, lowered });
            }
            match reduction {
                Some(reduction) => {
                    let (done, env) = exec_reduction(
                        ops,
                        index,
                        threads,
                        name,
                        reduction,
                        &rounds,
                        *span,
                        env,
                    );
                    let state = State { env, loop_depth, lowered };
                    match done {
                        Err(failure) => (Err(failure), state),
                        Ok(()) => (Ok(Flow::Next), state),
                    }
                },
                None => {
                    let state = State { env, loop_depth, lowered };
                    let more = if is_handed_out(threads, rounds.len()) {
                        parallel(ops, calls, name, body, &rounds, &state, *span)
                    } else {
                        exec_rounds(ops, index, threads, calls, name, body, &rounds, &state, *span)
                    };
                    match more {
                        Err(failure) => (Err(failure), state),
                        Ok(more) => {
                            let mut more = more;
                            let State { env, loop_depth, lowered } = state;
                            let mut lowered = lowered;
                            let ghost before = stmts_view(lowered@);
                            let ghost added = stmts_view(more@);
                            lowered.append(&mut more);
                            assert(stmts_view(lowered@) =~= before + added);
                            (Ok(Flow::Next), State { env, loop_depth, lowered })
                        },
                    }
                },
            }
        },
        _ => (Ok(Flow::Next), state),
    }
}

/// Runs a branch.
fn exec_if<O: ValueOperations>(
    ops: &O,
    index: &ProgramIndex,
    threads: usize,
    calls: usize,
    stmt: &Stmt,
    state: State,
) -> (result: (Result<Flow, Failure>, State))
    requires
        are_operations(*ops),
        stmt is If,
    ensures
        ran_view(result) == branch_ran(*ops, index@, threads, calls, stmt@, state@),
    decreases 5 * calls_left(calls) + 3, stmt, 0int,
{
    match stmt {
        Stmt::If { cond, then_branch, else_branch, .. } => {
            let State { env, loop_depth, lowered } = state;
            let (value, env) = eval_expr(ops, index, cond, env);
            let state = State { env, loop_depth, lowered };
            let holds = match value {
                Err(failure) => {
                    return (Err(failure), state);
                },
                Ok(value) => if_condition(&value, expr_span(cond)),
            };
            match holds {
                Err(error) => (Err(Failure::of(error)), state),
                Ok(true) => exec_scope(ops, index, threads, calls, then_branch, state),
                Ok(false) => match else_branch {
                    None => (Ok(Flow::Next), state),
                    Some(branch) => exec_scope(ops, index, threads, calls, branch, state),
                },
            }
        },
        _ => (Ok(Flow::Next), state),
    }
}

/// Runs a loop.
fn exec_loops<O: ValueOperations>(
    ops: &O,
    index: &ProgramIndex,
    threads: usize,
    calls: usize,
    stmt: &Stmt,
    state: State,
) -> (result: (Result<Flow, Failure>, State))
    requires
        are_operations(*ops),
        stmt is While || stmt is Loop || stmt is For || stmt is ForEach,
    ensures
        ran_view(result) == loops_ran(*ops, index@, threads, calls, stmt@, state@),
    decreases 5 * calls_left(calls) + 3, stmt, 0int,
{
    let depth: usize = state.loop_depth;
    match stmt {
        Stmt::While { cond, body, .. } => {
            let mut state = state;
            state.loop_depth = go_deeper(depth);
            leave_loop(exec_while(ops, index, threads, calls, cond, body, state), depth)
        },
        Stmt::Loop { body, span } => {
            let mut state = state;
            state.loop_depth = go_deeper(depth);
            leave_loop(exec_loop(ops, index, threads, calls, body, *span, state), depth)
        },
        Stmt::For { name, start, end, body, span } => {
            let State { env, loop_depth, lowered } = state;
            let (range, env) = eval_range(ops, index, start, end, *span, env);
            match range {
                Err(failure) => (Err(failure), State { env, loop_depth, lowered }),
                Ok((range, ty)) => {
                    let loop_depth: usize = go_deeper(depth);
                    let state = State { env, loop_depth, lowered };
                    leave_loop(
                        exec_range(
                            ops,
                            index,
                            threads,
                            calls,
                            name,
                            range,
                            &ty,
                            body,
                            *span,
                            state,
                        ),
                        depth,
                    )
                },
            }
        },
        Stmt::ForEach { name, iterable, body, span } => {
            let State { env, loop_depth, lowered } = state;
            let (value, env) = eval_expr(ops, index, iterable, env);
            let state = State { env, loop_depth, lowered };
            let value = match value {
                Err(failure) => {
                    return (Err(failure), state);
                },
                Ok(value) => value,
            };
            match foreach_items(&value, expr_span(iterable)) {
                Err(error) => (Err(Failure::of(error)), state),
                Ok((items, ty)) => {
                    let mut state = state;
                    state.loop_depth = go_deeper(depth);
                    leave_loop(
                        exec_items(
                            ops,
                            index,
                            threads,
                            calls,
                            name,
                            &items,
                            &ty,
                            body,
                            *span,
                            state,
                        ),
                        depth,
                    )
                },
            }
        },
        _ => (Ok(Flow::Next), state),
    }
}

/// Runs a statement that changes names only.
fn exec_change<O: ValueOperations>(
    ops: &O,
    index: &ProgramIndex,
    stmt: &Stmt,
    env: Env,
) -> (result: (Result<(), Failure>, Env))
    requires
        are_operations(*ops),
        stmt is Let || stmt is Assign || stmt is AssignField || stmt is AssignIndex
            || stmt is AssignStructListIndex || stmt is StructListMethodCall,
    ensures
        done_view(result) == change_done(*ops, index@, stmt@, env@),
{
    match stmt {
        Stmt::Let { name, mutable, ty, expr, span } => exec_let(
            ops,
            index,
            name,
            *mutable,
            ty,
            expr,
            *span,
            env,
        ),
        Stmt::Assign { name, expr, span } => exec_assign(ops, index, name, expr, *span, env),
        Stmt::AssignField { receiver, field, expr, span } => exec_assign_field(
            ops,
            index,
            receiver,
            field,
            expr,
            *span,
            env,
        ),
        Stmt::AssignIndex { name, index: at, expr, span } => exec_assign_index(
            ops,
            index,
            name,
            at,
            expr,
            *span,
            env,
        ),
        Stmt::AssignStructListIndex { receiver, field, index: at, expr, span } => {
            exec_assign_field_element(ops, index, receiver, field, at, expr, *span, env)
        },
        Stmt::StructListMethodCall { receiver, field, name, args, span } => exec_field_method(
            ops,
            index,
            receiver,
            field,
            name,
            args,
            *span,
            env,
        ),
        _ => (Ok(()), env),
    }
}

/// Runs a statement.
pub fn exec_stmt<O: ValueOperations>(
    ops: &O,
    index: &ProgramIndex,
    threads: usize,
    calls: usize,
    stmt: &Stmt,
    state: State,
) -> (result: (Result<Flow, Failure>, State))
    requires
        are_operations(*ops),
    ensures
        ran_view(result) == stmt_ran(*ops, index@, threads, calls, stmt@, state@),
    decreases 5 * calls_left(calls) + 3, stmt, 1int,
{
    match stmt {
        Stmt::Let { .. }
        | Stmt::Assign { .. }
        | Stmt::AssignField { .. }
        | Stmt::AssignIndex { .. }
        | Stmt::AssignStructListIndex { .. }
        | Stmt::StructListMethodCall { .. } => {
            let State { env, loop_depth, lowered } = state;
            let (done, env) = exec_change(ops, index, stmt, env);
            let state = State { env, loop_depth, lowered };
            match done {
                Err(failure) => (Err(failure), state),
                Ok(()) => (Ok(Flow::Next), state),
            }
        },
        Stmt::Call { name, args, span } => exec_call(
            ops,
            index,
            threads,
            calls,
            name,
            args,
            *span,
            state,
        ),
        Stmt::MethodCall { receiver, name, args, span } => exec_method(
            ops,
            index,
            threads,
            calls,
            receiver,
            name,
            args,
            *span,
            state,
        ),
        Stmt::Return { expr, .. } => exec_return(ops, index, expr, state),
        Stmt::Print { expr, span } => exec_print(ops, index, expr, *span, state),
        Stmt::Exit { expr, span } => exec_exit(ops, index, expr, *span, state),
        Stmt::BenchLoop { iterations, span } => exec_bench(ops, index, iterations, *span, state),
        Stmt::Block { stmts, .. } => exec_scope(ops, index, threads, calls, stmts, state),
        Stmt::If { .. } => exec_if(ops, index, threads, calls, stmt, state),
        Stmt::While { .. } | Stmt::Loop { .. } | Stmt::For { .. } | Stmt::ForEach { .. } => {
            exec_loops(ops, index, threads, calls, stmt, state)
        },
        Stmt::ParFor { .. } => exec_parallel(ops, index, threads, calls, stmt, state),
        Stmt::Assert { cond, message, span } => exec_assert(
            ops,
            index,
            cond,
            message,
            *span,
            state,
        ),
        Stmt::Panic { message, span } => exec_panic(ops, index, message, *span, state),
        Stmt::Break { span } => match break_flow(state.loop_depth, *span) {
            Err(error) => (Err(Failure::of(error)), state),
            Ok(flow) => (Ok(flow), state),
        },
        Stmt::Continue { span } => match continue_flow(state.loop_depth, *span) {
            Err(error) => (Err(Failure::of(error)), state),
            Ok(flow) => (Ok(flow), state),
        },
    }
}

/// Gives parameters their arguments.
fn bind_params<O: ValueOperations>(
    ops: &O,
    index: &ProgramIndex,
    params: &Vec<FunctionParam>,
    args: &Vec<Value>,
    env: Env,
) -> (result: (Result<(), Failure>, Env))
    requires
        are_operations(*ops),
        args@.len() == params@.len(),
    ensures
        done_view(result) == params_bound(
            *ops,
            index@,
            params_view(params@),
            values_view(args@),
            0,
            env@,
        ),
{
    let ghost all = params_view(params@);
    let ghost given = values_view(args@);
    let ghost goal = params_bound(*ops, index@, all, given, 0, env@);
    let mut names = env;
    for i in 0..params.len()
        invariant
            are_operations(*ops),
            args@.len() == params@.len(),
            all == params_view(params@),
            given == values_view(args@),
            goal == params_bound(*ops, index@, all, given, 0, env@),
            goal == params_bound(*ops, index@, all, given, i as int, names@),
    {
        let param = &params[i];
        assert(all[i as int] == params@[i as int]@);
        assert(given[i as int] == args@[i as int]@);
        match ensure_type_known(&param.ty, index, param.span) {
            Err(error) => {
                return (Err(Failure::of(error)), names);
            },
            Ok(()) => {},
        }
        match coerce(ops, copy_value(&args[i]), &param.ty, param.span) {
            Err(error) => {
                return (Err(Failure::of(error)), names);
            },
            Ok(value) => {
                names.insert(
                    param.name.clone(),
                    Binding::fresh(value, copy_type(&param.ty), false),
                );
            },
        }
    }
    (Ok(()), names)
}

/// What a function comes to once its body has run.
fn finish_function<O: ValueOperations>(
    ops: &O,
    function: &Function,
    ran: (Result<Flow, Failure>, State),
) -> (result: (Result<CallResult, Failure>, State))
    requires
        are_operations(*ops),
    ensures
        call_and_state(result) == call_finished(*ops, function@, ran_view(ran)),
{
    match ran {
        (Err(failure), state) => (Err(failure), state),
        (Ok(flow), state) => match finish_call(function, flow) {
            Err(error) => (Err(Failure::of(error)), state),
            Ok(CallStep::Nothing) => (Ok(CallResult::Continue(None)), state),
            Ok(CallStep::Exit) => (Ok(CallResult::Exit), state),
            Ok(CallStep::Give { value, ty }) => match coerce(ops, value, &ty, function.span) {
                Err(error) => (Err(Failure::of(error)), state),
                Ok(value) => (Ok(CallResult::Continue(Some(value))), state),
            },
        },
    }
}

/// Runs a function inside its call.
fn run_function<O: ValueOperations>(
    ops: &O,
    index: &ProgramIndex,
    threads: usize,
    calls: usize,
    function: &Function,
    args: &Vec<Value>,
    state: State,
) -> (result: (Result<CallResult, Failure>, State))
    requires
        are_operations(*ops),
    ensures
        call_and_state(result) == function_ran(
            *ops,
            index@,
            threads,
            calls,
            function@,
            values_view(args@),
            state@,
        ),
    decreases 5 * calls_left(calls) + 4,
{
    assert(values_view(args@).len() == args@.len());
    assert(function@.params.len() == function.params@.len());
    let State { env, loop_depth, lowered } = open(state);
    match check_argument_count(function, args.len()) {
        Err(error) => {
            return (Err(Failure::of(error)), State { env, loop_depth, lowered });
        },
        Ok(()) => {},
    }
    let (bound, env) = bind_params(ops, index, &function.params, args, env);
    let state = State { env, loop_depth, lowered };
    match bound {
        Err(failure) => (Err(failure), state),
        Ok(()) => {
            let (flow, state) = exec_stmts(ops, index, threads, calls, &function.body, state);
            finish_function(ops, function, close(ops, flow, state))
        },
    }
}

/// Calls a function.
pub fn exec_function<O: ValueOperations>(
    ops: &O,
    index: &ProgramIndex,
    threads: usize,
    calls: usize,
    function: &Function,
    args: &Vec<Value>,
    state: State,
) -> (result: (Result<CallResult, Failure>, State))
    requires
        are_operations(*ops),
    ensures
        call_and_state(result) == function_called(
            *ops,
            index@,
            threads,
            calls,
            function@,
            values_view(args@),
            state@,
        ),
    decreases 5 * calls_left(calls),
{
    match check_call_depth(calls, function.span) {
        Err(error) => {
            return (Err(Failure::of(error)), state);
        },
        Ok(()) => {},
    }
    let (called, end) = run_function(ops, index, threads, calls + 1, function, args, state);
    match called {
        Err(failure) => (Err(failure.noted(function_note(function))), end),
        Ok(called) => (Ok(called), end),
    }
}

/// What the main function lowers to, or why it fails.
pub open spec fn main_lowered<O: ValueOperations>(
    ops: O,
    index: IndexView,
    threads: usize,
    main: FunctionView,
) -> Result<Seq<StmtView>, FailureView> {
    match function_called(
        ops,
        index,
        threads,
        0,
        main,
        Seq::empty(),
        start_with(seq![Map::empty()]),
    ) {
        (Err(failure), _) => Err(failure),
        (Ok(_), end) => Ok(end.lowered),
    }
}

/// Runs the main function.
pub fn run_main<O: ValueOperations>(
    ops: &O,
    index: &ProgramIndex,
    threads: usize,
    main: &Function,
) -> (result: Result<Vec<LoweredStmt>, Failure>)
    requires
        are_operations(*ops),
    ensures
        lowered_or_failure(result) == main_lowered(*ops, index@, threads, main@),
{
    let args: Vec<Value> = Vec::new();
    assert(values_view(args@) =~= Seq::empty());
    let (called, end) = exec_function(
        ops,
        index,
        threads,
        0,
        main,
        &args,
        State::start(Env::new()),
    );
    match called {
        Err(failure) => Err(failure),
        Ok(_) => Ok(end.lowered),
    }
}

} // verus!
