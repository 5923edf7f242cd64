//! What loops, calls and methods of lists do in terms of their parts.

use crate::ast::{ExprView, FunctionView, Span, StmtNode, TypeView};
use crate::diagnostic::DiagnosticView;
use crate::semantics::environment::{
    law_insert_then_get, law_replace_then_get, meaning, BindingView,
};
use crate::semantics::evaluate::{all_evaluated, evaluated, types_of_values};
use crate::semantics::execute::{
    call_ran, closed, closed_behind, function_called, function_ran, items_ran, opened, params_bound,
    range_ran, round_env, stmts_ran, while_ran, with_env,
};
use crate::semantics::expressions::{array_value, CallResultView};
use crate::semantics::flow::{FlowView, ForRange, LOOP_LIMIT, MAX_CALL_DEPTH};
use crate::semantics::index::IndexView;
use crate::semantics::matching_laws::is_bound_to;
use crate::semantics::methods::{with_edit, EditView, MethodPlanView};
use crate::semantics::names::{function_names, position_of};
use crate::semantics::operations::{coerced, typed, ValueOperations};
use crate::semantics::outputs::items_of;
use crate::semantics::receivers::{flow_of_call, plan_done};
use crate::semantics::running_laws::elems_of;
use crate::semantics::state::{FailureView, Scopes, StateView};
use crate::semantics::statements::value_of;
use crate::semantics::values::ValueView;
use vstd::prelude::*;

verus! {

/// A loop with a condition ends where the condition is false. Where it is true the body
/// runs in a scope of its own, and the loop goes on where the body has left the run: with
/// the next round if it has gone on or to the next round, not if it has broken out.
pub proof fn law_while_loops_go_round<O: ValueOperations>(
    ops: O,
    index: IndexView,
    threads: usize,
    calls: usize,
    cond: ExprView,
    body: Seq<StmtNode>,
    rounds: usize,
    state: StateView,
    value: bool,
    env: Scopes,
    flow: FlowView,
    after: StateView,
)
    requires
        rounds < LOOP_LIMIT,
        evaluated(ops, index, cond, state.env) == (
            Ok::<ValueView, FailureView>(ValueView::Bool(value)),
            env,
        ),
        closed_behind(
            ops,
            stmts_ran(ops, index, threads, calls, body, 0, opened(with_env(state, env))),
        ) == (Ok::<FlowView, FailureView>(flow), after),
    ensures
        ({
            let ran = while_ran(ops, index, threads, calls, cond, body, rounds, state);
            &&& !value ==> ran == (
                Ok::<FlowView, FailureView>(FlowView::Next),
                with_env(state, env),
            )
            &&& value && (flow == FlowView::Next || flow == FlowView::ContinueLoop) ==> ran
                == while_ran(
                ops,
                index,
                threads,
                calls,
                cond,
                body,
                (rounds + 1) as usize,
                after,
            )
            &&& value && flow == FlowView::BreakLoop ==> ran == (
                Ok::<FlowView, FailureView>(FlowView::Next),
                after,
            )
            &&& value && (flow is Return || flow is Exit) ==> ran == (
                Ok::<FlowView, FailureView>(flow),
                after,
            )
        }),
{
}

/// A loop over a range that has numbers left runs its body with the variable standing for
/// the first of them, and goes on with those behind it.
pub proof fn law_range_loops_go_round<O: ValueOperations>(
    ops: O,
    index: IndexView,
    threads: usize,
    calls: usize,
    name: Seq<char>,
    bits: u16,
    start: u128,
    end: u128,
    ty: TypeView,
    body: Seq<StmtNode>,
    span: Span,
    rounds: usize,
    state: StateView,
    flow: FlowView,
    after: StateView,
)
    requires
        rounds < LOOP_LIMIT,
        start < end,
        closed_behind(
            ops,
            stmts_ran(
                ops,
                index,
                threads,
                calls,
                body,
                0,
                with_env(
                    state,
                    round_env(state.env, name, ValueView::UInt { bits, value: start }, ty),
                ),
            ),
        ) == (Ok::<FlowView, FailureView>(flow), after),
    ensures
        ({
            let range = ForRange::Unsigned { bits, start, end };
            let rest = ForRange::Unsigned { bits, start: (start + 1) as u128, end };
            let ran = range_ran(
                ops,
                index,
                threads,
                calls,
                name,
                range,
                ty,
                body,
                span,
                rounds,
                state,
            );
            &&& flow == FlowView::Next || flow == FlowView::ContinueLoop ==> ran == range_ran(
                ops,
                index,
                threads,
                calls,
                name,
                rest,
                ty,
                body,
                span,
                (rounds + 1) as usize,
                after,
            )
            &&& flow == FlowView::BreakLoop ==> ran == (
                Ok::<FlowView, FailureView>(FlowView::Next),
                after,
            )
            &&& flow is Return || flow is Exit ==> ran == (
                Ok::<FlowView, FailureView>(flow),
                after,
            )
        }),
{
}

/// A loop over a range without numbers does nothing.
pub proof fn law_empty_ranges_do_nothing<O: ValueOperations>(
    ops: O,
    index: IndexView,
    threads: usize,
    calls: usize,
    name: Seq<char>,
    bits: u16,
    start: u128,
    end: u128,
    ty: TypeView,
    body: Seq<StmtNode>,
    span: Span,
    rounds: usize,
    state: StateView,
)
    requires
        start >= end,
    ensures
        range_ran(
            ops,
            index,
            threads,
            calls,
            name,
            ForRange::Unsigned { bits, start, end },
            ty,
            body,
            span,
            rounds,
            state,
        ) == (Ok::<FlowView, FailureView>(FlowView::Next), state),
{
}

/// A loop over items runs its body with the variable standing for the item of the round,
/// and goes on with the next; behind the last it ends. The items of an array or a list
/// are its elements, in their order.
pub proof fn law_item_loops_go_round<O: ValueOperations>(
    ops: O,
    index: IndexView,
    threads: usize,
    calls: usize,
    name: Seq<char>,
    items: Seq<ValueView>,
    ty: TypeView,
    body: Seq<StmtNode>,
    span: Span,
    rounds: usize,
    state: StateView,
    flow: FlowView,
    after: StateView,
)
    requires
        rounds < LOOP_LIMIT,
        rounds < items.len() ==> closed_behind(
            ops,
            stmts_ran(
                ops,
                index,
                threads,
                calls,
                body,
                0,
                with_env(state, round_env(state.env, name, items[rounds as int], ty)),
            ),
        ) == (Ok::<FlowView, FailureView>(flow), after),
    ensures
        ({
            let ran = items_ran(
                ops,
                index,
                threads,
                calls,
                name,
                items,
                ty,
                body,
                span,
                rounds,
                state,
            );
            &&& rounds >= items.len() ==> ran == (
                Ok::<FlowView, FailureView>(FlowView::Next),
                state,
            )
            &&& rounds < items.len() && (flow == FlowView::Next || flow
                == FlowView::ContinueLoop) ==> ran == items_ran(
                ops,
                index,
                threads,
                calls,
                name,
                items,
                ty,
                body,
                span,
                (rounds + 1) as usize,
                after,
            )
            &&& rounds < items.len() && flow == FlowView::BreakLoop ==> ran == (
                Ok::<FlowView, FailureView>(FlowView::Next),
                after,
            )
            &&& rounds < items.len() && (flow is Return || flow is Exit) ==> ran == (
                Ok::<FlowView, FailureView>(flow),
                after,
            )
        }),
        items_of(ValueView::List { elem_type: ty, elems: items }, span) == Ok::<
            (Seq<ValueView>, TypeView),
            DiagnosticView,
        >((items, ty)),
        items_of(ValueView::Array { elem_type: ty, elems: items }, span) == Ok::<
            (Seq<ValueView>, TypeView),
            DiagnosticView,
        >((items, ty)),
{
}

/// The variable of a round stands for its value, and no other name for anything else.
pub proof fn law_rounds_have_their_variable(
    env: Scopes,
    name: Seq<char>,
    value: ValueView,
    ty: TypeView,
    other: Seq<char>,
)
    ensures
        is_bound_to(round_env(env, name, value, ty), name, value, ty),
        other != name ==> meaning(round_env(env, name, value, ty), other) == meaning(
            env.push(Map::empty()),
            other,
        ),
        round_env(env, name, value, ty).drop_last() == env,
{
    let inner = env.push(Map::empty());
    let binding = BindingView {
        value,
        ty,
        mutable: false,
        shared_borrows: 0,
        mut_borrowed: false,
    };
    law_insert_then_get(inner, name, other, binding);
    assert(round_env(env, name, value, ty).drop_last() =~= env);
}

/// A call runs the body of the function in a scope of its own where the parameters stand
/// for the arguments, and gives what the body returns as the type of the function takes
/// it.
pub proof fn law_calls_give_what_is_returned<O: ValueOperations>(
    ops: O,
    index: IndexView,
    threads: usize,
    calls: usize,
    function: FunctionView,
    args: Seq<ValueView>,
    state: StateView,
    env: Scopes,
    value: ValueView,
    after: StateView,
    ty: TypeView,
    given: ValueView,
)
    requires
        calls < MAX_CALL_DEPTH,
        args.len() == function.params.len(),
        function.return_type == Some(ty),
        params_bound(ops, index, function.params, args, 0, state.env.push(Map::empty())) == (
            Ok::<(), FailureView>(()),
            env,
        ),
        closed(
            ops,
            stmts_ran(
                ops,
                index,
                threads,
                (calls + 1) as usize,
                function.body,
                0,
                with_env(state, env),
            ),
        ) == (Ok::<FlowView, FailureView>(FlowView::Return(Some(value))), after),
        coerced(ops, value, ty, function.span) == Ok::<ValueView, DiagnosticView>(given),
    ensures
        function_called(ops, index, threads, calls, function, args, state) == (
            Ok::<CallResultView, FailureView>(CallResultView::Continue(Some(given))),
            after,
        ),
{
    let inside = opened(state);
    assert(with_env(inside, env) == with_env(state, env));
    assert(function_ran(ops, index, threads, (calls + 1) as usize, function, args, state) == (
        Ok::<CallResultView, FailureView>(CallResultView::Continue(Some(given))),
        after,
    ));
}

/// A call that stands as a statement calls the function of its name with what its
/// arguments come to.
pub proof fn law_call_statements_call_their_function<O: ValueOperations>(
    ops: O,
    index: IndexView,
    threads: usize,
    calls: usize,
    name: Seq<char>,
    args: Seq<ExprView>,
    span: Span,
    state: StateView,
    at: int,
    values: Seq<ValueView>,
    env: Scopes,
)
    requires
        position_of(function_names(index.functions), name) == Some(at),
        all_evaluated(ops, index, args, 0, Seq::empty(), state.env) == (
            Ok::<Seq<ValueView>, FailureView>(values),
            env,
        ),
    ensures
        call_ran(ops, index, threads, calls, name, args, span, state) == flow_of_call(
            function_called(
                ops,
                index,
                threads,
                calls,
                index.functions[at],
                values,
                with_env(state, env),
            ),
        ),
{
}

/// An array has the values of its elements, in their order.
pub proof fn law_arrays_have_their_elements<O: ValueOperations>(
    ops: O,
    values: Seq<ValueView>,
    span: Span,
)
    ensures
        array_value(values, types_of_values(ops, values), span) matches Ok(array) ==> elems_of(
            array,
        ) == values,
        (forall|i: int| 0 <= i < values.len() ==> typed(ops, #[trigger] values[i]) == typed(
            ops,
            values[0],
        )) ==> array_value(values, types_of_values(ops, values), span) is Ok,
{
}

/// What the methods of a list do to its elements: `push` puts the argument behind them as
/// the type of the elements takes it, `pop` takes the last away, `clear` takes all away.
/// Other names stand for what they stood for.
pub proof fn law_list_methods_change_the_elements<O: ValueOperations>(
    ops: O,
    receiver: Seq<char>,
    method: Seq<char>,
    elem: TypeView,
    args: Seq<ValueView>,
    span: Span,
    env: Scopes,
    given: ValueView,
    other: Seq<char>,
)
    requires
        meaning(env, receiver) matches Some(binding) && binding.value is List,
        args.len() > 0 ==> coerced(ops, args[0], elem, span) == Ok::<ValueView, DiagnosticView>(
            given,
        ),
    ensures
        ({
            let elems = elems_of(value_of(env, receiver));
            let (pushed, after) = plan_done(
                ops,
                receiver,
                method,
                MethodPlanView::Push { elem },
                args,
                span,
                env,
            );
            args.len() > 0 ==> pushed is Ok && elems_of(value_of(after, receiver)) == elems.push(
                given,
            ) && (other != receiver ==> meaning(after, other) == meaning(env, other))
        }),
        ({
            let elems = elems_of(value_of(env, receiver));
            let (popped, after) = plan_done(
                ops,
                receiver,
                method,
                MethodPlanView::Pop,
                args,
                span,
                env,
            );
            elems.len() > 0 ==> popped is Ok && elems_of(value_of(after, receiver))
                == elems.drop_last() && (other != receiver ==> meaning(after, other) == meaning(
                env,
                other,
            ))
        }),
        ({
            let (cleared, after) = plan_done(
                ops,
                receiver,
                method,
                MethodPlanView::Clear,
                args,
                span,
                env,
            );
            cleared is Ok && elems_of(value_of(after, receiver)).len() == 0 && (other != receiver
                ==> meaning(after, other) == meaning(env, other))
        }),
{
    let binding = meaning(env, receiver)->0;
    let value = binding.value;
    let pushed = with_edit(value, EditView::Push(given), Some(elem), span)->Ok_0;
    law_replace_then_get(env, receiver, other, BindingView { value: pushed, ..binding });
    let popped = with_edit(value, EditView::Pop, None, span)->Ok_0;
    law_replace_then_get(env, receiver, other, BindingView { value: popped, ..binding });
    let cleared = with_edit(value, EditView::Clear, None, span)->Ok_0;
    law_replace_then_get(env, receiver, other, BindingView { value: cleared, ..binding });
}

} // verus!
