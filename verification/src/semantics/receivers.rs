//! Statements that call a method.

use crate::ast::{exprs_view, Expr, ExprView, Span, TypeView};
use crate::diagnostic::{message_at_span, type_message, Diagnostic};
use crate::semantics::assignments::{
    changed, done_view, entry_put, finish, map_entry_put, put_in_dict, put_in_map, undo, undone,
    Done,
};
use crate::semantics::dispatch::{candidates, find_method_statement, method_called};
use crate::semantics::environment::{meaning, Env};
use crate::semantics::evaluate::{
    all_valued_view, eval_expr, evaluated, name_expr, name_of, with_first, AllValued,
};
use crate::semantics::expressions::{CallResult, CallResultView};
use crate::semantics::flow::{Flow, FlowView};
use crate::semantics::execute::{calls_left, exec_function, function_called};
use crate::semantics::index::{IndexView, ProgramIndex};
use crate::semantics::methods::{
    clear_map, comparator_argument, comparator_named, edit_named, emptied_map, method_plan,
    plan_method, remove_key, with_edit, without_key, Edit, EditView, MethodPlan, MethodPlanView,
};
use crate::semantics::operations::{
    are_operations, borrow, borrowed, call_and_state, capacity, capacity_fits, coerce, coerced,
    key_of_type, key_text, sort, sorted_values, ValueOperations,
};
use crate::semantics::scope_laws::lemma_method_is_function;
use crate::semantics::state::{Failure, FailureView, Scopes, State, StateView};
use crate::semantics::statements::{
    change_problem, check_mutable, say_unknown, unknown_identifier, value_of,
};
use crate::semantics::values::{copy_value, copy_values, values_view, Value, ValueView};
use vstd::prelude::*;

verus! {

/// How a program goes on behind a statement, or why it does not, and where it
/// stands then.
pub type Ran = (Result<FlowView, FailureView>, StateView);

/// What the arguments of a method come to from one on, added to those before
/// them. One that names a function to compare by stands for itself.
pub open spec fn method_args<O: ValueOperations>(
    ops: O,
    index: IndexView,
    method: Seq<char>,
    args: Seq<ExprView>,
    from: int,
    before: Seq<ValueView>,
    env: Scopes,
) -> AllValued
    decreases args.len() - from,
{
    if from < 0 || from >= args.len() {
        (Ok(before), env)
    } else {
        match comparator_named(method, args[from], index) {
            Some(name) => method_args(
                ops,
                index,
                method,
                args,
                from + 1,
                before.push(ValueView::Str(name)),
                env,
            ),
            None => match evaluated(ops, index, args[from], env) {
                (Err(failure), env) => (Err(failure), env),
                (Ok(value), env) => method_args(
                    ops,
                    index,
                    method,
                    args,
                    from + 1,
                    before.push(value),
                    env,
                ),
            },
        }
    }
}

/// The elements of an array or a list.
pub open spec fn elements_of(value: ValueView) -> Seq<ValueView> {
    match value {
        ValueView::Array { elems, .. } => elems,
        ValueView::List { elems, .. } => elems,
        _ => Seq::empty(),
    }
}

/// What is said of a capacity that there cannot be.
pub open spec fn no_capacity(method: Seq<char>) -> Seq<char> {
    method + "() capacity is out of range"@
}

/// What a method does by its plan.
pub open spec fn plan_done<O: ValueOperations>(
    ops: O,
    receiver: Seq<char>,
    method: Seq<char>,
    plan: MethodPlanView,
    args: Seq<ValueView>,
    span: Span,
    env: Scopes,
) -> Done {
    let value = value_of(env, receiver);
    match plan {
        MethodPlanView::Push { elem } => match coerced(ops, args[0], elem, span) {
            Err(error) => undone(error, env),
            Ok(new) => changed(
                env,
                receiver,
                with_edit(value, EditView::Push(new), Some(elem), span),
                span,
            ),
        },
        MethodPlanView::Pop => changed(
            env,
            receiver,
            with_edit(value, EditView::Pop, None, span),
            span,
        ),
        MethodPlanView::Clear => changed(
            env,
            receiver,
            with_edit(value, EditView::Clear, None, span),
            span,
        ),
        MethodPlanView::Reserve | MethodPlanView::ShrinkTo => match capacity_fits(
            ops,
            args[0],
            span,
        ) {
            Err(error) => undone(error, env),
            Ok(true) => (Ok(()), env),
            Ok(false) => undone(type_message(no_capacity(method), span), env),
        },
        MethodPlanView::ShrinkToFit => (Ok(()), env),
        MethodPlanView::Sort { radix, stable, comparator } => match sorted_values(
            ops,
            elements_of(value),
            radix,
            stable,
            comparator,
            env,
            span,
        ) {
            Err(failure) => (Err(failure), env),
            Ok(elems) => changed(
                env,
                receiver,
                with_edit(value, EditView::Replace(elems), None, span),
                span,
            ),
        },
        MethodPlanView::PutEntry { key, value } => entry_put(
            ops,
            receiver,
            args[0],
            args[1],
            key,
            value,
            span,
            env,
        ),
        MethodPlanView::PutMapEntry { key, value } => map_entry_put(
            ops,
            receiver,
            args[0],
            args[1],
            key,
            value,
            span,
            env,
        ),
        MethodPlanView::RemoveEntry { key } | MethodPlanView::RemoveMapEntry { key } => {
            match key_of_type(ops, args[0], key, span) {
                Err(error) => undone(error, env),
                Ok(key) => changed(env, receiver, without_key(value, key, span), span),
            }
        },
        MethodPlanView::ClearMap => changed(env, receiver, emptied_map(value, span), span),
    }
}

/// How a program goes on behind a call that is a statement.
pub open spec fn flow_of_call(outcome: (Result<CallResultView, FailureView>, StateView)) -> Ran {
    (
        match outcome.0 {
            Err(failure) => Err(failure),
            Ok(CallResultView::Exit) => Ok(FlowView::Exit),
            Ok(CallResultView::Continue(_)) => Ok(FlowView::Next),
        },
        outcome.1,
    )
}

/// How a program goes on behind a statement that changes names only.
pub open spec fn goes_on(done: Done, state: StateView) -> Ran {
    (
        match done.0 {
            Err(failure) => Err(failure),
            Ok(()) => Ok(FlowView::Next),
        },
        StateView { env: done.1, ..state },
    )
}

/// What a method that every value of the kind has does.
pub open spec fn own_method_done<O: ValueOperations>(
    ops: O,
    receiver: Seq<char>,
    method: Seq<char>,
    args: Seq<ValueView>,
    span: Span,
    env: Scopes,
) -> Done {
    match change_problem(env, receiver, "cannot mutate immutable"@, span) {
        Some(problem) => undone(problem, env),
        None => {
            let binding = meaning(env, receiver)->0;
            match method_plan(binding.value, binding.ty, method, args, span) {
                Err(error) => undone(error, env),
                Ok(plan) => plan_done(ops, receiver, method, plan, args, span, env),
            }
        },
    }
}

/// What a method does once its arguments are known: one of the program, or else
/// one that every value of the kind has.
pub open spec fn method_applied<O: ValueOperations>(
    ops: O,
    index: IndexView,
    threads: usize,
    calls: usize,
    receiver: Seq<char>,
    method: Seq<char>,
    args: Seq<ValueView>,
    span: Span,
    state: StateView,
) -> Ran
    decreases 5 * calls_left(calls) + 1,
{
    match meaning(state.env, receiver) {
        None => goes_on(
            undone(
                message_at_span(unknown_identifier(receiver), span),
                state.env,
            ),
            state,
        ),
        Some(binding) => match method_called(
            index,
            candidates(binding.ty, method),
            0,
            receiver,
            binding.ty,
            binding.mutable,
            method,
            args.len(),
            span,
        ) {
            Err(error) => goes_on(undone(error, state.env), state),
            Ok(Some((at, changes))) => match borrowed(
                ops,
                name_expr(receiver, span),
                state.env,
                changes,
                span,
            ) {
                (Err(error), env) => goes_on(undone(error, env), state),
                (Ok(reference), env) => flow_of_call(
                    function_called(
                        ops,
                        index,
                        threads,
                        calls,
                        index.functions[at],
                        seq![reference] + args,
                        StateView { env, ..state },
                    ),
                ),
            },
            Ok(None) => goes_on(
                own_method_done(ops, receiver, method, args, span, state.env),
                state,
            ),
        },
    }
}

/// What a method call does.
pub open spec fn method_ran<O: ValueOperations>(
    ops: O,
    index: IndexView,
    threads: usize,
    calls: usize,
    receiver: Seq<char>,
    method: Seq<char>,
    args: Seq<ExprView>,
    span: Span,
    state: StateView,
) -> Ran
    decreases 5 * calls_left(calls) + 2,
{
    match method_args(ops, index, method, args, 0, Seq::empty(), state.env) {
        (Err(failure), env) => (Err(failure), StateView { env, ..state }),
        (Ok(values), env) => method_applied(
            ops,
            index,
            threads,
            calls,
            receiver,
            method,
            values,
            span,
            StateView { env, ..state },
        ),
    }
}

/// How a program goes on, and where it stands, as a mathematical value.
pub open spec fn ran_view(outcome: (Result<Flow, Failure>, State)) -> Ran {
    (
        match outcome.0 {
            Ok(flow) => Ok(flow@),
            Err(failure) => Err(failure@),
        },
        outcome.1@,
    )
}

/// The arguments that a plan needs are there.
proof fn lemma_planned_arguments(
    value: ValueView,
    ty: TypeView,
    name: Seq<char>,
    args: Seq<ValueView>,
    span: Span,
)
    ensures
        match method_plan(value, ty, name, args, span) {
            Ok(MethodPlanView::Push { .. }) => args.len() == 1,
            Ok(MethodPlanView::Reserve) => args.len() == 1,
            Ok(MethodPlanView::ShrinkTo) => args.len() == 1,
            Ok(MethodPlanView::RemoveEntry { .. }) => args.len() == 1,
            Ok(MethodPlanView::RemoveMapEntry { .. }) => args.len() == 1,
            Ok(MethodPlanView::PutEntry { .. }) => args.len() == 2,
            Ok(MethodPlanView::PutMapEntry { .. }) => args.len() == 2,
            _ => true,
        },
{
}

/// What the arguments of a method come to.
fn eval_method_args<O: ValueOperations>(
    ops: &O,
    index: &ProgramIndex,
    method: &String,
    args: &Vec<Expr>,
    env: Env,
) -> (result: (Result<Vec<Value>, Failure>, Env))
    requires
        are_operations(*ops),
    ensures
        all_valued_view(result) == method_args(
            *ops,
            index@,
            method@,
            exprs_view(args@),
            0,
            Seq::empty(),
            env@,
        ),
{
    let ghost all = exprs_view(args@);
    let ghost goal = method_args(*ops, index@, method@, all, 0, Seq::empty(), env@);
    let mut names = env;
    let mut values: Vec<Value> = Vec::new();
    assert(values_view(values@) =~= Seq::empty());
    for i in 0..args.len()
        invariant
            are_operations(*ops),
            all == exprs_view(args@),
            goal == method_args(*ops, index@, method@, all, 0, Seq::empty(), env@),
            goal == method_args(
                *ops,
                index@,
                method@,
                all,
                i as int,
                values_view(values@),
                names@,
            ),
    {
        let ghost before = values_view(values@);
        assert(all[i as int] == args@[i as int]@);
        match comparator_argument(method, &args[i], index) {
            Some(value) => {
                values.push(value);
                assert(values_view(values@) =~= before.push(value@));
            },
            None => {
                let (value, next) = eval_expr(ops, index, &args[i], names);
                names = next;
                match value {
                    Err(failure) => {
                        return (Err(failure), names);
                    },
                    Ok(value) => {
                        values.push(value);
                        assert(values_view(values@) =~= before.push(value@));
                    },
                }
            },
        }
    }
    (Ok(values), names)
}

/// The elements of the array or list that a name stands for.
fn copy_elements(env: &Env, name: &String) -> (elems: Vec<Value>)
    requires
        meaning(env@, name@) is Some,
    ensures
        values_view(elems@) == elements_of(value_of(env@, name@)),
{
    match env.get(name) {
        Some(binding) => match &binding.value {
            Value::Array { elems, .. } => copy_values(elems),
            Value::List { elems, .. } => copy_values(elems),
            _ => {
                let none: Vec<Value> = Vec::new();
                assert(values_view(none@) =~= Seq::empty());
                none
            },
        },
        None => Vec::new(),
    }
}

/// Does what a plan says.
fn exec_plan<O: ValueOperations>(
    ops: &O,
    receiver: &String,
    method: &String,
    plan: MethodPlan,
    args: &Vec<Value>,
    span: Span,
    env: Env,
) -> (result: (Result<(), Failure>, Env))
    requires
        are_operations(*ops),
        meaning(env@, receiver@) is Some,
        match plan@ {
            MethodPlanView::Push { .. } => args@.len() == 1,
            MethodPlanView::Reserve => args@.len() == 1,
            MethodPlanView::ShrinkTo => args@.len() == 1,
            MethodPlanView::RemoveEntry { .. } => args@.len() == 1,
            MethodPlanView::RemoveMapEntry { .. } => args@.len() == 1,
            MethodPlanView::PutEntry { .. } => args@.len() == 2,
            MethodPlanView::PutMapEntry { .. } => args@.len() == 2,
            _ => true,
        },
    ensures
        done_view(result) == plan_done(
            *ops,
            receiver@,
            method@,
            plan@,
            values_view(args@),
            span,
            env@,
        ),
{
    let ghost given = values_view(args@);
    assert(forall|i: int| 0 <= i < args@.len() ==> #[trigger] given[i] == args@[i]@);
    let mut env = env;
    match plan {
        MethodPlan::Push { elem } => match coerce(ops, copy_value(&args[0]), &elem, span) {
            Err(error) => undo(error, env),
            Ok(value) => {
                let outcome = edit_named(&mut env, receiver, Edit::Push(value), Some(elem), span);
                finish(outcome, env)
            },
        },
        MethodPlan::Pop => {
            let outcome = edit_named(&mut env, receiver, Edit::Pop, None, span);
            finish(outcome, env)
        },
        MethodPlan::Clear => {
            let outcome = edit_named(&mut env, receiver, Edit::Clear, None, span);
            finish(outcome, env)
        },
        MethodPlan::Reserve | MethodPlan::ShrinkTo => match capacity(
            ops,
            copy_value(&args[0]),
            span,
        ) {
            Err(error) => undo(error, env),
            Ok(true) => (Ok(()), env),
            Ok(false) => {
                let mut message = method.clone();
                message.append("() capacity is out of range");
                undo(Diagnostic::type_error(message, span), env)
            },
        },
        MethodPlan::ShrinkToFit => (Ok(()), env),
        MethodPlan::Sort { radix, stable, comparator } => {
            let elems = copy_elements(&env, receiver);
            match sort(ops, elems, radix, stable, comparator, &env, span) {
                Err(failure) => (Err(failure), env),
                Ok(sorted) => {
                    let outcome = edit_named(
                        &mut env,
                        receiver,
                        Edit::Replace(sorted),
                        None,
                        span,
                    );
                    finish(outcome, env)
                },
            }
        },
        MethodPlan::PutEntry { key, value } => put_in_dict(
            ops,
            receiver,
            copy_value(&args[0]),
            copy_value(&args[1]),
            key,
            value,
            span,
            env,
        ),
        MethodPlan::PutMapEntry { key, value } => put_in_map(
            ops,
            receiver,
            copy_value(&args[0]),
            copy_value(&args[1]),
            key,
            value,
            span,
            env,
        ),
        MethodPlan::RemoveEntry { key } | MethodPlan::RemoveMapEntry { key } => match key_text(
            ops,
            copy_value(&args[0]),
            &key,
            span,
        ) {
            Err(error) => undo(error, env),
            Ok(key) => {
                let outcome = remove_key(&mut env, receiver, &key, span);
                finish(outcome, env)
            },
        },
        MethodPlan::ClearMap => {
            let outcome = clear_map(&mut env, receiver, span);
            finish(outcome, env)
        },
    }
}

/// Goes on behind a call that is a statement.
pub fn go_on_behind_call(outcome: (Result<CallResult, Failure>, State)) -> (result: (
    Result<Flow, Failure>,
    State,
))
    ensures
        ran_view(result) == flow_of_call(
            call_and_state(outcome),
        ),
{
    match outcome {
        (Err(failure), state) => (Err(failure), state),
        (Ok(CallResult::Exit), state) => (Ok(Flow::Exit), state),
        (Ok(CallResult::Continue(_)), state) => (Ok(Flow::Next), state),
    }
}

/// Calls a method that every value of the kind has.
fn exec_own_method<O: ValueOperations>(
    ops: &O,
    receiver: &String,
    method: &String,
    args: &Vec<Value>,
    span: Span,
    env: Env,
) -> (result: (Result<(), Failure>, Env))
    requires
        are_operations(*ops),
    ensures
        done_view(result) == own_method_done(
            *ops,
            receiver@,
            method@,
            values_view(args@),
            span,
            env@,
        ),
{
    match check_mutable(&env, receiver, span) {
        Err(error) => {
            return undo(error, env);
        },
        Ok(()) => {},
    }
    proof {
        let binding = meaning(env@, receiver@)->0;
        lemma_planned_arguments(binding.value, binding.ty, method@, values_view(args@), span);
        assert(values_view(args@).len() == args@.len());
    }
    match plan_method(&env, receiver, method, args, span) {
        Err(error) => undo(error, env),
        Ok(plan) => exec_plan(ops, receiver, method, plan, args, span, env),
    }
}

/// Calls a method.
pub fn exec_method<O: ValueOperations>(
    ops: &O,
    index: &ProgramIndex,
    threads: usize,
    calls: usize,
    receiver: &String,
    method: &String,
    args: &Vec<Expr>,
    span: Span,
    state: State,
) -> (result: (Result<Flow, Failure>, State))
    requires
        are_operations(*ops),
    ensures
        ran_view(result) == method_ran(
            *ops,
            index@,
            threads,
            calls,
            receiver@,
            method@,
            exprs_view(args@),
            span,
            state@,
        ),
    decreases 5 * calls_left(calls) + 2,
{
    let State { env, loop_depth, lowered } = state;
    let (values, env) = eval_method_args(ops, index, method, args, env);
    let values = match values {
        Err(failure) => {
            return (Err(failure), State { env, loop_depth, lowered });
        },
        Ok(values) => values,
    };
    assert(values_view(values@).len() == values@.len());
    let found = match env.get(receiver) {
        None => Err(say_unknown(receiver, span)),
        Some(binding) => find_method_statement(
            index,
            receiver,
            &binding.ty,
            binding.mutable,
            method,
            values.len(),
            span,
        ),
    };
    proof {
        if let Some(binding) = meaning(env@, receiver@) {
            lemma_method_is_function(
                index@,
                candidates(binding.ty, method@),
                0,
                receiver@,
                binding.ty,
                binding.mutable,
                method@,
                values@.len(),
                span,
            );
        }
    }
    match found {
        Err(error) => (Err(Failure::of(error)), State { env, loop_depth, lowered }),
        Ok(Some((at, changes))) => match borrow(
            ops,
            &name_of(receiver, span),
            env,
            changes,
            span,
        ) {
            (Err(error), env) => (
                Err(Failure::of(error)),
                State { env, loop_depth, lowered },
            ),
            (Ok(reference), env) => {
                assert(index@.functions[at as int] == index.functions@[at as int]@);
                go_on_behind_call(
                    exec_function(
                        ops,
                        index,
                        threads,
                        calls,
                        &index.functions[at],
                        &with_first(reference, values),
                        State { env, loop_depth, lowered },
                    ),
                )
            },
        },
        Ok(None) => {
            let (done, env) = exec_own_method(ops, receiver, method, &values, span, env);
            let state = State { env, loop_depth, lowered };
            match done {
                Err(failure) => (Err(failure), state),
                Ok(()) => (Ok(Flow::Next), state),
            }
        },
    }
}

} // verus!
