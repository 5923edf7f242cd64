//! Statements that change what names stand for.

use crate::ast::{exprs_view, Expr, ExprView, Span, TypeName, TypeView};
use crate::copy::copy_type;
use crate::diagnostic::{message_at_span, type_message, Diagnostic, DiagnosticView};
use crate::semantics::containers::{
    assign_element, assign_entry, assign_map_entry, field_element_plan, index_plan,
    plan_field_element, plan_index_assignment, with_dict_entry, with_element, with_map_entry,
    IndexPlan, IndexPlanView,
};
use crate::semantics::environment::{
    fresh_binding, meaning, with_meaning, with_name, BindingView, Env,
};
use crate::semantics::evaluate::{all_evaluated, eval_all, eval_expr, evaluated};
use crate::semantics::index::{IndexView, ProgramIndex};
use crate::semantics::known::{ensure_type_known, type_problem};
use crate::semantics::methods::{
    edit_field, field_method_plan, plan_field_method, with_field_edit, Edit, EditView, MethodPlan,
    MethodPlanView,
};
use crate::semantics::operations::{
    are_operations, coerce, coerced, key_of, key_of_type, key_text, plain_key_text, type_of, typed,
    ValueOperations,
};
use crate::semantics::state::{plain, Failure, FailureView, Scopes};
use crate::semantics::statements::{
    assign, assign_field, assignment_type, change_problem, check_assignable, check_inferred,
    check_new_name, declare, field_owner, field_target, field_type, is_unresolved, said_of,
    say_unknown, type_of_field, unknown_identifier, value_of, with_field,
};
use crate::semantics::types::optional_type;
use crate::semantics::values::{copy_value, values_view, Value, ValueView};
use vstd::prelude::*;

verus! {

/// That a statement is done, or why it is not, and the names behind it.
pub type Done = (Result<(), FailureView>, Scopes);

/// A statement that is not done.
pub open spec fn undone(error: DiagnosticView, env: Scopes) -> Done {
    (Err(plain(error)), env)
}

/// The names once one stands for another value.
pub open spec fn changed(
    env: Scopes,
    name: Seq<char>,
    change: Result<ValueView, DiagnosticView>,
    span: Span,
) -> Done {
    match meaning(env, name) {
        None => undone(message_at_span(unknown_identifier(name), span), env),
        Some(binding) => match change {
            Ok(value) => (Ok(()), with_meaning(env, name, BindingView { value, ..binding })),
            Err(error) => undone(error, env),
        },
    }
}

/// What a declaration does.
pub open spec fn let_done<O: ValueOperations>(
    ops: O,
    index: IndexView,
    name: Seq<char>,
    mutable: bool,
    ty: Option<TypeView>,
    expr: ExprView,
    span: Span,
    env: Scopes,
) -> Done {
    if env.len() > 0 && env.last().contains_key(name) {
        undone(message_at_span(said_of("redefinition of"@, name), span), env)
    } else {
        match evaluated(ops, index, expr, env) {
            (Err(failure), env) => (Err(failure), env),
            (Ok(value), env) => match ty {
                Some(target) => match type_problem(target, index, span) {
                    Some(problem) => undone(problem, env),
                    None => match coerced(ops, value, target, span) {
                        Err(error) => undone(error, env),
                        Ok(value) => (
                            Ok(()),
                            with_name(env, name, fresh_binding(value, target, mutable)),
                        ),
                    },
                },
                None => if is_unresolved(value) {
                    undone(
                        type_message(
                            "cannot infer every generic type argument; add an explicit type annotation"@,
                            span,
                        ),
                        env,
                    )
                } else {
                    (
                        Ok(()),
                        with_name(env, name, fresh_binding(value, typed(ops, value), mutable)),
                    )
                },
            },
        }
    }
}

/// What an assignment to a name does.
pub open spec fn assign_done<O: ValueOperations>(
    ops: O,
    index: IndexView,
    name: Seq<char>,
    expr: ExprView,
    span: Span,
    env: Scopes,
) -> Done {
    match change_problem(env, name, "cannot assign to immutable"@, span) {
        Some(problem) => undone(problem, env),
        None => {
            let ty = meaning(env, name)->0.ty;
            match evaluated(ops, index, expr, env) {
                (Err(failure), env) => (Err(failure), env),
                (Ok(value), env) => match coerced(ops, value, ty, span) {
                    Err(error) => undone(error, env),
                    Ok(value) => changed(env, name, Ok(value), span),
                },
            }
        },
    }
}

/// What an assignment to a field does.
pub open spec fn assign_field_done<O: ValueOperations>(
    ops: O,
    index: IndexView,
    receiver: Seq<char>,
    field: Seq<char>,
    expr: ExprView,
    span: Span,
    env: Scopes,
) -> Done {
    match field_owner(env, receiver, span) {
        Err(error) => undone(error, env),
        Ok((owner, target)) => match type_of_field(index, owner, field, span) {
            Err(error) => undone(error, env),
            Ok(ty) => match evaluated(ops, index, expr, env) {
                (Err(failure), env) => (Err(failure), env),
                (Ok(value), env) => match coerced(ops, value, ty, span) {
                    Err(error) => undone(error, env),
                    Ok(value) => changed(
                        env,
                        target,
                        with_field(value_of(env, target), field, value, span),
                        span,
                    ),
                },
            },
        },
    }
}

/// What setting the value of a key of a dictionary does.
pub open spec fn entry_put<O: ValueOperations>(
    ops: O,
    name: Seq<char>,
    key: ValueView,
    value: ValueView,
    key_type: TypeView,
    value_type: TypeView,
    span: Span,
    env: Scopes,
) -> Done {
    match key_of_type(ops, key, key_type, span) {
        Err(error) => undone(error, env),
        Ok(key) => match coerced(ops, value, value_type, span) {
            Err(error) => undone(error, env),
            Ok(value) => changed(
                env,
                name,
                with_dict_entry(value_of(env, name), key, value, key_type, value_type, span),
                span,
            ),
        },
    }
}

/// What setting the value of a key of a map does.
pub open spec fn map_entry_put<O: ValueOperations>(
    ops: O,
    name: Seq<char>,
    key: ValueView,
    value: ValueView,
    key_type: TypeView,
    value_type: TypeView,
    span: Span,
    env: Scopes,
) -> Done {
    match coerced(ops, key, key_type, span) {
        Err(error) => undone(error, env),
        Ok(key) => match key_of(ops, key, span) {
            Err(error) => undone(error, env),
            Ok(text) => match coerced(ops, value, value_type, span) {
                Err(error) => undone(error, env),
                Ok(value) => changed(
                    env,
                    name,
                    with_map_entry(
                        value_of(env, name),
                        text,
                        key,
                        value,
                        key_type,
                        value_type,
                        span,
                    ),
                    span,
                ),
            },
        },
    }
}

/// What an assignment to an index does once the index and the value are known.
pub open spec fn index_assigned<O: ValueOperations>(
    ops: O,
    name: Seq<char>,
    at: ValueView,
    value: ValueView,
    span: Span,
    env: Scopes,
) -> Done {
    match meaning(env, name) {
        None => undone(message_at_span(unknown_identifier(name), span), env),
        Some(binding) => match index_plan(binding.value, binding.ty, at, span) {
            Err(error) => undone(error, env),
            Ok(IndexPlanView::Element { at, elem }) => match coerced(ops, value, elem, span) {
                Err(error) => undone(error, env),
                Ok(value) => changed(
                    env,
                    name,
                    with_element(value_of(env, name), at, value, elem, span),
                    span,
                ),
            },
            Ok(IndexPlanView::Entry { key, value: ty }) => entry_put(
                ops,
                name,
                at,
                value,
                key,
                ty,
                span,
                env,
            ),
            Ok(IndexPlanView::MapEntry { key, value: ty }) => map_entry_put(
                ops,
                name,
                at,
                value,
                key,
                ty,
                span,
                env,
            ),
        },
    }
}

/// What an assignment to an index does.
pub open spec fn assign_index_done<O: ValueOperations>(
    ops: O,
    index: IndexView,
    name: Seq<char>,
    at: ExprView,
    expr: ExprView,
    span: Span,
    env: Scopes,
) -> Done {
    match change_problem(env, name, "cannot assign to immutable"@, span) {
        Some(problem) => undone(problem, env),
        None => match evaluated(ops, index, at, env) {
            (Err(failure), env) => (Err(failure), env),
            (Ok(at), env) => match evaluated(ops, index, expr, env) {
                (Err(failure), env) => (Err(failure), env),
                (Ok(value), env) => index_assigned(ops, name, at, value, span, env),
            },
        },
    }
}

/// What an assignment to an element of a list in a field does once the index
/// and the value are known.
pub open spec fn field_element_assigned<O: ValueOperations>(
    ops: O,
    receiver: Seq<char>,
    field: Seq<char>,
    at: ValueView,
    value: ValueView,
    span: Span,
    env: Scopes,
) -> Done {
    match field_element_plan(env, receiver, field, at, span) {
        Err(error) => undone(error, env),
        Ok((at, elem)) => match coerced(ops, value, elem, span) {
            Err(error) => undone(error, env),
            Ok(value) => changed(
                env,
                receiver,
                with_field_edit(
                    value_of(env, receiver),
                    field,
                    EditView::Put { at: at as usize, value },
                    "indexed struct field must be a list"@,
                    span,
                ),
                span,
            ),
        },
    }
}

/// What an assignment to an element of a list in a field does.
pub open spec fn assign_field_element_done<O: ValueOperations>(
    ops: O,
    index: IndexView,
    receiver: Seq<char>,
    field: Seq<char>,
    at: ExprView,
    expr: ExprView,
    span: Span,
    env: Scopes,
) -> Done {
    if meaning(env, receiver) is None {
        undone(message_at_span(unknown_identifier(receiver), span), env)
    } else {
        match evaluated(ops, index, at, env) {
            (Err(failure), env) => (Err(failure), env),
            (Ok(at), env) => match evaluated(ops, index, expr, env) {
                (Err(failure), env) => (Err(failure), env),
                (Ok(value), env) => field_element_assigned(
                    ops,
                    receiver,
                    field,
                    at,
                    value,
                    span,
                    env,
                ),
            },
        }
    }
}

/// What a method of a list in a field does once its arguments are known.
pub open spec fn field_method_applied<O: ValueOperations>(
    ops: O,
    receiver: Seq<char>,
    field: Seq<char>,
    name: Seq<char>,
    args: Seq<ValueView>,
    span: Span,
    env: Scopes,
) -> Done {
    match change_problem(env, receiver, "cannot mutate immutable"@, span) {
        Some(problem) => undone(problem, env),
        None => match field_method_plan(
            value_of(env, receiver),
            field,
            name,
            args.len(),
            span,
        ) {
            Err(error) => undone(error, env),
            Ok(plan) => match (match plan {
                MethodPlanView::Push { elem } => match coerced(ops, args[0], elem, span) {
                    Err(error) => Err::<EditView, DiagnosticView>(error),
                    Ok(value) => Ok(EditView::Push(value)),
                },
                MethodPlanView::Clear => Ok(EditView::Clear),
                _ => Ok(EditView::Pop),
            }) {
                Err(error) => undone(error, env),
                Ok(edit) => changed(
                    env,
                    receiver,
                    with_field_edit(
                        value_of(env, receiver),
                        field,
                        edit,
                        "mutated struct field must be a list"@,
                        span,
                    ),
                    span,
                ),
            },
        },
    }
}

/// What a method of a list in a field does.
pub open spec fn field_method_done<O: ValueOperations>(
    ops: O,
    index: IndexView,
    receiver: Seq<char>,
    field: Seq<char>,
    name: Seq<char>,
    args: Seq<ExprView>,
    span: Span,
    env: Scopes,
) -> Done {
    match all_evaluated(ops, index, args, 0, Seq::empty(), env) {
        (Err(failure), env) => (Err(failure), env),
        (Ok(values), env) => field_method_applied(ops, receiver, field, name, values, span, env),
    }
}

/// That a statement is done, or why it is not, as a mathematical value.
pub open spec fn done_view(outcome: (Result<(), Failure>, Env)) -> Done {
    (
        match outcome.0 {
            Ok(()) => Ok(()),
            Err(failure) => Err(failure@),
        },
        outcome.1@,
    )
}

/// A statement that is not done.
pub fn undo(error: Diagnostic, env: Env) -> (result: (Result<(), Failure>, Env))
    ensures
        done_view(result) == undone(error@, env@),
{
    (Err(Failure::of(error)), env)
}

/// The outcome of a step that changes names.
pub fn finish(outcome: Result<(), Diagnostic>, env: Env) -> (result: (Result<(), Failure>, Env))
    ensures
        done_view(result) == (match outcome {
            Ok(()) => (Ok::<(), FailureView>(()), env@),
            Err(error) => undone(error@, env@),
        }),
{
    match outcome {
        Ok(()) => (Ok(()), env),
        Err(error) => undo(error, env),
    }
}

/// Declares a name.
pub fn exec_let<O: ValueOperations>(
    ops: &O,
    index: &ProgramIndex,
    name: &String,
    mutable: bool,
    ty: &Option<TypeName>,
    expr: &Expr,
    span: Span,
    env: Env,
) -> (result: (Result<(), Failure>, Env))
    requires
        are_operations(*ops),
    ensures
        done_view(result) == let_done(
            *ops,
            index@,
            name@,
            mutable,
            optional_type(*ty),
            expr@,
            span,
            env@,
        ),
{
    match check_new_name(&env, name, span) {
        Err(error) => {
            return undo(error, env);
        },
        Ok(()) => {},
    }
    match eval_expr(ops, index, expr, env) {
        (Err(failure), env) => (Err(failure), env),
        (Ok(value), env) => match ty {
            Some(target) => match ensure_type_known(target, index, span) {
                Err(error) => undo(error, env),
                Ok(()) => match coerce(ops, value, target, span) {
                    Err(error) => undo(error, env),
                    Ok(value) => {
                        let mut env = env;
                        declare(&mut env, name, mutable, copy_type(target), value);
                        (Ok(()), env)
                    },
                },
            },
            None => match check_inferred(&value, span) {
                Err(error) => undo(error, env),
                Ok(()) => {
                    let ty = type_of(ops, &value);
                    let mut env = env;
                    declare(&mut env, name, mutable, ty, value);
                    (Ok(()), env)
                },
            },
        },
    }
}

/// Assigns to a name.
pub fn exec_assign<O: ValueOperations>(
    ops: &O,
    index: &ProgramIndex,
    name: &String,
    expr: &Expr,
    span: Span,
    env: Env,
) -> (result: (Result<(), Failure>, Env))
    requires
        are_operations(*ops),
    ensures
        done_view(result) == assign_done(*ops, index@, name@, expr@, span, env@),
{
    match assignment_type(&env, name, span) {
        Err(error) => undo(error, env),
        Ok(ty) => match eval_expr(ops, index, expr, env) {
            (Err(failure), env) => (Err(failure), env),
            (Ok(value), env) => match coerce(ops, value, &ty, span) {
                Err(error) => undo(error, env),
                Ok(value) => {
                    let mut env = env;
                    let outcome = assign(&mut env, name, value, span);
                    finish(outcome, env)
                },
            },
        },
    }
}

/// Assigns to a field.
pub fn exec_assign_field<O: ValueOperations>(
    ops: &O,
    index: &ProgramIndex,
    receiver: &String,
    field: &String,
    expr: &Expr,
    span: Span,
    env: Env,
) -> (result: (Result<(), Failure>, Env))
    requires
        are_operations(*ops),
    ensures
        done_view(result) == assign_field_done(
            *ops,
            index@,
            receiver@,
            field@,
            expr@,
            span,
            env@,
        ),
{
    match field_target(&env, receiver, span) {
        Err(error) => undo(error, env),
        Ok((owner, target)) => match field_type(index, &owner, field, span) {
            Err(error) => undo(error, env),
            Ok(ty) => match eval_expr(ops, index, expr, env) {
                (Err(failure), env) => (Err(failure), env),
                (Ok(value), env) => match coerce(ops, value, &ty, span) {
                    Err(error) => undo(error, env),
                    Ok(value) => {
                        let mut env = env;
                        let outcome = assign_field(&mut env, &target, field, value, span);
                        finish(outcome, env)
                    },
                },
            },
        },
    }
}

/// Sets the value of a key of a dictionary.
pub fn put_in_dict<O: ValueOperations>(
    ops: &O,
    name: &String,
    key: Value,
    value: Value,
    key_type: TypeName,
    value_type: TypeName,
    span: Span,
    env: Env,
) -> (result: (Result<(), Failure>, Env))
    requires
        are_operations(*ops),
    ensures
        done_view(result) == entry_put(
            *ops,
            name@,
            key@,
            value@,
            key_type@,
            value_type@,
            span,
            env@,
        ),
{
    match key_text(ops, key, &key_type, span) {
        Err(error) => undo(error, env),
        Ok(key) => match coerce(ops, value, &value_type, span) {
            Err(error) => undo(error, env),
            Ok(value) => {
                let mut env = env;
                let outcome = assign_entry(&mut env, name, &key, value, key_type, value_type, span);
                finish(outcome, env)
            },
        },
    }
}

/// Sets the value of a key of a map.
pub fn put_in_map<O: ValueOperations>(
    ops: &O,
    name: &String,
    key: Value,
    value: Value,
    key_type: TypeName,
    value_type: TypeName,
    span: Span,
    env: Env,
) -> (result: (Result<(), Failure>, Env))
    requires
        are_operations(*ops),
    ensures
        done_view(result) == map_entry_put(
            *ops,
            name@,
            key@,
            value@,
            key_type@,
            value_type@,
            span,
            env@,
        ),
{
    match coerce(ops, key, &key_type, span) {
        Err(error) => undo(error, env),
        Ok(key) => match plain_key_text(ops, &key, span) {
            Err(error) => undo(error, env),
            Ok(text) => match coerce(ops, value, &value_type, span) {
                Err(error) => undo(error, env),
                Ok(value) => {
                    let mut env = env;
                    let outcome = assign_map_entry(
                        &mut env,
                        name,
                        &text,
                        key,
                        value,
                        key_type,
                        value_type,
                        span,
                    );
                    finish(outcome, env)
                },
            },
        },
    }
}

/// Assigns to an index, once it and the value are known.
fn assign_at<O: ValueOperations>(
    ops: &O,
    name: &String,
    at: Value,
    value: Value,
    span: Span,
    env: Env,
) -> (result: (Result<(), Failure>, Env))
    requires
        are_operations(*ops),
    ensures
        done_view(result) == index_assigned(*ops, name@, at@, value@, span, env@),
{
    match plan_index_assignment(&env, name, &at, span) {
        Err(error) => undo(error, env),
        Ok(IndexPlan::Element { at, elem }) => match coerce(ops, value, &elem, span) {
            Err(error) => undo(error, env),
            Ok(value) => {
                let mut env = env;
                let outcome = assign_element(&mut env, name, at, value, elem, span);
                finish(outcome, env)
            },
        },
        Ok(IndexPlan::Entry { key, value: ty }) => put_in_dict(
            ops,
            name,
            at,
            value,
            key,
            ty,
            span,
            env,
        ),
        Ok(IndexPlan::MapEntry { key, value: ty }) => put_in_map(
            ops,
            name,
            at,
            value,
            key,
            ty,
            span,
            env,
        ),
    }
}

/// Assigns to an index.
pub fn exec_assign_index<O: ValueOperations>(
    ops: &O,
    index: &ProgramIndex,
    name: &String,
    at: &Expr,
    expr: &Expr,
    span: Span,
    env: Env,
) -> (result: (Result<(), Failure>, Env))
    requires
        are_operations(*ops),
    ensures
        done_view(result) == assign_index_done(*ops, index@, name@, at@, expr@, span, env@),
{
    match check_assignable(&env, name, span) {
        Err(error) => {
            return undo(error, env);
        },
        Ok(()) => {},
    }
    match eval_expr(ops, index, at, env) {
        (Err(failure), env) => (Err(failure), env),
        (Ok(at), env) => match eval_expr(ops, index, expr, env) {
            (Err(failure), env) => (Err(failure), env),
            (Ok(value), env) => assign_at(ops, name, at, value, span, env),
        },
    }
}

/// Assigns to an element of a list in a field.
pub fn exec_assign_field_element<O: ValueOperations>(
    ops: &O,
    index: &ProgramIndex,
    receiver: &String,
    field: &String,
    at: &Expr,
    expr: &Expr,
    span: Span,
    env: Env,
) -> (result: (Result<(), Failure>, Env))
    requires
        are_operations(*ops),
    ensures
        done_view(result) == assign_field_element_done(
            *ops,
            index@,
            receiver@,
            field@,
            at@,
            expr@,
            span,
            env@,
        ),
{
    if env.get(receiver).is_none() {
        return undo(say_unknown(receiver, span), env);
    }
    match eval_expr(ops, index, at, env) {
        (Err(failure), env) => (Err(failure), env),
        (Ok(at), env) => match eval_expr(ops, index, expr, env) {
            (Err(failure), env) => (Err(failure), env),
            (Ok(value), env) => match plan_field_element(&env, receiver, field, &at, span) {
                Err(error) => undo(error, env),
                Ok((at, elem)) => match coerce(ops, value, &elem, span) {
                    Err(error) => undo(error, env),
                    Ok(value) => {
                        let mut env = env;
                        let outcome = edit_field(
                            &mut env,
                            receiver,
                            field,
                            Edit::Put { at, value },
                            "indexed struct field must be a list",
                            span,
                        );
                        finish(outcome, env)
                    },
                },
            },
        },
    }
}

/// Calls a method of a list in a field.
pub fn exec_field_method<O: ValueOperations>(
    ops: &O,
    index: &ProgramIndex,
    receiver: &String,
    field: &String,
    name: &String,
    args: &Vec<Expr>,
    span: Span,
    env: Env,
) -> (result: (Result<(), Failure>, Env))
    requires
        are_operations(*ops),
    ensures
        done_view(result) == field_method_done(
            *ops,
            index@,
            receiver@,
            field@,
            name@,
            exprs_view(args@),
            span,
            env@,
        ),
{
    match eval_all(ops, index, args, env) {
        (Err(failure), env) => (Err(failure), env),
        (Ok(values), env) => {
            assert(values_view(values@).len() == values@.len());
            match plan_field_method(&env, receiver, field, name, values.len(), span) {
                Err(error) => undo(error, env),
                Ok(plan) => {
                    let edit = match plan {
                        MethodPlan::Push { elem } => {
                            assert(values@.len() == 1);
                            assert(values_view(values@)[0] == values@[0]@);
                            match coerce(ops, copy_value(&values[0]), &elem, span) {
                                Err(error) => {
                                    return undo(error, env);
                                },
                                Ok(value) => Edit::Push(value),
                            }
                        },
                        MethodPlan::Clear => Edit::Clear,
                        _ => Edit::Pop,
                    };
                    let mut env = env;
                    let outcome = edit_field(
                        &mut env,
                        receiver,
                        field,
                        edit,
                        "mutated struct field must be a list",
                        span,
                    );
                    finish(outcome, env)
                },
            }
        },
    }
}

} // verus!
