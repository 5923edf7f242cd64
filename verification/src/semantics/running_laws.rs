//! What expressions and statements come to in terms of their parts, and what is read
//! back once something is written.

use crate::ast::{
    ArmView, BinaryOp, ExprView, InitView, ParamView, ReductionView, Span, StmtNode, TypeView,
    UnaryOp,
};
use crate::diagnostic::DiagnosticView;
use crate::semantics::assignments::{assign_done, index_assigned, let_done};
use crate::semantics::containers::{index_plan, with_element, IndexPlanView};
use crate::semantics::entries::{is_sorted, law_set_entry, place_of, with_entry};
use crate::semantics::environment::{
    law_insert_then_get, law_replace_then_get, meaning, with_name, BindingView,
};
use crate::semantics::evaluate::{
    all_evaluated, evaluated, fields_filled, indexed_value, scope_closed,
};
use crate::semantics::execute::{
    closed_behind, opened, parallel_ran, params_bound, range_evaluated, reduction_done, stmt_ran,
    stmts_ran, with_env,
};
use crate::semantics::expressions::field_of;
use crate::semantics::flow::{range_between, range_values, FlowView, ForRange, LOOP_LIMIT};
use crate::semantics::index::{IndexView, LayoutFieldView};
use crate::semantics::known::type_problem;
use crate::semantics::layouts::layout_names;
use crate::semantics::matching::{selected_arm, with_pattern_bound};
use crate::semantics::matching_laws::{has_once, is_bound_to};
use crate::semantics::names::{enum_names, is_listed, lemma_position_from, position_of};
use crate::semantics::operations::{coerced, combined, inverted, negated, ValueOperations};
use crate::semantics::order::{law_order_is_total, text_before};
use crate::semantics::receivers::goes_on;
use crate::semantics::state::{plain, FailureView, Scopes, StateView};
use crate::semantics::statements::{value_of, with_field};
use crate::semantics::values::{names_in, value_named, NamedView, ValueView};
use vstd::prelude::*;

verus! {

/// An operator gets what its left operand comes to and what its right operand comes to
/// after it, in this order.
pub proof fn law_operators_take_left_and_right<O: ValueOperations>(
    ops: O,
    index: IndexView,
    op: BinaryOp,
    left: ExprView,
    right: ExprView,
    span: Span,
    env: Scopes,
    first: ValueView,
    middle: Scopes,
    second: ValueView,
    end: Scopes,
)
    requires
        op != BinaryOp::And,
        op != BinaryOp::Or,
        evaluated(ops, index, left, env) == (Ok::<ValueView, FailureView>(first), middle),
        evaluated(ops, index, right, middle) == (Ok::<ValueView, FailureView>(second), end),
    ensures
        ({
            let whole = ExprView::Binary {
                op,
                left: Box::new(left),
                right: Box::new(right),
                span,
            };
            evaluated(ops, index, whole, env) == match combined(ops, op, first, second, span) {
                Ok(value) => (Ok::<ValueView, FailureView>(value), end),
                Err(error) => (Err::<ValueView, FailureView>(plain(error)), end),
            }
        }),
{
}

/// `and` is the conjunction of its operands and `or` their disjunction; the right
/// operand is not looked at where the left decides.
pub proof fn law_logical_operators_decide<O: ValueOperations>(
    ops: O,
    index: IndexView,
    left: ExprView,
    right: ExprView,
    span: Span,
    env: Scopes,
    first: bool,
    middle: Scopes,
    second: bool,
    end: Scopes,
)
    requires
        evaluated(ops, index, left, env) == (
            Ok::<ValueView, FailureView>(ValueView::Bool(first)),
            middle,
        ),
        evaluated(ops, index, right, middle) == (
            Ok::<ValueView, FailureView>(ValueView::Bool(second)),
            end,
        ),
    ensures
        ({
            let both = ExprView::Binary {
                op: BinaryOp::And,
                left: Box::new(left),
                right: Box::new(right),
                span,
            };
            let either = ExprView::Binary {
                op: BinaryOp::Or,
                left: Box::new(left),
                right: Box::new(right),
                span,
            };
            &&& evaluated(ops, index, both, env) == (
                Ok::<ValueView, FailureView>(ValueView::Bool(first && second)),
                if first {
                    end
                } else {
                    middle
                },
            )
            &&& evaluated(ops, index, either, env) == (
                Ok::<ValueView, FailureView>(ValueView::Bool(first || second)),
                if first {
                    middle
                } else {
                    end
                },
            )
        }),
{
}

/// A sign is applied to what stands behind it.
pub proof fn law_signs_apply_to_their_operand<O: ValueOperations>(
    ops: O,
    index: IndexView,
    expr: ExprView,
    span: Span,
    env: Scopes,
    value: ValueView,
    end: Scopes,
)
    requires
        evaluated(ops, index, expr, env) == (Ok::<ValueView, FailureView>(value), end),
    ensures
        evaluated(
            ops,
            index,
            ExprView::Unary { op: UnaryOp::Plus, expr: Box::new(expr), span },
            env,
        ) == (Ok::<ValueView, FailureView>(value), end),
        negated(ops, value, span) matches Ok(new) ==> evaluated(
            ops,
            index,
            ExprView::Unary { op: UnaryOp::Neg, expr: Box::new(expr), span },
            env,
        ) == (Ok::<ValueView, FailureView>(new), end),
        inverted(ops, value, span) matches Ok(new) ==> evaluated(
            ops,
            index,
            ExprView::Unary { op: UnaryOp::Not, expr: Box::new(expr), span },
            env,
        ) == (Ok::<ValueView, FailureView>(new), end),
{
}

/// Expressions from one on that change no name come to their values, in their order.
proof fn lemma_all_in_order<O: ValueOperations>(
    ops: O,
    index: IndexView,
    exprs: Seq<ExprView>,
    from: int,
    values: Seq<ValueView>,
    env: Scopes,
)
    requires
        0 <= from <= exprs.len(),
        values.len() == exprs.len(),
        forall|i: int|
            0 <= i < exprs.len() ==> evaluated(ops, index, #[trigger] exprs[i], env) == (
                Ok::<ValueView, FailureView>(values[i]),
                env,
            ),
    ensures
        all_evaluated(ops, index, exprs, from, values.take(from), env) == (
            Ok::<Seq<ValueView>, FailureView>(values),
            env,
        ),
    decreases exprs.len() - from,
{
    if from < exprs.len() {
        assert(evaluated(ops, index, exprs[from], env) == (
            Ok::<ValueView, FailureView>(values[from]),
            env,
        ));
        assert(values.take(from).push(values[from]) =~= values.take(from + 1));
        lemma_all_in_order(ops, index, exprs, from + 1, values, env);
    } else {
        assert(values.take(from) =~= values);
    }
}

/// Arguments that change no name come to their values, each at the place of its
/// expression.
pub proof fn law_arguments_come_in_order<O: ValueOperations>(
    ops: O,
    index: IndexView,
    exprs: Seq<ExprView>,
    values: Seq<ValueView>,
    env: Scopes,
)
    requires
        values.len() == exprs.len(),
        forall|i: int|
            0 <= i < exprs.len() ==> evaluated(ops, index, #[trigger] exprs[i], env) == (
                Ok::<ValueView, FailureView>(values[i]),
                env,
            ),
    ensures
        all_evaluated(ops, index, exprs, 0, Seq::empty(), env) == (
            Ok::<Seq<ValueView>, FailureView>(values),
            env,
        ),
{
    assert(values.take(0) =~= Seq::empty());
    lemma_all_in_order(ops, index, exprs, 0, values, env);
}

/// The names of parameters differ.
pub open spec fn params_differ(params: Seq<ParamView>) -> bool {
    forall|i: int, j: int|
        0 <= i < j < params.len() ==> (#[trigger] params[i]).name != (#[trigger] params[j]).name
}

/// Parameters from one on get their arguments, and other names stay.
proof fn lemma_params<O: ValueOperations>(
    ops: O,
    index: IndexView,
    params: Seq<ParamView>,
    args: Seq<ValueView>,
    given: Seq<ValueView>,
    from: int,
    env: Scopes,
)
    requires
        0 <= from <= params.len(),
        args.len() == params.len(),
        given.len() == params.len(),
        params_differ(params),
        env.len() > 0,
        forall|i: int|
            0 <= i < params.len() ==> type_problem((#[trigger] params[i]).ty, index, params[i].span)
                is None && coerced(ops, args[i], params[i].ty, params[i].span) == Ok::<
                ValueView,
                DiagnosticView,
            >(given[i]),
    ensures
        params_bound(ops, index, params, args, from, env) matches (outcome, after) && outcome is Ok
            && after.len() == env.len() && (forall|i: int|
            from <= i < params.len() ==> is_bound_to(
                after,
                (#[trigger] params[i]).name,
                given[i],
                params[i].ty,
            )) && (forall|other: Seq<char>|
            (forall|i: int| from <= i < params.len() ==> (#[trigger] params[i]).name != other)
                ==> #[trigger] meaning(after, other) == meaning(env, other)),
    decreases params.len() - from,
{
    if from < params.len() {
        let param = params[from];
        assert(type_problem(param.ty, index, param.span) is None);
        let bound = BindingView {
            value: given[from],
            ty: param.ty,
            mutable: false,
            shared_borrows: 0,
            mut_borrowed: false,
        };
        let next = with_name(env, param.name, bound);
        lemma_params(ops, index, params, args, given, from + 1, next);
        let after = params_bound(ops, index, params, args, from + 1, next).1;
        assert(params_bound(ops, index, params, args, from, env) == params_bound(
            ops,
            index,
            params,
            args,
            from + 1,
            next,
        ));
        law_insert_then_get(env, param.name, param.name, bound);
        assert forall|i: int| from + 1 <= i < params.len() implies (#[trigger] params[i]).name
            != param.name by {
            assert(params[from].name != params[i].name);
        }
        assert(meaning(after, param.name) == meaning(next, param.name));
        assert forall|other: Seq<char>|
            (forall|i: int| from <= i < params.len() ==> (#[trigger] params[i]).name != other) implies
            #[trigger] meaning(after, other) == meaning(env, other) by {
            assert(params[from].name != other);
            law_insert_then_get(env, param.name, other, bound);
            assert(meaning(after, other) == meaning(next, other));
        }
    }
}

/// Each parameter of a function stands for the argument at its place, as its type takes
/// it, and no other name stands for anything else.
pub proof fn law_parameters_get_their_arguments<O: ValueOperations>(
    ops: O,
    index: IndexView,
    params: Seq<ParamView>,
    args: Seq<ValueView>,
    given: Seq<ValueView>,
    env: Scopes,
)
    requires
        args.len() == params.len(),
        given.len() == params.len(),
        params_differ(params),
        env.len() > 0,
        forall|i: int|
            0 <= i < params.len() ==> type_problem((#[trigger] params[i]).ty, index, params[i].span)
                is None && coerced(ops, args[i], params[i].ty, params[i].span) == Ok::<
                ValueView,
                DiagnosticView,
            >(given[i]),
    ensures
        params_bound(ops, index, params, args, 0, env) matches (outcome, after) && outcome is Ok
            && (
        forall|i: int|
            0 <= i < params.len() ==> is_bound_to(
                after,
                (#[trigger] params[i]).name,
                given[i],
                params[i].ty,
            )) && (forall|other: Seq<char>|
            (forall|i: int| 0 <= i < params.len() ==> (#[trigger] params[i]).name != other)
                ==> #[trigger] meaning(after, other) == meaning(env, other)),
{
    lemma_params(ops, index, params, args, given, 0, env);
}

/// A conditional does what its first branch does where the condition is true, and else
/// what its other branch does, if it has one.
pub proof fn law_conditionals_take_their_branch<O: ValueOperations>(
    ops: O,
    index: IndexView,
    threads: usize,
    calls: usize,
    cond: ExprView,
    first: Seq<StmtNode>,
    second: Seq<StmtNode>,
    span: Span,
    state: StateView,
    value: bool,
    env: Scopes,
)
    requires
        evaluated(ops, index, cond, state.env) == (
            Ok::<ValueView, FailureView>(ValueView::Bool(value)),
            env,
        ),
    ensures
        ({
            let inside = opened(with_env(state, env));
            let both = StmtNode::If {
                cond,
                then_branch: first,
                else_branch: Some(second),
                span,
            };
            let one = StmtNode::If { cond, then_branch: first, else_branch: None, span };
            &&& value ==> stmt_ran(ops, index, threads, calls, both, state) == closed_behind(
                ops,
                stmts_ran(ops, index, threads, calls, first, 0, inside),
            )
            &&& !value ==> stmt_ran(ops, index, threads, calls, both, state) == closed_behind(
                ops,
                stmts_ran(ops, index, threads, calls, second, 0, inside),
            )
            &&& value ==> stmt_ran(ops, index, threads, calls, one, state) == closed_behind(
                ops,
                stmts_ran(ops, index, threads, calls, first, 0, inside),
            )
            &&& !value ==> stmt_ran(ops, index, threads, calls, one, state) == (
                Ok::<FlowView, FailureView>(FlowView::Next),
                with_env(state, env),
            )
        }),
{
}

/// Statements run one after another: what stands behind one that goes on runs where it
/// has left the run, and what stands behind one that does not go on does not run.
pub proof fn law_statements_run_in_order<O: ValueOperations>(
    ops: O,
    index: IndexView,
    threads: usize,
    calls: usize,
    stmts: Seq<StmtNode>,
    from: int,
    state: StateView,
    flow: FlowView,
    after: StateView,
)
    requires
        0 <= from < stmts.len(),
        stmt_ran(ops, index, threads, calls, stmts[from], state) == (
            Ok::<FlowView, FailureView>(flow),
            after,
        ),
    ensures
        flow == FlowView::Next ==> stmts_ran(ops, index, threads, calls, stmts, from, state)
            == stmts_ran(ops, index, threads, calls, stmts, from + 1, after),
        flow != FlowView::Next ==> stmts_ran(ops, index, threads, calls, stmts, from, state) == (
            Ok::<FlowView, FailureView>(flow),
            after,
        ),
{
}

/// Once a variable is declared, it stands for the value of its expression as its type
/// takes it, may be changed if it says so, and no other name stands for anything else.
pub proof fn law_declared_variables_have_their_value<O: ValueOperations>(
    ops: O,
    index: IndexView,
    name: Seq<char>,
    mutable: bool,
    ty: TypeView,
    expr: ExprView,
    span: Span,
    env: Scopes,
    value: ValueView,
    middle: Scopes,
    given: ValueView,
    other: Seq<char>,
)
    requires
        middle.len() > 0,
        evaluated(ops, index, expr, env) == (Ok::<ValueView, FailureView>(value), middle),
        coerced(ops, value, ty, span) == Ok::<ValueView, DiagnosticView>(given),
        let_done(ops, index, name, mutable, Some(ty), expr, span, env).0 is Ok,
    ensures
        ({
            let after = let_done(ops, index, name, mutable, Some(ty), expr, span, env).1;
            &&& meaning(after, name) matches Some(binding) && binding.value == given && binding.ty
                == ty && binding.mutable == mutable
            &&& other != name ==> meaning(after, other) == meaning(middle, other)
        }),
{
    let after = let_done(ops, index, name, mutable, Some(ty), expr, span, env).1;
    let binding = BindingView {
        value: given,
        ty,
        mutable,
        shared_borrows: 0,
        mut_borrowed: false,
    };
    assert(after == with_name(middle, name, binding));
    law_insert_then_get(middle, name, other, binding);
}

/// Once a variable is assigned, it stands for the value of the expression as its type
/// takes it, and no other name stands for anything else.
pub proof fn law_assigned_variables_have_their_value<O: ValueOperations>(
    ops: O,
    index: IndexView,
    name: Seq<char>,
    expr: ExprView,
    span: Span,
    env: Scopes,
    value: ValueView,
    middle: Scopes,
    given: ValueView,
    other: Seq<char>,
)
    requires
        meaning(env, name) is Some,
        evaluated(ops, index, expr, env) == (Ok::<ValueView, FailureView>(value), middle),
        coerced(ops, value, meaning(env, name)->0.ty, span) == Ok::<ValueView, DiagnosticView>(
            given,
        ),
        assign_done(ops, index, name, expr, span, env).0 is Ok,
    ensures
        ({
            let after = assign_done(ops, index, name, expr, span, env).1;
            &&& meaning(after, name) matches Some(binding) && binding.value == given && binding
                == BindingView { value: given, ..meaning(middle, name)->0 }
            &&& other != name ==> meaning(after, other) == meaning(middle, other)
        }),
{
    let binding = BindingView { value: given, ..meaning(middle, name)->0 };
    law_replace_then_get(middle, name, other, binding);
}

/// The elements of an array or a list.
pub open spec fn elems_of(value: ValueView) -> Seq<ValueView> {
    match value {
        ValueView::Array { elems, .. } => elems,
        ValueView::List { elems, .. } => elems,
        _ => Seq::empty(),
    }
}

/// Once an element of an array or a list is assigned, it is read there, the other
/// elements are as they were, and so are their number and all other names.
pub proof fn law_assigned_elements_are_read_back<O: ValueOperations>(
    ops: O,
    name: Seq<char>,
    bits: u16,
    at: usize,
    value: ValueView,
    elem: TypeView,
    span: Span,
    env: Scopes,
    given: ValueView,
    place: usize,
    other: Seq<char>,
)
    requires
        meaning(env, name) matches Some(binding) && (binding.value is Array || binding.value
            is List) && index_plan(
            binding.value,
            binding.ty,
            ValueView::UInt { bits, value: at as u128 },
            span,
        ) == Ok::<IndexPlanView, DiagnosticView>(IndexPlanView::Element { at, elem }),
        coerced(ops, value, elem, span) == Ok::<ValueView, DiagnosticView>(given),
    ensures
        ({
            let index = ValueView::UInt { bits, value: at as u128 };
            let (outcome, after) = index_assigned(ops, name, index, value, span, env);
            let before = value_of(env, name);
            let new = value_of(after, name);
            &&& outcome is Ok
            &&& elems_of(new).len() == elems_of(before).len()
            &&& indexed_value(ops, new, index, span) == Ok::<ValueView, DiagnosticView>(given)
            &&& place != at ==> indexed_value(
                ops,
                new,
                ValueView::UInt { bits, value: place as u128 },
                span,
            ) == indexed_value(
                ops,
                before,
                ValueView::UInt { bits, value: place as u128 },
                span,
            )
            &&& other != name ==> meaning(after, other) == meaning(env, other)
        }),
{
    let binding = meaning(env, name)->0;
    let new = with_element(binding.value, at, given, elem, span)->Ok_0;
    law_replace_then_get(env, name, other, BindingView { value: new, ..binding });
    assert((at as u128) as usize == at);
    assert((place as u128) as usize == place);
}

/// A value of a name that stands at one place.
proof fn lemma_value_named(values: Seq<NamedView>, at: int)
    requires
        0 <= at < values.len(),
        has_once(names_in(values), at),
    ensures
        value_named(values, values[at].name) == Some(values[at].value),
{
    assert(names_in(values)[at] == values[at].name);
    lemma_position_from(names_in(values), values[at].name, 0);
}

/// A field of a struct that has it once is read by its name.
pub proof fn law_fields_are_read_by_name(
    name: Seq<char>,
    fields: Seq<NamedView>,
    at: int,
    span: Span,
)
    requires
        0 <= at < fields.len(),
        has_once(names_in(fields), at),
    ensures
        field_of(ValueView::Struct { name, fields }, fields[at].name, span) == Ok::<
            ValueView,
            DiagnosticView,
        >(fields[at].value),
{
    lemma_value_named(fields, at);
}

/// Once a field is assigned it is read back, and the other fields are as they were.
pub proof fn law_assigned_fields_are_read_back(
    value: ValueView,
    field: Seq<char>,
    new: ValueView,
    other: Seq<char>,
    span: Span,
)
    requires
        with_field(value, field, new, span) is Ok,
    ensures
        with_field(value, field, new, span) matches Ok(after)
            && field_of(after, field, span) == Ok::<
            ValueView,
            DiagnosticView,
        >(new) && (other != field ==> field_of(after, other, span) == field_of(value, other, span)),
{
    let fields = value->Struct_fields;
    let after = with_field(value, field, new, span)->Ok_0;
    let changed_fields = after->Struct_fields;
    lemma_position_from(names_in(fields), field, 0);
    lemma_position_from(names_in(changed_fields), field, 0);
    lemma_position_from(names_in(fields), other, 0);
    lemma_position_from(names_in(changed_fields), other, 0);
    let at = position_of(names_in(fields), field)->0;
    assert(names_in(fields)[at] == field);
    assert(names_in(changed_fields) =~= names_in(fields));
}

/// Fields of a struct literal from one on get the values of their expressions.
proof fn lemma_fields_filled<O: ValueOperations>(
    ops: O,
    index: IndexView,
    layout: Seq<LayoutFieldView>,
    fields: Seq<InitView>,
    values: Seq<ValueView>,
    given: Seq<NamedView>,
    from: int,
    env: Scopes,
)
    requires
        0 <= from <= fields.len(),
        values.len() == fields.len(),
        given.len() == fields.len(),
        forall|i: int| 0 <= i < fields.len() ==> (#[trigger] given[i]).name == fields[i].name,
        forall|i: int| 0 <= i < fields.len() ==> #[trigger] has_once(names_in(given), i),
        forall|i: int|
            0 <= i < fields.len() ==> evaluated(ops, index, (#[trigger] fields[i]).expr, env) == (
                Ok::<ValueView, FailureView>(values[i]),
                env,
            ) && (position_of(layout_names(layout), fields[i].name) matches Some(at) && coerced(
                ops,
                values[i],
                layout[at].ty,
                fields[i].span,
            ) == Ok::<ValueView, DiagnosticView>(given[i].value)),
    ensures
        fields_filled(ops, index, layout, fields, from, given.take(from), env) == (
            Ok::<Seq<NamedView>, FailureView>(given),
            env,
        ),
    decreases fields.len() - from,
{
    if from < fields.len() {
        let field = fields[from];
        let before = given.take(from);
        assert(evaluated(ops, index, field.expr, env).0 == Ok::<ValueView, FailureView>(
            values[from],
        ));
        assert(given[from].name == field.name);
        assert(has_once(names_in(given), from));
        lemma_position_from(names_in(before), field.name, 0);
        if is_listed(names_in(before), field.name) {
            let at = position_of(names_in(before), field.name)->0;
            assert(names_in(before)[at] == field.name);
            assert(names_in(given)[at] == names_in(given)[from]);
        }
        assert(before.push(given[from]) =~= given.take(from + 1));
        assert(given[from] == NamedView { name: field.name, value: given[from].value });
        lemma_fields_filled(ops, index, layout, fields, values, given, from + 1, env);
    } else {
        assert(given.take(from) =~= given);
    }
}

/// The fields of a struct literal whose expressions change no name have the values of
/// their own expressions, as the types of the fields take them.
pub proof fn law_struct_literals_have_their_fields<O: ValueOperations>(
    ops: O,
    index: IndexView,
    layout: Seq<LayoutFieldView>,
    fields: Seq<InitView>,
    values: Seq<ValueView>,
    given: Seq<NamedView>,
    env: Scopes,
)
    requires
        values.len() == fields.len(),
        given.len() == fields.len(),
        forall|i: int| 0 <= i < fields.len() ==> (#[trigger] given[i]).name == fields[i].name,
        forall|i: int| 0 <= i < fields.len() ==> #[trigger] has_once(names_in(given), i),
        forall|i: int|
            0 <= i < fields.len() ==> evaluated(ops, index, (#[trigger] fields[i]).expr, env) == (
                Ok::<ValueView, FailureView>(values[i]),
                env,
            ) && (position_of(layout_names(layout), fields[i].name) matches Some(at) && coerced(
                ops,
                values[i],
                layout[at].ty,
                fields[i].span,
            ) == Ok::<ValueView, DiagnosticView>(given[i].value)),
    ensures
        fields_filled(ops, index, layout, fields, 0, Seq::empty(), env) == (
            Ok::<Seq<NamedView>, FailureView>(given),
            env,
        ),
{
    assert(given.take(0) =~= Seq::empty());
    lemma_fields_filled(ops, index, layout, fields, values, given, 0, env);
}

/// A range from one number to another has every number from the first on and before the
/// second, in order.
pub proof fn law_ranges_count_up(bits: u16, start: u128, end: u128, span: Span)
    requires
        start <= end,
        end - start <= LOOP_LIMIT,
    ensures
        range_between(
            ValueView::UInt { bits, value: start },
            ValueView::UInt { bits, value: end },
            span,
        ) matches Ok(range) && range_values(range).len() == end - start && forall|i: int|
            0 <= i < end - start ==> #[trigger] range_values(range)[i] == (ValueView::UInt {
                bits,
                value: (start + i) as u128,
            }),
{
}

/// A range of signed numbers does so too.
pub proof fn law_signed_ranges_count_up(bits: u16, start: i128, end: i128, span: Span)
    requires
        start <= end,
        end - start <= LOOP_LIMIT,
    ensures
        range_between(
            ValueView::Int { bits, value: start },
            ValueView::Int { bits, value: end },
            span,
        ) matches Ok(range) && range_values(range).len() == end - start && forall|i: int|
            0 <= i < end - start ==> #[trigger] range_values(range)[i] == (ValueView::Int {
                bits,
                value: (start + i) as i128,
            }),
{
}

/// A parallel loop with a reduction takes the numbers from its first bound on and before
/// its second, in order.
pub proof fn law_parallel_loops_take_their_range<O: ValueOperations>(
    ops: O,
    index: IndexView,
    threads: usize,
    calls: usize,
    name: Seq<char>,
    start: ExprView,
    end: ExprView,
    body: Seq<StmtNode>,
    reduction: ReductionView,
    span: Span,
    state: StateView,
    bits: u16,
    first: u128,
    middle: Scopes,
    last: ValueView,
    number: u128,
    env: Scopes,
)
    requires
        first < number,
        number - first <= LOOP_LIMIT,
        evaluated(ops, index, start, state.env) == (
            Ok::<ValueView, FailureView>(ValueView::UInt { bits, value: first }),
            middle,
        ),
        evaluated(ops, index, end, middle) == (Ok::<ValueView, FailureView>(last), env),
        coerced(ops, last, TypeView::Int { signed: false, bits }, span) == Ok::<
            ValueView,
            DiagnosticView,
        >(ValueView::UInt { bits, value: number }),
    ensures
        ({
            let whole = StmtNode::ParFor {
                name,
                start,
                end,
                body,
                reduction: Some(reduction),
                span,
            };
            let rounds = Seq::new(
                (number - first) as nat,
                |i: int| ValueView::UInt { bits, value: (first + i) as u128 },
            );
            stmt_ran(ops, index, threads, calls, whole, state) == goes_on(
                reduction_done(ops, index, threads, name, reduction, rounds, span, env),
                state,
            )
        }),
{
    law_ranges_count_up(bits, first, number, span);
    let range = ForRange::Unsigned { bits, start: first, end: number };
    let rounds = Seq::new(
        (number - first) as nat,
        |i: int| ValueView::UInt { bits, value: (first + i) as u128 },
    );
    assert(range_values(range) =~= rounds);
    assert(range_evaluated(ops, index, start, end, span, state.env) == (
        Ok::<(ForRange, TypeView), FailureView>(
            (range, TypeView::Int { signed: false, bits }),
        ),
        env,
    ));
    let whole = StmtNode::ParFor { name, start, end, body, reduction: Some(reduction), span };
    assert(stmt_ran(ops, index, threads, calls, whole, state) == parallel_ran(
        ops,
        index,
        threads,
        calls,
        whole,
        state,
    ));
}

/// A match comes to what the expression of the arm that is taken comes to, with the names
/// of its pattern bound in a scope of their own.
pub proof fn law_matches_come_to_their_arm<O: ValueOperations>(
    ops: O,
    index: IndexView,
    value: ExprView,
    arms: Seq<ArmView>,
    span: Span,
    env: Scopes,
    found: ValueView,
    middle: Scopes,
    at: int,
    arm: int,
    inner: Scopes,
)
    requires
        evaluated(ops, index, value, env) == (Ok::<ValueView, FailureView>(found), middle),
        found is Enum,
        position_of(enum_names(index.enums), found->Enum_name) == Some(at),
        selected_arm(arms, index.enums[at], found->Enum_variant, span) == Ok::<int, DiagnosticView>(
            arm,
        ),
        0 <= arm < arms.len(),
        with_pattern_bound(
            middle.push(Map::empty()),
            arms[arm].pattern,
            index.enums[at],
            found->Enum_variant,
            found->Enum_type_args,
            found->Enum_payload,
        ) == Ok::<Scopes, DiagnosticView>(inner),
    ensures
        evaluated(
            ops,
            index,
            ExprView::Match { value: Box::new(value), arms, span },
            env,
        ) == scope_closed(ops, evaluated(ops, index, arms[arm].expr, inner)),
{
}

/// A key stands at one place among sorted entries.
proof fn lemma_sorted_once(entries: Seq<NamedView>, at: int)
    requires
        is_sorted(entries),
        0 <= at < entries.len(),
    ensures
        has_once(names_in(entries), at),
{
    let names = names_in(entries);
    assert forall|i: int| 0 <= i < names.len() && i != at implies #[trigger] names[i]
        != names[at] by {
        law_order_is_total(entries[at].name, entries[at].name, entries[at].name);
        if i < at {
            assert(text_before(entries[i].name, entries[at].name));
        } else {
            assert(text_before(entries[at].name, entries[i].name));
        }
    }
}

/// The value of a key among sorted entries.
proof fn lemma_sorted_value(entries: Seq<NamedView>, at: int)
    requires
        is_sorted(entries),
        0 <= at < entries.len(),
    ensures
        value_named(entries, entries[at].name) == Some(entries[at].value),
{
    lemma_sorted_once(entries, at);
    lemma_value_named(entries, at);
}

/// Once the value of a key is set it is read back, and the values of other keys are as
/// they were.
pub proof fn law_set_entries_are_read_back(
    entries: Seq<NamedView>,
    key: Seq<char>,
    value: ValueView,
    other: Seq<char>,
)
    requires
        is_sorted(entries),
    ensures
        value_named(with_entry(entries, key, value), key) == Some(value),
        other != key ==> value_named(with_entry(entries, key, value), other) == value_named(
            entries,
            other,
        ),
{
    let after = with_entry(entries, key, value);
    law_set_entry(entries, key, value);
    let new = NamedView { name: key, value };
    let place = choose|i: int| 0 <= i < after.len() && after[i] == new;
    lemma_sorted_value(after, place);
    if other != key {
        lemma_position_from(names_in(entries), other, 0);
        lemma_position_from(names_in(after), other, 0);
        lemma_position_from(names_in(entries), key, 0);
        let count = place_of(entries, key, 0);
        lemma_place(entries, key, 0);
        if let Some(at) = position_of(names_in(entries), other) {
            assert(names_in(entries)[at] == other);
            let to = if position_of(names_in(entries), key) is Some || at < count {
                at
            } else {
                at + 1
            };
            assert(after[to] == entries[at]);
            lemma_sorted_value(after, to);
            lemma_sorted_value(entries, at);
        } else if let Some(at) = position_of(names_in(after), other) {
            assert(names_in(after)[at] == other);
            let from = if position_of(names_in(entries), key) is Some || at < count {
                at
            } else {
                at - 1
            };
            assert(after[at] == entries[from]);
            assert(names_in(entries)[from] == other);
        }
    }
}

/// The place of a key is one of the entries or their end.
proof fn lemma_place(entries: Seq<NamedView>, key: Seq<char>, from: int)
    requires
        0 <= from <= entries.len(),
    ensures
        from <= place_of(entries, key, from) <= entries.len(),
    decreases entries.len() - from,
{
    if from < entries.len() {
        lemma_place(entries, key, from + 1);
    }
}

} // verus!
