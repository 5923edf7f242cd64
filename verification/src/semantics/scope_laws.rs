//! What expressions and assignments keep: as many scopes as there were.

use crate::ast::{
    EntryView, EnumView, ExprView, FieldView, InitView, NamedPatternView, PatternView, Span,
    TupleFieldView, TypeView,
};
use crate::diagnostic::DiagnosticView;
use crate::semantics::assignments::{
    assign_done, assign_field_done, assign_field_element_done, assign_index_done, changed,
    field_method_done, let_done,
};
use crate::semantics::dispatch::method_called;
use crate::semantics::environment::{lemma_scope_of, BindingView};
use crate::semantics::evaluate::{
    all_evaluated, arm_for, arm_names, entries_evaluated, evaluated, fields_filled, payload_defs,
    payload_filled,
};
use crate::semantics::entries::with_entry;
use crate::semantics::expressions::layout_to_fill;
use crate::semantics::layouts::layout_names;
use crate::semantics::methods::comparator_named;
use crate::semantics::variants::named_variant_place;
use crate::semantics::index::{IndexView, LayoutFieldView};
use crate::semantics::matching::{with_named_bound, with_pattern_bound, with_tuple_bound};
use crate::semantics::names::{function_names, lemma_position_from, position_of};
use crate::semantics::operations::{
    borrowed, coerced, key_of_type, method_value, released, typed, ValueOperations,
};
use crate::semantics::receivers::{method_args, own_method_done};
use crate::semantics::spans::place_of_expr;
use crate::semantics::state::Scopes;
use crate::semantics::values::{NamedView, PayloadValueView, ValueView};
use vstd::prelude::*;

verus! {

/// The operations leave as many scopes as there were.
pub open spec fn operations_keep_scopes<O: ValueOperations>(ops: O) -> bool {
    &&& forall|expr: ExprView, env: Scopes, mutable: bool, span: Span|
        (#[trigger] borrowed(ops, expr, env, mutable, span)).1.len() == env.len()
    &&& forall|scope: Map<Seq<char>, BindingView>, env: Scopes|
        (#[trigger] released(ops, scope, env)).1.len() == env.len()
    &&& forall|
        value: ValueView,
        method: Seq<char>,
        args: Seq<ValueView>,
        env: Scopes,
        span: Span,
    |
        (#[trigger] method_value(ops, value, method, args, env, span)).1.len() == env.len()
}

/// The names of a tuple pattern leave the scopes.
proof fn lemma_tuple_scopes(
    scopes: Scopes,
    bindings: Seq<Option<Seq<char>>>,
    defs: Seq<TupleFieldView>,
    values: Seq<ValueView>,
    inferred: Map<Seq<char>, TypeView>,
    count: nat,
)
    ensures
        with_tuple_bound(scopes, bindings, defs, values, inferred, count).len() == scopes.len(),
    decreases count,
{
    if count > 0 {
        lemma_tuple_scopes(scopes, bindings, defs, values, inferred, (count - 1) as nat);
    }
}

/// The names of a pattern with fields leave the scopes.
proof fn lemma_named_scopes(
    scopes: Scopes,
    fields: Seq<NamedPatternView>,
    defs: Seq<FieldView>,
    values: Seq<NamedView>,
    inferred: Map<Seq<char>, TypeView>,
    count: nat,
)
    ensures
        with_named_bound(scopes, fields, defs, values, inferred, count) matches Some(bound)
            ==> bound.len() == scopes.len(),
    decreases count,
{
    if count > 0 {
        lemma_named_scopes(scopes, fields, defs, values, inferred, (count - 1) as nat);
    }
}

/// The names of a pattern leave the scopes.
proof fn lemma_pattern_scopes(
    scopes: Scopes,
    pattern: PatternView,
    def: EnumView,
    active: Seq<char>,
    type_args: Seq<Option<TypeView>>,
    payload: PayloadValueView,
)
    ensures
        with_pattern_bound(scopes, pattern, def, active, type_args, payload) matches Ok(bound)
            ==> bound.len() == scopes.len(),
{
    assert forall|
        bindings: Seq<Option<Seq<char>>>,
        defs: Seq<TupleFieldView>,
        values: Seq<ValueView>,
        inferred: Map<Seq<char>, TypeView>,
        count: nat,
    |
        (#[trigger] with_tuple_bound(scopes, bindings, defs, values, inferred, count)).len()
            == scopes.len() by {
        lemma_tuple_scopes(scopes, bindings, defs, values, inferred, count);
    }
    assert forall|
        fields: Seq<NamedPatternView>,
        defs: Seq<FieldView>,
        values: Seq<NamedView>,
        inferred: Map<Seq<char>, TypeView>,
        count: nat,
    |
        (#[trigger] with_named_bound(scopes, fields, defs, values, inferred, count)) matches Some(
            bound,
        ) ==> bound.len() == scopes.len() by {
        lemma_named_scopes(scopes, fields, defs, values, inferred, count);
    }
}

/// An expression leaves as many scopes as there were.
#[verifier::rlimit(60)]
pub proof fn lemma_expr_scopes<O: ValueOperations>(
    ops: O,
    index: IndexView,
    expr: ExprView,
    env: Scopes,
)
    requires
        operations_keep_scopes(ops),
    ensures
        evaluated(ops, index, expr, env).1.len() == env.len(),
    decreases expr, 0int,
{
    match expr {
        ExprView::Call { args, .. } => {
            lemma_exprs_scopes(ops, index, args, 0, Seq::empty(), env);
        },
        ExprView::Unary { op, expr: inner, span } => {
            lemma_expr_scopes(ops, index, *inner, env);
        },
        ExprView::Binary { left, right, .. } => {
            lemma_expr_scopes(ops, index, *left, env);
            lemma_expr_scopes(ops, index, *right, evaluated(ops, index, *left, env).1);
        },
        ExprView::FieldAccess { base, .. } => {
            lemma_expr_scopes(ops, index, *base, env);
        },
        ExprView::Index { base, index: at, .. } => {
            lemma_expr_scopes(ops, index, *base, env);
            lemma_expr_scopes(ops, index, *at, evaluated(ops, index, *base, env).1);
        },
        ExprView::ArrayLit { elems, .. } => {
            lemma_exprs_scopes(ops, index, elems, 0, Seq::empty(), env);
        },
        ExprView::StructInit { name, fields, span } => {
            if let Ok(at) = layout_to_fill(index, name, span) {
                let layout = index.struct_layouts[at].fields;
                lemma_fields_scopes(ops, index, layout, fields, 0, Seq::empty(), env);
            }
        },
        ExprView::EnumTupleVariant { args, .. } => {
            lemma_exprs_scopes(ops, index, args, 0, Seq::empty(), env);
        },
        ExprView::EnumStructVariant { enum_name, variant, fields, span } => {
            if let Ok((at, place)) = named_variant_place(index, enum_name, variant, span) {
                lemma_payload_scopes(
                    ops,
                    index,
                    payload_defs(index, at, place),
                    enum_name,
                    variant,
                    fields,
                    0,
                    Seq::empty(),
                    env,
                );
            }
        },
        ExprView::Match { value, arms, span } => {
            lemma_expr_scopes(ops, index, *value, env);
            let (found, outer) = evaluated(ops, index, *value, env);
            if let Ok(found) = found {
                if let Ok((at, arm)) = arm_for(index, found, arms, place_of_expr(*value), span) {
                    if 0 <= arm < arms.len() {
                        if let ValueView::Enum { variant, type_args, payload, .. } = found {
                            lemma_pattern_scopes(
                                outer.push(Map::empty()),
                                arms[arm].pattern,
                                index.enums[at],
                                variant,
                                type_args,
                                payload,
                            );
                        }
                        if let Ok(inner) = arm_names(index, found, at, arms[arm], outer) {
                            assert(decreases_to!(expr => arms[arm].expr)) by {
                                assert(decreases_to!(expr => arms));
                                assert(decreases_to!(arms => arms[arm]));
                            }
                            lemma_expr_scopes(ops, index, arms[arm].expr, inner);
                        }
                    }
                }
            }
        },
        ExprView::DictLit { entries, .. } => {
            lemma_entries_scopes(ops, index, entries, 0, Seq::empty(), None, env);
        },
        ExprView::MethodCall { receiver, args, .. } => {
            lemma_exprs_scopes(ops, index, args, 0, Seq::empty(), env);
            lemma_expr_scopes(ops, index, *receiver, env);
            let inner = evaluated(ops, index, *receiver, env).1;
            lemma_exprs_scopes(ops, index, args, 0, Seq::empty(), inner);
        },
        _ => {},
    }
}

/// So do expressions.
pub proof fn lemma_exprs_scopes<O: ValueOperations>(
    ops: O,
    index: IndexView,
    exprs: Seq<ExprView>,
    from: int,
    before: Seq<ValueView>,
    env: Scopes,
)
    requires
        operations_keep_scopes(ops),
    ensures
        all_evaluated(ops, index, exprs, from, before, env).1.len() == env.len(),
    decreases exprs, exprs.len() - from,
{
    if 0 <= from < exprs.len() {
        lemma_expr_scopes(ops, index, exprs[from], env);
        if let (Ok(value), inner) = evaluated(ops, index, exprs[from], env) {
            lemma_exprs_scopes(ops, index, exprs, from + 1, before.push(value), inner);
        }
    }
}

/// So do the fields of a struct literal.
proof fn lemma_fields_scopes<O: ValueOperations>(
    ops: O,
    index: IndexView,
    layout: Seq<LayoutFieldView>,
    fields: Seq<InitView>,
    from: int,
    given: Seq<NamedView>,
    env: Scopes,
)
    requires
        operations_keep_scopes(ops),
    ensures
        fields_filled(ops, index, layout, fields, from, given, env).1.len() == env.len(),
    decreases fields, fields.len() - from,
{
    if 0 <= from < fields.len() {
        let field = fields[from];
        assert(decreases_to!(fields => fields[from]));
        lemma_expr_scopes(ops, index, field.expr, env);
        if let (Ok(value), inner) = evaluated(ops, index, field.expr, env) {
            if let Some(at) = position_of(layout_names(layout), field.name) {
                if let Ok(value) = coerced(ops, value, layout[at].ty, field.span) {
                    let more = given.push(NamedView { name: field.name, value });
                    lemma_fields_scopes(ops, index, layout, fields, from + 1, more, inner);
                }
            }
        }
    }
}

/// So do the fields of a variant.
proof fn lemma_payload_scopes<O: ValueOperations>(
    ops: O,
    index: IndexView,
    defs: Seq<FieldView>,
    enum_name: Seq<char>,
    variant: Seq<char>,
    fields: Seq<InitView>,
    from: int,
    given: Seq<NamedView>,
    env: Scopes,
)
    requires
        operations_keep_scopes(ops),
    ensures
        payload_filled(ops, index, defs, enum_name, variant, fields, from, given, env).1.len()
            == env.len(),
    decreases fields, fields.len() - from,
{
    if 0 <= from < fields.len() {
        let field = fields[from];
        assert(decreases_to!(fields => fields[from]));
        lemma_expr_scopes(ops, index, field.expr, env);
        if let (Ok(value), inner) = evaluated(ops, index, field.expr, env) {
            lemma_payload_scopes(
                ops,
                index,
                defs,
                enum_name,
                variant,
                fields,
                from + 1,
                given.push(NamedView { name: field.name, value }),
                inner,
            );
        }
    }
}

/// So do the entries of a dictionary literal.
proof fn lemma_entries_scopes<O: ValueOperations>(
    ops: O,
    index: IndexView,
    entries: Seq<EntryView>,
    from: int,
    given: Seq<NamedView>,
    ty: Option<TypeView>,
    env: Scopes,
)
    requires
        operations_keep_scopes(ops),
    ensures
        entries_evaluated(ops, index, entries, from, given, ty, env).1.len() == env.len(),
    decreases entries, entries.len() - from,
{
    if 0 <= from < entries.len() {
        let entry = entries[from];
        assert(decreases_to!(entries => entries[from]));
        lemma_expr_scopes(ops, index, entry.value, env);
        let text = ValueView::Str(entry.key);
        if let Ok(key) = key_of_type(ops, text, TypeView::String, entry.span) {
            if let (Ok(value), inner) = evaluated(ops, index, entry.value, env) {
                let shared = Some(typed(ops, value));
                let more = with_entry(given, key, value);
                lemma_entries_scopes(ops, index, entries, from + 1, more, shared, inner);
            }
        }
    }
}

/// So do the arguments of a method.
pub proof fn lemma_method_args_scopes<O: ValueOperations>(
    ops: O,
    index: IndexView,
    method: Seq<char>,
    args: Seq<ExprView>,
    from: int,
    before: Seq<ValueView>,
    env: Scopes,
)
    requires
        operations_keep_scopes(ops),
    ensures
        method_args(ops, index, method, args, from, before, env).1.len() == env.len(),
    decreases args.len() - from,
{
    if 0 <= from < args.len() {
        if let Some(name) = comparator_named(method, args[from], index) {
            let more = before.push(ValueView::Str(name));
            lemma_method_args_scopes(ops, index, method, args, from + 1, more, env);
        } else {
            lemma_expr_scopes(ops, index, args[from], env);
            if let (Ok(value), inner) = evaluated(ops, index, args[from], env) {
                let more = before.push(value);
                lemma_method_args_scopes(ops, index, method, args, from + 1, more, inner);
            }
        }
    }
}

/// A name that stands for something else leaves the scopes.
pub proof fn lemma_changed_scopes()
    ensures
        forall|
            env: Scopes,
            name: Seq<char>,
            change: Result<ValueView, DiagnosticView>,
            span: Span,
        |
            (#[trigger] changed(env, name, change, span)).1.len() == env.len(),
{
    assert forall|
        env: Scopes,
        name: Seq<char>,
        change: Result<ValueView, DiagnosticView>,
        span: Span,
    |
        (#[trigger] changed(env, name, change, span)).1.len() == env.len() by {
        lemma_scope_of(env, name, env.len() as int);
    }
}

/// A declaration leaves the scopes.
pub proof fn lemma_let_scopes<O: ValueOperations>(
    ops: O,
    index: IndexView,
    name: Seq<char>,
    mutable: bool,
    ty: Option<TypeView>,
    expr: ExprView,
    span: Span,
    env: Scopes,
)
    requires
        operations_keep_scopes(ops),
    ensures
        let_done(ops, index, name, mutable, ty, expr, span, env).1.len() == env.len(),
{
    lemma_expr_scopes(ops, index, expr, env);
}

/// An assignment leaves the scopes.
pub proof fn lemma_assign_scopes<O: ValueOperations>(
    ops: O,
    index: IndexView,
    name: Seq<char>,
    expr: ExprView,
    span: Span,
    env: Scopes,
)
    requires
        operations_keep_scopes(ops),
    ensures
        assign_done(ops, index, name, expr, span, env).1.len() == env.len(),
{
    lemma_expr_scopes(ops, index, expr, env);
    lemma_changed_scopes();
}

/// An assignment to a field leaves the scopes.
pub proof fn lemma_assign_field_scopes<O: ValueOperations>(
    ops: O,
    index: IndexView,
    receiver: Seq<char>,
    field: Seq<char>,
    expr: ExprView,
    span: Span,
    env: Scopes,
)
    requires
        operations_keep_scopes(ops),
    ensures
        assign_field_done(ops, index, receiver, field, expr, span, env).1.len() == env.len(),
{
    lemma_expr_scopes(ops, index, expr, env);
    lemma_changed_scopes();
}

/// An assignment to an index leaves the scopes.
pub proof fn lemma_assign_index_scopes<O: ValueOperations>(
    ops: O,
    index: IndexView,
    name: Seq<char>,
    at: ExprView,
    expr: ExprView,
    span: Span,
    env: Scopes,
)
    requires
        operations_keep_scopes(ops),
    ensures
        assign_index_done(ops, index, name, at, expr, span, env).1.len() == env.len(),
{
    lemma_expr_scopes(ops, index, at, env);
    lemma_expr_scopes(ops, index, expr, evaluated(ops, index, at, env).1);
    lemma_changed_scopes();
}

/// An assignment to an element of a list in a field leaves the scopes.
pub proof fn lemma_assign_field_element_scopes<O: ValueOperations>(
    ops: O,
    index: IndexView,
    receiver: Seq<char>,
    field: Seq<char>,
    at: ExprView,
    expr: ExprView,
    span: Span,
    env: Scopes,
)
    requires
        operations_keep_scopes(ops),
    ensures
        assign_field_element_done(ops, index, receiver, field, at, expr, span, env).1.len()
            == env.len(),
{
    lemma_expr_scopes(ops, index, at, env);
    lemma_expr_scopes(ops, index, expr, evaluated(ops, index, at, env).1);
    lemma_changed_scopes();
}

/// A method of a list in a field leaves the scopes.
pub proof fn lemma_field_method_scopes<O: ValueOperations>(
    ops: O,
    index: IndexView,
    receiver: Seq<char>,
    field: Seq<char>,
    name: Seq<char>,
    args: Seq<ExprView>,
    span: Span,
    env: Scopes,
)
    requires
        operations_keep_scopes(ops),
    ensures
        field_method_done(ops, index, receiver, field, name, args, span, env).1.len() == env.len(),
{
    lemma_exprs_scopes(ops, index, args, 0, Seq::empty(), env);
    lemma_changed_scopes();
}

/// A method that every value of the kind has leaves the scopes.
pub proof fn lemma_own_method_scopes<O: ValueOperations>(
    ops: O,
    receiver: Seq<char>,
    method: Seq<char>,
    args: Seq<ValueView>,
    span: Span,
    env: Scopes,
)
    ensures
        own_method_done(ops, receiver, method, args, span, env).1.len() == env.len(),
{
    lemma_changed_scopes();
}

/// A method of the program is one of its functions.
pub proof fn lemma_method_is_function(
    index: IndexView,
    names: Seq<Seq<char>>,
    from: int,
    receiver: Seq<char>,
    ty: TypeView,
    receiver_mutable: bool,
    method: Seq<char>,
    args: nat,
    span: Span,
)
    ensures
        method_called(
            index,
            names,
            from,
            receiver,
            ty,
            receiver_mutable,
            method,
            args,
            span,
        ) matches Ok(Some((at, _))) ==> 0 <= at < index.functions.len(),
    decreases names.len() - from,
{
    if 0 <= from < names.len() {
        lemma_method_is_function(
            index,
            names,
            from + 1,
            receiver,
            ty,
            receiver_mutable,
            method,
            args,
            span,
        );
        lemma_position_from(function_names(index.functions), names[from], 0);
    }
}

} // verus!
