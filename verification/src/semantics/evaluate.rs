//! What expressions come to.

use crate::ast::{
    arms_view, entries_view, exprs_view, fields_view, inits_view, types_view, ArmView, BinaryOp,
    DictEntry, EntryView, EnumVariantPayloadDef, Expr, ExprView, FieldView, InitView, MatchArm,
    PayloadView, Span, StructField, StructInitField, TypeName, TypeView, UnaryOp,
};
use crate::copy::{copy_fields, copy_type};
use crate::diagnostic::{message_at_span, type_message, Diagnostic, DiagnosticView};
use crate::semantics::dispatch::{candidates, find_method_read, method_read};
use crate::semantics::entries::{put_entry, with_entry};
use crate::semantics::environment::{fresh_binding, meaning, scope_view, with_name, Env};
use crate::semantics::expressions::{
    array_value, call_value, callee, check_new_field, decided_by_left, element_at, entry_of,
    field_of, field_to_fill, find_callee, find_layout_to_fill, layout_to_fill, logical_left,
    logical_refusal, logical_right, make_array, make_struct, read_entry, read_field, read_index,
    read_variable, struct_value, value_of_call, variable_value, IndexRead,
};
use crate::semantics::flow::enter_round;
use crate::semantics::index::{
    layout_fields_view, IndexView, LayoutField, LayoutFieldView, ProgramIndex,
};
use crate::semantics::layouts::layout_names;
use crate::semantics::matching::{
    bind_enum_match_pattern, select_arm, selected_arm, with_pattern_bound,
};
use crate::semantics::names::{enum_names, find_enum, is_listed, position_of};
use crate::semantics::operations::{
    are_operations, binary, borrow, borrowed, call, call_method, called, coerce, coerced, combined,
    invert, inverted, key_of_type, key_text, method_value, negate, negated, number, numbered,
    release, released, resolve, resolved, type_of, typed, value_view, ValueOperations,
};
use crate::semantics::spans::{expr_span, place_of_expr};
use crate::semantics::state::{plain, Failure, FailureView, Scopes};
use crate::semantics::statements::{said_of, say_of, say_unknown, unknown_identifier};
use crate::semantics::types::optional_type;
use crate::semantics::values::{
    copy_value, find_value, named_view, names_in, values_view, EnumPayloadValue, NamedValue,
    NamedView, PayloadValueView, Value, ValueView,
};
use crate::semantics::variants::{
    argument_targets, check_new_key, check_payload_complete, check_payload_field, check_value_type,
    find_named_variant, find_tuple_variant, infer_targets, make_dict, make_unit_variant,
    missing_payload_field, named_variant_place, of_payload_field, payload_field_problem,
    tuple_variant_types, unit_variant_value,
};
use vstd::prelude::*;

verus! {

/// What an expression comes to, and the names behind it.
pub type Valued = (Result<ValueView, FailureView>, Scopes);

/// What expressions come to, and the names behind them.
pub type AllValued = (Result<Seq<ValueView>, FailureView>, Scopes);

/// What the fields of a literal come to, and the names behind them.
pub type Filled = (Result<Seq<NamedView>, FailureView>, Scopes);

/// A value or an error, where the names stay as they are.
pub open spec fn settled(outcome: Result<ValueView, DiagnosticView>, env: Scopes) -> Valued {
    match outcome {
        Ok(value) => (Ok(value), env),
        Err(error) => (Err(plain(error)), env),
    }
}

/// What a call in an expression comes to. It has names of its own.
pub open spec fn call_evaluated<O: ValueOperations>(
    ops: O,
    at: int,
    args: Seq<ValueView>,
    env: Scopes,
    span: Span,
) -> Result<ValueView, FailureView> {
    match called(ops, at as usize, args, env) {
        Err(failure) => Err(failure),
        Ok(result) => match value_of_call(result, span) {
            Ok(value) => Ok(value),
            Err(error) => Err(plain(error)),
        },
    }
}

/// A name as an expression.
pub open spec fn name_expr(name: Seq<char>, span: Span) -> ExprView {
    ExprView::Ident { name, span }
}

/// The name that a receiver has which has none.
pub open spec fn receiver_name() -> Seq<char> {
    "__aziky_temporary_receiver"@
}

/// The method of the program that a name is the receiver of, if it has one.
pub open spec fn method_of_name(
    index: IndexView,
    receiver: ExprView,
    method: Seq<char>,
    given: nat,
    env: Scopes,
    span: Span,
) -> Result<Option<int>, DiagnosticView> {
    match receiver {
        ExprView::Ident { name, .. } => match meaning(env, name) {
            None => Err(message_at_span(unknown_identifier(name), span)),
            Some(binding) => method_read(
                index,
                candidates(binding.ty, method),
                0,
                binding.ty,
                given,
                span,
            ),
        },
        _ => Ok(None),
    }
}

/// What a method of the program comes to for a receiver that has no name.
pub open spec fn method_on_value<O: ValueOperations>(
    ops: O,
    at: int,
    receiver: ValueView,
    ty: TypeView,
    args: Seq<ValueView>,
    env: Scopes,
    span: Span,
) -> Valued {
    let local = with_name(
        env.push(Map::empty()),
        receiver_name(),
        fresh_binding(receiver, ty, false),
    );
    match borrowed(ops, name_expr(receiver_name(), span), local, false, span) {
        (Err(error), _) => (Err(plain(error)), env),
        (Ok(reference), lent) => (
            call_evaluated(ops, at, seq![reference] + args, lent, span),
            env,
        ),
    }
}

/// The types of values.
pub open spec fn types_of_values<O: ValueOperations>(
    ops: O,
    values: Seq<ValueView>,
) -> Seq<TypeView> {
    Seq::new(values.len(), |i: int| typed(ops, values[i]))
}

/// Values as values of types, added to those before them.
pub open spec fn coerced_from<O: ValueOperations>(
    ops: O,
    values: Seq<ValueView>,
    targets: Seq<TypeView>,
    spans: Seq<Span>,
    from: int,
    before: Seq<ValueView>,
) -> Result<Seq<ValueView>, DiagnosticView>
    decreases values.len() - from,
{
    if from >= values.len() {
        Ok(before)
    } else {
        match coerced(ops, values[from], targets[from], spans[from]) {
            Err(error) => Err(error),
            Ok(value) => coerced_from(ops, values, targets, spans, from + 1, before.push(value)),
        }
    }
}

/// The places of expressions.
pub open spec fn places_of(exprs: Seq<ExprView>) -> Seq<Span> {
    Seq::new(exprs.len(), |i: int| place_of_expr(exprs[i]))
}

/// A variant that carries values in a row, once these are known.
pub open spec fn tuple_variant_value<O: ValueOperations>(
    ops: O,
    index: IndexView,
    enum_name: Seq<char>,
    variant: Seq<char>,
    at: int,
    templates: Seq<TypeView>,
    values: Seq<ValueView>,
    spans: Seq<Span>,
    span: Span,
) -> Result<ValueView, DiagnosticView> {
    match argument_targets(
        index.enums[at].type_params,
        templates,
        types_of_values(ops, values),
        span,
    ) {
        Err(error) => Err(error),
        Ok((type_args, targets)) => match coerced_from(
            ops,
            values,
            targets,
            spans,
            0,
            Seq::empty(),
        ) {
            Err(error) => Err(error),
            Ok(payload) => Ok(
                ValueView::Enum {
                    name: enum_name,
                    variant,
                    type_args,
                    payload: PayloadValueView::Tuple(payload),
                },
            ),
        },
    }
}

/// The fields of a variant that carries named values.
pub open spec fn payload_defs(index: IndexView, at: int, place: int) -> Seq<FieldView> {
    match index.enums[at].variants[place].payload {
        PayloadView::Named(fields) => fields,
        _ => Seq::empty(),
    }
}

/// The value that a field was given.
pub open spec fn given_value(given: Seq<NamedView>, name: Seq<char>) -> ValueView {
    match position_of(names_in(given), name) {
        Some(at) => given[at].value,
        None => ValueView::Bool(false),
    }
}

/// The values that the fields of a variant were given, in their order.
pub open spec fn payload_values(defs: Seq<FieldView>, given: Seq<NamedView>) -> Seq<ValueView> {
    Seq::new(defs.len(), |i: int| given_value(given, defs[i].name))
}

/// The types of the fields of a variant.
pub open spec fn payload_types(defs: Seq<FieldView>) -> Seq<TypeView> {
    Seq::new(defs.len(), |i: int| defs[i].ty)
}

/// Values with the names of the fields that hold them.
pub open spec fn named_payload(defs: Seq<FieldView>, values: Seq<ValueView>) -> Seq<NamedView> {
    Seq::new(defs.len(), |i: int| NamedView { name: defs[i].name, value: values[i] })
}

/// A variant that carries named values, once these are known.
pub open spec fn named_variant_value<O: ValueOperations>(
    ops: O,
    index: IndexView,
    enum_name: Seq<char>,
    variant: Seq<char>,
    at: int,
    place: int,
    given: Seq<NamedView>,
    span: Span,
) -> Result<ValueView, DiagnosticView> {
    let defs = payload_defs(index, at, place);
    let values = payload_values(defs, given);
    match missing_payload_field(defs, given, 0) {
        Some(field) => Err(
            message_at_span(of_payload_field("missing"@, field, enum_name, variant), span),
        ),
        None => match argument_targets(
            index.enums[at].type_params,
            payload_types(defs),
            types_of_values(ops, values),
            span,
        ) {
            Err(error) => Err(error),
            Ok((type_args, targets)) => match coerced_from(
                ops,
                values,
                targets,
                Seq::new(defs.len(), |i: int| span),
                0,
                Seq::empty(),
            ) {
                Err(error) => Err(error),
                Ok(payload) => Ok(
                    ValueView::Enum {
                        name: enum_name,
                        variant,
                        type_args,
                        payload: PayloadValueView::Named(named_payload(defs, payload)),
                    },
                ),
            },
        },
    }
}

/// What indexing comes to.
pub open spec fn indexed_value<O: ValueOperations>(
    ops: O,
    base: ValueView,
    index: ValueView,
    span: Span,
) -> Result<ValueView, DiagnosticView> {
    match base {
        ValueView::Array { elems, .. } | ValueView::List { elems, .. } => element_at(
            elems,
            index,
            span,
        ),
        ValueView::Dict { key_type, .. } | ValueView::Mapping { key_type, .. } => match key_of_type(
            ops,
            index,
            key_type,
            span,
        ) {
            Err(error) => Err(error),
            Ok(key) => entry_of(base, key, span),
        },
        _ => Err(type_message("indexing requires array, list, dictionary, or map"@, span)),
    }
}

/// The arm that a match takes, and its enum.
pub open spec fn arm_for(
    index: IndexView,
    value: ValueView,
    arms: Seq<ArmView>,
    place: Span,
    span: Span,
) -> Result<(int, int), DiagnosticView> {
    match value {
        ValueView::Enum { name, variant, .. } => match position_of(enum_names(index.enums), name) {
            None => Err(message_at_span(said_of("unknown enum"@, name), place)),
            Some(at) => match selected_arm(arms, index.enums[at], variant, span) {
                Err(error) => Err(error),
                Ok(arm) => Ok((at, arm)),
            },
        },
        _ => Err(type_message("match value must be an enum"@, place)),
    }
}

/// The names of an arm with what its pattern binds.
pub open spec fn arm_names(
    index: IndexView,
    value: ValueView,
    at: int,
    arm: ArmView,
    env: Scopes,
) -> Result<Scopes, DiagnosticView> {
    match value {
        ValueView::Enum { variant, type_args, payload, .. } => with_pattern_bound(
            env.push(Map::empty()),
            arm.pattern,
            index.enums[at],
            variant,
            type_args,
            payload,
        ),
        _ => Ok(env),
    }
}

/// What was found in a scope, once the scope is closed.
pub open spec fn scope_closed<O: ValueOperations>(ops: O, found: Valued) -> Valued {
    let popped = if found.1.len() > 0 {
        found.1.last()
    } else {
        Map::empty()
    };
    let left = if found.1.len() > 0 {
        found.1.drop_last()
    } else {
        found.1
    };
    match released(ops, popped, left) {
        (Some(error), env) => (Err(plain(error)), env),
        (None, env) => (found.0, env),
    }
}

/// What an expression comes to.
pub open spec fn evaluated<O: ValueOperations>(
    ops: O,
    index: IndexView,
    expr: ExprView,
    env: Scopes,
) -> Valued
    decreases expr, 0int,
{
    match expr {
        ExprView::Bool { value, .. } => (Ok(ValueView::Bool(value)), env),
        ExprView::String { value, .. } => (Ok(ValueView::Str(value)), env),
        ExprView::Char { value, .. } => (Ok(ValueView::Char(value)), env),
        ExprView::Number { literal, span } => settled(numbered(ops, literal, span), env),
        ExprView::Ident { name, span } => settled(variable_value(env, name, span), env),
        ExprView::Call { name, args, span } => match callee(index, name, span) {
            Err(error) => (Err(plain(error)), env),
            Ok(at) => match all_evaluated(ops, index, args, 0, Seq::empty(), env) {
                (Err(failure), env) => (Err(failure), env),
                (Ok(values), env) => (call_evaluated(ops, at, values, env, span), env),
            },
        },
        ExprView::QualifiedCall { span, .. } => (
            Err(plain(type_message("internal error: unresolved qualified call"@, span))),
            env,
        ),
        ExprView::Unary { op, expr, span } => match evaluated(ops, index, *expr, env) {
            (Err(failure), env) => (Err(failure), env),
            (Ok(value), env) => match op {
                UnaryOp::Plus => (Ok(value), env),
                UnaryOp::Neg => settled(negated(ops, value, span), env),
                UnaryOp::Not => settled(inverted(ops, value, span), env),
                UnaryOp::Ref => {
                    let (reference, env) = borrowed(ops, *expr, env, false, span);
                    settled(reference, env)
                },
                UnaryOp::RefMut => {
                    let (reference, env) = borrowed(ops, *expr, env, true, span);
                    settled(reference, env)
                },
            },
        },
        ExprView::Binary { op, left, right, span } => match evaluated(ops, index, *left, env) {
            (Err(failure), env) => (Err(failure), env),
            (Ok(first), env) => if op == BinaryOp::And || op == BinaryOp::Or {
                match decided_by_left(op, first, span) {
                    Err(error) => (Err(plain(error)), env),
                    Ok(Some(value)) => (Ok(ValueView::Bool(value)), env),
                    Ok(None) => match evaluated(ops, index, *right, env) {
                        (Err(failure), env) => (Err(failure), env),
                        (Ok(second), env) => match second {
                            ValueView::Bool(value) => (Ok(ValueView::Bool(value)), env),
                            _ => (Err(plain(type_message(logical_refusal(op), span))), env),
                        },
                    },
                }
            } else {
                match evaluated(ops, index, *right, env) {
                    (Err(failure), env) => (Err(failure), env),
                    (Ok(second), env) => settled(combined(ops, op, first, second, span), env),
                }
            },
        },
        ExprView::FieldAccess { base, field, span } => match evaluated(ops, index, *base, env) {
            (Err(failure), env) => (Err(failure), env),
            (Ok(value), env) => match resolved(ops, value, env, span) {
                Err(error) => (Err(plain(error)), env),
                Ok(value) => settled(field_of(value, field, span), env),
            },
        },
        ExprView::Index { base, index: at, span } => match evaluated(ops, index, *base, env) {
            (Err(failure), env) => (Err(failure), env),
            (Ok(value), env) => match evaluated(ops, index, *at, env) {
                (Err(failure), env) => (Err(failure), env),
                (Ok(at), env) => settled(indexed_value(ops, value, at, span), env),
            },
        },
        ExprView::ArrayLit { elems, span } => match all_evaluated(
            ops,
            index,
            elems,
            0,
            Seq::empty(),
            env,
        ) {
            (Err(failure), env) => (Err(failure), env),
            (Ok(values), env) => settled(
                array_value(values, types_of_values(ops, values), span),
                env,
            ),
        },
        ExprView::StructInit { name, fields, span } => match layout_to_fill(index, name, span) {
            Err(error) => (Err(plain(error)), env),
            Ok(at) => match fields_filled(
                ops,
                index,
                index.struct_layouts[at].fields,
                fields,
                0,
                Seq::empty(),
                env,
            ) {
                (Err(failure), env) => (Err(failure), env),
                (Ok(given), env) => settled(
                    struct_value(name, index.struct_layouts[at].fields, given, span),
                    env,
                ),
            },
        },
        ExprView::EnumVariant { enum_name, variant, span } => settled(
            unit_variant_value(index, enum_name, variant, span),
            env,
        ),
        ExprView::EnumTupleVariant { enum_name, variant, args, span } => match tuple_variant_types(
            index,
            enum_name,
            variant,
            args.len(),
            span,
        ) {
            Err(error) => (Err(plain(error)), env),
            Ok((at, templates)) => match all_evaluated(ops, index, args, 0, Seq::empty(), env) {
                (Err(failure), env) => (Err(failure), env),
                (Ok(values), env) => settled(
                    tuple_variant_value(
                        ops,
                        index,
                        enum_name,
                        variant,
                        at,
                        templates,
                        values,
                        places_of(args),
                        span,
                    ),
                    env,
                ),
            },
        },
        ExprView::EnumStructVariant {
            enum_name,
            variant,
            fields,
            span,
        } => match named_variant_place(index, enum_name, variant, span) {
            Err(error) => (Err(plain(error)), env),
            Ok((at, place)) => match payload_filled(
                ops,
                index,
                payload_defs(index, at, place),
                enum_name,
                variant,
                fields,
                0,
                Seq::empty(),
                env,
            ) {
                (Err(failure), env) => (Err(failure), env),
                (Ok(given), env) => settled(
                    named_variant_value(ops, index, enum_name, variant, at, place, given, span),
                    env,
                ),
            },
        },
        ExprView::Match { value, arms, span } => match evaluated(ops, index, *value, env) {
            (Err(failure), env) => (Err(failure), env),
            (Ok(found), env) => match arm_for(index, found, arms, place_of_expr(*value), span) {
                Err(error) => (Err(plain(error)), env),
                Ok((at, arm)) => if 0 <= arm < arms.len() {
                    match arm_names(index, found, at, arms[arm], env) {
                        Err(error) => scope_closed(
                            ops,
                            (Err(plain(error)), env.push(Map::empty())),
                        ),
                        Ok(inner) => scope_closed(
                            ops,
                            evaluated(ops, index, arms[arm].expr, inner),
                        ),
                    }
                } else {
                    (Ok(found), env)
                },
            },
        },
        ExprView::DictLit { entries, .. } => match entries_evaluated(
            ops,
            index,
            entries,
            0,
            Seq::empty(),
            None,
            env,
        ) {
            (Err(failure), env) => (Err(failure), env),
            (Ok((given, ty)), env) => (
                Ok(
                    ValueView::Dict {
                        key_type: TypeView::String,
                        value_type: match ty {
                            Some(ty) => ty,
                            None => TypeView::String,
                        },
                        entries: given,
                    },
                ),
                env,
            ),
        },
        ExprView::MethodCall { receiver, name, args, span } => match method_of_name(
            index,
            *receiver,
            name,
            args.len(),
            env,
            span,
        ) {
            Err(error) => (Err(plain(error)), env),
            Ok(Some(at)) => match borrowed(
                ops,
                name_expr((*receiver)->Ident_name, span),
                env,
                false,
                span,
            ) {
                (Err(error), _) => (Err(plain(error)), env),
                (Ok(reference), lent) => match all_evaluated(
                    ops,
                    index,
                    args,
                    0,
                    Seq::empty(),
                    env,
                ) {
                    (Err(failure), env) => (Err(failure), env),
                    (Ok(values), env) => (
                        call_evaluated(ops, at, seq![reference] + values, lent, span),
                        env,
                    ),
                },
            },
            Ok(None) => match evaluated(ops, index, *receiver, env) {
                (Err(failure), env) => (Err(failure), env),
                (Ok(value), env) => {
                    let ty = typed(ops, value);
                    match method_read(index, candidates(ty, name), 0, ty, args.len(), span) {
                        Err(error) => (Err(plain(error)), env),
                        Ok(method) => match all_evaluated(ops, index, args, 0, Seq::empty(), env) {
                            (Err(failure), env) => (Err(failure), env),
                            (Ok(values), env) => match method {
                                Some(at) => method_on_value(ops, at, value, ty, values, env, span),
                                None => {
                                    let (given, env) = method_value(
                                        ops,
                                        value,
                                        name,
                                        values,
                                        env,
                                        span,
                                    );
                                    settled(given, env)
                                },
                            },
                        },
                    }
                },
            },
        },
    }
}

/// What expressions come to from one on, added to the values before them.
pub open spec fn all_evaluated<O: ValueOperations>(
    ops: O,
    index: IndexView,
    exprs: Seq<ExprView>,
    from: int,
    before: Seq<ValueView>,
    env: Scopes,
) -> AllValued
    decreases exprs, exprs.len() - from,
{
    if from < 0 || from >= exprs.len() {
        (Ok(before), env)
    } else {
        match evaluated(ops, index, exprs[from], env) {
            (Err(failure), env) => (Err(failure), env),
            (Ok(value), env) => all_evaluated(
                ops,
                index,
                exprs,
                from + 1,
                before.push(value),
                env,
            ),
        }
    }
}

/// What the fields of a struct literal come to from one on, added to those
/// before them.
pub open spec fn fields_filled<O: ValueOperations>(
    ops: O,
    index: IndexView,
    layout: Seq<LayoutFieldView>,
    fields: Seq<InitView>,
    from: int,
    given: Seq<NamedView>,
    env: Scopes,
) -> Filled
    decreases fields, fields.len() - from,
{
    if from < 0 || from >= fields.len() {
        (Ok(given), env)
    } else {
        let field = fields[from];
        if is_listed(names_in(given), field.name) {
            (
                Err(plain(message_at_span(said_of("duplicate field"@, field.name), field.span))),
                env,
            )
        } else {
            match evaluated(ops, index, field.expr, env) {
                (Err(failure), env) => (Err(failure), env),
                (Ok(value), env) => match position_of(layout_names(layout), field.name) {
                    None => (
                        Err(
                            plain(
                                message_at_span(said_of("unknown field"@, field.name), field.span),
                            ),
                        ),
                        env,
                    ),
                    Some(at) => match coerced(ops, value, layout[at].ty, field.span) {
                        Err(error) => (Err(plain(error)), env),
                        Ok(value) => fields_filled(
                            ops,
                            index,
                            layout,
                            fields,
                            from + 1,
                            given.push(NamedView { name: field.name, value }),
                            env,
                        ),
                    },
                },
            }
        }
    }
}

/// What the fields of a variant come to from one on, added to those before
/// them.
pub open spec fn payload_filled<O: ValueOperations>(
    ops: O,
    index: IndexView,
    defs: Seq<FieldView>,
    enum_name: Seq<char>,
    variant: Seq<char>,
    fields: Seq<InitView>,
    from: int,
    given: Seq<NamedView>,
    env: Scopes,
) -> Filled
    decreases fields, fields.len() - from,
{
    if from < 0 || from >= fields.len() {
        (Ok(given), env)
    } else {
        let field = fields[from];
        match payload_field_problem(defs, given, field.name, enum_name, variant, field.span) {
            Some(problem) => (Err(plain(problem)), env),
            None => match evaluated(ops, index, field.expr, env) {
                (Err(failure), env) => (Err(failure), env),
                (Ok(value), env) => payload_filled(
                    ops,
                    index,
                    defs,
                    enum_name,
                    variant,
                    fields,
                    from + 1,
                    given.push(NamedView { name: field.name, value }),
                    env,
                ),
            },
        }
    }
}

/// What the entries of a dictionary literal come to from one on, added to those
/// before them, and the type that their values share.
pub open spec fn entries_evaluated<O: ValueOperations>(
    ops: O,
    index: IndexView,
    entries: Seq<EntryView>,
    from: int,
    given: Seq<NamedView>,
    ty: Option<TypeView>,
    env: Scopes,
) -> (Result<(Seq<NamedView>, Option<TypeView>), FailureView>, Scopes)
    decreases entries, entries.len() - from,
{
    if from < 0 || from >= entries.len() {
        (Ok((given, ty)), env)
    } else {
        let entry = entries[from];
        match key_of_type(ops, ValueView::Str(entry.key), TypeView::String, entry.span) {
            Err(error) => (Err(plain(error)), env),
            Ok(key) => if is_listed(names_in(given), key) {
                (
                    Err(
                        plain(
                            message_at_span(
                                said_of("duplicate dictionary key"@, entry.key),
                                entry.span,
                            ),
                        ),
                    ),
                    env,
                )
            } else {
                match evaluated(ops, index, entry.value, env) {
                    (Err(failure), env) => (Err(failure), env),
                    (Ok(value), env) => {
                        let actual = typed(ops, value);
                        if ty is Some && ty->0 != actual {
                            (
                                Err(
                                    plain(
                                        type_message(
                                            "dictionary values must share one type"@,
                                            entry.span,
                                        ),
                                    ),
                                ),
                                env,
                            )
                        } else {
                            entries_evaluated(
                                ops,
                                index,
                                entries,
                                from + 1,
                                with_entry(given, key, value),
                                Some(actual),
                                env,
                            )
                        }
                    },
                }
            },
        }
    }
}

/// A value or a failure, and the names, as a mathematical value.
pub open spec fn valued_view(outcome: (Result<Value, Failure>, Env)) -> Valued {
    (
        match outcome.0 {
            Ok(value) => Ok(value@),
            Err(failure) => Err(failure@),
        },
        outcome.1@,
    )
}

/// Values or a failure, and the names, as a mathematical value.
pub open spec fn all_valued_view(outcome: (Result<Vec<Value>, Failure>, Env)) -> AllValued {
    (
        match outcome.0 {
            Ok(values) => Ok(values_view(values@)),
            Err(failure) => Err(failure@),
        },
        outcome.1@,
    )
}

/// Named values or a failure, and the names, as a mathematical value.
pub open spec fn filled_view(outcome: (Result<Vec<NamedValue>, Failure>, Env)) -> Filled {
    (
        match outcome.0 {
            Ok(given) => Ok(named_view(given@)),
            Err(failure) => Err(failure@),
        },
        outcome.1@,
    )
}

/// A value or an error, where the names stay as they are.
fn settle(outcome: Result<Value, Diagnostic>, env: Env) -> (result: (Result<Value, Failure>, Env))
    ensures
        valued_view(result) == settled(value_view(outcome), env@),
{
    match outcome {
        Ok(value) => (Ok(value), env),
        Err(error) => (Err(Failure::of(error)), env),
    }
}

/// Refuses to go on.
fn refuse(error: Diagnostic, env: Env) -> (result: (Result<Value, Failure>, Env))
    ensures
        valued_view(result) == (Err::<ValueView, FailureView>(plain(error@)), env@),
{
    (Err(Failure::of(error)), env)
}

/// The value of a call in an expression, on names of its own.
fn call_apart<O: ValueOperations>(
    ops: &O,
    at: usize,
    args: Vec<Value>,
    env: Env,
    span: Span,
) -> (result: Result<Value, Failure>)
    requires
        are_operations(*ops),
    ensures
        match call_evaluated(*ops, at as int, values_view(args@), env@, span) {
            Ok(value) => result matches Ok(found) && found@ == value,
            Err(failure) => result matches Err(found) && found@ == failure,
        },
{
    match call(ops, at, args, env) {
        Err(failure) => Err(failure),
        Ok(called) => match call_value(called, span) {
            Ok(value) => Ok(value),
            Err(error) => Err(Failure::of(error)),
        },
    }
}

/// The types of values.
fn types_of_all<O: ValueOperations>(ops: &O, values: &Vec<Value>) -> (types: Vec<TypeName>)
    requires
        are_operations(*ops),
    ensures
        types_view(types@) == types_of_values(*ops, values_view(values@)),
        types@.len() == values@.len(),
{
    let mut types: Vec<TypeName> = Vec::new();
    for i in 0..values.len()
        invariant
            are_operations(*ops),
            types@.len() == i,
            forall|j: int| 0 <= j < i ==> (#[trigger] types@[j])@ == typed(*ops, values@[j]@),
    {
        types.push(type_of(ops, &values[i]));
    }
    assert(types_view(types@) =~= types_of_values(*ops, values_view(values@)));
    types
}

/// Values as values of types.
fn coerce_all<O: ValueOperations>(
    ops: &O,
    values: &Vec<Value>,
    targets: &Vec<TypeName>,
    spans: &Vec<Span>,
) -> (outcome: Result<Vec<Value>, Diagnostic>)
    requires
        are_operations(*ops),
        targets@.len() == values@.len(),
        spans@.len() == values@.len(),
    ensures
        match coerced_from(
            *ops,
            values_view(values@),
            types_view(targets@),
            spans@,
            0,
            Seq::empty(),
        ) {
            Ok(given) => outcome matches Ok(found) && values_view(found@) == given && given.len()
                == values@.len(),
            Err(error) => outcome matches Err(found) && found@ == error,
        },
{
    let ghost all = values_view(values@);
    let ghost types = types_view(targets@);
    let ghost goal = coerced_from(*ops, all, types, spans@, 0, Seq::empty());
    let mut given: Vec<Value> = Vec::new();
    assert(values_view(given@) =~= Seq::empty());
    for i in 0..values.len()
        invariant
            are_operations(*ops),
            targets@.len() == values@.len(),
            spans@.len() == values@.len(),
            all == values_view(values@),
            types == types_view(targets@),
            given@.len() == i,
            goal == coerced_from(*ops, all, types, spans@, 0, Seq::empty()),
            goal == coerced_from(*ops, all, types, spans@, i as int, values_view(given@)),
    {
        let ghost before = values_view(given@);
        assert(all[i as int] == values@[i as int]@);
        assert(types[i as int] == targets@[i as int]@);
        match coerce(ops, copy_value(&values[i]), &targets[i], spans[i]) {
            Err(error) => {
                return Err(error);
            },
            Ok(value) => {
                given.push(value);
                assert(values_view(given@) =~= before.push(value@));
            },
        }
    }
    Ok(given)
}

/// One value and others behind it.
pub fn with_first(first: Value, others: Vec<Value>) -> (all: Vec<Value>)
    ensures
        values_view(all@) == seq![first@] + values_view(others@),
{
    let ghost rest = values_view(others@);
    let mut all: Vec<Value> = Vec::new();
    let mut others = others;
    all.push(first);
    let ghost given = others@;
    all.append(&mut others);
    assert(all@ =~= seq![first] + given);
    assert(values_view(all@) =~= seq![first@] + rest);
    all
}

/// A name as an expression.
pub fn name_of(name: &String, span: Span) -> (expr: Expr)
    ensures
        expr@ == name_expr(name@, span),
{
    Expr::Ident { name: name.clone(), span }
}

/// What an expression comes to.
pub fn eval_expr<O: ValueOperations>(
    ops: &O,
    index: &ProgramIndex,
    expr: &Expr,
    env: Env,
) -> (result: (Result<Value, Failure>, Env))
    requires
        are_operations(*ops),
    ensures
        valued_view(result) == evaluated(*ops, index@, expr@, env@),
    decreases expr, 1int,
{
    match expr {
        Expr::Bool { value, .. } => (Ok(Value::Bool(*value)), env),
        Expr::String { value, .. } => (Ok(Value::Str(value.clone())), env),
        Expr::Char { value, .. } => (Ok(Value::Char(*value)), env),
        Expr::Number { literal, span } => settle(number(ops, literal, *span), env),
        Expr::Ident { name, span } => {
            let found = read_variable(&env, name, *span);
            settle(found, env)
        },
        Expr::Call { name, args, span } => match find_callee(index, name, *span) {
            Err(error) => refuse(error, env),
            Ok(at) => match eval_all(ops, index, args, env) {
                (Err(failure), env) => (Err(failure), env),
                (Ok(values), env) => {
                    let result = call_apart(ops, at, values, env.clone(), *span);
                    (result, env)
                },
            },
        },
        Expr::QualifiedCall { span, .. } => refuse(
            Diagnostic::about_types("internal error: unresolved qualified call", *span),
            env,
        ),
        Expr::Unary { op, expr: inner, span } => match eval_expr(ops, index, inner, env) {
            (Err(failure), env) => (Err(failure), env),
            (Ok(value), env) => match op {
                UnaryOp::Plus => (Ok(value), env),
                UnaryOp::Neg => settle(negate(ops, value, *span), env),
                UnaryOp::Not => settle(invert(ops, value, *span), env),
                UnaryOp::Ref => {
                    let (reference, env) = borrow(ops, inner, env, false, *span);
                    settle(reference, env)
                },
                UnaryOp::RefMut => {
                    let (reference, env) = borrow(ops, inner, env, true, *span);
                    settle(reference, env)
                },
            },
        },
        Expr::Binary { op, left, right, span } => eval_binary(
            ops,
            index,
            expr,
            *op,
            left,
            right,
            *span,
            env,
        ),
        Expr::FieldAccess { base, field, span } => match eval_expr(ops, index, base, env) {
            (Err(failure), env) => (Err(failure), env),
            (Ok(value), env) => match resolve(ops, value, &env, *span) {
                Err(error) => refuse(error, env),
                Ok(value) => settle(read_field(&value, field, *span), env),
            },
        },
        Expr::Index { base, index: at, span } => match eval_expr(ops, index, base, env) {
            (Err(failure), env) => (Err(failure), env),
            (Ok(value), env) => match eval_expr(ops, index, at, env) {
                (Err(failure), env) => (Err(failure), env),
                (Ok(at), env) => settle(index_value(ops, value, at, *span), env),
            },
        },
        Expr::ArrayLit { elems, span } => match eval_all(ops, index, elems, env) {
            (Err(failure), env) => (Err(failure), env),
            (Ok(values), env) => {
                let types = types_of_all(ops, &values);
                settle(make_array(values, &types, *span), env)
            },
        },
        Expr::StructInit { name, fields, span } => match find_layout_to_fill(index, name, *span) {
            Err(error) => refuse(error, env),
            Ok(at) => {
                let layout = &index.struct_layouts[at].fields;
                match fill_fields(ops, index, layout, fields, env) {
                    (Err(failure), env) => (Err(failure), env),
                    (Ok(given), env) => settle(make_struct(name, layout, given, *span), env),
                }
            },
        },
        Expr::EnumVariant { enum_name, variant, span } => settle(
            make_unit_variant(index, enum_name, variant, *span),
            env,
        ),
        Expr::EnumTupleVariant { enum_name, variant, args, span } => eval_tuple_variant(
            ops,
            index,
            expr,
            enum_name,
            variant,
            args,
            *span,
            env,
        ),
        Expr::EnumStructVariant { enum_name, variant, fields, span } => eval_named_variant(
            ops,
            index,
            expr,
            enum_name,
            variant,
            fields,
            *span,
            env,
        ),
        Expr::Match { value, arms, span } => eval_match_expr(
            ops,
            index,
            expr,
            value,
            arms,
            *span,
            env,
        ),
        Expr::DictLit { entries, .. } => match eval_entries(ops, index, entries, env) {
            (Err(failure), env) => (Err(failure), env),
            (Ok((given, ty)), env) => (Ok(make_dict(given, ty)), env),
        },
        Expr::MethodCall { receiver, name, args, span } => eval_method(
            ops,
            index,
            expr,
            receiver,
            name,
            args,
            *span,
            env,
        ),
    }
}

/// What a binary operator makes of what its operands come to.
fn eval_binary<O: ValueOperations>(
    ops: &O,
    index: &ProgramIndex,
    expr: &Expr,
    op: BinaryOp,
    left: &Box<Expr>,
    right: &Box<Expr>,
    span: Span,
    env: Env,
) -> (result: (Result<Value, Failure>, Env))
    requires
        are_operations(*ops),
        *expr == (Expr::Binary { op, left: *left, right: *right, span }),
    ensures
        valued_view(result) == evaluated(*ops, index@, expr@, env@),
    decreases expr, 0int,
{
    assert(expr->Binary_left == *left && expr->Binary_right == *right);
    match eval_expr(ops, index, left, env) {
        (Err(failure), env) => (Err(failure), env),
        (Ok(first), env) => if op == BinaryOp::And || op == BinaryOp::Or {
            match logical_left(op, &first, span) {
                Err(error) => refuse(error, env),
                Ok(Some(value)) => (Ok(Value::Bool(value)), env),
                Ok(None) => match eval_expr(ops, index, right, env) {
                    (Err(failure), env) => (Err(failure), env),
                    (Ok(second), env) => settle(logical_right(op, &second, span), env),
                },
            }
        } else {
            match eval_expr(ops, index, right, env) {
                (Err(failure), env) => (Err(failure), env),
                (Ok(second), env) => settle(binary(ops, op, first, second, span), env),
            }
        },
    }
}

/// What indexing comes to.
fn index_value<O: ValueOperations>(ops: &O, base: Value, at: Value, span: Span) -> (outcome: Result<
    Value,
    Diagnostic,
>)
    requires
        are_operations(*ops),
    ensures
        value_view(outcome) == indexed_value(*ops, base@, at@, span),
{
    match read_index(&base, &at, span) {
        Err(error) => Err(error),
        Ok(IndexRead::Element(value)) => Ok(value),
        Ok(IndexRead::Entry { key_type }) => match key_text(ops, at, &key_type, span) {
            Err(error) => Err(error),
            Ok(key) => read_entry(&base, &key, span),
        },
    }
}

/// What a variant that carries values in a row comes to.
fn eval_tuple_variant<O: ValueOperations>(
    ops: &O,
    index: &ProgramIndex,
    expr: &Expr,
    enum_name: &String,
    variant: &String,
    args: &Vec<Expr>,
    span: Span,
    env: Env,
) -> (result: (Result<Value, Failure>, Env))
    requires
        are_operations(*ops),
        *expr == (Expr::EnumTupleVariant {
            enum_name: *enum_name,
            variant: *variant,
            args: *args,
            span,
        }),
    ensures
        valued_view(result) == evaluated(*ops, index@, expr@, env@),
    decreases expr, 0int,
{
    assert(expr->EnumTupleVariant_args == *args);
    assert(exprs_view(args@).len() == args@.len());
    match find_tuple_variant(index, enum_name, variant, args.len(), span) {
        Err(error) => refuse(error, env),
        Ok((at, templates)) => match eval_all(ops, index, args, env) {
            (Err(failure), env) => (Err(failure), env),
            (Ok(values), env) => {
                let spans = spans_of(args);
                assert(types_view(templates@).len() == templates@.len());
                settle(
                    make_tuple_variant(
                        ops,
                        index,
                        enum_name,
                        variant,
                        at,
                        &templates,
                        values,
                        &spans,
                        span,
                    ),
                    env,
                )
            },
        },
    }
}

/// The places of expressions.
fn spans_of(exprs: &Vec<Expr>) -> (spans: Vec<Span>)
    ensures
        spans@ == places_of(exprs_view(exprs@)),
{
    let mut spans: Vec<Span> = Vec::new();
    for i in 0..exprs.len()
        invariant
            spans@.len() == i,
            forall|j: int| 0 <= j < i ==> #[trigger] spans@[j] == place_of_expr(exprs@[j]@),
    {
        spans.push(expr_span(&exprs[i]));
    }
    assert(spans@ =~= places_of(exprs_view(exprs@)));
    spans
}

/// A variant that carries values in a row, once these are known.
fn make_tuple_variant<O: ValueOperations>(
    ops: &O,
    index: &ProgramIndex,
    enum_name: &String,
    variant: &String,
    at: usize,
    templates: &Vec<TypeName>,
    values: Vec<Value>,
    spans: &Vec<Span>,
    span: Span,
) -> (outcome: Result<Value, Diagnostic>)
    requires
        are_operations(*ops),
        at < index.enums@.len(),
        templates@.len() == values@.len(),
        spans@.len() == values@.len(),
    ensures
        value_view(outcome) == tuple_variant_value(
            *ops,
            index@,
            enum_name@,
            variant@,
            at as int,
            types_view(templates@),
            values_view(values@),
            spans@,
            span,
        ),
{
    assert(index@.enums[at as int] == index.enums@[at as int]@);
    let types = types_of_all(ops, &values);
    match infer_targets(&index.enums[at], templates, &types, span) {
        Err(error) => Err(error),
        Ok((type_args, targets)) => {
            assert(types_view(targets@).len() == targets@.len());
            match coerce_all(ops, &values, &targets, spans) {
                Err(error) => Err(error),
                Ok(payload) => Ok(
                    Value::Enum {
                        name: enum_name.clone(),
                        variant: variant.clone(),
                        type_args,
                        payload: EnumPayloadValue::Tuple(payload),
                    },
                ),
            }
        },
    }
}

/// What a variant that carries named values comes to.
fn eval_named_variant<O: ValueOperations>(
    ops: &O,
    index: &ProgramIndex,
    expr: &Expr,
    enum_name: &String,
    variant: &String,
    fields: &Vec<StructInitField>,
    span: Span,
    env: Env,
) -> (result: (Result<Value, Failure>, Env))
    requires
        are_operations(*ops),
        *expr == (Expr::EnumStructVariant {
            enum_name: *enum_name,
            variant: *variant,
            fields: *fields,
            span,
        }),
    ensures
        valued_view(result) == evaluated(*ops, index@, expr@, env@),
    decreases expr, 0int,
{
    assert(expr->EnumStructVariant_fields == *fields);
    match find_named_variant(index, enum_name, variant, span) {
        Err(error) => refuse(error, env),
        Ok((at, place)) => {
            let defs = named_defs(index, at, place);
            match fill_payload(ops, index, &defs, enum_name, variant, fields, env) {
                (Err(failure), env) => (Err(failure), env),
                (Ok(given), env) => settle(
                    make_named_variant(
                        ops,
                        index,
                        enum_name,
                        variant,
                        at,
                        place,
                        &defs,
                        given,
                        span,
                    ),
                    env,
                ),
            }
        },
    }
}

/// The fields of a variant that carries named values.
fn named_defs(index: &ProgramIndex, at: usize, place: usize) -> (defs: Vec<StructField>)
    requires
        at < index.enums@.len(),
        place < index.enums@[at as int].variants@.len(),
    ensures
        fields_view(defs@) == payload_defs(index@, at as int, place as int),
{
    assert(index@.enums[at as int] == index.enums@[at as int]@);
    assert(index@.enums[at as int].variants[place as int]
        == index.enums@[at as int].variants@[place as int]@);
    match &index.enums[at].variants[place].payload {
        EnumVariantPayloadDef::Named(fields) => copy_fields(fields),
        _ => {
            let none: Vec<StructField> = Vec::new();
            assert(fields_view(none@) =~= Seq::empty());
            none
        },
    }
}

/// The values that the fields of a variant were given, in their order.
fn collect_payload(defs: &Vec<StructField>, given: &Vec<NamedValue>) -> (values: Vec<Value>)
    ensures
        values_view(values@) == payload_values(fields_view(defs@), named_view(given@)),
        values@.len() == defs@.len(),
{
    let ghost known = fields_view(defs@);
    let ghost all = named_view(given@);
    let mut values: Vec<Value> = Vec::new();
    for i in 0..defs.len()
        invariant
            known == fields_view(defs@),
            all == named_view(given@),
            values@.len() == i,
            forall|j: int|
                0 <= j < i ==> (#[trigger] values@[j])@ == given_value(all, known[j].name),
    {
        assert(known[i as int] == defs@[i as int]@);
        match find_value(given, &defs[i].name) {
            Some(at) => {
                assert(all[at as int] == given@[at as int]@);
                values.push(copy_value(&given[at].value));
            },
            None => {
                values.push(Value::Bool(false));
            },
        }
    }
    assert(values_view(values@) =~= payload_values(known, all));
    values
}

/// The types of the fields of a variant.
fn collect_types(defs: &Vec<StructField>) -> (types: Vec<TypeName>)
    ensures
        types_view(types@) == payload_types(fields_view(defs@)),
        types@.len() == defs@.len(),
{
    let mut types: Vec<TypeName> = Vec::new();
    for i in 0..defs.len()
        invariant
            types@.len() == i,
            forall|j: int| 0 <= j < i ==> (#[trigger] types@[j])@ == defs@[j]@.ty,
    {
        types.push(copy_type(&defs[i].ty));
    }
    assert(types_view(types@) =~= payload_types(fields_view(defs@)));
    types
}

/// Values with the names of the fields that hold them.
fn name_payload(defs: &Vec<StructField>, values: Vec<Value>) -> (named: Vec<NamedValue>)
    requires
        values@.len() == defs@.len(),
    ensures
        named_view(named@) == named_payload(fields_view(defs@), values_view(values@)),
{
    let ghost all = values_view(values@);
    let mut named: Vec<NamedValue> = Vec::new();
    for i in 0..defs.len()
        invariant
            values@.len() == defs@.len(),
            named@.len() == i,
            forall|j: int|
                0 <= j < i ==> (#[trigger] named@[j])@ == (NamedView {
                    name: defs@[j]@.name,
                    value: values@[j]@,
                }),
    {
        named.push(NamedValue { name: defs[i].name.clone(), value: copy_value(&values[i]) });
    }
    assert(named_view(named@) =~= named_payload(fields_view(defs@), all));
    named
}

/// The same place for each of some values.
fn same_spans(span: Span, count: usize) -> (spans: Vec<Span>)
    ensures
        spans@ == Seq::new(count as nat, |i: int| span),
{
    let mut spans: Vec<Span> = Vec::new();
    for i in 0..count
        invariant
            spans@.len() == i,
            forall|j: int| 0 <= j < i ==> #[trigger] spans@[j] == span,
    {
        spans.push(span);
    }
    assert(spans@ =~= Seq::new(count as nat, |i: int| span));
    spans
}

/// A variant that carries named values, once these are known.
fn make_named_variant<O: ValueOperations>(
    ops: &O,
    index: &ProgramIndex,
    enum_name: &String,
    variant: &String,
    at: usize,
    place: usize,
    defs: &Vec<StructField>,
    given: Vec<NamedValue>,
    span: Span,
) -> (outcome: Result<Value, Diagnostic>)
    requires
        are_operations(*ops),
        at < index.enums@.len(),
        fields_view(defs@) == payload_defs(index@, at as int, place as int),
    ensures
        value_view(outcome) == named_variant_value(
            *ops,
            index@,
            enum_name@,
            variant@,
            at as int,
            place as int,
            named_view(given@),
            span,
        ),
{
    assert(index@.enums[at as int] == index.enums@[at as int]@);
    assert(fields_view(defs@).len() == defs@.len());
    match check_payload_complete(defs, &given, enum_name, variant, span) {
        Err(error) => {
            return Err(error);
        },
        Ok(()) => {},
    }
    let values = collect_payload(defs, &given);
    let templates = collect_types(defs);
    let types = types_of_all(ops, &values);
    match infer_targets(&index.enums[at], &templates, &types, span) {
        Err(error) => Err(error),
        Ok((type_args, targets)) => {
            assert(types_view(targets@).len() == targets@.len());
            let spans = same_spans(span, defs.len());
            match coerce_all(ops, &values, &targets, &spans) {
                Err(error) => Err(error),
                Ok(payload) => {
                    assert(values_view(payload@).len() == payload@.len());
                    Ok(
                        Value::Enum {
                            name: enum_name.clone(),
                            variant: variant.clone(),
                            type_args,
                            payload: EnumPayloadValue::Named(name_payload(defs, payload)),
                        },
                    )
                },
            }
        },
    }
}

/// What expressions come to.
pub fn eval_all<O: ValueOperations>(
    ops: &O,
    index: &ProgramIndex,
    exprs: &Vec<Expr>,
    env: Env,
) -> (result: (Result<Vec<Value>, Failure>, Env))
    requires
        are_operations(*ops),
    ensures
        all_valued_view(result) == all_evaluated(
            *ops,
            index@,
            exprs_view(exprs@),
            0,
            Seq::empty(),
            env@,
        ),
        result.0 matches Ok(values) ==> values@.len() == exprs@.len(),
    decreases exprs, 0int,
{
    let ghost all = exprs_view(exprs@);
    let ghost goal = all_evaluated(*ops, index@, all, 0, Seq::empty(), env@);
    let mut names = env;
    let mut values: Vec<Value> = Vec::new();
    assert(values_view(values@) =~= Seq::empty());
    for i in 0..exprs.len()
        invariant
            are_operations(*ops),
            goal == all_evaluated(*ops, index@, all, 0, Seq::empty(), env@),
            all == exprs_view(exprs@),
            values@.len() == i,
            goal == all_evaluated(*ops, index@, all, i as int, values_view(values@), names@),
    {
        let ghost before = values_view(values@);
        assert(all[i as int] == exprs@[i as int]@);
        let (value, next) = eval_expr(ops, index, &exprs[i], names);
        names = next;
        match value {
            Err(failure) => {
                return (Err(failure), names);
            },
            Ok(value) => {
                values.push(value);
                assert(values_view(values@) =~= before.push(value@));
            },
        }
    }
    (Ok(values), names)
}

/// What the fields of a struct literal come to.
fn fill_fields<O: ValueOperations>(
    ops: &O,
    index: &ProgramIndex,
    layout: &Vec<LayoutField>,
    fields: &Vec<StructInitField>,
    env: Env,
) -> (result: (Result<Vec<NamedValue>, Failure>, Env))
    requires
        are_operations(*ops),
    ensures
        filled_view(result) == fields_filled(
            *ops,
            index@,
            layout_fields_view(layout@),
            inits_view(fields@),
            0,
            Seq::empty(),
            env@,
        ),
    decreases fields, 0int,
{
    let ghost all = inits_view(fields@);
    let ghost places = layout_fields_view(layout@);
    let ghost goal = fields_filled(*ops, index@, places, all, 0, Seq::empty(), env@);
    let mut names = env;
    let mut given: Vec<NamedValue> = Vec::new();
    assert(named_view(given@) =~= Seq::empty());
    for i in 0..fields.len()
        invariant
            are_operations(*ops),
            goal == fields_filled(*ops, index@, places, all, 0, Seq::empty(), env@),
            all == inits_view(fields@),
            places == layout_fields_view(layout@),
            goal == fields_filled(
                *ops,
                index@,
                places,
                all,
                i as int,
                named_view(given@),
                names@,
            ),
    {
        let ghost before = named_view(given@);
        let field = &fields[i];
        assert(all[i as int] == fields@[i as int]@);
        match check_new_field(&given, &field.name, field.span) {
            Err(error) => {
                return (Err(Failure::of(error)), names);
            },
            Ok(()) => {},
        }
        let (value, next) = eval_expr(ops, index, &field.expr, names);
        names = next;
        let value = match value {
            Err(failure) => {
                return (Err(failure), names);
            },
            Ok(value) => value,
        };
        let ty = match field_to_fill(layout, &field.name, field.span) {
            Err(error) => {
                return (Err(Failure::of(error)), names);
            },
            Ok(ty) => ty,
        };
        let value = match coerce(ops, value, &ty, field.span) {
            Err(error) => {
                return (Err(Failure::of(error)), names);
            },
            Ok(value) => value,
        };
        let new = NamedValue { name: field.name.clone(), value };
        let ghost added = new@;
        given.push(new);
        assert(named_view(given@) =~= before.push(added));
    }
    (Ok(given), names)
}

/// What the fields of a variant come to.
fn fill_payload<O: ValueOperations>(
    ops: &O,
    index: &ProgramIndex,
    defs: &Vec<StructField>,
    enum_name: &String,
    variant: &String,
    fields: &Vec<StructInitField>,
    env: Env,
) -> (result: (Result<Vec<NamedValue>, Failure>, Env))
    requires
        are_operations(*ops),
    ensures
        filled_view(result) == payload_filled(
            *ops,
            index@,
            fields_view(defs@),
            enum_name@,
            variant@,
            inits_view(fields@),
            0,
            Seq::empty(),
            env@,
        ),
    decreases fields, 0int,
{
    let ghost all = inits_view(fields@);
    let ghost known = fields_view(defs@);
    let ghost goal = payload_filled(
        *ops,
        index@,
        known,
        enum_name@,
        variant@,
        all,
        0,
        Seq::empty(),
        env@,
    );
    let mut names = env;
    let mut given: Vec<NamedValue> = Vec::new();
    assert(named_view(given@) =~= Seq::empty());
    for i in 0..fields.len()
        invariant
            are_operations(*ops),
            goal == payload_filled(
        *ops,
        index@,
        known,
        enum_name@,
        variant@,
        all,
        0,
        Seq::empty(),
        env@,
    ),
            all == inits_view(fields@),
            known == fields_view(defs@),
            goal == payload_filled(
                *ops,
                index@,
                known,
                enum_name@,
                variant@,
                all,
                i as int,
                named_view(given@),
                names@,
            ),
    {
        let ghost before = named_view(given@);
        let field = &fields[i];
        assert(all[i as int] == fields@[i as int]@);
        match check_payload_field(defs, &given, &field.name, enum_name, variant, field.span) {
            Err(error) => {
                return (Err(Failure::of(error)), names);
            },
            Ok(()) => {},
        }
        let (value, next) = eval_expr(ops, index, &field.expr, names);
        names = next;
        let value = match value {
            Err(failure) => {
                return (Err(failure), names);
            },
            Ok(value) => value,
        };
        let new = NamedValue { name: field.name.clone(), value };
        let ghost added = new@;
        given.push(new);
        assert(named_view(given@) =~= before.push(added));
    }
    (Ok(given), names)
}

/// What the entries of a dictionary literal come to, and the type that their
/// values share.
fn eval_entries<O: ValueOperations>(
    ops: &O,
    index: &ProgramIndex,
    entries: &Vec<DictEntry>,
    env: Env,
) -> (result: (Result<(Vec<NamedValue>, Option<TypeName>), Failure>, Env))
    requires
        are_operations(*ops),
    ensures
        ({
            let goal = entries_evaluated(
                *ops,
                index@,
                entries_view(entries@),
                0,
                Seq::empty(),
                None,
                env@,
            );
            &&& result.1@ == goal.1
            &&& match goal.0 {
                Ok((given, ty)) => result.0 matches Ok((found, shared)) && named_view(found@)
                    == given && optional_type(shared) == ty,
                Err(failure) => result.0 matches Err(found) && found@ == failure,
            }
        }),
    decreases entries, 0int,
{
    let ghost all = entries_view(entries@);
    let ghost goal = entries_evaluated(*ops, index@, all, 0, Seq::empty(), None, env@);
    let mut names = env;
    let mut given: Vec<NamedValue> = Vec::new();
    let mut ty: Option<TypeName> = None;
    assert(named_view(given@) =~= Seq::empty());
    for i in 0..entries.len()
        invariant
            are_operations(*ops),
            goal == entries_evaluated(*ops, index@, all, 0, Seq::empty(), None, env@),
            all == entries_view(entries@),
            goal == entries_evaluated(
                *ops,
                index@,
                all,
                i as int,
                named_view(given@),
                optional_type(ty),
                names@,
            ),
    {
        let entry = &entries[i];
        assert(all[i as int] == entries@[i as int]@);
        let written = Value::Str(entry.key.clone());
        let key = match key_text(ops, written, &TypeName::String, entry.span) {
            Err(error) => {
                return (Err(Failure::of(error)), names);
            },
            Ok(key) => key,
        };
        match check_new_key(&given, &key, &entry.key, entry.span) {
            Err(error) => {
                return (Err(Failure::of(error)), names);
            },
            Ok(()) => {},
        }
        let (value, next) = eval_expr(ops, index, &entry.value, names);
        names = next;
        let value = match value {
            Err(failure) => {
                return (Err(failure), names);
            },
            Ok(value) => value,
        };
        let actual = type_of(ops, &value);
        match check_value_type(&ty, &actual, entry.span) {
            Err(error) => {
                return (Err(Failure::of(error)), names);
            },
            Ok(()) => {},
        }
        ty = Some(actual);
        put_entry(&mut given, &key, value);
    }
    (Ok((given, ty)), names)
}

/// Closes the scope in which something was found.
fn close_scope<O: ValueOperations>(ops: &O, found: Result<Value, Failure>, env: Env) -> (result: (
    Result<Value, Failure>,
    Env,
))
    requires
        are_operations(*ops),
    ensures
        valued_view(result) == scope_closed(*ops, valued_view((found, env))),
{
    let ghost inner = env@;
    let mut env = env;
    let popped = env.pop();
    proof {
        if inner.len() == 0 {
            assert(scope_view(popped@) =~= Map::empty());
        }
    }
    match release(ops, popped, env) {
        (Err(error), env) => (Err(Failure::of(error)), env),
        (Ok(()), env) => (found, env),
    }
}

/// What a match comes to.
fn eval_match_expr<O: ValueOperations>(
    ops: &O,
    index: &ProgramIndex,
    expr: &Expr,
    value: &Box<Expr>,
    arms: &Vec<MatchArm>,
    span: Span,
    env: Env,
) -> (result: (Result<Value, Failure>, Env))
    requires
        are_operations(*ops),
        *expr == (Expr::Match { value: *value, arms: *arms, span }),
    ensures
        valued_view(result) == evaluated(*ops, index@, expr@, env@),
    decreases expr, 0int,
{
    assert(expr->Match_value == *value && expr->Match_arms == *arms);
    let place = expr_span(value);
    assert(arms_view(arms@).len() == arms@.len());
    match eval_expr(ops, index, value, env) {
        (Err(failure), env) => (Err(failure), env),
        (Ok(found), env) => match &found {
            Value::Enum { name, variant, type_args, payload } => {
                let at: usize = match find_enum(&index.enums, name) {
                    None => {
                        return refuse(
                            Diagnostic::at_span(say_of("unknown enum", name), place),
                            env,
                        );
                    },
                    Some(at) => at,
                };
                assert(index@.enums[at as int] == index.enums@[at as int]@);
                let arm: usize = match select_arm(arms, &index.enums[at], variant, span) {
                    Err(error) => {
                        return refuse(error, env);
                    },
                    Ok(arm) => arm,
                };
                assert(arms_view(arms@)[arm as int] == arms@[arm as int]@);
                let ghost outer = env@;
                let mut env = env;
                env.push();
                let ghost inner = env@;
                match bind_enum_match_pattern(
                    &arms[arm].pattern,
                    &index.enums[at],
                    variant,
                    type_args,
                    payload,
                    &mut env,
                ) {
                    Err(error) => {
                        assert(inner.drop_last() =~= outer);
                        let _ = env.pop();
                        env.push();
                        close_scope(ops, Err(Failure::of(error)), env)
                    },
                    Ok(()) => {
                        let (given, env) = eval_expr(ops, index, &arms[arm].expr, env);
                        close_scope(ops, given, env)
                    },
                }
            },
            _ => refuse(Diagnostic::about_types("match value must be an enum", place), env),
        },
    }
}

/// The method of the program that a name is the receiver of, if it has one.
fn find_method_of_name(
    index: &ProgramIndex,
    receiver: &Expr,
    method: &String,
    given: usize,
    env: &Env,
    span: Span,
) -> (outcome: Result<Option<(usize, String)>, Diagnostic>)
    ensures
        match method_of_name(index@, receiver@, method@, given as nat, env@, span) {
            Ok(Some(at)) => outcome matches Ok(Some((found, name))) && found == at && receiver@
                == (ExprView::Ident { name: name@, span: place_of_expr(receiver@) }),
            Ok(None) => outcome matches Ok(None),
            Err(error) => outcome matches Err(found) && found@ == error,
        },
{
    match receiver {
        Expr::Ident { name, .. } => match env.get(name) {
            None => Err(say_unknown(name, span)),
            Some(binding) => match find_method_read(index, &binding.ty, method, given, span) {
                Err(error) => Err(error),
                Ok(None) => Ok(None),
                Ok(Some(at)) => Ok(Some((at, name.clone()))),
            },
        },
        _ => Ok(None),
    }
}

/// What a method of the program comes to for a receiver that has no name.
fn call_on_value<O: ValueOperations>(
    ops: &O,
    at: usize,
    receiver: Value,
    ty: TypeName,
    args: Vec<Value>,
    env: Env,
    span: Span,
) -> (result: (Result<Value, Failure>, Env))
    requires
        are_operations(*ops),
    ensures
        valued_view(result) == method_on_value(
            *ops,
            at as int,
            receiver@,
            ty@,
            values_view(args@),
            env@,
            span,
        ),
{
    let mut local = env.clone();
    let name = "__aziky_temporary_receiver".to_string();
    enter_round(&mut local, &name, receiver, ty);
    match borrow(ops, &name_of(&name, span), local, false, span) {
        (Err(error), _) => refuse(error, env),
        (Ok(reference), lent) => {
            let result = call_apart(ops, at, with_first(reference, args), lent, span);
            (result, env)
        },
    }
}

/// What a method comes to.
fn eval_method<O: ValueOperations>(
    ops: &O,
    index: &ProgramIndex,
    expr: &Expr,
    receiver: &Box<Expr>,
    name: &String,
    args: &Vec<Expr>,
    span: Span,
    env: Env,
) -> (result: (Result<Value, Failure>, Env))
    requires
        are_operations(*ops),
        *expr == (Expr::MethodCall { receiver: *receiver, name: *name, args: *args, span }),
    ensures
        valued_view(result) == evaluated(*ops, index@, expr@, env@),
    decreases expr, 0int,
{
    assert(expr->MethodCall_receiver == *receiver && expr->MethodCall_args == *args);
    assert(exprs_view(args@).len() == args@.len());
    match find_method_of_name(index, receiver, name, args.len(), &env, span) {
        Err(error) => refuse(error, env),
        Ok(
            Some((at, named)),
        ) => match borrow(ops, &name_of(&named, span), env.clone(), false, span) {
            (Err(error), _) => refuse(error, env),
            (Ok(reference), lent) => match eval_all(ops, index, args, env) {
                (Err(failure), env) => (Err(failure), env),
                (Ok(values), env) => {
                    let result = call_apart(ops, at, with_first(reference, values), lent, span);
                    (result, env)
                },
            },
        },
        Ok(None) => match eval_expr(ops, index, receiver, env) {
            (Err(failure), env) => (Err(failure), env),
            (Ok(value), env) => {
                let ty = type_of(ops, &value);
                match find_method_read(index, &ty, name, args.len(), span) {
                    Err(error) => refuse(error, env),
                    Ok(method) => match eval_all(ops, index, args, env) {
                        (Err(failure), env) => (Err(failure), env),
                        (Ok(values), env) => match method {
                            Some(at) => call_on_value(ops, at, value, ty, values, env, span),
                            None => {
                                let (given, env) = call_method(
                                    ops,
                                    value,
                                    name,
                                    &values,
                                    env,
                                    span,
                                );
                                settle(given, env)
                            },
                        },
                    },
                }
            },
        },
    }
}

} // verus!
