//! What statements do to names: declarations and assignments.

use crate::ast::{Span, TypeName, TypeView};
use crate::copy::copy_type;
use crate::diagnostic::{message_at_span, type_message, Diagnostic, DiagnosticView};
use crate::parser::cursor::is_text;
use crate::semantics::environment::{
    fresh_binding, lemma_same_meaning, meaning, with_meaning, with_name, Binding, BindingView, Env,
};
use crate::semantics::index::{layout_fields_view, IndexView, LayoutField, ProgramIndex};
use crate::semantics::known::outcome_is;
use crate::semantics::layouts::{find_layout, laid_out, layout_names};
use crate::semantics::names::{is_listed, position_from, position_of};
use crate::semantics::values::{
    find_value, named_view, names_in, optional_types, put_value, values_view, with_value,
    EnumPayloadValue, NamedValue, NamedView, PayloadValueView, Value, ValueView,
};
use vstd::prelude::*;

verus! {

/// What is said of a name that is not known.
pub open spec fn unknown_identifier(name: Seq<char>) -> Seq<char> {
    "unknown identifier '"@ + name + "'"@
}

/// What is said of a name that is not known.
pub fn say_unknown(name: &String, span: Span) -> (diagnostic: Diagnostic)
    ensures
        diagnostic@ == message_at_span(unknown_identifier(name@), span),
{
    let mut message = String::from_str("unknown identifier '");
    message.append(name.as_str());
    message.append("'");
    Diagnostic::at_span(message, span)
}

/// What is said of something, by its name.
pub open spec fn said_of(start: Seq<char>, name: Seq<char>) -> Seq<char> {
    start + " '"@ + name + "'"@
}

/// What is said of something, by its name.
pub fn say_of(start: &str, name: &String) -> (message: String)
    ensures
        message@ == said_of(start@, name@),
{
    let mut message = String::from_str(start);
    message.append(" '");
    message.append(name.as_str());
    message.append("'");
    message
}

/// Checks that a name is not declared in the innermost scope.
pub fn check_new_name(env: &Env, name: &String, span: Span) -> (outcome: Result<(), Diagnostic>)
    ensures
        outcome_is(
            outcome,
            if env@.len() > 0 && env@.last().contains_key(name@) {
                Some(message_at_span(said_of("redefinition of"@, name@), span))
            } else {
                None
            },
        ),
{
    if env.current_scope_contains(name) {
        return Err(Diagnostic::at_span(say_of("redefinition of", name), span));
    }
    Ok(())
}

/// The type stands for one that is not known yet.
pub open spec fn is_open_type(ty: TypeView) -> bool {
    ty matches TypeView::Struct(name) && name == "_"@
}

/// A type argument inside the value is not known.
pub open spec fn is_unresolved(value: ValueView) -> bool
    decreases value, 0int,
{
    match value {
        ValueView::Enum { type_args, payload, .. } => (exists|i: int|
            0 <= i < type_args.len() && (#[trigger] type_args[i]) is None) || (match payload {
            PayloadValueView::Unit => false,
            PayloadValueView::Tuple(values) => some_unresolved(values),
            PayloadValueView::Named(fields) => some_named_unresolved(fields),
        }),
        ValueView::Struct { fields, .. } => some_named_unresolved(fields),
        ValueView::Array { elem_type, elems } => is_open_type(elem_type) || some_unresolved(elems),
        ValueView::List { elem_type, elems } => is_open_type(elem_type) || some_unresolved(elems),
        ValueView::Dict { entries, .. } => some_named_unresolved(entries),
        ValueView::Mapping { entries, .. } => some_named_unresolved(entries),
        _ => false,
    }
}

/// A type argument inside one of the values is not known.
pub open spec fn some_unresolved(values: Seq<ValueView>) -> bool
    decreases values, 0int,
{
    exists|i: int| 0 <= i < values.len() && is_unresolved(#[trigger] values[i])
}

/// A type argument inside one of the named values is not known.
pub open spec fn some_named_unresolved(values: Seq<NamedView>) -> bool
    decreases values, 0int,
{
    exists|i: int| 0 <= i < values.len() && is_unresolved((#[trigger] values[i]).value)
}

/// Whether the type stands for one that is not known yet.
fn is_open(ty: &TypeName) -> (found: bool)
    ensures
        found == is_open_type(ty@),
{
    match ty {
        TypeName::Struct(name) => is_text(name, "_"),
        _ => false,
    }
}

/// Whether one of the types is not known.
fn some_type_missing(types: &Vec<Option<TypeName>>) -> (found: bool)
    ensures
        found == exists|i: int|
            0 <= i < optional_types(types@).len() && (#[trigger] optional_types(types@)[i])
                is None,
{
    for i in 0..types.len()
        invariant
            forall|j: int| 0 <= j < i ==> (#[trigger] types@[j]) is Some,
    {
        if types[i].is_none() {
            assert(optional_types(types@)[i as int] is None);
            return true;
        }
    }
    assert forall|i: int| 0 <= i < optional_types(types@).len() implies (
    #[trigger] optional_types(types@)[i]) is Some by {
        assert(types@[i] is Some);
    }
    false
}

/// Whether a type argument inside the value is not known.
pub fn value_has_unresolved_generic_args(value: &Value) -> (found: bool)
    ensures
        found == is_unresolved(value@),
    decreases value,
{
    match value {
        Value::Enum { type_args, payload, .. } => {
            if some_type_missing(type_args) {
                return true;
            }
            match payload {
                EnumPayloadValue::Unit => false,
                EnumPayloadValue::Tuple(values) => any_unresolved(values),
                EnumPayloadValue::Named(fields) => any_named_unresolved(fields),
            }
        },
        Value::Struct { fields, .. } => any_named_unresolved(fields),
        Value::Array { elem_type, elems } => is_open(elem_type) || any_unresolved(elems),
        Value::List { elem_type, elems } => is_open(elem_type) || any_unresolved(elems),
        Value::Dict { entries, .. } => any_named_unresolved(entries),
        Value::Mapping { entries, .. } => any_named_unresolved(entries),
        _ => false,
    }
}

/// Whether a type argument inside one of the values is not known.
fn any_unresolved(values: &Vec<Value>) -> (found: bool)
    ensures
        found == some_unresolved(values_view(values@)),
    decreases values,
{
    for i in 0..values.len()
        invariant
            forall|j: int| 0 <= j < i ==> !is_unresolved((#[trigger] values@[j])@),
    {
        if value_has_unresolved_generic_args(&values[i]) {
            assert(values_view(values@)[i as int] == values@[i as int]@);
            return true;
        }
    }
    assert forall|i: int| 0 <= i < values_view(values@).len() implies !is_unresolved(
        #[trigger] values_view(values@)[i],
    ) by {
        assert(!is_unresolved(values@[i]@));
    }
    false
}

/// Whether a type argument inside one of the named values is not known.
fn any_named_unresolved(values: &Vec<NamedValue>) -> (found: bool)
    ensures
        found == some_named_unresolved(named_view(values@)),
    decreases values,
{
    for i in 0..values.len()
        invariant
            forall|j: int| 0 <= j < i ==> !is_unresolved((#[trigger] values@[j])@.value),
    {
        if value_has_unresolved_generic_args(&values[i].value) {
            assert(named_view(values@)[i as int] == values@[i as int]@);
            return true;
        }
    }
    assert forall|i: int| 0 <= i < named_view(values@).len() implies !is_unresolved(
        (#[trigger] named_view(values@)[i]).value,
    ) by {
        assert(!is_unresolved(values@[i]@.value));
    }
    false
}

/// Checks that a value without a declared type has every type argument.
pub fn check_inferred(value: &Value, span: Span) -> (outcome: Result<(), Diagnostic>)
    ensures
        outcome_is(
            outcome,
            if is_unresolved(value@) {
                Some(
                    type_message(
                        "cannot infer every generic type argument; add an explicit type annotation"@,
                        span,
                    ),
                )
            } else {
                None
            },
        ),
{
    if value_has_unresolved_generic_args(value) {
        return Err(
            Diagnostic::about_types(
                "cannot infer every generic type argument; add an explicit type annotation",
                span,
            ),
        );
    }
    Ok(())
}

/// Declares a name in the innermost scope.
pub fn declare(env: &mut Env, name: &String, mutable: bool, ty: TypeName, value: Value)
    ensures
        final(env)@ == with_name(old(env)@, name@, fresh_binding(value@, ty@, mutable)),
{
    env.insert(name.clone(), Binding::fresh(value, ty, mutable));
}

/// What is wrong with a name that is to be changed. The refusal is what is said
/// of one that must not be.
pub open spec fn change_problem(
    scopes: Seq<Map<Seq<char>, BindingView>>,
    name: Seq<char>,
    refusal: Seq<char>,
    span: Span,
) -> Option<DiagnosticView> {
    match meaning(scopes, name) {
        None => Some(message_at_span(unknown_identifier(name), span)),
        Some(binding) => if binding.mutable {
            None
        } else {
            Some(type_message(said_of(refusal, name), span))
        },
    }
}

/// Checks that a name may be changed.
fn check_change(env: &Env, name: &String, refusal: &str, span: Span) -> (outcome: Result<
    (),
    Diagnostic,
>)
    ensures
        outcome_is(outcome, change_problem(env@, name@, refusal@, span)),
{
    match env.get(name) {
        None => Err(say_unknown(name, span)),
        Some(binding) => {
            if binding.mutable {
                Ok(())
            } else {
                Err(Diagnostic::type_error(say_of(refusal, name), span))
            }
        },
    }
}

/// Checks that a name may be assigned to.
pub fn check_assignable(env: &Env, name: &String, span: Span) -> (outcome: Result<(), Diagnostic>)
    ensures
        outcome_is(outcome, change_problem(env@, name@, "cannot assign to immutable"@, span)),
{
    check_change(env, name, "cannot assign to immutable", span)
}

/// Checks that a method may change what a name stands for.
pub fn check_mutable(env: &Env, name: &String, span: Span) -> (outcome: Result<(), Diagnostic>)
    ensures
        outcome_is(outcome, change_problem(env@, name@, "cannot mutate immutable"@, span)),
{
    check_change(env, name, "cannot mutate immutable", span)
}

/// The type that a value has to have to be assigned to a name.
pub fn assignment_type(env: &Env, name: &String, span: Span) -> (outcome: Result<
    TypeName,
    Diagnostic,
>)
    ensures
        match change_problem(env@, name@, "cannot assign to immutable"@, span) {
            None => outcome matches Ok(found) && Some(found@) == (match meaning(env@, name@) {
                Some(binding) => Some(binding.ty),
                None => None,
            }),
            Some(problem) => outcome matches Err(found) && found@ == problem,
        },
{
    check_assignable(env, name, span)?;
    match env.get(name) {
        Some(binding) => Ok(copy_type(&binding.ty)),
        None => Err(say_unknown(name, span)),
    }
}

/// Assigns a value to a name.
pub fn assign(env: &mut Env, name: &String, value: Value, span: Span) -> (outcome: Result<
    (),
    Diagnostic,
>)
    ensures
        match meaning(old(env)@, name@) {
            Some(binding) => outcome is Ok && final(env)@ == with_meaning(
                old(env)@,
                name@,
                (BindingView { value: value@, ..binding }),
            ),
            None => (outcome matches Err(found) && found@ == message_at_span(
                unknown_identifier(name@),
                span,
            )) && final(env)@ == old(env)@,
        },
{
    match env.get_mut(name) {
        Some(binding) => {
            binding.value = value;
            Ok(())
        },
        None => Err(say_unknown(name, span)),
    }
}

/// The struct that a field assignment is about, and the name that holds it: the
/// receiver itself, or what it refers to.
pub open spec fn field_owner(
    scopes: Seq<Map<Seq<char>, BindingView>>,
    receiver: Seq<char>,
    span: Span,
) -> Result<(Seq<char>, Seq<char>), DiagnosticView> {
    match meaning(scopes, receiver) {
        None => Err(message_at_span(unknown_identifier(receiver), span)),
        Some(binding) => match (binding.ty, binding.value) {
            (TypeView::Struct(name), ValueView::Struct { .. }) => if binding.mutable {
                Ok((name, receiver))
            } else {
                Err(type_message(said_of("cannot assign to immutable"@, receiver), span))
            },
            (
                TypeView::Ref { mutable: by_type, inner },
                ValueView::Ref { target, mutable: by_value, .. },
            ) => if !by_type {
                Err(
                    type_message(
                        said_of("cannot assign through shared reference"@, receiver),
                        span,
                    ),
                )
            } else {
                match *inner {
                    TypeView::Struct(name) if by_value => Ok((name, target)),
                    _ => Err(type_message("field assignment on non-struct value"@, span)),
                }
            },
            _ => Err(type_message("field assignment on non-struct value"@, span)),
        },
    }
}

/// The struct that a field assignment is about, and the name that holds it.
pub fn field_target(env: &Env, receiver: &String, span: Span) -> (outcome: Result<
    (String, String),
    Diagnostic,
>)
    ensures
        match field_owner(env@, receiver@, span) {
            Ok((name, target)) => outcome matches Ok((found, holder)) && found@ == name && holder@
                == target,
            Err(error) => outcome matches Err(found) && found@ == error,
        },
{
    let binding = match env.get(receiver) {
        Some(binding) => binding,
        None => {
            return Err(say_unknown(receiver, span));
        },
    };
    match (&binding.ty, &binding.value) {
        (TypeName::Struct(name), Value::Struct { .. }) => {
            if !binding.mutable {
                return Err(
                    Diagnostic::type_error(say_of("cannot assign to immutable", receiver), span),
                );
            }
            Ok((name.clone(), receiver.clone()))
        },
        (
            TypeName::Ref { mutable: by_type, inner },
            Value::Ref { target, mutable: by_value, .. },
        ) => {
            if !*by_type {
                return Err(
                    Diagnostic::type_error(
                        say_of("cannot assign through shared reference", receiver),
                        span,
                    ),
                );
            }
            let held: &TypeName = &**inner;
            assert(binding@.ty == TypeView::Ref { mutable: true, inner: Box::new(held@) });
            match held {
                TypeName::Struct(name) => {
                    if *by_value {
                        Ok((name.clone(), target.clone()))
                    } else {
                        Err(Diagnostic::about_types("field assignment on non-struct value", span))
                    }
                },
                _ => Err(Diagnostic::about_types("field assignment on non-struct value", span)),
            }
        },
        _ => Err(Diagnostic::about_types("field assignment on non-struct value", span)),
    }
}

/// The type of a field of a struct.
pub open spec fn type_of_field(
    index: IndexView,
    name: Seq<char>,
    field: Seq<char>,
    span: Span,
) -> Result<TypeView, DiagnosticView> {
    match position_of(laid_out(index.struct_layouts), name) {
        None => Err(message_at_span(said_of("unknown struct"@, name), span)),
        Some(at) => {
            let fields = index.struct_layouts[at].fields;
            match position_of(layout_names(fields), field) {
                None => Err(message_at_span(said_of("unknown field"@, field), span)),
                Some(place) => Ok(fields[place].ty),
            }
        },
    }
}

/// Where a field stands in a layout.
pub fn find_layout_field(fields: &Vec<LayoutField>, name: &String) -> (at: Option<usize>)
    ensures
        match at {
            Some(at) => position_of(layout_names(layout_fields_view(fields@)), name@) == Some(
                at as int,
            ) && at < fields@.len(),
            None => position_of(layout_names(layout_fields_view(fields@)), name@) is None,
        },
{
    let ghost all = layout_names(layout_fields_view(fields@));
    for i in 0..fields.len()
        invariant
            all == layout_names(layout_fields_view(fields@)),
            position_of(all, name@) == position_from(all, name@, i as int),
    {
        assert(all[i as int] == fields@[i as int].name@);
        if fields[i].name == *name {
            return Some(i);
        }
    }
    None
}

/// The type of a field of a struct.
pub fn field_type(index: &ProgramIndex, name: &String, field: &String, span: Span) -> (outcome:
    Result<TypeName, Diagnostic>)
    ensures
        match type_of_field(index@, name@, field@, span) {
            Ok(ty) => outcome matches Ok(found) && found@ == ty,
            Err(error) => outcome matches Err(found) && found@ == error,
        },
{
    match find_layout(&index.struct_layouts, name) {
        None => Err(Diagnostic::at_span(say_of("unknown struct", name), span)),
        Some(at) => {
            assert(index@.struct_layouts[at as int] == index.struct_layouts@[at as int]@);
            let fields = &index.struct_layouts[at].fields;
            match find_layout_field(fields, field) {
                None => Err(Diagnostic::at_span(say_of("unknown field", field), span)),
                Some(place) => {
                    assert(layout_fields_view(fields@)[place as int] == fields@[place as int]@);
                    Ok(copy_type(&fields[place].ty))
                },
            }
        },
    }
}

/// A struct with the value of a field set.
pub open spec fn with_field(
    value: ValueView,
    field: Seq<char>,
    new: ValueView,
    span: Span,
) -> Result<ValueView, DiagnosticView> {
    match value {
        ValueView::Struct { name, fields } => if is_listed(names_in(fields), field) {
            Ok(ValueView::Struct { name, fields: with_value(fields, field, new) })
        } else {
            Err(type_message(said_of("unknown field"@, field), span))
        },
        _ => Err(type_message("field assignment on non-struct value"@, span)),
    }
}

/// What becomes of the names where the value that one stands for becomes
/// another, or cannot.
pub open spec fn is_changed(
    before: Seq<Map<Seq<char>, BindingView>>,
    after: Seq<Map<Seq<char>, BindingView>>,
    name: Seq<char>,
    change: Result<ValueView, DiagnosticView>,
    span: Span,
    outcome: Result<(), Diagnostic>,
) -> bool {
    match meaning(before, name) {
        None => (outcome matches Err(found) && found@ == message_at_span(
            unknown_identifier(name),
            span,
        )) && after == before,
        Some(binding) => match change {
            Ok(value) => outcome is Ok && after == with_meaning(
                before,
                name,
                BindingView { value, ..binding },
            ),
            Err(error) => (outcome matches Err(found) && found@ == error) && after == before,
        },
    }
}

/// The value that a name stands for.
pub open spec fn value_of(scopes: Seq<Map<Seq<char>, BindingView>>, name: Seq<char>) -> ValueView {
    match meaning(scopes, name) {
        Some(binding) => binding.value,
        None => arbitrary(),
    }
}

/// Sets the value of a field of the struct that a name stands for.
pub fn assign_field(
    env: &mut Env,
    target: &String,
    field: &String,
    value: Value,
    span: Span,
) -> (outcome: Result<(), Diagnostic>)
    ensures
        is_changed(
            old(env)@,
            final(env)@,
            target@,
            with_field(value_of(old(env)@, target@), field@, value@, span),
            span,
            outcome,
        ),
{
    proof {
        lemma_same_meaning(env@, target@);
    }
    match env.get_mut(target) {
        None => Err(say_unknown(target, span)),
        Some(binding) => match &mut binding.value {
            Value::Struct { fields, .. } => {
                if find_value(fields, field).is_none() {
                    return Err(Diagnostic::type_error(say_of("unknown field", field), span));
                }
                put_value(fields, field, value);
                Ok(())
            },
            _ => Err(Diagnostic::about_types("field assignment on non-struct value", span)),
        },
    }
}

} // verus!
