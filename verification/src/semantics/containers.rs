//! What statements do to arrays, lists, dictionaries and maps.

use crate::ast::{Span, TypeName, TypeView};
use crate::copy::copy_type;
use crate::diagnostic::{message_at_span, type_message, Diagnostic, DiagnosticView};
use crate::semantics::entries::{put_entry, with_entry};
use crate::semantics::environment::{lemma_same_meaning, meaning, BindingView, Env};
use crate::semantics::statements::{
    change_problem, is_changed, say_of, say_unknown, unknown_identifier, value_of,
};
use crate::semantics::values::{
    find_value, named_view, value_named, values_view, with_value, Value, ValueView,
};
use vstd::prelude::*;

verus! {

/// The place that a value stands for as an index.
pub open spec fn index_number(value: ValueView, span: Span) -> Result<usize, DiagnosticView> {
    match value {
        ValueView::UInt { value, .. } => if value <= usize::MAX {
            Ok(value as usize)
        } else {
            Err(type_message("index out of bounds"@, span))
        },
        ValueView::Int { value, .. } => if value < 0 {
            Err(type_message("index must be non-negative"@, span))
        } else if value <= usize::MAX {
            Ok(value as usize)
        } else {
            Err(type_message("index out of bounds"@, span))
        },
        _ => Err(type_message("index must be integer"@, span)),
    }
}

/// The place that a value stands for as an index.
pub fn element_index(value: &Value, span: Span) -> (outcome: Result<usize, Diagnostic>)
    ensures
        match index_number(value@, span) {
            Ok(at) => outcome matches Ok(found) && found == at,
            Err(error) => outcome matches Err(found) && found@ == error,
        },
{
    match value {
        Value::UInt { value, .. } => {
            if *value <= usize::MAX as u128 {
                Ok(*value as usize)
            } else {
                Err(Diagnostic::about_types("index out of bounds", span))
            }
        },
        Value::Int { value, .. } => {
            if *value < 0 {
                Err(Diagnostic::about_types("index must be non-negative", span))
            } else if *value <= usize::MAX as i128 {
                Ok(*value as usize)
            } else {
                Err(Diagnostic::about_types("index out of bounds", span))
            }
        },
        _ => Err(Diagnostic::about_types("index must be integer", span)),
    }
}

/// What an assignment to an element needs: the place and the type of an element,
/// or the types of a key and its value.
#[derive(Debug, PartialEq, Eq)]
pub enum IndexPlan {
    Element { at: usize, elem: TypeName },
    Entry { key: TypeName, value: TypeName },
    MapEntry { key: TypeName, value: TypeName },
}

/// What an assignment to an element needs as a mathematical value.
#[verifier::ext_equal]
pub enum IndexPlanView {
    Element { at: usize, elem: TypeView },
    Entry { key: TypeView, value: TypeView },
    MapEntry { key: TypeView, value: TypeView },
}

impl View for IndexPlan {
    type V = IndexPlanView;

    open spec fn view(&self) -> IndexPlanView {
        match *self {
            IndexPlan::Element { at, elem } => IndexPlanView::Element { at, elem: elem@ },
            IndexPlan::Entry { key, value } => IndexPlanView::Entry { key: key@, value: value@ },
            IndexPlan::MapEntry { key, value } => IndexPlanView::MapEntry {
                key: key@,
                value: value@,
            },
        }
    }
}

/// The place of an element of so many.
pub open spec fn element_plan(
    count: nat,
    elem: TypeView,
    index: ValueView,
    span: Span,
) -> Result<IndexPlanView, DiagnosticView> {
    match index_number(index, span) {
        Err(error) => Err(error),
        Ok(at) => if at < count {
            Ok(IndexPlanView::Element { at, elem })
        } else {
            Err(type_message("index out of bounds"@, span))
        },
    }
}

/// What an assignment to an element of a value needs.
pub open spec fn index_plan(
    value: ValueView,
    ty: TypeView,
    index: ValueView,
    span: Span,
) -> Result<IndexPlanView, DiagnosticView> {
    match (value, ty) {
        (ValueView::Array { elems, .. }, TypeView::Array { elem, .. }) => element_plan(
            elems.len(),
            *elem,
            index,
            span,
        ),
        (ValueView::List { elems, .. }, TypeView::List { elem }) => element_plan(
            elems.len(),
            *elem,
            index,
            span,
        ),
        (ValueView::Dict { .. }, TypeView::Dict { key, value }) => Ok(
            IndexPlanView::Entry { key: *key, value: *value },
        ),
        (ValueView::Mapping { .. }, TypeView::Mapping { key, value }) => Ok(
            IndexPlanView::MapEntry { key: *key, value: *value },
        ),
        _ => Err(
            type_message("index assignment requires array, list, dictionary, or map"@, span),
        ),
    }
}

/// The place of an element of so many.
fn plan_element(count: usize, elem: &TypeName, index: &Value, span: Span) -> (outcome: Result<
    IndexPlan,
    Diagnostic,
>)
    ensures
        match element_plan(count as nat, elem@, index@, span) {
            Ok(plan) => outcome matches Ok(found) && found@ == plan,
            Err(error) => outcome matches Err(found) && found@ == error,
        },
{
    let at: usize = element_index(index, span)?;
    if at < count {
        Ok(IndexPlan::Element { at, elem: copy_type(elem) })
    } else {
        Err(Diagnostic::about_types("index out of bounds", span))
    }
}

/// What an assignment to an element of what a name stands for needs.
pub fn plan_index_assignment(env: &Env, name: &String, index: &Value, span: Span) -> (outcome:
    Result<IndexPlan, Diagnostic>)
    ensures
        match meaning(env@, name@) {
            None => outcome matches Err(found) && found@ == message_at_span(
                unknown_identifier(name@),
                span,
            ),
            Some(binding) => match index_plan(binding.value, binding.ty, index@, span) {
                Ok(plan) => outcome matches Ok(found) && found@ == plan,
                Err(error) => outcome matches Err(found) && found@ == error,
            },
        },
{
    let binding = match env.get(name) {
        Some(binding) => binding,
        None => {
            return Err(say_unknown(name, span));
        },
    };
    match (&binding.value, &binding.ty) {
        (Value::Array { elems, .. }, TypeName::Array { elem, .. }) => {
            assert(values_view(elems@).len() == elems@.len());
            plan_element(elems.len(), elem, index, span)
        },
        (Value::List { elems, .. }, TypeName::List { elem }) => {
            assert(values_view(elems@).len() == elems@.len());
            plan_element(elems.len(), elem, index, span)
        },
        (Value::Dict { .. }, TypeName::Dict { key, value }) => Ok(
            IndexPlan::Entry { key: copy_type(key), value: copy_type(value) },
        ),
        (Value::Mapping { .. }, TypeName::Mapping { key, value }) => Ok(
            IndexPlan::MapEntry { key: copy_type(key), value: copy_type(value) },
        ),
        _ => Err(
            Diagnostic::about_types(
                "index assignment requires array, list, dictionary, or map",
                span,
            ),
        ),
    }
}

/// An array or a list with another element at a place.
pub open spec fn with_element(
    value: ValueView,
    at: usize,
    new: ValueView,
    elem: TypeView,
    span: Span,
) -> Result<ValueView, DiagnosticView> {
    match value {
        ValueView::Array { elems, .. } => if at < elems.len() {
            Ok(ValueView::Array { elem_type: elem, elems: elems.update(at as int, new) })
        } else {
            Err(type_message("index out of bounds"@, span))
        },
        ValueView::List { elems, .. } => if at < elems.len() {
            Ok(ValueView::List { elem_type: elem, elems: elems.update(at as int, new) })
        } else {
            Err(type_message("index out of bounds"@, span))
        },
        _ => Err(
            type_message("index assignment requires array, list, dictionary, or map"@, span),
        ),
    }
}

/// Sets an element of the array or list that a name stands for.
pub fn assign_element(
    env: &mut Env,
    name: &String,
    at: usize,
    value: Value,
    elem: TypeName,
    span: Span,
) -> (outcome: Result<(), Diagnostic>)
    ensures
        is_changed(
            old(env)@,
            final(env)@,
            name@,
            with_element(value_of(old(env)@, name@), at, value@, elem@, span),
            span,
            outcome,
        ),
{
    proof {
        lemma_same_meaning(env@, name@);
    }
    match env.get_mut(name) {
        None => Err(say_unknown(name, span)),
        Some(binding) => match &mut binding.value {
            Value::Array { elem_type, elems } => {
                let ghost before = values_view(elems@);
                if at >= elems.len() {
                    return Err(Diagnostic::about_types("index out of bounds", span));
                }
                elems.set(at, value);
                *elem_type = elem;
                assert(values_view(elems@) =~= before.update(at as int, value@));
                Ok(())
            },
            Value::List { elem_type, elems } => {
                let ghost before = values_view(elems@);
                if at >= elems.len() {
                    return Err(Diagnostic::about_types("index out of bounds", span));
                }
                elems.set(at, value);
                *elem_type = elem;
                assert(values_view(elems@) =~= before.update(at as int, value@));
                Ok(())
            },
            _ => Err(
                Diagnostic::about_types(
                    "index assignment requires array, list, dictionary, or map",
                    span,
                ),
            ),
        },
    }
}

/// A dictionary with the value of a key set.
pub open spec fn with_dict_entry(
    value: ValueView,
    key: Seq<char>,
    new: ValueView,
    key_type: TypeView,
    value_type: TypeView,
    span: Span,
) -> Result<ValueView, DiagnosticView> {
    match value {
        ValueView::Dict { entries, .. } => Ok(
            ValueView::Dict { key_type, value_type, entries: with_entry(entries, key, new) },
        ),
        _ => Err(
            type_message("index assignment requires array, list, dictionary, or map"@, span),
        ),
    }
}

/// Sets the value of a key of the dictionary that a name stands for.
pub fn assign_entry(
    env: &mut Env,
    name: &String,
    key: &String,
    value: Value,
    key_type: TypeName,
    value_type: TypeName,
    span: Span,
) -> (outcome: Result<(), Diagnostic>)
    ensures
        is_changed(
            old(env)@,
            final(env)@,
            name@,
            with_dict_entry(
                value_of(old(env)@, name@),
                key@,
                value@,
                key_type@,
                value_type@,
                span,
            ),
            span,
            outcome,
        ),
{
    proof {
        lemma_same_meaning(env@, name@);
    }
    match env.get_mut(name) {
        None => Err(say_unknown(name, span)),
        Some(binding) => match &mut binding.value {
            Value::Dict { key_type: keys_are, value_type: values_are, entries } => {
                put_entry(entries, key, value);
                *keys_are = key_type;
                *values_are = value_type;
                Ok(())
            },
            _ => Err(
                Diagnostic::about_types(
                    "index assignment requires array, list, dictionary, or map",
                    span,
                ),
            ),
        },
    }
}

/// A map with the value of a key set.
pub open spec fn with_map_entry(
    value: ValueView,
    name: Seq<char>,
    key: ValueView,
    new: ValueView,
    key_type: TypeView,
    value_type: TypeView,
    span: Span,
) -> Result<ValueView, DiagnosticView> {
    match value {
        ValueView::Mapping { entries, keys, .. } => Ok(
            ValueView::Mapping {
                key_type,
                value_type,
                entries: with_entry(entries, name, new),
                keys: with_entry(keys, name, key),
            },
        ),
        _ => Err(
            type_message("index assignment requires array, list, dictionary, or map"@, span),
        ),
    }
}

/// Sets the value of a key of the map that a name stands for. The key stands
/// there by its text and as it is.
pub fn assign_map_entry(
    env: &mut Env,
    name: &String,
    key_text: &String,
    key: Value,
    value: Value,
    key_type: TypeName,
    value_type: TypeName,
    span: Span,
) -> (outcome: Result<(), Diagnostic>)
    ensures
        is_changed(
            old(env)@,
            final(env)@,
            name@,
            with_map_entry(
                value_of(old(env)@, name@),
                key_text@,
                key@,
                value@,
                key_type@,
                value_type@,
                span,
            ),
            span,
            outcome,
        ),
{
    proof {
        lemma_same_meaning(env@, name@);
    }
    match env.get_mut(name) {
        None => Err(say_unknown(name, span)),
        Some(binding) => match &mut binding.value {
            Value::Mapping { key_type: keys_are, value_type: values_are, entries, keys } => {
                put_entry(entries, key_text, value);
                put_entry(keys, key_text, key);
                *keys_are = key_type;
                *values_are = value_type;
                Ok(())
            },
            _ => Err(
                Diagnostic::about_types(
                    "index assignment requires array, list, dictionary, or map",
                    span,
                ),
            ),
        },
    }
}

/// The list that stands in a field of a struct: the type of its elements, and
/// the elements. The refusal is what is said of another field.
pub open spec fn list_in_field(
    value: ValueView,
    field: Seq<char>,
    refusal: Seq<char>,
    span: Span,
) -> Result<(TypeView, Seq<ValueView>), DiagnosticView> {
    match value {
        ValueView::Struct { fields, .. } => match value_named(fields, field) {
            Some(ValueView::List { elem_type, elems }) => Ok((elem_type, elems)),
            _ => Err(type_message(refusal, span)),
        },
        _ => Err(type_message("list-field mutation requires a struct"@, span)),
    }
}

/// A struct with another list in a field.
pub open spec fn with_list_in_field(
    value: ValueView,
    field: Seq<char>,
    elem_type: TypeView,
    elems: Seq<ValueView>,
) -> ValueView {
    match value {
        ValueView::Struct { name, fields } => ValueView::Struct {
            name,
            fields: with_value(fields, field, ValueView::List { elem_type, elems }),
        },
        _ => value,
    }
}

/// The place and the type of an element of the list in a field, where it is to
/// be assigned.
pub open spec fn field_element_plan(
    scopes: Seq<Map<Seq<char>, BindingView>>,
    receiver: Seq<char>,
    field: Seq<char>,
    index: ValueView,
    span: Span,
) -> Result<(usize, TypeView), DiagnosticView> {
    match change_problem(scopes, receiver, "cannot assign through immutable"@, span) {
        Some(problem) => Err(problem),
        None => match index_number(index, span) {
            Err(error) => Err(error),
            Ok(at) => match list_in_field(
                value_of(scopes, receiver),
                field,
                "indexed struct field must be a list"@,
                span,
            ) {
                Err(error) => Err(error),
                Ok((elem_type, elems)) => if at < elems.len() {
                    Ok((at, elem_type))
                } else {
                    Err(type_message("index out of bounds"@, span))
                },
            },
        },
    }
}

/// The place and the type of an element of the list in a field, where it is to
/// be assigned.
pub fn plan_field_element(
    env: &Env,
    receiver: &String,
    field: &String,
    index: &Value,
    span: Span,
) -> (outcome: Result<(usize, TypeName), Diagnostic>)
    ensures
        match field_element_plan(env@, receiver@, field@, index@, span) {
            Ok((at, ty)) => outcome matches Ok((found, elem)) && found == at && elem@ == ty,
            Err(error) => outcome matches Err(found) && found@ == error,
        },
{
    let binding = match env.get(receiver) {
        Some(binding) => binding,
        None => {
            return Err(say_unknown(receiver, span));
        },
    };
    if !binding.mutable {
        return Err(
            Diagnostic::type_error(say_of("cannot assign through immutable", receiver), span),
        );
    }
    let at: usize = element_index(index, span)?;
    match &binding.value {
        Value::Struct { fields, .. } => match find_value(fields, field) {
            Some(place) => {
                assert(named_view(fields@)[place as int] == fields@[place as int]@);
                match &fields[place].value {
                    Value::List { elem_type, elems } => {
                        assert(fields@[place as int].value@ == ValueView::List {
                            elem_type: elem_type@,
                            elems: values_view(elems@),
                        });
                        if at < elems.len() {
                            Ok((at, copy_type(elem_type)))
                        } else {
                            Err(Diagnostic::about_types("index out of bounds", span))
                        }
                    },
                    _ => Err(Diagnostic::about_types("indexed struct field must be a list", span)),
                }
            },
            None => Err(Diagnostic::about_types("indexed struct field must be a list", span)),
        },
        _ => Err(Diagnostic::about_types("list-field mutation requires a struct", span)),
    }
}

} // verus!
