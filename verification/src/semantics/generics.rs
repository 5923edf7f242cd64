//! The type arguments of generic enums: found by values, and put in place.

use crate::ast::{texts_view, types_view, EnumDef, Span, TypeName, TypeView};
use crate::copy::copy_type;
use crate::diagnostic::{type_message, Diagnostic, DiagnosticView};
use crate::display::shown_type;
use crate::parser::cursor::is_text;
use crate::semantics::names::{
    find_text, is_listed, lemma_position_from, position_from, position_of,
};
use crate::semantics::types::{optional_type, same_type};
use crate::semantics::values::optional_types;
use vstd::prelude::*;

verus! {

/// A type parameter and the type that it stands for.
#[derive(Debug, PartialEq, Eq)]
pub struct Inferred {
    pub name: String,
    pub ty: TypeName,
}

/// The names of the parameters.
pub open spec fn inferred_names(inferred: Seq<Inferred>) -> Seq<Seq<char>> {
    Seq::new(inferred.len(), |i: int| inferred[i].name@)
}

/// What the type parameters stand for, as far as it is known.
pub open spec fn inferred_view(inferred: Seq<Inferred>) -> Map<Seq<char>, TypeView> {
    Map::new(
        |name: Seq<char>| position_of(inferred_names(inferred), name) is Some,
        |name: Seq<char>| inferred[position_of(inferred_names(inferred), name)->0].ty@,
    )
}

/// Where a parameter stands.
pub fn find_inferred(inferred: &Vec<Inferred>, name: &String) -> (at: Option<usize>)
    ensures
        match at {
            Some(at) => at < inferred@.len() && position_of(inferred_names(inferred@), name@)
                == Some(at as int) && inferred_view(inferred@).contains_key(name@)
                && inferred_view(inferred@)[name@] == inferred@[at as int].ty@,
            None => !inferred_view(inferred@).contains_key(name@),
        },
{
    let ghost all = inferred_names(inferred@);
    for i in 0..inferred.len()
        invariant
            all == inferred_names(inferred@),
            position_of(all, name@) == position_from(all, name@, i as int),
    {
        assert(all[i as int] == inferred@[i as int].name@);
        if inferred[i].name == *name {
            return Some(i);
        }
    }
    None
}

/// What the parameters stand for once one more stands behind the others.
proof fn lemma_inferred_push(inferred: Seq<Inferred>, new: Inferred)
    requires
        !inferred_view(inferred).contains_key(new.name@),
    ensures
        inferred_view(inferred.push(new)) == inferred_view(inferred).insert(new.name@, new.ty@),
{
    let after = inferred.push(new);
    let names = inferred_names(inferred);
    let longer = inferred_names(after);
    let expected = inferred_view(inferred).insert(new.name@, new.ty@);
    assert(longer =~= names.push(new.name@));
    lemma_position_from(names, new.name@, 0);
    assert forall|name: Seq<char>| #[trigger]
        inferred_view(after).contains_key(name) == expected.contains_key(name) && (inferred_view(
            after,
        ).contains_key(name) ==> inferred_view(after)[name] == expected[name]) by {
        lemma_position_from(names, name, 0);
        lemma_position_from(longer, name, 0);
        if name == new.name@ {
            assert(longer[inferred.len() as int] == name);
            let at = position_of(longer, name)->0;
            if at < inferred.len() {
                assert(names[at] == longer[at]);
            }
        } else if let Some(at) = position_of(names, name) {
            assert(longer[at] == names[at]);
            let other = position_of(longer, name)->0;
            if other < at {
                assert(longer[other] == names[other]);
            }
        } else if let Some(at) = position_of(longer, name) {
            if at < inferred.len() {
                assert(names[at] == longer[at]);
            }
        }
    }
    assert(inferred_view(after) =~= expected);
}

/// What the parameters stand for once one stands for something else.
proof fn lemma_inferred_set(inferred: Seq<Inferred>, at: int, new: Inferred)
    requires
        position_of(inferred_names(inferred), new.name@) == Some(at),
    ensures
        0 <= at < inferred.len(),
        inferred_view(inferred.update(at, new)) == inferred_view(inferred).insert(
            new.name@,
            new.ty@,
        ),
{
    let names = inferred_names(inferred);
    lemma_position_from(names, new.name@, 0);
    let after = inferred.update(at, new);
    let expected = inferred_view(inferred).insert(new.name@, new.ty@);
    assert(inferred_names(after) =~= names);
    assert forall|name: Seq<char>| #[trigger]
        inferred_view(after).contains_key(name) implies inferred_view(after)[name]
        == expected[name] by {
        lemma_position_from(names, name, 0);
    }
    assert(inferred_view(after) =~= expected);
}

/// Lets a parameter stand for a type.
pub fn put_inferred(inferred: &mut Vec<Inferred>, name: &String, ty: &TypeName)
    ensures
        inferred_view(final(inferred)@) == inferred_view(old(inferred)@).insert(name@, ty@),
{
    let new = Inferred { name: name.clone(), ty: copy_type(ty) };
    match find_inferred(inferred, name) {
        Some(at) => {
            proof {
                lemma_inferred_set(inferred@, at as int, new);
            }
            inferred.set(at, new);
        },
        None => {
            proof {
                lemma_inferred_push(inferred@, new);
            }
            inferred.push(new);
        },
    }
}

/// What is said of a parameter that two values give different types.
pub open spec fn conflicting_types(name: Seq<char>, previous: TypeView, actual: TypeView) -> Seq<
    char,
> {
    "conflicting inferred types for generic parameter '"@ + name + "': "@ + shown_type(previous)
        + " and "@ + shown_type(actual)
}

/// What a parameter stands for once a value of a type has been seen for it.
pub open spec fn inferred_parameter(
    name: Seq<char>,
    actual: TypeView,
    inferred: Map<Seq<char>, TypeView>,
    span: Span,
) -> Result<Map<Seq<char>, TypeView>, DiagnosticView> {
    if actual == TypeView::Struct("_"@) {
        Ok(inferred)
    } else if inferred.contains_key(name) {
        if inferred[name] != actual {
            Err(type_message(conflicting_types(name, inferred[name], actual), span))
        } else {
            Ok(inferred)
        }
    } else {
        Ok(inferred.insert(name, actual))
    }
}

/// What the type parameters stand for once a value of the actual type has been
/// seen where the template stands.
pub open spec fn inferred_by(
    template: TypeView,
    actual: TypeView,
    type_params: Seq<Seq<char>>,
    inferred: Map<Seq<char>, TypeView>,
    span: Span,
) -> Result<Map<Seq<char>, TypeView>, DiagnosticView>
    decreases template, 0int,
{
    match (template, actual) {
        (TypeView::Struct(name), _) => if is_listed(type_params, name) {
            inferred_parameter(name, actual, inferred, span)
        } else {
            Ok(inferred)
        },
        (
            TypeView::Applied { name, args },
            TypeView::Applied { name: actual_name, args: actual_args },
        ) => if name == actual_name && args.len() == actual_args.len() {
            inferred_by_all(args, actual_args, args.len() as int, type_params, inferred, span)
        } else {
            Ok(inferred)
        },
        (
            TypeView::Dict { key, value },
            TypeView::Dict { key: actual_key, value: actual_value },
        ) => match inferred_by(*key, *actual_key, type_params, inferred, span) {
            Err(error) => Err(error),
            Ok(more) => inferred_by(*value, *actual_value, type_params, more, span),
        },
        (
            TypeView::Mapping { key, value },
            TypeView::Mapping { key: actual_key, value: actual_value },
        ) => match inferred_by(*key, *actual_key, type_params, inferred, span) {
            Err(error) => Err(error),
            Ok(more) => inferred_by(*value, *actual_value, type_params, more, span),
        },
        (TypeView::List { elem }, TypeView::List { elem: actual_elem }) => inferred_by(
            *elem,
            *actual_elem,
            type_params,
            inferred,
            span,
        ),
        (
            TypeView::Array { elem, len },
            TypeView::Array { elem: actual_elem, len: actual_len },
        ) => if len == actual_len {
            inferred_by(*elem, *actual_elem, type_params, inferred, span)
        } else {
            Ok(inferred)
        },
        (
            TypeView::Ref { mutable, inner },
            TypeView::Ref { mutable: actual_mutable, inner: actual_inner },
        ) => if mutable == actual_mutable {
            inferred_by(*inner, *actual_inner, type_params, inferred, span)
        } else {
            Ok(inferred)
        },
        _ => Ok(inferred),
    }
}

/// The same for the first types of two lists.
pub open spec fn inferred_by_all(
    templates: Seq<TypeView>,
    actuals: Seq<TypeView>,
    count: int,
    type_params: Seq<Seq<char>>,
    inferred: Map<Seq<char>, TypeView>,
    span: Span,
) -> Result<Map<Seq<char>, TypeView>, DiagnosticView>
    decreases templates, count,
{
    if count <= 0 || count > templates.len() {
        Ok(inferred)
    } else {
        match inferred_by_all(templates, actuals, count - 1, type_params, inferred, span) {
            Err(error) => Err(error),
            Ok(more) => inferred_by(
                templates[count - 1],
                actuals[count - 1],
                type_params,
                more,
                span,
            ),
        }
    }
}

/// The outcome of an inference is the one expected. On an error what was found
/// before stays.
pub open spec fn inference_is(
    outcome: Result<(), Diagnostic>,
    after: Map<Seq<char>, TypeView>,
    expected: Result<Map<Seq<char>, TypeView>, DiagnosticView>,
) -> bool {
    match expected {
        Ok(inferred) => outcome is Ok && after == inferred,
        Err(error) => outcome matches Err(found) && found@ == error,
    }
}

/// Finds what a parameter stands for by a value of a type.
fn infer_parameter(name: &String, actual: &TypeName, inferred: &mut Vec<Inferred>, span: Span) -> (
    outcome: Result<(), Diagnostic>)
    ensures
        inference_is(
            outcome,
            inferred_view(final(inferred)@),
            inferred_parameter(name@, actual@, inferred_view(old(inferred)@), span),
        ),
{
    let open = match actual {
        TypeName::Struct(actual_name) => is_text(actual_name, "_"),
        _ => false,
    };
    if open {
        return Ok(());
    }
    match find_inferred(inferred, name) {
        Some(at) => {
            if !same_type(&inferred[at].ty, actual) {
                let mut message = String::from_str(
                    "conflicting inferred types for generic parameter '",
                );
                message.append(name.as_str());
                message.append("': ");
                message.append(inferred[at].ty.display().as_str());
                message.append(" and ");
                message.append(actual.display().as_str());
                return Err(Diagnostic::type_error(message, span));
            }
            Ok(())
        },
        None => {
            put_inferred(inferred, name, actual);
            Ok(())
        },
    }
}

/// Finds what the type parameters stand for by a value of the actual type where
/// the template stands.
pub fn infer_generic_type_bindings(
    template: &TypeName,
    actual: &TypeName,
    type_params: &Vec<String>,
    inferred: &mut Vec<Inferred>,
    span: Span,
) -> (outcome: Result<(), Diagnostic>)
    ensures
        inference_is(
            outcome,
            inferred_view(final(inferred)@),
            inferred_by(
                template@,
                actual@,
                texts_view(type_params@),
                inferred_view(old(inferred)@),
                span,
            ),
        ),
    decreases template,
{
    match (template, actual) {
        (TypeName::Struct(name), _) => {
            if find_text(type_params, name).is_some() {
                return infer_parameter(name, actual, inferred, span);
            }
            Ok(())
        },
        (
            TypeName::Applied { name, args },
            TypeName::Applied { name: actual_name, args: actual_args },
        ) => {
            assert(types_view(args@).len() == args@.len());
            assert(types_view(actual_args@).len() == actual_args@.len());
            if *name == *actual_name && args.len() == actual_args.len() {
                return infer_all(args, actual_args, type_params, inferred, span);
            }
            Ok(())
        },
        (
            TypeName::Dict { key, value },
            TypeName::Dict { key: actual_key, value: actual_value },
        ) => {
            infer_generic_type_bindings(key, actual_key, type_params, inferred, span)?;
            infer_generic_type_bindings(value, actual_value, type_params, inferred, span)
        },
        (
            TypeName::Mapping { key, value },
            TypeName::Mapping { key: actual_key, value: actual_value },
        ) => {
            infer_generic_type_bindings(key, actual_key, type_params, inferred, span)?;
            infer_generic_type_bindings(value, actual_value, type_params, inferred, span)
        },
        (TypeName::List { elem }, TypeName::List { elem: actual_elem }) => {
            infer_generic_type_bindings(elem, actual_elem, type_params, inferred, span)
        },
        (
            TypeName::Array { elem, len },
            TypeName::Array { elem: actual_elem, len: actual_len },
        ) => {
            if *len == *actual_len {
                return infer_generic_type_bindings(elem, actual_elem, type_params, inferred, span);
            }
            Ok(())
        },
        (
            TypeName::Ref { mutable, inner },
            TypeName::Ref { mutable: actual_mutable, inner: actual_inner },
        ) => {
            if *mutable == *actual_mutable {
                return infer_generic_type_bindings(
                    inner,
                    actual_inner,
                    type_params,
                    inferred,
                    span,
                );
            }
            Ok(())
        },
        _ => Ok(()),
    }
}

/// The same for the types of two lists of the same length.
pub fn infer_all(
    templates: &Vec<TypeName>,
    actuals: &Vec<TypeName>,
    type_params: &Vec<String>,
    inferred: &mut Vec<Inferred>,
    span: Span,
) -> (outcome: Result<(), Diagnostic>)
    requires
        templates@.len() == actuals@.len(),
    ensures
        inference_is(
            outcome,
            inferred_view(final(inferred)@),
            inferred_by_all(
                types_view(templates@),
                types_view(actuals@),
                templates@.len() as int,
                texts_view(type_params@),
                inferred_view(old(inferred)@),
                span,
            ),
        ),
    decreases templates,
{
    let ghost all = types_view(templates@);
    let ghost given = types_view(actuals@);
    let ghost params = texts_view(type_params@);
    let ghost start = inferred_view(inferred@);
    for i in 0..templates.len()
        invariant
            all == types_view(templates@),
            given == types_view(actuals@),
            params == texts_view(type_params@),
            start == inferred_view(old(inferred)@),
            templates@.len() == actuals@.len(),
            inferred_by_all(all, given, i as int, params, start, span) == Ok::<
                Map<Seq<char>, TypeView>,
                DiagnosticView,
            >(inferred_view(inferred@)),
    {
        assert(all[i as int] == templates@[i as int]@);
        assert(given[i as int] == actuals@[i as int]@);
        proof {
            lemma_inferred_by_all(all, given, i + 1, all.len() as int, params, start, span);
        }
        infer_generic_type_bindings(&templates[i], &actuals[i], type_params, inferred, span)?;
    }
    Ok(())
}

/// An error among the first types stays the error of them all.
proof fn lemma_inferred_by_all(
    templates: Seq<TypeView>,
    actuals: Seq<TypeView>,
    from: int,
    to: int,
    type_params: Seq<Seq<char>>,
    inferred: Map<Seq<char>, TypeView>,
    span: Span,
)
    requires
        0 <= from <= to <= templates.len(),
    ensures
        inferred_by_all(templates, actuals, from, type_params, inferred, span) is Err
            ==> inferred_by_all(templates, actuals, to, type_params, inferred, span)
            == inferred_by_all(templates, actuals, from, type_params, inferred, span),
    decreases to,
{
    if from < to {
        lemma_inferred_by_all(templates, actuals, from, to - 1, type_params, inferred, span);
    }
}

/// A template with what its names stand for in their place.
pub open spec fn instantiated(template: TypeView, inferred: Map<Seq<char>, TypeView>) -> TypeView
    decreases template, 0int,
{
    match template {
        TypeView::Struct(name) => if inferred.contains_key(name) {
            inferred[name]
        } else {
            template
        },
        TypeView::Applied { name, args } => TypeView::Applied {
            name,
            args: all_instantiated(args, inferred),
        },
        TypeView::Dict { key, value } => TypeView::Dict {
            key: Box::new(instantiated(*key, inferred)),
            value: Box::new(instantiated(*value, inferred)),
        },
        TypeView::List { elem } => TypeView::List { elem: Box::new(instantiated(*elem, inferred)) },
        TypeView::Mapping { key, value } => TypeView::Mapping {
            key: Box::new(instantiated(*key, inferred)),
            value: Box::new(instantiated(*value, inferred)),
        },
        TypeView::Array { elem, len } => TypeView::Array {
            elem: Box::new(instantiated(*elem, inferred)),
            len,
        },
        TypeView::Ref { mutable, inner } => TypeView::Ref {
            mutable,
            inner: Box::new(instantiated(*inner, inferred)),
        },
        _ => template,
    }
}

/// Templates with what their names stand for in their place.
pub open spec fn all_instantiated(
    templates: Seq<TypeView>,
    inferred: Map<Seq<char>, TypeView>,
) -> Seq<TypeView>
    decreases templates, 0int,
{
    Seq::new(
        templates.len(),
        |i: int|
            if 0 <= i < templates.len() {
                instantiated(templates[i], inferred)
            } else {
                arbitrary()
            },
    )
}

/// A template with what its names stand for in their place.
pub fn instantiate_generic_type(template: &TypeName, inferred: &Vec<Inferred>) -> (ty: TypeName)
    ensures
        ty@ == instantiated(template@, inferred_view(inferred@)),
    decreases template,
{
    match template {
        TypeName::Struct(name) => match find_inferred(inferred, name) {
            Some(at) => copy_type(&inferred[at].ty),
            None => copy_type(template),
        },
        TypeName::Applied { name, args } => TypeName::Applied {
            name: name.clone(),
            args: instantiate_all(args, inferred),
        },
        TypeName::Dict { key, value } => TypeName::Dict {
            key: Box::new(instantiate_generic_type(key, inferred)),
            value: Box::new(instantiate_generic_type(value, inferred)),
        },
        TypeName::List { elem } => TypeName::List {
            elem: Box::new(instantiate_generic_type(elem, inferred)),
        },
        TypeName::Mapping { key, value } => TypeName::Mapping {
            key: Box::new(instantiate_generic_type(key, inferred)),
            value: Box::new(instantiate_generic_type(value, inferred)),
        },
        TypeName::Array { elem, len } => TypeName::Array {
            elem: Box::new(instantiate_generic_type(elem, inferred)),
            len: *len,
        },
        TypeName::Ref { mutable, inner } => TypeName::Ref {
            mutable: *mutable,
            inner: Box::new(instantiate_generic_type(inner, inferred)),
        },
        _ => copy_type(template),
    }
}

/// Templates with what their names stand for in their place.
fn instantiate_all(templates: &Vec<TypeName>, inferred: &Vec<Inferred>) -> (types: Vec<TypeName>)
    ensures
        types_view(types@) == all_instantiated(types_view(templates@), inferred_view(inferred@)),
    decreases templates,
{
    let mut types: Vec<TypeName> = Vec::with_capacity(templates.len());
    for i in 0..templates.len()
        invariant
            types@.len() == i,
            forall|j: int|
                0 <= j < i ==> (#[trigger] types@[j])@ == instantiated(
                    templates@[j]@,
                    inferred_view(inferred@),
                ),
    {
        types.push(instantiate_generic_type(&templates[i], inferred));
    }
    assert(types_view(types@) =~= all_instantiated(
        types_view(templates@),
        inferred_view(inferred@),
    ));
    types
}

/// What each parameter stands for, where it is known.
pub open spec fn type_arguments(
    type_params: Seq<Seq<char>>,
    inferred: Map<Seq<char>, TypeView>,
) -> Seq<Option<TypeView>> {
    Seq::new(
        type_params.len(),
        |i: int|
            if inferred.contains_key(type_params[i]) {
                Some(inferred[type_params[i]])
            } else {
                None
            },
    )
}

/// What each parameter of an enum stands for, where it is known.
pub fn enum_type_args(def: &EnumDef, inferred: &Vec<Inferred>) -> (args: Vec<Option<TypeName>>)
    ensures
        optional_types(args@) == type_arguments(def@.type_params, inferred_view(inferred@)),
{
    let params = &def.type_params;
    let mut args: Vec<Option<TypeName>> = Vec::with_capacity(params.len());
    for i in 0..params.len()
        invariant
            *params == def.type_params,
            args@.len() == i,
            forall|j: int|
                0 <= j < i ==> optional_type(#[trigger] args@[j]) == (if inferred_view(
                    inferred@,
                ).contains_key(params@[j]@) {
                    Some(inferred_view(inferred@)[params@[j]@])
                } else {
                    None
                }),
    {
        args.push(
            match find_inferred(inferred, &params[i]) {
                Some(at) => Some(copy_type(&inferred[at].ty)),
                None => None,
            },
        );
    }
    assert(optional_types(args@) =~= type_arguments(def@.type_params, inferred_view(inferred@)));
    args
}

/// Nothing that is known of a parameter changes when more is found.
pub proof fn law_inference_keeps_what_is_known(
    template: TypeView,
    actual: TypeView,
    type_params: Seq<Seq<char>>,
    inferred: Map<Seq<char>, TypeView>,
    span: Span,
)
    ensures
        inferred_by(template, actual, type_params, inferred, span) matches Ok(more) ==> forall|
            name: Seq<char>,
        | #[trigger]
            inferred.contains_key(name) ==> more.contains_key(name) && more[name]
                == inferred[name],
    decreases template, 0int,
{
    match (template, actual) {
        (TypeView::Applied { args, .. }, TypeView::Applied { args: actual_args, .. }) => {
            lemma_inference_keeps_all(
                args,
                actual_args,
                args.len() as int,
                type_params,
                inferred,
                span,
            );
        },
        (
            TypeView::Dict { key, value },
            TypeView::Dict { key: actual_key, value: actual_value },
        ) => {
            law_inference_keeps_what_is_known(*key, *actual_key, type_params, inferred, span);
            if let Ok(more) = inferred_by(*key, *actual_key, type_params, inferred, span) {
                law_inference_keeps_what_is_known(*value, *actual_value, type_params, more, span);
            }
        },
        (
            TypeView::Mapping { key, value },
            TypeView::Mapping { key: actual_key, value: actual_value },
        ) => {
            law_inference_keeps_what_is_known(*key, *actual_key, type_params, inferred, span);
            if let Ok(more) = inferred_by(*key, *actual_key, type_params, inferred, span) {
                law_inference_keeps_what_is_known(*value, *actual_value, type_params, more, span);
            }
        },
        (TypeView::List { elem }, TypeView::List { elem: actual_elem }) => {
            law_inference_keeps_what_is_known(*elem, *actual_elem, type_params, inferred, span);
        },
        (TypeView::Array { elem, .. }, TypeView::Array { elem: actual_elem, .. }) => {
            law_inference_keeps_what_is_known(*elem, *actual_elem, type_params, inferred, span);
        },
        (TypeView::Ref { inner, .. }, TypeView::Ref { inner: actual_inner, .. }) => {
            law_inference_keeps_what_is_known(*inner, *actual_inner, type_params, inferred, span);
        },
        _ => {},
    }
}

/// The same of two lists.
proof fn lemma_inference_keeps_all(
    templates: Seq<TypeView>,
    actuals: Seq<TypeView>,
    count: int,
    type_params: Seq<Seq<char>>,
    inferred: Map<Seq<char>, TypeView>,
    span: Span,
)
    requires
        count <= templates.len(),
    ensures
        inferred_by_all(templates, actuals, count, type_params, inferred, span) matches Ok(more)
            ==> forall|name: Seq<char>| #[trigger]
            inferred.contains_key(name) ==> more.contains_key(name) && more[name]
                == inferred[name],
    decreases templates, count,
{
    if count > 0 {
        lemma_inference_keeps_all(templates, actuals, count - 1, type_params, inferred, span);
        if let Ok(more) = inferred_by_all(
            templates,
            actuals,
            count - 1,
            type_params,
            inferred,
            span,
        ) {
            law_inference_keeps_what_is_known(
                templates[count - 1],
                actuals[count - 1],
                type_params,
                more,
                span,
            );
        }
    }
}

} // verus!
