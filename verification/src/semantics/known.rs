//! Types that a program may name: those that it declares, with as many type
//! arguments as they take.

use crate::ast::{texts_view, types_view, Span, TypeName, TypeView};
use crate::diagnostic::{message_at_span, Diagnostic, DiagnosticView};
use crate::parser::cursor::is_text;
use crate::semantics::index::{IndexView, ProgramIndex};
use crate::semantics::names::{
    argument_noun, enum_names, find_enum, find_struct, find_text, is_listed, noun_for, position_of,
    struct_names,
};
use crate::text::{decimal, decimal_text};
use vstd::prelude::*;

verus! {

/// What is said of a type that is not declared.
pub open spec fn unknown_nominal(name: Seq<char>) -> Seq<char> {
    "unknown nominal type '"@ + name + "'"@
}

/// What is said of a generic enum that is named without arguments.
pub open spec fn arguments_required(name: Seq<char>, count: nat) -> Seq<char> {
    "generic enum '"@ + name + "' requires "@ + decimal(count) + " type "@ + noun_for(count)
}

/// What is said of a generic enum that is not declared.
pub open spec fn unknown_generic(name: Seq<char>) -> Seq<char> {
    "unknown generic enum '"@ + name + "'"@
}

/// What is said of a generic enum with the wrong number of arguments.
pub open spec fn wrong_argument_count(name: Seq<char>, count: nat, given: nat) -> Seq<char> {
    "generic enum '"@ + name + "' expects "@ + decimal(count) + " type "@ + noun_for(count)
        + ", got "@ + decimal(given)
}

/// The name is that of a type for passing values between threads.
pub open spec fn is_channel_name(name: Seq<char>) -> bool {
    name == "Channel"@ || name == "Sender"@ || name == "Receiver"@
}

/// What is said of a channel that does not carry 64-bit numbers.
pub open spec fn channel_element(name: Seq<char>) -> Seq<char> {
    name + " currently requires the u64 element type"@
}

/// The arguments are the one type of unsigned 64-bit numbers.
pub open spec fn is_one_word(args: Seq<TypeView>) -> bool {
    args.len() == 1 && args[0] == TypeView::Int { signed: false, bits: 64 }
}

/// What is wrong with a name that stands for a struct or an enum.
pub open spec fn nominal_problem(name: Seq<char>, index: IndexView, span: Span) -> Option<
    DiagnosticView,
> {
    match position_of(enum_names(index.enums), name) {
        Some(at) => if index.enums[at].type_params.len() > 0 {
            Some(
                message_at_span(
                    arguments_required(name, index.enums[at].type_params.len()),
                    span,
                ),
            )
        } else {
            None
        },
        None => if is_listed(struct_names(index.structs), name) {
            None
        } else {
            Some(message_at_span(unknown_nominal(name), span))
        },
    }
}

/// What is wrong with the name and the number of arguments of a generic enum.
pub open spec fn generic_problem(
    name: Seq<char>,
    given: nat,
    index: IndexView,
    span: Span,
) -> Option<DiagnosticView> {
    match position_of(enum_names(index.enums), name) {
        None => Some(message_at_span(unknown_generic(name), span)),
        Some(at) => if given != index.enums[at].type_params.len() {
            Some(
                message_at_span(
                    wrong_argument_count(name, index.enums[at].type_params.len(), given),
                    span,
                ),
            )
        } else {
            None
        },
    }
}

/// What is wrong with a type, if anything is.
pub open spec fn type_problem(ty: TypeView, index: IndexView, span: Span) -> Option<DiagnosticView>
    decreases ty, 0int,
{
    match ty {
        TypeView::Struct(name) => nominal_problem(name, index, span),
        TypeView::Applied { name, args } => if is_channel_name(name) {
            if is_one_word(args) {
                None
            } else {
                Some(message_at_span(channel_element(name), span))
            }
        } else {
            match generic_problem(name, args.len(), index, span) {
                Some(problem) => Some(problem),
                None => types_problem(args, args.len() as int, index, span),
            }
        },
        TypeView::Dict { key, value } | TypeView::Mapping { key, value } => match type_problem(
            *key,
            index,
            span,
        ) {
            Some(problem) => Some(problem),
            None => type_problem(*value, index, span),
        },
        TypeView::Array { elem, .. } | TypeView::List { elem } => type_problem(*elem, index, span),
        TypeView::Ref { inner, .. } => type_problem(*inner, index, span),
        _ => None,
    }
}

/// What is wrong with the first of a list of types, if anything is.
pub open spec fn types_problem(
    types: Seq<TypeView>,
    count: int,
    index: IndexView,
    span: Span,
) -> Option<DiagnosticView>
    decreases types, count,
{
    if count <= 0 || count > types.len() {
        None
    } else {
        match types_problem(types, count - 1, index, span) {
            Some(problem) => Some(problem),
            None => type_problem(types[count - 1], index, span),
        }
    }
}

/// What is wrong with the type of a payload of an enum, where a type parameter
/// of the enum stands for any type.
pub open spec fn payload_problem(
    ty: TypeView,
    type_params: Seq<Seq<char>>,
    index: IndexView,
    span: Span,
) -> Option<DiagnosticView>
    decreases ty, 0int,
{
    match ty {
        TypeView::Struct(name) => if is_listed(type_params, name) {
            None
        } else {
            nominal_problem(name, index, span)
        },
        TypeView::Applied { name, args } => match generic_problem(name, args.len(), index, span) {
            Some(problem) => Some(problem),
            None => payloads_problem(args, args.len() as int, type_params, index, span),
        },
        TypeView::Dict { key, value } | TypeView::Mapping { key, value } => match payload_problem(
            *key,
            type_params,
            index,
            span,
        ) {
            Some(problem) => Some(problem),
            None => payload_problem(*value, type_params, index, span),
        },
        TypeView::Array { elem, .. } | TypeView::List { elem } => payload_problem(
            *elem,
            type_params,
            index,
            span,
        ),
        TypeView::Ref { inner, .. } => payload_problem(*inner, type_params, index, span),
        _ => None,
    }
}

/// What is wrong with the first of a list of types in a payload.
pub open spec fn payloads_problem(
    types: Seq<TypeView>,
    count: int,
    type_params: Seq<Seq<char>>,
    index: IndexView,
    span: Span,
) -> Option<DiagnosticView>
    decreases types, count,
{
    if count <= 0 || count > types.len() {
        None
    } else {
        match payloads_problem(types, count - 1, type_params, index, span) {
            Some(problem) => Some(problem),
            None => payload_problem(types[count - 1], type_params, index, span),
        }
    }
}

/// The outcome of a check is what was found wrong.
pub open spec fn outcome_is(
    outcome: Result<(), Diagnostic>,
    problem: Option<DiagnosticView>,
) -> bool {
    match problem {
        Some(problem) => outcome matches Err(found) && found@ == problem,
        None => outcome is Ok,
    }
}

/// Checks a name that stands for a struct or an enum.
fn ensure_nominal_known(name: &String, index: &ProgramIndex, span: Span) -> (outcome: Result<
    (),
    Diagnostic,
>)
    ensures
        outcome_is(outcome, nominal_problem(name@, index@, span)),
{
    match find_enum(&index.enums, name) {
        Some(at) => {
            assert(index@.enums[at as int] == index.enums@[at as int]@);
            let count: usize = index.enums[at].type_params.len();
            if count > 0 {
                let mut message = String::from_str("generic enum '");
                message.append(name.as_str());
                message.append("' requires ");
                message.append(decimal_text(count as u64).as_str());
                message.append(" type ");
                message.append(argument_noun(count));
                return Err(Diagnostic::at_span(message, span));
            }
            Ok(())
        },
        None => {
            if find_struct(&index.structs, name).is_none() {
                let mut message = String::from_str("unknown nominal type '");
                message.append(name.as_str());
                message.append("'");
                return Err(Diagnostic::at_span(message, span));
            }
            Ok(())
        },
    }
}

/// Checks the name and the number of arguments of a generic enum.
fn ensure_generic_known(name: &String, given: usize, index: &ProgramIndex, span: Span) -> (outcome:
    Result<(), Diagnostic>)
    ensures
        outcome_is(outcome, generic_problem(name@, given as nat, index@, span)),
{
    match find_enum(&index.enums, name) {
        None => {
            let mut message = String::from_str("unknown generic enum '");
            message.append(name.as_str());
            message.append("'");
            Err(Diagnostic::at_span(message, span))
        },
        Some(at) => {
            assert(index@.enums[at as int] == index.enums@[at as int]@);
            let count: usize = index.enums[at].type_params.len();
            if given != count {
                let mut message = String::from_str("generic enum '");
                message.append(name.as_str());
                message.append("' expects ");
                message.append(decimal_text(count as u64).as_str());
                message.append(" type ");
                message.append(argument_noun(count));
                message.append(", got ");
                message.append(decimal_text(given as u64).as_str());
                return Err(Diagnostic::at_span(message, span));
            }
            Ok(())
        },
    }
}

/// Whether the arguments are the one type of unsigned 64-bit numbers.
fn is_one_word_type(args: &Vec<TypeName>) -> (found: bool)
    ensures
        found == is_one_word(types_view(args@)),
{
    if args.len() != 1 {
        return false;
    }
    assert(types_view(args@)[0] == args@[0]@);
    match &args[0] {
        TypeName::Int { signed, bits } => !*signed && *bits == 64,
        _ => false,
    }
}

/// Checks that a type is one that the program may name.
pub fn ensure_type_known(ty: &TypeName, index: &ProgramIndex, span: Span) -> (outcome: Result<
    (),
    Diagnostic,
>)
    ensures
        outcome_is(outcome, type_problem(ty@, index@, span)),
    decreases ty,
{
    match ty {
        TypeName::Struct(name) => ensure_nominal_known(name, index, span),
        TypeName::Applied { name, args } => {
            if is_text(name, "Channel") || is_text(name, "Sender") || is_text(name, "Receiver") {
                if !is_one_word_type(args) {
                    let mut message = name.clone();
                    message.append(" currently requires the u64 element type");
                    return Err(Diagnostic::at_span(message, span));
                }
                return Ok(());
            }
            assert(types_view(args@).len() == args@.len());
            ensure_generic_known(name, args.len(), index, span)?;
            ensure_types_known(args, index, span)
        },
        TypeName::Dict { key, value } => {
            ensure_type_known(key, index, span)?;
            ensure_type_known(value, index, span)
        },
        TypeName::Mapping { key, value } => {
            ensure_type_known(key, index, span)?;
            ensure_type_known(value, index, span)
        },
        TypeName::Array { elem, .. } => ensure_type_known(elem, index, span),
        TypeName::List { elem } => ensure_type_known(elem, index, span),
        TypeName::Ref { inner, .. } => ensure_type_known(inner, index, span),
        _ => Ok(()),
    }
}

/// Checks that types are such that the program may name.
fn ensure_types_known(types: &Vec<TypeName>, index: &ProgramIndex, span: Span) -> (outcome: Result<
    (),
    Diagnostic,
>)
    ensures
        outcome_is(
            outcome,
            types_problem(types_view(types@), types@.len() as int, index@, span),
        ),
    decreases types,
{
    let ghost all = types_view(types@);
    for i in 0..types.len()
        invariant
            all == types_view(types@),
            types_problem(all, i as int, index@, span) is None,
    {
        proof {
            lemma_types_problem(all, i + 1, all.len() as int, index@, span);
        }
        ensure_type_known(&types[i], index, span)?;
    }
    Ok(())
}

/// A problem among the first stays the problem of the whole list.
proof fn lemma_types_problem(
    types: Seq<TypeView>,
    from: int,
    to: int,
    index: IndexView,
    span: Span,
)
    requires
        0 <= from <= to <= types.len(),
    ensures
        types_problem(types, from, index, span) is Some ==> types_problem(types, to, index, span)
            == types_problem(types, from, index, span),
    decreases to,
{
    if from < to {
        lemma_types_problem(types, from, to - 1, index, span);
    }
}

/// Checks the type of a payload of an enum with the given type parameters.
pub fn ensure_enum_payload_type_known(
    ty: &TypeName,
    type_params: &Vec<String>,
    index: &ProgramIndex,
    span: Span,
) -> (outcome: Result<(), Diagnostic>)
    ensures
        outcome_is(outcome, payload_problem(ty@, texts_view(type_params@), index@, span)),
    decreases ty,
{
    match ty {
        TypeName::Struct(name) => {
            if find_text(type_params, name).is_some() {
                return Ok(());
            }
            ensure_nominal_known(name, index, span)
        },
        TypeName::Applied { name, args } => {
            assert(types_view(args@).len() == args@.len());
            ensure_generic_known(name, args.len(), index, span)?;
            ensure_enum_payload_types_known(args, type_params, index, span)
        },
        TypeName::Dict { key, value } => {
            ensure_enum_payload_type_known(key, type_params, index, span)?;
            ensure_enum_payload_type_known(value, type_params, index, span)
        },
        TypeName::Mapping { key, value } => {
            ensure_enum_payload_type_known(key, type_params, index, span)?;
            ensure_enum_payload_type_known(value, type_params, index, span)
        },
        TypeName::Array { elem, .. } => ensure_enum_payload_type_known(
            elem,
            type_params,
            index,
            span,
        ),
        TypeName::List { elem } => ensure_enum_payload_type_known(elem, type_params, index, span),
        TypeName::Ref { inner, .. } => ensure_enum_payload_type_known(
            inner,
            type_params,
            index,
            span,
        ),
        _ => Ok(()),
    }
}

/// Checks the types in a payload of an enum with the given type parameters.
fn ensure_enum_payload_types_known(
    types: &Vec<TypeName>,
    type_params: &Vec<String>,
    index: &ProgramIndex,
    span: Span,
) -> (outcome: Result<(), Diagnostic>)
    ensures
        outcome_is(
            outcome,
            payloads_problem(
                types_view(types@),
                types@.len() as int,
                texts_view(type_params@),
                index@,
                span,
            ),
        ),
    decreases types,
{
    let ghost all = types_view(types@);
    let ghost params = texts_view(type_params@);
    for i in 0..types.len()
        invariant
            all == types_view(types@),
            params == texts_view(type_params@),
            payloads_problem(all, i as int, params, index@, span) is None,
    {
        proof {
            lemma_payloads_problem(all, i + 1, all.len() as int, params, index@, span);
        }
        ensure_enum_payload_type_known(&types[i], type_params, index, span)?;
    }
    Ok(())
}

/// A problem among the first stays the problem of the whole list.
proof fn lemma_payloads_problem(
    types: Seq<TypeView>,
    from: int,
    to: int,
    type_params: Seq<Seq<char>>,
    index: IndexView,
    span: Span,
)
    requires
        0 <= from <= to <= types.len(),
    ensures
        payloads_problem(types, from, type_params, index, span) is Some ==> payloads_problem(
            types,
            to,
            type_params,
            index,
            span,
        ) == payloads_problem(types, from, type_params, index, span),
    decreases to,
{
    if from < to {
        lemma_payloads_problem(types, from, to - 1, type_params, index, span);
    }
}

/// Without type parameters the type of a payload is checked as any other type
/// is, unless it names a channel: a payload can hold none.
pub proof fn law_payload_without_parameters(ty: TypeView, index: IndexView, span: Span)
    requires
        !names_channel(ty),
    ensures
        payload_problem(ty, Seq::empty(), index, span) == type_problem(ty, index, span),
    decreases ty, 0int,
{
    match ty {
        TypeView::Struct(name) => {},
        TypeView::Applied { name, args } => {
            law_payloads_without_parameters(args, args.len() as int, index, span);
        },
        TypeView::Dict { key, value } | TypeView::Mapping { key, value } => {
            law_payload_without_parameters(*key, index, span);
            law_payload_without_parameters(*value, index, span);
        },
        TypeView::Array { elem, .. } | TypeView::List { elem } => {
            law_payload_without_parameters(*elem, index, span);
        },
        TypeView::Ref { inner, .. } => {
            law_payload_without_parameters(*inner, index, span);
        },
        _ => {},
    }
}

/// The type names a channel, at the top or inside.
pub open spec fn names_channel(ty: TypeView) -> bool
    decreases ty,
{
    match ty {
        TypeView::Applied { name, args } => is_channel_name(name) || exists|i: int|
            0 <= i < args.len() && names_channel(#[trigger] args[i]),
        TypeView::Dict { key, value } | TypeView::Mapping { key, value } => names_channel(*key)
            || names_channel(*value),
        TypeView::Array { elem, .. } | TypeView::List { elem } => names_channel(*elem),
        TypeView::Ref { inner, .. } => names_channel(*inner),
        _ => false,
    }
}

/// The same of a list of types.
proof fn law_payloads_without_parameters(
    types: Seq<TypeView>,
    count: int,
    index: IndexView,
    span: Span,
)
    requires
        count <= types.len(),
        forall|i: int| 0 <= i < types.len() ==> !names_channel(#[trigger] types[i]),
    ensures
        payloads_problem(types, count, Seq::empty(), index, span) == types_problem(
            types,
            count,
            index,
            span,
        ),
    decreases types, count,
{
    if count > 0 {
        law_payloads_without_parameters(types, count - 1, index, span);
        law_payload_without_parameters(types[count - 1], index, span);
    }
}

} // verus!
