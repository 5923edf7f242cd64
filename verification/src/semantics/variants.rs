//! Values of enums and dictionaries, as expressions write them.

use crate::ast::{
    fields_view, tuple_fields_view, types_view, EnumDef, EnumVariantPayloadDef, FieldView,
    PayloadView, Span, StructField, TupleFieldView, TypeName, TypeView,
};
use crate::copy::copy_type;
use crate::diagnostic::{message_at_span, type_message, Diagnostic, DiagnosticView};
use crate::semantics::expressions::value_is;
use crate::semantics::generics::{
    all_instantiated, enum_type_args, infer_all, inferred_by_all, inferred_view,
    instantiate_generic_type, instantiated, type_arguments, Inferred,
};
use crate::semantics::index::{IndexView, ProgramIndex};
use crate::semantics::known::outcome_is;
use crate::semantics::names::{
    argument_noun, enum_names, field_names, find_enum, find_field, find_variant, is_listed,
    noun_for, position_of, variant_names,
};
use crate::semantics::qualified::unknown_variant;
use crate::semantics::statements::{said_of, say_of};
use crate::semantics::types::{optional_type, same_type};
use crate::semantics::values::{
    find_value, named_view, names_in, optional_types, EnumPayloadValue, NamedValue, NamedView,
    PayloadValueView, Value, ValueView,
};
use crate::text::{decimal, decimal_text};
use vstd::prelude::*;

verus! {

/// Where a variant stands: its enum, and its place there.
pub open spec fn variant_place(
    index: IndexView,
    enum_name: Seq<char>,
    variant: Seq<char>,
    span: Span,
) -> Result<(int, int), DiagnosticView> {
    match position_of(enum_names(index.enums), enum_name) {
        None => Err(message_at_span(said_of("unknown enum"@, enum_name), span)),
        Some(at) => match position_of(variant_names(index.enums[at].variants), variant) {
            None => Err(message_at_span(unknown_variant(enum_name, variant), span)),
            Some(place) => Ok((at, place)),
        },
    }
}

/// Where a variant stands.
fn find_variant_place(index: &ProgramIndex, enum_name: &String, variant: &String, span: Span) -> (
    outcome: Result<(usize, usize), Diagnostic>)
    ensures
        match variant_place(index@, enum_name@, variant@, span) {
            Ok((at, place)) => outcome matches Ok((found, held)) && found == at && held == place
                && found < index.enums@.len() && held < index.enums@[found as int].variants@.len(),
            Err(error) => outcome matches Err(found) && found@ == error,
        },
{
    let at: usize = match find_enum(&index.enums, enum_name) {
        Some(at) => at,
        None => {
            return Err(Diagnostic::at_span(say_of("unknown enum", enum_name), span));
        },
    };
    assert(index@.enums[at as int] == index.enums@[at as int]@);
    match find_variant(&index.enums[at].variants, variant) {
        Some(place) => Ok((at, place)),
        None => {
            let mut message = String::from_str("unknown variant '");
            message.append(variant.as_str());
            message.append("' for enum '");
            message.append(enum_name.as_str());
            message.append("'");
            Err(Diagnostic::at_span(message, span))
        },
    }
}

/// What is said of a variant.
pub open spec fn of_variant(
    enum_name: Seq<char>,
    variant: Seq<char>,
    rest: Seq<char>,
) -> Seq<char> {
    "variant '"@ + enum_name + "::"@ + variant + rest
}

/// What is said of a variant.
fn say_of_variant(enum_name: &String, variant: &String, rest: &str, span: Span) -> (diagnostic:
    Diagnostic)
    ensures
        diagnostic@ == type_message(of_variant(enum_name@, variant@, rest@), span),
{
    let mut message = String::from_str("variant '");
    message.append(enum_name.as_str());
    message.append("::");
    message.append(variant.as_str());
    message.append(rest);
    Diagnostic::type_error(message, span)
}

/// The value of a variant without a payload. None of its type arguments is
/// known.
pub open spec fn unit_variant_value(
    index: IndexView,
    enum_name: Seq<char>,
    variant: Seq<char>,
    span: Span,
) -> Result<ValueView, DiagnosticView> {
    match variant_place(index, enum_name, variant, span) {
        Err(error) => Err(error),
        Ok((at, place)) => {
            let def = index.enums[at];
            match def.variants[place].payload {
                PayloadView::Unit => Ok(
                    ValueView::Enum {
                        name: enum_name,
                        variant,
                        type_args: Seq::new(def.type_params.len(), |i: int| None),
                        payload: PayloadValueView::Unit,
                    },
                ),
                _ => Err(
                    type_message(
                        of_variant(
                            enum_name,
                            variant,
                            "' requires a payload; use its declared constructor form"@,
                        ),
                        span,
                    ),
                ),
            }
        },
    }
}

/// The value of a variant without a payload.
pub fn make_unit_variant(
    index: &ProgramIndex,
    enum_name: &String,
    variant: &String,
    span: Span,
) -> (
    outcome: Result<Value, Diagnostic>)
    ensures
        value_is(outcome, unit_variant_value(index@, enum_name@, variant@, span)),
{
    let (at, place) = find_variant_place(index, enum_name, variant, span)?;
    let def = &index.enums[at];
    assert(index@.enums[at as int] == def@);
    assert(def@.variants[place as int] == def.variants@[place as int]@);
    match &def.variants[place].payload {
        EnumVariantPayloadDef::Unit => {
            let count: usize = def.type_params.len();
            let mut type_args: Vec<Option<TypeName>> = Vec::with_capacity(count);
            for i in 0..count
                invariant
                    type_args@.len() == i,
                    forall|j: int| 0 <= j < i ==> (#[trigger] type_args@[j]) is None,
            {
                type_args.push(None);
            }
            assert(optional_types(type_args@) =~= Seq::new(
                def@.type_params.len(),
                |i: int| None::<TypeView>,
            ));
            Ok(
                Value::Enum {
                    name: enum_name.clone(),
                    variant: variant.clone(),
                    type_args,
                    payload: EnumPayloadValue::Unit,
                },
            )
        },
        _ => Err(
            say_of_variant(
                enum_name,
                variant,
                "' requires a payload; use its declared constructor form",
                span,
            ),
        ),
    }
}

/// The types of the fields of a tuple payload.
pub open spec fn tuple_types(fields: Seq<TupleFieldView>) -> Seq<TypeView> {
    Seq::new(fields.len(), |i: int| fields[i].ty)
}

/// The types that the arguments of a tuple variant stand for, before anything is
/// known of the type parameters.
pub open spec fn tuple_variant_types(
    index: IndexView,
    enum_name: Seq<char>,
    variant: Seq<char>,
    given: nat,
    span: Span,
) -> Result<(int, Seq<TypeView>), DiagnosticView> {
    match variant_place(index, enum_name, variant, span) {
        Err(error) => Err(error),
        Ok((at, place)) => match index.enums[at].variants[place].payload {
            PayloadView::Tuple(fields) => if given == fields.len() {
                Ok((at, tuple_types(fields)))
            } else {
                Err(
                    type_message(
                        of_variant(
                            enum_name,
                            variant,
                            "' expects "@ + decimal(fields.len()) + " "@ + noun_for(fields.len())
                                + ", got "@ + decimal(given),
                        ),
                        span,
                    ),
                )
            },
            _ => Err(
                type_message(of_variant(enum_name, variant, "' is not a tuple variant"@), span),
            ),
        },
    }
}

/// The enum of a tuple variant, and the types that its arguments stand for.
pub fn find_tuple_variant(
    index: &ProgramIndex,
    enum_name: &String,
    variant: &String,
    given: usize,
    span: Span,
) -> (outcome: Result<(usize, Vec<TypeName>), Diagnostic>)
    ensures
        match tuple_variant_types(index@, enum_name@, variant@, given as nat, span) {
            Ok((at, types)) => outcome matches Ok((found, templates)) && found == at && found
                < index.enums@.len() && types_view(templates@) == types,
            Err(error) => outcome matches Err(found) && found@ == error,
        },
{
    let (at, place) = find_variant_place(index, enum_name, variant, span)?;
    let def = &index.enums[at];
    assert(index@.enums[at as int] == def@);
    assert(def@.variants[place as int] == def.variants@[place as int]@);
    match &def.variants[place].payload {
        EnumVariantPayloadDef::Tuple(fields) => {
            assert(tuple_fields_view(fields@).len() == fields@.len());
            let count: usize = fields.len();
            if given != count {
                let mut rest = String::from_str("' expects ");
                rest.append(decimal_text(count as u64).as_str());
                rest.append(" ");
                rest.append(argument_noun(count));
                rest.append(", got ");
                rest.append(decimal_text(given as u64).as_str());
                return Err(say_of_variant(enum_name, variant, rest.as_str(), span));
            }
            let mut types: Vec<TypeName> = Vec::with_capacity(count);
            for i in 0..count
                invariant
                    count == fields@.len(),
                    types@.len() == i,
                    forall|j: int| 0 <= j < i ==> (#[trigger] types@[j])@ == fields@[j].ty@,
            {
                types.push(copy_type(&fields[i].ty));
            }
            assert(types_view(types@) =~= tuple_types(tuple_fields_view(fields@)));
            Ok((at, types))
        },
        _ => Err(say_of_variant(enum_name, variant, "' is not a tuple variant", span)),
    }
}

/// What the type parameters of an enum stand for by the types of its arguments:
/// for each parameter, and in the types that the arguments have to have.
pub open spec fn argument_targets(
    type_params: Seq<Seq<char>>,
    templates: Seq<TypeView>,
    actuals: Seq<TypeView>,
    span: Span,
) -> Result<(Seq<Option<TypeView>>, Seq<TypeView>), DiagnosticView> {
    match inferred_by_all(
        templates,
        actuals,
        templates.len() as int,
        type_params,
        Map::empty(),
        span,
    ) {
        Err(error) => Err(error),
        Ok(inferred) => Ok(
            (type_arguments(type_params, inferred), all_instantiated(templates, inferred)),
        ),
    }
}

/// What the type parameters of an enum stand for by the types of its arguments.
pub fn infer_targets(
    def: &EnumDef,
    templates: &Vec<TypeName>,
    actuals: &Vec<TypeName>,
    span: Span,
) -> (outcome: Result<(Vec<Option<TypeName>>, Vec<TypeName>), Diagnostic>)
    requires
        templates@.len() == actuals@.len(),
    ensures
        match argument_targets(
            def@.type_params,
            types_view(templates@),
            types_view(actuals@),
            span,
        ) {
            Ok((args, targets)) => outcome matches Ok((found, types)) && optional_types(found@)
                == args && types_view(types@) == targets,
            Err(error) => outcome matches Err(found) && found@ == error,
        },
{
    assert(types_view(templates@).len() == templates@.len());
    let mut inferred: Vec<Inferred> = Vec::new();
    assert(inferred_view(inferred@) =~= Map::empty());
    infer_all(templates, actuals, &def.type_params, &mut inferred, span)?;
    let args = enum_type_args(def, &inferred);
    let mut types: Vec<TypeName> = Vec::with_capacity(templates.len());
    for i in 0..templates.len()
        invariant
            types@.len() == i,
            forall|j: int|
                0 <= j < i ==> (#[trigger] types@[j])@ == instantiated(
                    templates@[j]@,
                    inferred_view(inferred@),
                ),
    {
        types.push(instantiate_generic_type(&templates[i], &inferred));
    }
    assert(types_view(types@) =~= all_instantiated(
        types_view(templates@),
        inferred_view(inferred@),
    ));
    Ok((args, types))
}

/// Where a named variant stands.
pub open spec fn named_variant_place(
    index: IndexView,
    enum_name: Seq<char>,
    variant: Seq<char>,
    span: Span,
) -> Result<(int, int), DiagnosticView> {
    match variant_place(index, enum_name, variant, span) {
        Err(error) => Err(error),
        Ok((at, place)) => match index.enums[at].variants[place].payload {
            PayloadView::Named(_) => Ok((at, place)),
            _ => Err(
                type_message(of_variant(enum_name, variant, "' is not a named variant"@), span),
            ),
        },
    }
}

/// Where a named variant stands.
pub fn find_named_variant(
    index: &ProgramIndex,
    enum_name: &String,
    variant: &String,
    span: Span,
) -> (
    outcome: Result<(usize, usize), Diagnostic>)
    ensures
        match named_variant_place(index@, enum_name@, variant@, span) {
            Ok((at, place)) => outcome matches Ok((found, held)) && found == at && held == place
                && found < index.enums@.len() && held < index.enums@[found as int].variants@.len(),
            Err(error) => outcome matches Err(found) && found@ == error,
        },
{
    let (at, place) = find_variant_place(index, enum_name, variant, span)?;
    let def = &index.enums[at];
    assert(index@.enums[at as int] == def@);
    assert(def@.variants[place as int] == def.variants@[place as int]@);
    match &def.variants[place].payload {
        EnumVariantPayloadDef::Named(_) => Ok((at, place)),
        _ => Err(say_of_variant(enum_name, variant, "' is not a named variant", span)),
    }
}

/// What is said of a field of a payload.
pub open spec fn of_payload_field(
    start: Seq<char>,
    field: Seq<char>,
    enum_name: Seq<char>,
    variant: Seq<char>,
) -> Seq<char> {
    start + " payload field '"@ + field + "' for variant '"@ + enum_name + "::"@ + variant + "'"@
}

/// What is said of a field of a payload.
fn say_of_payload_field(
    start: &str,
    field: &String,
    enum_name: &String,
    variant: &String,
    span: Span,
) -> (diagnostic: Diagnostic)
    ensures
        diagnostic@ == message_at_span(
            of_payload_field(start@, field@, enum_name@, variant@),
            span,
        ),
{
    let mut message = String::from_str(start);
    message.append(" payload field '");
    message.append(field.as_str());
    message.append("' for variant '");
    message.append(enum_name.as_str());
    message.append("::");
    message.append(variant.as_str());
    message.append("'");
    Diagnostic::at_span(message, span)
}

/// What is wrong with a field that is given for a payload.
pub open spec fn payload_field_problem(
    defs: Seq<FieldView>,
    given: Seq<NamedView>,
    field: Seq<char>,
    enum_name: Seq<char>,
    variant: Seq<char>,
    span: Span,
) -> Option<DiagnosticView> {
    if is_listed(names_in(given), field) {
        Some(
            message_at_span(of_payload_field("duplicate"@, field, enum_name, variant), span),
        )
    } else if !is_listed(field_names(defs), field) {
        Some(message_at_span(of_payload_field("unknown"@, field, enum_name, variant), span))
    } else {
        None
    }
}

/// Checks a field that is given for a payload.
pub fn check_payload_field(
    defs: &Vec<StructField>,
    given: &Vec<NamedValue>,
    field: &String,
    enum_name: &String,
    variant: &String,
    span: Span,
) -> (outcome: Result<(), Diagnostic>)
    ensures
        outcome_is(
            outcome,
            payload_field_problem(
                fields_view(defs@),
                named_view(given@),
                field@,
                enum_name@,
                variant@,
                span,
            ),
        ),
{
    if find_value(given, field).is_some() {
        return Err(say_of_payload_field("duplicate", field, enum_name, variant, span));
    }
    if find_field(defs, field).is_none() {
        return Err(say_of_payload_field("unknown", field, enum_name, variant, span));
    }
    Ok(())
}

/// The first field of a payload from a position on that is not given.
pub open spec fn missing_payload_field(
    defs: Seq<FieldView>,
    given: Seq<NamedView>,
    from: int,
) -> Option<Seq<char>>
    decreases defs.len() - from,
{
    if from < 0 || from >= defs.len() {
        None
    } else if !is_listed(names_in(given), defs[from].name) {
        Some(defs[from].name)
    } else {
        missing_payload_field(defs, given, from + 1)
    }
}

/// Checks that every field of a payload is given.
pub fn check_payload_complete(
    defs: &Vec<StructField>,
    given: &Vec<NamedValue>,
    enum_name: &String,
    variant: &String,
    span: Span,
) -> (outcome: Result<(), Diagnostic>)
    ensures
        outcome_is(
            outcome,
            match missing_payload_field(fields_view(defs@), named_view(given@), 0) {
                Some(field) => Some(
                    message_at_span(
                        of_payload_field("missing"@, field, enum_name@, variant@),
                        span,
                    ),
                ),
                None => None,
            },
        ),
{
    let ghost all = fields_view(defs@);
    let ghost fields = named_view(given@);
    for i in 0..defs.len()
        invariant
            all == fields_view(defs@),
            fields == named_view(given@),
            missing_payload_field(all, fields, 0) == missing_payload_field(all, fields, i as int),
    {
        assert(all[i as int] == defs@[i as int]@);
        if find_value(given, &defs[i].name).is_none() {
            return Err(say_of_payload_field("missing", &defs[i].name, enum_name, variant, span));
        }
    }
    Ok(())
}

/// Checks that a key has not been given yet. The key is shown as it was written.
pub fn check_new_key(entries: &Vec<NamedValue>, key: &String, written: &String, span: Span) -> (
    outcome: Result<(), Diagnostic>)
    ensures
        outcome_is(
            outcome,
            if is_listed(names_in(named_view(entries@)), key@) {
                Some(message_at_span(said_of("duplicate dictionary key"@, written@), span))
            } else {
                None
            },
        ),
{
    if find_value(entries, key).is_some() {
        return Err(Diagnostic::at_span(say_of("duplicate dictionary key", written), span));
    }
    Ok(())
}

/// Checks that a value of a dictionary has the type of those before it.
pub fn check_value_type(expected: &Option<TypeName>, actual: &TypeName, span: Span) -> (outcome:
    Result<(), Diagnostic>)
    ensures
        outcome_is(
            outcome,
            match optional_type(*expected) {
                Some(ty) => if ty != actual@ {
                    Some(type_message("dictionary values must share one type"@, span))
                } else {
                    None
                },
                None => None,
            },
        ),
{
    match expected {
        Some(ty) => {
            if !same_type(actual, ty) {
                return Err(Diagnostic::about_types("dictionary values must share one type", span));
            }
            Ok(())
        },
        None => Ok(()),
    }
}

/// A dictionary as an expression writes it. One without entries is from strings
/// to strings.
pub fn make_dict(entries: Vec<NamedValue>, value_type: Option<TypeName>) -> (value: Value)
    ensures
        value@ == (ValueView::Dict {
            key_type: TypeView::String,
            value_type: match optional_type(value_type) {
                Some(ty) => ty,
                None => TypeView::String,
            },
            entries: named_view(entries@),
        }),
{
    Value::Dict {
        key_type: TypeName::String,
        value_type: match value_type {
            Some(ty) => ty,
            None => TypeName::String,
        },
        entries,
    }
}

} // verus!
