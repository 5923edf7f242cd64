//! What a program hands out: what it prints, its exit code, and what a loop over
//! a value goes through.

use crate::ast::{Span, TypeName, TypeView};
use crate::copy::copy_type;
use crate::diagnostic::{type_message, Diagnostic, DiagnosticView};
use crate::semantics::values::{
    copy_value, copy_values, named_view, values_view, NamedView, Value, ValueView,
};
use crate::text::{char_text, decimal, signed_decimal, signed_text, wide_text};
use vstd::prelude::*;

verus! {

/// What is printed: a text, a character, or a float by its bits.
#[derive(Debug, PartialEq, Eq)]
pub enum Printed {
    Text(String),
    Float { bits: u16, value: u64 },
}

/// What is printed as a mathematical value.
#[verifier::ext_equal]
pub enum PrintedView {
    Text(Seq<char>),
    Float { bits: u16, value: u64 },
}

impl View for Printed {
    type V = PrintedView;

    open spec fn view(&self) -> PrintedView {
        match *self {
            Printed::Text(text) => PrintedView::Text(text@),
            Printed::Float { bits, value } => PrintedView::Float { bits, value },
        }
    }
}

/// What is printed of a value.
pub open spec fn printed(value: ValueView, span: Span) -> Result<PrintedView, DiagnosticView> {
    match value {
        ValueView::Str(text) => Ok(PrintedView::Text(text)),
        ValueView::Int { value, .. } => Ok(PrintedView::Text(signed_decimal(value as int))),
        ValueView::UInt { value, .. } => Ok(PrintedView::Text(decimal(value as nat))),
        ValueView::Float { bits, value } => Ok(PrintedView::Float { bits, value }),
        ValueView::Bool(value) => Ok(
            PrintedView::Text(
                if value {
                    "true"@
                } else {
                    "false"@
                },
            ),
        ),
        ValueView::Char(value) => Ok(PrintedView::Text(seq![value])),
        ValueView::Ref { .. } => Err(type_message("print does not accept references"@, span)),
        ValueView::Struct { .. } => Err(type_message("print does not accept structs"@, span)),
        ValueView::Enum { .. } => Err(type_message("print does not accept enums"@, span)),
        ValueView::Array { .. } => Err(type_message("print does not accept arrays"@, span)),
        ValueView::List { .. } => Err(type_message("print does not accept lists"@, span)),
        ValueView::Dict { .. } => Err(type_message("print does not accept dictionaries"@, span)),
        ValueView::Mapping { .. } => Err(type_message("print does not accept maps"@, span)),
    }
}

/// What is printed of a value.
pub fn print_output(value: &Value, span: Span) -> (outcome: Result<Printed, Diagnostic>)
    ensures
        match printed(value@, span) {
            Ok(expected) => outcome matches Ok(found) && found@ == expected,
            Err(error) => outcome matches Err(found) && found@ == error,
        },
{
    match value {
        Value::Str(text) => Ok(Printed::Text(text.clone())),
        Value::Int { value, .. } => Ok(Printed::Text(signed_text(*value))),
        Value::UInt { value, .. } => Ok(Printed::Text(wide_text(*value))),
        Value::Float { bits, value } => Ok(Printed::Float { bits: *bits, value: *value }),
        Value::Bool(value) => {
            if *value {
                Ok(Printed::Text(String::from_str("true")))
            } else {
                Ok(Printed::Text(String::from_str("false")))
            }
        },
        Value::Char(value) => Ok(Printed::Text(char_text(*value))),
        Value::Ref { .. } => Err(Diagnostic::about_types("print does not accept references", span)),
        Value::Struct { .. } => Err(Diagnostic::about_types("print does not accept structs", span)),
        Value::Enum { .. } => Err(Diagnostic::about_types("print does not accept enums", span)),
        Value::Array { .. } => Err(Diagnostic::about_types("print does not accept arrays", span)),
        Value::List { .. } => Err(Diagnostic::about_types("print does not accept lists", span)),
        Value::Dict { .. } => Err(
            Diagnostic::about_types("print does not accept dictionaries", span),
        ),
        Value::Mapping { .. } => Err(Diagnostic::about_types("print does not accept maps", span)),
    }
}

/// The number that an exit code or a count of rounds stands for.
pub open spec fn word_of(
    value: ValueView,
    negative: Seq<char>,
    large: Seq<char>,
    other: Seq<char>,
    span: Span,
) -> Result<u64, DiagnosticView> {
    match value {
        ValueView::Int { value, .. } => if value < 0 {
            Err(type_message(negative, span))
        } else if value <= u64::MAX {
            Ok(value as u64)
        } else {
            Err(type_message(large, span))
        },
        ValueView::UInt { value, .. } => if value <= u64::MAX {
            Ok(value as u64)
        } else {
            Err(type_message(large, span))
        },
        _ => Err(type_message(other, span)),
    }
}

/// The number that a value stands for, and what is said of one that is negative,
/// too large or no number.
fn to_word(value: &Value, negative: &str, large: &str, other: &str, span: Span) -> (outcome: Result<
    u64,
    Diagnostic,
>)
    ensures
        match word_of(value@, negative@, large@, other@, span) {
            Ok(expected) => outcome matches Ok(found) && found == expected,
            Err(error) => outcome matches Err(found) && found@ == error,
        },
{
    match value {
        Value::Int { value, .. } => {
            if *value < 0 {
                Err(Diagnostic::about_types(negative, span))
            } else if *value <= u64::MAX as i128 {
                Ok(*value as u64)
            } else {
                Err(Diagnostic::about_types(large, span))
            }
        },
        Value::UInt { value, .. } => {
            if *value <= u64::MAX as u128 {
                Ok(*value as u64)
            } else {
                Err(Diagnostic::about_types(large, span))
            }
        },
        _ => Err(Diagnostic::about_types(other, span)),
    }
}

/// The exit code that a value stands for.
pub fn exit_code(value: &Value, span: Span) -> (outcome: Result<u64, Diagnostic>)
    ensures
        match word_of(
            value@,
            "exit expects a non-negative integer"@,
            "exit code out of range for u64"@,
            "exit expects an integer"@,
            span,
        ) {
            Ok(expected) => outcome matches Ok(found) && found == expected,
            Err(error) => outcome matches Err(found) && found@ == error,
        },
{
    to_word(
        value,
        "exit expects a non-negative integer",
        "exit code out of range for u64",
        "exit expects an integer",
        span,
    )
}

/// The number of rounds of a benchmark that a value stands for.
pub fn bench_rounds(value: &Value, span: Span) -> (outcome: Result<u64, Diagnostic>)
    ensures
        match word_of(
            value@,
            "benchloop expects a non-negative integer"@,
            "benchloop iterations out of range"@,
            "benchloop expects an integer"@,
            span,
        ) {
            Ok(expected) => outcome matches Ok(found) && found == expected,
            Err(error) => outcome matches Err(found) && found@ == error,
        },
{
    to_word(
        value,
        "benchloop expects a non-negative integer",
        "benchloop iterations out of range",
        "benchloop expects an integer",
        span,
    )
}

/// The names of entries as values.
pub open spec fn keys_as_values(entries: Seq<NamedView>) -> Seq<ValueView> {
    Seq::new(entries.len(), |i: int| ValueView::Str(entries[i].name))
}

/// The values of entries.
pub open spec fn values_in(entries: Seq<NamedView>) -> Seq<ValueView> {
    Seq::new(entries.len(), |i: int| entries[i].value)
}

/// What a loop over a value goes through, and the type of its variable: the
/// elements, or the keys.
pub open spec fn items_of(value: ValueView, span: Span) -> Result<
    (Seq<ValueView>, TypeView),
    DiagnosticView,
> {
    match value {
        ValueView::Array { elem_type, elems } => Ok((elems, elem_type)),
        ValueView::List { elem_type, elems } => Ok((elems, elem_type)),
        ValueView::Dict { entries, .. } => Ok((keys_as_values(entries), TypeView::String)),
        ValueView::Mapping { key_type, keys, .. } => Ok((values_in(keys), key_type)),
        _ => Err(type_message("foreach requires array, list, dictionary, or map"@, span)),
    }
}

/// What a loop over a value goes through, and the type of its variable.
pub fn foreach_items(value: &Value, span: Span) -> (outcome: Result<
    (Vec<Value>, TypeName),
    Diagnostic,
>)
    ensures
        match items_of(value@, span) {
            Ok((items, ty)) => outcome matches Ok((found, found_type)) && values_view(found@)
                == items && found_type@ == ty,
            Err(error) => outcome matches Err(found) && found@ == error,
        },
{
    match value {
        Value::Array { elem_type, elems } => Ok((copy_values(elems), copy_type(elem_type))),
        Value::List { elem_type, elems } => Ok((copy_values(elems), copy_type(elem_type))),
        Value::Dict { entries, .. } => {
            let mut keys: Vec<Value> = Vec::with_capacity(entries.len());
            for i in 0..entries.len()
                invariant
                    keys@.len() == i,
                    forall|j: int|
                        0 <= j < i ==> (#[trigger] keys@[j])@ == ValueView::Str(entries@[j].name@),
            {
                keys.push(Value::Str(entries[i].name.clone()));
            }
            assert(values_view(keys@) =~= keys_as_values(named_view(entries@)));
            Ok((keys, TypeName::String))
        },
        Value::Mapping { key_type, keys, .. } => {
            let mut values: Vec<Value> = Vec::with_capacity(keys.len());
            for i in 0..keys.len()
                invariant
                    values@.len() == i,
                    forall|j: int| 0 <= j < i ==> (#[trigger] values@[j])@ == keys@[j].value@,
            {
                values.push(copy_value(&keys[i].value));
            }
            assert(values_view(values@) =~= values_in(named_view(keys@)));
            Ok((values, copy_type(key_type)))
        },
        _ => Err(Diagnostic::about_types("foreach requires array, list, dictionary, or map", span)),
    }
}

} // verus!
