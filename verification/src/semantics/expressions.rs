//! What expressions come to, once the values of their parts are known.

use crate::ast::{types_view, BinaryOp, Span, TypeName, TypeView};
use crate::copy::copy_type;
use crate::diagnostic::{message_at_span, type_message, Diagnostic, DiagnosticView};
use crate::parser::cursor::is_text;
use crate::semantics::environment::{meaning, BindingView, Env};
use crate::semantics::flow::optional_value;
use crate::semantics::index::{
    layout_fields_view, IndexView, LayoutField, LayoutFieldView, ProgramIndex,
};
use crate::semantics::known::outcome_is;
use crate::semantics::layouts::{find_layout, laid_out, layout_names};
use crate::semantics::names::{
    find_function, find_struct, function_names, is_file_runtime_intrinsic, is_listed,
    is_runtime_only, position_of, source_callable_name, source_name, struct_names, unknown_function,
    unknown_function_diagnostic,
};
use crate::semantics::purity::marked_pure;
use crate::semantics::statements::{
    find_layout_field, said_of, say_of, say_unknown, unknown_identifier,
};
use crate::semantics::types::same_type;
use crate::semantics::values::{
    copy_value, find_value, named_view, names_in, value_named, values_view, NamedValue, NamedView,
    Value, ValueView,
};
use vstd::prelude::*;

verus! {

/// The outcome of finding a value is the one expected.
pub open spec fn value_is(
    outcome: Result<Value, Diagnostic>,
    expected: Result<ValueView, DiagnosticView>,
) -> bool {
    match expected {
        Ok(value) => outcome matches Ok(found) && found@ == value,
        Err(error) => outcome matches Err(found) && found@ == error,
    }
}

/// The value of a name, unless it is lent to be changed.
pub open spec fn variable_value(
    scopes: Seq<Map<Seq<char>, BindingView>>,
    name: Seq<char>,
    span: Span,
) -> Result<ValueView, DiagnosticView> {
    match meaning(scopes, name) {
        None => Err(message_at_span(unknown_identifier(name), span)),
        Some(binding) => if binding.mut_borrowed {
            Err(
                type_message("cannot read '"@ + name + "' while mutably borrowed"@, span),
            )
        } else {
            Ok(binding.value)
        },
    }
}

/// The value of a name.
pub fn read_variable(env: &Env, name: &String, span: Span) -> (outcome: Result<Value, Diagnostic>)
    ensures
        value_is(outcome, variable_value(env@, name@, span)),
{
    match env.get(name) {
        None => Err(say_unknown(name, span)),
        Some(binding) => {
            if binding.mut_borrowed {
                let mut message = String::from_str("cannot read '");
                message.append(name.as_str());
                message.append("' while mutably borrowed");
                return Err(Diagnostic::type_error(message, span));
            }
            Ok(copy_value(&binding.value))
        },
    }
}

/// The name is that of a routine that only compiled programs have.
pub open spec fn is_compiled_routine(name: Seq<char>) -> bool {
    ||| name == "runtime_bloom_sbbf_insert"@
    ||| name == "runtime_bloom_sbbf_maybe"@
    ||| name == "runtime_hash_probe_grouped16"@
    ||| name == "runtime_join_select_adaptive"@
}

/// What is said of a function with effects in an expression.
pub open spec fn impure_call(name: Seq<char>) -> Seq<char> {
    "expression call requires pure function; '"@ + source_name(name) + "' is impure"@
}

/// The function that a call in an expression is of.
pub open spec fn callee(index: IndexView, name: Seq<char>, span: Span) -> Result<
    int,
    DiagnosticView,
> {
    if name == "runtime_seed"@ {
        Err(
            type_message(
                "runtime_seed() is runtime-only and must be lowered through runtime generic path"@,
                span,
            ),
        )
    } else if name == "heap_alloc"@ || name == "heap_free"@ || is_runtime_only(name) {
        Err(
            type_message(
                "resource intrinsics are runtime-only and must be lowered through runtime generic path"@,
                span,
            ),
        )
    } else if is_compiled_routine(name) {
        Err(
            type_message(
                "runtime intrinsic is runtime-only and must be lowered through runtime generic path"@,
                span,
            ),
        )
    } else {
        match position_of(function_names(index.functions), name) {
            None => Err(message_at_span(unknown_function(name), span)),
            Some(at) => if marked_pure(name, index.functions, index.pure_functions) {
                Ok(at)
            } else {
                Err(type_message(impure_call(name), span))
            },
        }
    }
}

/// What is said of a function with effects in an expression.
pub fn say_impure(name: &String, span: Span) -> (diagnostic: Diagnostic)
    ensures
        diagnostic@ == type_message(impure_call(name@), span),
{
    let mut message = String::from_str("expression call requires pure function; '");
    message.append(source_callable_name(name).as_str());
    message.append("' is impure");
    Diagnostic::type_error(message, span)
}

/// Whether the function at a place is pure.
pub fn is_pure_at(index: &ProgramIndex, at: usize) -> (pure: bool)
    ensures
        pure == (at < index@.pure_functions.len() && index@.pure_functions[at as int]),
{
    at < index.pure_functions.len() && index.pure_functions[at]
}

/// The function that a call in an expression is of.
pub fn find_callee(index: &ProgramIndex, name: &String, span: Span) -> (outcome: Result<
    usize,
    Diagnostic,
>)
    ensures
        match callee(index@, name@, span) {
            Ok(at) => outcome matches Ok(found) && found == at && found < index@.functions.len(),
            Err(error) => outcome matches Err(found) && found@ == error,
        },
{
    if is_text(name, "runtime_seed") {
        return Err(
            Diagnostic::about_types(
                "runtime_seed() is runtime-only and must be lowered through runtime generic path",
                span,
            ),
        );
    }
    if is_text(name, "heap_alloc") || is_text(name, "heap_free") || is_file_runtime_intrinsic(
        name,
    ) {
        return Err(
            Diagnostic::about_types(
                "resource intrinsics are runtime-only and must be lowered through runtime generic path",
                span,
            ),
        );
    }
    if is_text(name, "runtime_bloom_sbbf_insert") || is_text(name, "runtime_bloom_sbbf_maybe")
        || is_text(name, "runtime_hash_probe_grouped16") || is_text(
        name,
        "runtime_join_select_adaptive",
    ) {
        return Err(
            Diagnostic::about_types(
                "runtime intrinsic is runtime-only and must be lowered through runtime generic path",
                span,
            ),
        );
    }
    match find_function(&index.functions, name) {
        None => Err(unknown_function_diagnostic(name, span)),
        Some(at) => {
            if is_pure_at(index, at) {
                Ok(at)
            } else {
                Err(say_impure(name, span))
            }
        },
    }
}

/// The function that a call statement is of.
pub fn find_called(index: &ProgramIndex, name: &String, span: Span) -> (outcome: Result<
    usize,
    Diagnostic,
>)
    ensures
        match position_of(function_names(index@.functions), name@) {
            Some(at) => outcome matches Ok(found) && found == at && found < index@.functions.len(),
            None => outcome matches Err(found) && found@ == message_at_span(
                unknown_function(name@),
                span,
            ),
        },
{
    match find_function(&index.functions, name) {
        Some(at) => Ok(at),
        None => Err(unknown_function_diagnostic(name, span)),
    }
}

/// What a call came to.
#[derive(Debug, PartialEq, Eq)]
pub enum CallResult {
    Continue(Option<Value>),
    Exit,
}

/// What a call came to as a mathematical value.
#[verifier::ext_equal]
pub enum CallResultView {
    Continue(Option<ValueView>),
    Exit,
}

impl View for CallResult {
    type V = CallResultView;

    open spec fn view(&self) -> CallResultView {
        match *self {
            CallResult::Continue(value) => CallResultView::Continue(optional_value(value)),
            CallResult::Exit => CallResultView::Exit,
        }
    }
}

/// The value of a call in an expression.
pub open spec fn value_of_call(result: CallResultView, span: Span) -> Result<
    ValueView,
    DiagnosticView,
> {
    match result {
        CallResultView::Exit => Err(
            type_message("cannot use function call with exit() as expression"@, span),
        ),
        CallResultView::Continue(None) => Err(
            type_message("expression call requires function with a return value"@, span),
        ),
        CallResultView::Continue(Some(value)) => Ok(value),
    }
}

/// The value of a call in an expression.
pub fn call_value(result: CallResult, span: Span) -> (outcome: Result<Value, Diagnostic>)
    ensures
        value_is(outcome, value_of_call(result@, span)),
{
    match result {
        CallResult::Exit => Err(
            Diagnostic::about_types("cannot use function call with exit() as expression", span),
        ),
        CallResult::Continue(None) => Err(
            Diagnostic::about_types("expression call requires function with a return value", span),
        ),
        CallResult::Continue(Some(value)) => Ok(value),
    }
}

/// What a function to compare by decides.
pub open spec fn decided_order(result: CallResultView, span: Span) -> Result<bool, DiagnosticView> {
    match result {
        CallResultView::Exit => Err(
            type_message("sort comparator function cannot call exit()"@, span),
        ),
        CallResultView::Continue(Some(ValueView::Bool(value))) => Ok(value),
        CallResultView::Continue(_) => Err(
            type_message("sort comparator function must return bool"@, span),
        ),
    }
}

/// What a function to compare by decides.
pub fn comparator_value(result: CallResult, span: Span) -> (outcome: Result<bool, Diagnostic>)
    ensures
        match decided_order(result@, span) {
            Ok(expected) => outcome matches Ok(found) && found == expected,
            Err(error) => outcome matches Err(found) && found@ == error,
        },
{
    match result {
        CallResult::Exit => Err(
            Diagnostic::about_types("sort comparator function cannot call exit()", span),
        ),
        CallResult::Continue(Some(Value::Bool(value))) => Ok(value),
        CallResult::Continue(_) => Err(
            Diagnostic::about_types("sort comparator function must return bool", span),
        ),
    }
}

/// What is said of a function to compare by that has effects.
pub open spec fn impure_comparator(name: Seq<char>) -> Seq<char> {
    "sort comparator '"@ + name + "' must be a pure function returning bool"@
}

/// The function to compare by.
pub fn find_comparator(index: &ProgramIndex, name: &String, span: Span) -> (outcome: Result<
    usize,
    Diagnostic,
>)
    ensures
        match position_of(function_names(index@.functions), name@) {
            Some(at) if at < index@.pure_functions.len() && index@.pure_functions[at]
                => outcome matches Ok(found) && found == at && found < index@.functions.len(),
            _ => outcome matches Err(found) && found@ == type_message(
                impure_comparator(name@),
                span,
            ),
        },
{
    match find_function(&index.functions, name) {
        Some(at) => {
            if is_pure_at(index, at) {
                return Ok(at);
            }
        },
        None => {},
    }
    let mut message = String::from_str("sort comparator '");
    message.append(name.as_str());
    message.append("' must be a pure function returning bool");
    Err(Diagnostic::type_error(message, span))
}

/// What is said of an operand of a logical operator that is no truth value.
pub open spec fn logical_refusal(op: BinaryOp) -> Seq<char> {
    if op == BinaryOp::And {
        "logical and expects bool operands"@
    } else {
        "logical or expects bool operands"@
    }
}

/// What the first operand of a logical operator decides alone: `and` where it is
/// false, `or` where it is true.
pub open spec fn decided_by_left(op: BinaryOp, left: ValueView, span: Span) -> Result<
    Option<bool>,
    DiagnosticView,
> {
    match left {
        ValueView::Bool(value) => if value == (op != BinaryOp::And) {
            Ok(Some(value))
        } else {
            Ok(None)
        },
        _ => Err(type_message(logical_refusal(op), span)),
    }
}

/// What the first operand of a logical operator decides alone.
pub fn logical_left(op: BinaryOp, left: &Value, span: Span) -> (outcome: Result<
    Option<bool>,
    Diagnostic,
>)
    requires
        op == BinaryOp::And || op == BinaryOp::Or,
    ensures
        match decided_by_left(op, left@, span) {
            Ok(expected) => outcome matches Ok(found) && found == expected,
            Err(error) => outcome matches Err(found) && found@ == error,
        },
{
    match left {
        Value::Bool(value) => {
            let decides: bool = op != BinaryOp::And;
            if *value == decides {
                Ok(Some(*value))
            } else {
                Ok(None)
            }
        },
        _ => Err(say_logical(op, span)),
    }
}

/// What is said of an operand of a logical operator that is no truth value.
fn say_logical(op: BinaryOp, span: Span) -> (diagnostic: Diagnostic)
    ensures
        diagnostic@ == type_message(logical_refusal(op), span),
{
    if op == BinaryOp::And {
        Diagnostic::about_types("logical and expects bool operands", span)
    } else {
        Diagnostic::about_types("logical or expects bool operands", span)
    }
}

/// What the second operand of a logical operator decides.
pub fn logical_right(
    op: BinaryOp,
    right: &Value,
    span: Span,
) -> (outcome: Result<Value, Diagnostic>)
    ensures
        value_is(
            outcome,
            match right@ {
                ValueView::Bool(value) => Ok(ValueView::Bool(value)),
                _ => Err(type_message(logical_refusal(op), span)),
            },
        ),
{
    match right {
        Value::Bool(value) => Ok(Value::Bool(*value)),
        _ => Err(say_logical(op, span)),
    }
}

/// The value of a field.
pub open spec fn field_of(value: ValueView, field: Seq<char>, span: Span) -> Result<
    ValueView,
    DiagnosticView,
> {
    match value {
        ValueView::Struct { fields, .. } => match value_named(fields, field) {
            Some(value) => Ok(value),
            None => Err(message_at_span(said_of("unknown field"@, field), span)),
        },
        _ => Err(type_message("field access on non-struct"@, span)),
    }
}

/// The value of a field.
pub fn read_field(value: &Value, field: &String, span: Span) -> (outcome: Result<Value, Diagnostic>)
    ensures
        value_is(outcome, field_of(value@, field@, span)),
{
    match value {
        Value::Struct { fields, .. } => match find_value(fields, field) {
            Some(at) => {
                assert(named_view(fields@)[at as int] == fields@[at as int]@);
                Ok(copy_value(&fields[at].value))
            },
            None => Err(Diagnostic::at_span(say_of("unknown field", field), span)),
        },
        _ => Err(Diagnostic::about_types("field access on non-struct", span)),
    }
}

/// What reading an element comes to: the element, or an entry whose key is still
/// to be made to have the type of the keys.
#[derive(Debug, PartialEq, Eq)]
pub enum IndexRead {
    Element(Value),
    Entry { key_type: TypeName },
}

/// The element of a list of values at the place that a value stands for. A
/// number that is too large for a place counts by its low bits.
pub open spec fn element_at(elems: Seq<ValueView>, index: ValueView, span: Span) -> Result<
    ValueView,
    DiagnosticView,
> {
    match index {
        ValueView::UInt { value, .. } => if (value as usize) < elems.len() {
            Ok(elems[(value as usize) as int])
        } else {
            Err(type_message("index out of bounds"@, span))
        },
        ValueView::Int { value, .. } => if value < 0 {
            Err(type_message("index must be non-negative"@, span))
        } else if (value as usize) < elems.len() {
            Ok(elems[(value as usize) as int])
        } else {
            Err(type_message("index out of bounds"@, span))
        },
        _ => Err(type_message("index must be integer"@, span)),
    }
}

/// The element of a list of values at the place that a value stands for.
fn read_element(elems: &Vec<Value>, index: &Value, span: Span) -> (outcome: Result<
    Value,
    Diagnostic,
>)
    ensures
        value_is(outcome, element_at(values_view(elems@), index@, span)),
{
    assert(values_view(elems@).len() == elems@.len());
    let at: usize = match index {
        Value::UInt { value, .. } => #[verifier::truncate]
        (*value as usize),
        Value::Int { value, .. } => {
            if *value < 0 {
                return Err(Diagnostic::about_types("index must be non-negative", span));
            }
            #[verifier::truncate]
            (*value as usize)
        },
        _ => {
            return Err(Diagnostic::about_types("index must be integer", span));
        },
    };
    if at < elems.len() {
        assert(values_view(elems@)[at as int] == elems@[at as int]@);
        Ok(copy_value(&elems[at]))
    } else {
        Err(Diagnostic::about_types("index out of bounds", span))
    }
}

/// Reads an element, or says which type the key of an entry has to have.
pub fn read_index(base: &Value, index: &Value, span: Span) -> (outcome: Result<
    IndexRead,
    Diagnostic,
>)
    ensures
        match base@ {
            ValueView::Array { elems, .. } | ValueView::List { elems, .. } => match element_at(
                elems,
                index@,
                span,
            ) {
                Ok(value) => outcome matches Ok(IndexRead::Element(found)) && found@ == value,
                Err(error) => outcome matches Err(found) && found@ == error,
            },
            ValueView::Dict { key_type, .. } | ValueView::Mapping { key_type, .. }
                => outcome matches Ok(IndexRead::Entry { key_type: found }) && found@ == key_type,
            _ => outcome matches Err(found) && found@ == type_message(
                "indexing requires array, list, dictionary, or map"@,
                span,
            ),
        },
{
    match base {
        Value::Array { elems, .. } => Ok(IndexRead::Element(read_element(elems, index, span)?)),
        Value::List { elems, .. } => Ok(IndexRead::Element(read_element(elems, index, span)?)),
        Value::Dict { key_type, .. } => Ok(IndexRead::Entry { key_type: copy_type(key_type) }),
        Value::Mapping { key_type, .. } => Ok(IndexRead::Entry { key_type: copy_type(key_type) }),
        _ => Err(
            Diagnostic::about_types("indexing requires array, list, dictionary, or map", span),
        ),
    }
}

/// The value of a key.
pub open spec fn entry_of(base: ValueView, key: Seq<char>, span: Span) -> Result<
    ValueView,
    DiagnosticView,
> {
    match base {
        ValueView::Dict { entries, .. } | ValueView::Mapping { entries, .. } => match value_named(
            entries,
            key,
        ) {
            Some(value) => Ok(value),
            None => Err(type_message("unknown dictionary key"@, span)),
        },
        _ => Err(type_message("indexing requires array, list, dictionary, or map"@, span)),
    }
}

/// The value of a key among entries.
fn entry_named(entries: &Vec<NamedValue>, key: &String, span: Span) -> (outcome: Result<
    Value,
    Diagnostic,
>)
    ensures
        value_is(
            outcome,
            match value_named(named_view(entries@), key@) {
                Some(value) => Ok(value),
                None => Err(type_message("unknown dictionary key"@, span)),
            },
        ),
{
    match find_value(entries, key) {
        Some(at) => {
            assert(named_view(entries@)[at as int] == entries@[at as int]@);
            Ok(copy_value(&entries[at].value))
        },
        None => Err(Diagnostic::about_types("unknown dictionary key", span)),
    }
}

/// The value of a key.
pub fn read_entry(base: &Value, key: &String, span: Span) -> (outcome: Result<Value, Diagnostic>)
    ensures
        value_is(outcome, entry_of(base@, key@, span)),
{
    match base {
        Value::Dict { entries, .. } => entry_named(entries, key, span),
        Value::Mapping { entries, .. } => entry_named(entries, key, span),
        _ => Err(
            Diagnostic::about_types("indexing requires array, list, dictionary, or map", span),
        ),
    }
}

/// All types are the same as the first.
pub open spec fn all_alike(types: Seq<TypeView>) -> bool {
    forall|i: int| 0 <= i < types.len() ==> #[trigger] types[i] == types[0]
}

/// An array of values with their types.
pub open spec fn array_value(values: Seq<ValueView>, types: Seq<TypeView>, span: Span) -> Result<
    ValueView,
    DiagnosticView,
> {
    if values.len() == 0 {
        Ok(ValueView::Array { elem_type: TypeView::Struct("_"@), elems: values })
    } else if all_alike(types) {
        Ok(ValueView::Array { elem_type: types[0], elems: values })
    } else {
        Err(type_message("array elements must have same type"@, span))
    }
}

/// An array of values with their types.
pub fn make_array(values: Vec<Value>, types: &Vec<TypeName>, span: Span) -> (outcome: Result<
    Value,
    Diagnostic,
>)
    requires
        values@.len() == types@.len(),
    ensures
        value_is(outcome, array_value(values_view(values@), types_view(types@), span)),
{
    let ghost all = types_view(types@);
    assert(values_view(values@).len() == values@.len());
    if values.len() == 0 {
        return Ok(
            Value::Array { elem_type: TypeName::Struct(String::from_str("_")), elems: values },
        );
    }
    assert(all[0] == types@[0]@);
    for i in 0..types.len()
        invariant
            types@.len() > 0,
            types@.len() == values@.len(),
            values_view(values@).len() == values@.len(),
            all == types_view(types@),
            all[0] == types@[0]@,
            forall|j: int| 0 <= j < i ==> #[trigger] all[j] == all[0],
    {
        assert(all[i as int] == types@[i as int]@);
        if !same_type(&types[i], &types[0]) {
            return Err(Diagnostic::about_types("array elements must have same type", span));
        }
    }
    Ok(Value::Array { elem_type: copy_type(&types[0]), elems: values })
}

/// The layout of a struct that is to be made.
pub open spec fn layout_to_fill(index: IndexView, name: Seq<char>, span: Span) -> Result<
    int,
    DiagnosticView,
> {
    if !is_listed(struct_names(index.structs), name) {
        Err(message_at_span(said_of("unknown struct"@, name), span))
    } else {
        match position_of(laid_out(index.struct_layouts), name) {
            Some(at) => Ok(at),
            None => Err(message_at_span(said_of("missing layout for struct"@, name), span)),
        }
    }
}

/// The layout of a struct that is to be made.
pub fn find_layout_to_fill(index: &ProgramIndex, name: &String, span: Span) -> (outcome: Result<
    usize,
    Diagnostic,
>)
    ensures
        match layout_to_fill(index@, name@, span) {
            Ok(at) => outcome matches Ok(found) && found == at && found
                < index@.struct_layouts.len(),
            Err(error) => outcome matches Err(found) && found@ == error,
        },
{
    if find_struct(&index.structs, name).is_none() {
        return Err(Diagnostic::at_span(say_of("unknown struct", name), span));
    }
    match find_layout(&index.struct_layouts, name) {
        Some(at) => Ok(at),
        None => Err(Diagnostic::at_span(say_of("missing layout for struct", name), span)),
    }
}

/// Checks that a field has not been given yet.
pub fn check_new_field(given: &Vec<NamedValue>, name: &String, span: Span) -> (outcome: Result<
    (),
    Diagnostic,
>)
    ensures
        outcome_is(
            outcome,
            if is_listed(names_in(named_view(given@)), name@) {
                Some(message_at_span(said_of("duplicate field"@, name@), span))
            } else {
                None
            },
        ),
{
    if find_value(given, name).is_some() {
        return Err(Diagnostic::at_span(say_of("duplicate field", name), span));
    }
    Ok(())
}

/// The type that a field of a layout has to have.
pub fn field_to_fill(layout: &Vec<LayoutField>, name: &String, span: Span) -> (outcome: Result<
    TypeName,
    Diagnostic,
>)
    ensures
        match position_of(layout_names(layout_fields_view(layout@)), name@) {
            Some(at) => outcome matches Ok(found) && found@ == layout_fields_view(layout@)[at].ty,
            None => outcome matches Err(found) && found@ == message_at_span(
                said_of("unknown field"@, name@),
                span,
            ),
        },
{
    match find_layout_field(layout, name) {
        Some(at) => {
            assert(layout_fields_view(layout@)[at as int] == layout@[at as int]@);
            Ok(copy_type(&layout[at].ty))
        },
        None => Err(Diagnostic::at_span(say_of("unknown field", name), span)),
    }
}

/// The first field of a layout from a position on that is not given.
pub open spec fn missing_field(
    layout: Seq<LayoutFieldView>,
    given: Seq<NamedView>,
    from: int,
) -> Option<Seq<char>>
    decreases layout.len() - from,
{
    if from < 0 || from >= layout.len() {
        None
    } else if !is_listed(names_in(given), layout[from].name) {
        Some(layout[from].name)
    } else {
        missing_field(layout, given, from + 1)
    }
}

/// A struct with the given fields, unless one is missing.
pub open spec fn struct_value(
    name: Seq<char>,
    layout: Seq<LayoutFieldView>,
    given: Seq<NamedView>,
    span: Span,
) -> Result<ValueView, DiagnosticView> {
    match missing_field(layout, given, 0) {
        Some(field) => Err(message_at_span(said_of("missing field"@, field), span)),
        None => Ok(ValueView::Struct { name, fields: given }),
    }
}

/// A struct with the given fields.
pub fn make_struct(
    name: &String,
    layout: &Vec<LayoutField>,
    given: Vec<NamedValue>,
    span: Span,
) -> (
    outcome: Result<Value, Diagnostic>)
    ensures
        value_is(
            outcome,
            struct_value(name@, layout_fields_view(layout@), named_view(given@), span),
        ),
{
    let ghost all = layout_fields_view(layout@);
    let ghost fields = named_view(given@);
    for i in 0..layout.len()
        invariant
            all == layout_fields_view(layout@),
            fields == named_view(given@),
            missing_field(all, fields, 0) == missing_field(all, fields, i as int),
    {
        assert(all[i as int] == layout@[i as int]@);
        if find_value(&given, &layout[i].name).is_none() {
            return Err(Diagnostic::at_span(say_of("missing field", &layout[i].name), span));
        }
    }
    Ok(Value::Struct { name: name.clone(), fields: given })
}

} // verus!
