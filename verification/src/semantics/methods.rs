//! The methods that change arrays, lists, dictionaries and maps.

use crate::ast::{optional_text, Expr, ExprView, Span, TypeName, TypeView};
use crate::copy::copy_type;
use crate::diagnostic::{message_at_span, type_message, Diagnostic, DiagnosticView};
use crate::parser::cursor::is_text;
use crate::semantics::containers::{list_in_field, with_list_in_field};
use crate::semantics::entries::{remove_entry, without_entry};
use crate::semantics::environment::{lemma_same_meaning, meaning, Env};
use crate::semantics::index::{IndexView, ProgramIndex};
use crate::semantics::names::{find_function, function_names, is_listed, lemma_position_from};
use crate::semantics::statements::{
    change_problem, check_mutable, is_changed, say_unknown, unknown_identifier, value_of,
};
use crate::semantics::types::optional_type;
use crate::semantics::values::{
    find_value, named_view, names_in, values_view, NamedView, Value, ValueView,
};
use vstd::prelude::*;

verus! {

/// A change of the elements of an array or a list.
#[derive(Debug, PartialEq, Eq)]
pub enum Edit {
    Put { at: usize, value: Value },
    Push(Value),
    Pop,
    Clear,
    Replace(Vec<Value>),
}

/// A change of elements as a mathematical value.
#[verifier::ext_equal]
pub enum EditView {
    Put { at: usize, value: ValueView },
    Push(ValueView),
    Pop,
    Clear,
    Replace(Seq<ValueView>),
}

impl View for Edit {
    type V = EditView;

    open spec fn view(&self) -> EditView {
        match *self {
            Edit::Put { at, value } => EditView::Put { at, value: value@ },
            Edit::Push(value) => EditView::Push(value@),
            Edit::Pop => EditView::Pop,
            Edit::Clear => EditView::Clear,
            Edit::Replace(values) => EditView::Replace(values_view(values@)),
        }
    }
}

/// The elements after a change. What is not there is neither put nor removed.
pub open spec fn edited(elems: Seq<ValueView>, edit: EditView) -> Seq<ValueView> {
    match edit {
        EditView::Put { at, value } => if at < elems.len() {
            elems.update(at as int, value)
        } else {
            elems
        },
        EditView::Push(value) => elems.push(value),
        EditView::Pop => if elems.len() > 0 {
            elems.drop_last()
        } else {
            elems
        },
        EditView::Clear => Seq::empty(),
        EditView::Replace(values) => values,
    }
}

/// Changes elements.
pub fn edit_elements(elems: &mut Vec<Value>, edit: Edit)
    ensures
        values_view(final(elems)@) == edited(values_view(old(elems)@), edit@),
{
    let ghost before = values_view(elems@);
    match edit {
        Edit::Put { at, value } => {
            if at < elems.len() {
                elems.set(at, value);
                assert(values_view(elems@) =~= before.update(at as int, value@));
            }
        },
        Edit::Push(value) => {
            elems.push(value);
            assert(values_view(elems@) =~= before.push(value@));
        },
        Edit::Pop => {
            if elems.len() > 0 {
                elems.pop();
                assert(values_view(elems@) =~= before.drop_last());
            }
        },
        Edit::Clear => {
            elems.clear();
            assert(values_view(elems@) =~= Seq::empty());
        },
        Edit::Replace(values) => {
            *elems = values;
        },
    }
}

/// An array or a list with its elements changed, and the type of its elements
/// set where one is given.
pub open spec fn with_edit(
    value: ValueView,
    edit: EditView,
    elem: Option<TypeView>,
    span: Span,
) -> Result<ValueView, DiagnosticView> {
    match value {
        ValueView::Array { elem_type, elems } => Ok(
            ValueView::Array {
                elem_type: match elem {
                    Some(elem) => elem,
                    None => elem_type,
                },
                elems: edited(elems, edit),
            },
        ),
        ValueView::List { elem_type, elems } => Ok(
            ValueView::List {
                elem_type: match elem {
                    Some(elem) => elem,
                    None => elem_type,
                },
                elems: edited(elems, edit),
            },
        ),
        _ => Err(
            type_message("method call requires mutable array, list, dictionary, or map"@, span),
        ),
    }
}

/// Changes the elements of what a name stands for.
pub fn edit_named(
    env: &mut Env,
    name: &String,
    edit: Edit,
    elem: Option<TypeName>,
    span: Span,
) -> (outcome: Result<(), Diagnostic>)
    ensures
        is_changed(
            old(env)@,
            final(env)@,
            name@,
            with_edit(
                value_of(old(env)@, name@),
                edit@,
                optional_type(elem),
                span,
            ),
            span,
            outcome,
        ),
{
    proof {
        lemma_same_meaning(env@, name@);
    }
    match env.get_mut(name) {
        None => Err(say_unknown(name, span)),
        Some(binding) => match &mut binding.value {
            Value::Array { elem_type, elems } => {
                edit_elements(elems, edit);
                match elem {
                    Some(elem) => {
                        *elem_type = elem;
                    },
                    None => {},
                }
                Ok(())
            },
            Value::List { elem_type, elems } => {
                edit_elements(elems, edit);
                match elem {
                    Some(elem) => {
                        *elem_type = elem;
                    },
                    None => {},
                }
                Ok(())
            },
            _ => Err(
                Diagnostic::about_types(
                    "method call requires mutable array, list, dictionary, or map",
                    span,
                ),
            ),
        },
    }
}

/// Changes the elements of a list, if the value is one.
fn edit_held(held: &mut Value, edit: Edit) -> (done: bool)
    ensures
        match old(held)@ {
            ValueView::List { elem_type, elems } => done && final(held)@ == (ValueView::List {
                elem_type,
                elems: edited(elems, edit@),
            }),
            _ => !done && final(held)@ == old(held)@,
        },
{
    match held {
        Value::List { elems, .. } => {
            edit_elements(elems, edit);
            true
        },
        _ => false,
    }
}

/// A struct with the elements of the list in a field changed.
pub open spec fn with_field_edit(
    value: ValueView,
    field: Seq<char>,
    edit: EditView,
    refusal: Seq<char>,
    span: Span,
) -> Result<ValueView, DiagnosticView> {
    match list_in_field(value, field, refusal, span) {
        Err(error) => Err(error),
        Ok((elem_type, elems)) => Ok(
            with_list_in_field(value, field, elem_type, edited(elems, edit)),
        ),
    }
}

/// Changes the elements of the list in a field of the struct that a name stands
/// for. The refusal is what is said of another field.
pub fn edit_field(
    env: &mut Env,
    receiver: &String,
    field: &String,
    edit: Edit,
    refusal: &str,
    span: Span,
) -> (outcome: Result<(), Diagnostic>)
    ensures
        is_changed(
            old(env)@,
            final(env)@,
            receiver@,
            with_field_edit(value_of(old(env)@, receiver@), field@, edit@, refusal@, span),
            span,
            outcome,
        ),
{
    proof {
        lemma_same_meaning(env@, receiver@);
    }
    match env.get_mut(receiver) {
        None => Err(say_unknown(receiver, span)),
        Some(binding) => match &mut binding.value {
            Value::Struct { fields, .. } => match find_value(fields, field) {
                None => Err(Diagnostic::about_types(refusal, span)),
                Some(place) => {
                    let ghost before = named_view(fields@);
                    assert(before[place as int] == fields@[place as int]@);
                    proof {
                        lemma_position_from(names_in(before), field@, 0);
                        assert(names_in(before)[place as int] == field@);
                    }
                    let done = edit_held(&mut fields[place].value, edit);
                    if done {
                        assert(named_view(fields@) =~= before.update(
                            place as int,
                            NamedView { name: field@, value: fields@[place as int].value@ },
                        ));
                        Ok(())
                    } else {
                        assert(named_view(fields@) =~= before);
                        Err(Diagnostic::about_types(refusal, span))
                    }
                },
            },
            _ => Err(Diagnostic::about_types("list-field mutation requires a struct", span)),
        },
    }
}

/// What a method is to do.
#[derive(Debug, PartialEq, Eq)]
pub enum MethodPlan {
    Push { elem: TypeName },
    Pop,
    Clear,
    Reserve,
    ShrinkToFit,
    ShrinkTo,
    Sort { radix: bool, stable: bool, comparator: Option<String> },
    PutEntry { key: TypeName, value: TypeName },
    RemoveEntry { key: TypeName },
    PutMapEntry { key: TypeName, value: TypeName },
    RemoveMapEntry { key: TypeName },
    ClearMap,
}

/// What a method is to do as a mathematical value.
#[verifier::ext_equal]
pub enum MethodPlanView {
    Push { elem: TypeView },
    Pop,
    Clear,
    Reserve,
    ShrinkToFit,
    ShrinkTo,
    Sort { radix: bool, stable: bool, comparator: Option<Seq<char>> },
    PutEntry { key: TypeView, value: TypeView },
    RemoveEntry { key: TypeView },
    PutMapEntry { key: TypeView, value: TypeView },
    RemoveMapEntry { key: TypeView },
    ClearMap,
}

impl View for MethodPlan {
    type V = MethodPlanView;

    open spec fn view(&self) -> MethodPlanView {
        match *self {
            MethodPlan::Push { elem } => MethodPlanView::Push { elem: elem@ },
            MethodPlan::Pop => MethodPlanView::Pop,
            MethodPlan::Clear => MethodPlanView::Clear,
            MethodPlan::Reserve => MethodPlanView::Reserve,
            MethodPlan::ShrinkToFit => MethodPlanView::ShrinkToFit,
            MethodPlan::ShrinkTo => MethodPlanView::ShrinkTo,
            MethodPlan::Sort { radix, stable, comparator } => MethodPlanView::Sort {
                radix,
                stable,
                comparator: optional_text(comparator),
            },
            MethodPlan::PutEntry { key, value } => MethodPlanView::PutEntry {
                key: key@,
                value: value@,
            },
            MethodPlan::RemoveEntry { key } => MethodPlanView::RemoveEntry { key: key@ },
            MethodPlan::PutMapEntry { key, value } => MethodPlanView::PutMapEntry {
                key: key@,
                value: value@,
            },
            MethodPlan::RemoveMapEntry { key } => MethodPlanView::RemoveMapEntry { key: key@ },
            MethodPlan::ClearMap => MethodPlanView::ClearMap,
        }
    }
}

/// What is said of a method that does not exist.
pub open spec fn unknown_method(kind: Seq<char>, name: Seq<char>) -> Seq<char> {
    "unknown mutable "@ + kind + " method '"@ + name + "()'"@
}

/// What is said of arguments that a method does not take.
pub open spec fn takes_none(name: Seq<char>) -> Seq<char> {
    name + "() expects no arguments"@
}

/// A plan, unless the number of arguments is another.
pub open spec fn counted(
    given: nat,
    expected: nat,
    refusal: Seq<char>,
    span: Span,
    plan: MethodPlanView,
) -> Result<MethodPlanView, DiagnosticView> {
    if given == expected {
        Ok(plan)
    } else {
        Err(type_message(refusal, span))
    }
}

/// The name is that of a sort without a function to compare by.
pub open spec fn is_plain_sort(name: Seq<char>) -> bool {
    ||| name == "sort"@
    ||| name == "sort_unstable"@
    ||| name == "sort_stable"@
    ||| name == "sort_radix_unstable"@
    ||| name == "sort_radix_stable"@
}

/// A sort without a function to compare by: whether by radix, and whether it
/// keeps the order of equal elements.
pub open spec fn plain_sort(name: Seq<char>) -> MethodPlanView {
    MethodPlanView::Sort {
        radix: name == "sort_radix_unstable"@ || name == "sort_radix_stable"@,
        stable: name == "sort_stable"@ || name == "sort_radix_stable"@,
        comparator: None,
    }
}

/// What a sort by a function is to do.
pub open spec fn sort_by_plan(args: Seq<ValueView>, span: Span) -> Result<
    MethodPlanView,
    DiagnosticView,
> {
    if args.len() != 1 {
        Err(type_message("sort_by() expects one comparator function argument"@, span))
    } else {
        match args[0] {
            ValueView::Str(name) => Ok(
                MethodPlanView::Sort { radix: false, stable: false, comparator: Some(name) },
            ),
            _ => Err(
                type_message(
                    "sort_by() expects comparator function name (identifier or string)"@,
                    span,
                ),
            ),
        }
    }
}

/// What taking the last element is to do.
pub open spec fn pop_plan(given: nat, count: nat, kind: Seq<char>, span: Span) -> Result<
    MethodPlanView,
    DiagnosticView,
> {
    if given != 0 {
        Err(type_message(takes_none("pop"@), span))
    } else if count == 0 {
        Err(type_message("cannot pop() from empty "@ + kind, span))
    } else {
        Ok(MethodPlanView::Pop)
    }
}

/// What a method of an array is to do.
pub open spec fn array_method(
    count: nat,
    elem: TypeView,
    name: Seq<char>,
    args: Seq<ValueView>,
    span: Span,
) -> Result<MethodPlanView, DiagnosticView> {
    if name == "push"@ {
        counted(
            args.len(),
            1,
            "push() expects exactly one argument"@,
            span,
            MethodPlanView::Push { elem },
        )
    } else if name == "pop"@ {
        pop_plan(args.len(), count, "array"@, span)
    } else if is_plain_sort(name) {
        counted(args.len(), 0, takes_none(name), span, plain_sort(name))
    } else if name == "sort_by"@ {
        sort_by_plan(args, span)
    } else {
        Err(type_message(unknown_method("array"@, name), span))
    }
}

/// What a method of a list is to do.
pub open spec fn list_method(
    count: nat,
    elem: TypeView,
    name: Seq<char>,
    given: nat,
    span: Span,
) -> Result<MethodPlanView, DiagnosticView> {
    if name == "push"@ {
        counted(
            given,
            1,
            "push() expects exactly one argument"@,
            span,
            MethodPlanView::Push { elem },
        )
    } else if name == "pop"@ {
        pop_plan(given, count, "list"@, span)
    } else if name == "clear"@ {
        counted(given, 0, takes_none(name), span, MethodPlanView::Clear)
    } else if name == "reserve"@ {
        counted(
            given,
            1,
            "reserve() expects exactly one additional-capacity argument"@,
            span,
            MethodPlanView::Reserve,
        )
    } else if name == "shrink_to_fit"@ {
        counted(given, 0, takes_none(name), span, MethodPlanView::ShrinkToFit)
    } else if name == "shrink_to"@ {
        counted(
            given,
            1,
            "shrink_to() expects exactly one minimum-capacity argument"@,
            span,
            MethodPlanView::ShrinkTo,
        )
    } else {
        Err(type_message(unknown_method("list"@, name), span))
    }
}

/// What a method of a dictionary is to do.
pub open spec fn dict_method(
    key: TypeView,
    value: TypeView,
    name: Seq<char>,
    given: nat,
    span: Span,
) -> Result<MethodPlanView, DiagnosticView> {
    if name == "set"@ {
        counted(
            given,
            2,
            "set() expects exactly two arguments"@,
            span,
            MethodPlanView::PutEntry { key, value },
        )
    } else if name == "remove"@ {
        counted(
            given,
            1,
            "remove() expects exactly one argument"@,
            span,
            MethodPlanView::RemoveEntry { key },
        )
    } else {
        Err(type_message(unknown_method("dictionary"@, name), span))
    }
}

/// What a method of a map is to do.
pub open spec fn map_method(
    key: TypeView,
    value: TypeView,
    name: Seq<char>,
    given: nat,
    span: Span,
) -> Result<MethodPlanView, DiagnosticView> {
    if name == "set"@ {
        counted(
            given,
            2,
            "set() expects exactly two arguments"@,
            span,
            MethodPlanView::PutMapEntry { key, value },
        )
    } else if name == "remove"@ {
        counted(
            given,
            1,
            "remove() expects exactly one argument"@,
            span,
            MethodPlanView::RemoveMapEntry { key },
        )
    } else if name == "clear"@ {
        counted(given, 0, takes_none(name), span, MethodPlanView::ClearMap)
    } else {
        Err(type_message(unknown_method("map"@, name), span))
    }
}

/// What a method that changes a value is to do.
pub open spec fn method_plan(
    value: ValueView,
    ty: TypeView,
    name: Seq<char>,
    args: Seq<ValueView>,
    span: Span,
) -> Result<MethodPlanView, DiagnosticView> {
    match (value, ty) {
        (ValueView::Array { elems, .. }, TypeView::Array { elem, .. }) => array_method(
            elems.len(),
            *elem,
            name,
            args,
            span,
        ),
        (ValueView::List { elems, .. }, TypeView::List { elem }) => list_method(
            elems.len(),
            *elem,
            name,
            args.len(),
            span,
        ),
        (ValueView::Dict { .. }, TypeView::Dict { key, value }) => dict_method(
            *key,
            *value,
            name,
            args.len(),
            span,
        ),
        (ValueView::Mapping { .. }, TypeView::Mapping { key, value }) => map_method(
            *key,
            *value,
            name,
            args.len(),
            span,
        ),
        _ => Err(
            type_message("method call requires mutable array, list, dictionary, or map"@, span),
        ),
    }
}

/// The outcome of planning is the plan expected.
pub open spec fn planned_is(
    outcome: Result<MethodPlan, Diagnostic>,
    expected: Result<MethodPlanView, DiagnosticView>,
) -> bool {
    match expected {
        Ok(plan) => outcome matches Ok(found) && found@ == plan,
        Err(error) => outcome matches Err(found) && found@ == error,
    }
}

/// A plan, unless the number of arguments is another.
fn count_arguments(
    given: usize,
    expected: usize,
    refusal: &str,
    span: Span,
    plan: MethodPlan,
) -> (outcome: Result<MethodPlan, Diagnostic>)
    ensures
        planned_is(outcome, counted(given as nat, expected as nat, refusal@, span, plan@)),
{
    if given == expected {
        Ok(plan)
    } else {
        Err(Diagnostic::about_types(refusal, span))
    }
}

/// A plan, unless there are arguments.
fn expect_none(name: &String, given: usize, span: Span, plan: MethodPlan) -> (outcome: Result<
    MethodPlan,
    Diagnostic,
>)
    ensures
        planned_is(outcome, counted(given as nat, 0, takes_none(name@), span, plan@)),
{
    if given == 0 {
        Ok(plan)
    } else {
        let mut message = name.clone();
        message.append("() expects no arguments");
        Err(Diagnostic::type_error(message, span))
    }
}

/// What is said of a method that does not exist.
fn say_unknown_method(kind: &str, name: &String, span: Span) -> (diagnostic: Diagnostic)
    ensures
        diagnostic@ == type_message(unknown_method(kind@, name@), span),
{
    let mut message = String::from_str("unknown mutable ");
    message.append(kind);
    message.append(" method '");
    message.append(name.as_str());
    message.append("()'");
    Diagnostic::type_error(message, span)
}

/// What taking the last element is to do.
fn plan_pop(given: usize, count: usize, kind: &str, span: Span) -> (outcome: Result<
    MethodPlan,
    Diagnostic,
>)
    ensures
        planned_is(outcome, pop_plan(given as nat, count as nat, kind@, span)),
{
    if given != 0 {
        let mut message = String::from_str("pop");
        message.append("() expects no arguments");
        return Err(Diagnostic::type_error(message, span));
    }
    if count == 0 {
        let mut message = String::from_str("cannot pop() from empty ");
        message.append(kind);
        return Err(Diagnostic::type_error(message, span));
    }
    Ok(MethodPlan::Pop)
}

/// What a sort by a function is to do.
fn plan_sort_by(args: &Vec<Value>, span: Span) -> (outcome: Result<MethodPlan, Diagnostic>)
    ensures
        planned_is(outcome, sort_by_plan(values_view(args@), span)),
{
    assert(values_view(args@).len() == args@.len());
    if args.len() != 1 {
        return Err(
            Diagnostic::about_types("sort_by() expects one comparator function argument", span),
        );
    }
    assert(values_view(args@)[0] == args@[0]@);
    match &args[0] {
        Value::Str(name) => Ok(
            MethodPlan::Sort { radix: false, stable: false, comparator: Some(name.clone()) },
        ),
        _ => Err(
            Diagnostic::about_types(
                "sort_by() expects comparator function name (identifier or string)",
                span,
            ),
        ),
    }
}

/// What a method of an array is to do.
fn plan_array_method(
    count: usize,
    elem: &TypeName,
    name: &String,
    args: &Vec<Value>,
    span: Span,
) -> (outcome: Result<MethodPlan, Diagnostic>)
    ensures
        planned_is(
            outcome,
            array_method(count as nat, elem@, name@, values_view(args@), span),
        ),
{
    assert(values_view(args@).len() == args@.len());
    if is_text(name, "push") {
        return count_arguments(
            args.len(),
            1,
            "push() expects exactly one argument",
            span,
            MethodPlan::Push { elem: copy_type(elem) },
        );
    }
    if is_text(name, "pop") {
        return plan_pop(args.len(), count, "array", span);
    }
    if is_text(name, "sort") || is_text(name, "sort_unstable") || is_text(name, "sort_stable")
        || is_text(name, "sort_radix_unstable") || is_text(name, "sort_radix_stable") {
        let plan = MethodPlan::Sort {
            radix: is_text(name, "sort_radix_unstable") || is_text(name, "sort_radix_stable"),
            stable: is_text(name, "sort_stable") || is_text(name, "sort_radix_stable"),
            comparator: None,
        };
        return expect_none(name, args.len(), span, plan);
    }
    if is_text(name, "sort_by") {
        return plan_sort_by(args, span);
    }
    Err(say_unknown_method("array", name, span))
}

/// What a method of a list is to do.
fn plan_list_method(count: usize, elem: &TypeName, name: &String, given: usize, span: Span) -> (
    outcome: Result<MethodPlan, Diagnostic>)
    ensures
        planned_is(outcome, list_method(count as nat, elem@, name@, given as nat, span)),
{
    if is_text(name, "push") {
        return count_arguments(
            given,
            1,
            "push() expects exactly one argument",
            span,
            MethodPlan::Push { elem: copy_type(elem) },
        );
    }
    if is_text(name, "pop") {
        return plan_pop(given, count, "list", span);
    }
    if is_text(name, "clear") {
        return expect_none(name, given, span, MethodPlan::Clear);
    }
    if is_text(name, "reserve") {
        return count_arguments(
            given,
            1,
            "reserve() expects exactly one additional-capacity argument",
            span,
            MethodPlan::Reserve,
        );
    }
    if is_text(name, "shrink_to_fit") {
        return expect_none(name, given, span, MethodPlan::ShrinkToFit);
    }
    if is_text(name, "shrink_to") {
        return count_arguments(
            given,
            1,
            "shrink_to() expects exactly one minimum-capacity argument",
            span,
            MethodPlan::ShrinkTo,
        );
    }
    Err(say_unknown_method("list", name, span))
}

/// What a method of a dictionary is to do.
fn plan_dict_method(key: &TypeName, value: &TypeName, name: &String, given: usize, span: Span) -> (
    outcome: Result<MethodPlan, Diagnostic>)
    ensures
        planned_is(outcome, dict_method(key@, value@, name@, given as nat, span)),
{
    if is_text(name, "set") {
        return count_arguments(
            given,
            2,
            "set() expects exactly two arguments",
            span,
            MethodPlan::PutEntry { key: copy_type(key), value: copy_type(value) },
        );
    }
    if is_text(name, "remove") {
        return count_arguments(
            given,
            1,
            "remove() expects exactly one argument",
            span,
            MethodPlan::RemoveEntry { key: copy_type(key) },
        );
    }
    Err(say_unknown_method("dictionary", name, span))
}

/// What a method of a map is to do.
fn plan_map_method(key: &TypeName, value: &TypeName, name: &String, given: usize, span: Span) -> (
    outcome: Result<MethodPlan, Diagnostic>)
    ensures
        planned_is(outcome, map_method(key@, value@, name@, given as nat, span)),
{
    if is_text(name, "set") {
        return count_arguments(
            given,
            2,
            "set() expects exactly two arguments",
            span,
            MethodPlan::PutMapEntry { key: copy_type(key), value: copy_type(value) },
        );
    }
    if is_text(name, "remove") {
        return count_arguments(
            given,
            1,
            "remove() expects exactly one argument",
            span,
            MethodPlan::RemoveMapEntry { key: copy_type(key) },
        );
    }
    if is_text(name, "clear") {
        return expect_none(name, given, span, MethodPlan::ClearMap);
    }
    Err(say_unknown_method("map", name, span))
}

/// What a method that changes what a name stands for is to do.
pub fn plan_method(env: &Env, receiver: &String, name: &String, args: &Vec<Value>, span: Span) -> (
    outcome: Result<MethodPlan, Diagnostic>)
    ensures
        match meaning(env@, receiver@) {
            None => outcome matches Err(found) && found@ == message_at_span(
                unknown_identifier(receiver@),
                span,
            ),
            Some(binding) => planned_is(
                outcome,
                method_plan(binding.value, binding.ty, name@, values_view(args@), span),
            ),
        },
{
    let binding = match env.get(receiver) {
        Some(binding) => binding,
        None => {
            return Err(say_unknown(receiver, span));
        },
    };
    assert(values_view(args@).len() == args@.len());
    match (&binding.value, &binding.ty) {
        (Value::Array { elems, .. }, TypeName::Array { elem, .. }) => {
            assert(values_view(elems@).len() == elems@.len());
            plan_array_method(elems.len(), elem, name, args, span)
        },
        (Value::List { elems, .. }, TypeName::List { elem }) => {
            assert(values_view(elems@).len() == elems@.len());
            plan_list_method(elems.len(), elem, name, args.len(), span)
        },
        (Value::Dict { .. }, TypeName::Dict { key, value }) => plan_dict_method(
            key,
            value,
            name,
            args.len(),
            span,
        ),
        (Value::Mapping { .. }, TypeName::Mapping { key, value }) => plan_map_method(
            key,
            value,
            name,
            args.len(),
            span,
        ),
        _ => Err(
            Diagnostic::about_types(
                "method call requires mutable array, list, dictionary, or map",
                span,
            ),
        ),
    }
}

/// What a method that changes the list in a field is to do.
pub open spec fn field_method_plan(
    value: ValueView,
    field: Seq<char>,
    name: Seq<char>,
    given: nat,
    span: Span,
) -> Result<MethodPlanView, DiagnosticView> {
    match list_in_field(value, field, "mutated struct field must be a list"@, span) {
        Err(error) => Err(error),
        Ok((elem_type, elems)) => if name == "push"@ {
            counted(
                given,
                1,
                "push() expects exactly one argument"@,
                span,
                MethodPlanView::Push { elem: elem_type },
            )
        } else if name == "pop"@ {
            pop_plan(given, elems.len(), "list"@, span)
        } else if name == "clear"@ {
            counted(given, 0, takes_none(name), span, MethodPlanView::Clear)
        } else {
            Err(type_message("unknown mutable list-field method"@, span))
        },
    }
}

/// What a method that changes the list in a field of what a name stands for is
/// to do.
pub fn plan_field_method(
    env: &Env,
    receiver: &String,
    field: &String,
    name: &String,
    given: usize,
    span: Span,
) -> (outcome: Result<MethodPlan, Diagnostic>)
    ensures
        match change_problem(env@, receiver@, "cannot mutate immutable"@, span) {
            Some(problem) => outcome matches Err(found) && found@ == problem,
            None => planned_is(
                outcome,
                field_method_plan(
                    value_of(env@, receiver@),
                    field@,
                    name@,
                    given as nat,
                    span,
                ),
            ),
        },
{
    check_mutable(env, receiver, span)?;
    let binding = match env.get(receiver) {
        Some(binding) => binding,
        None => {
            return Err(say_unknown(receiver, span));
        },
    };
    let fields = match &binding.value {
        Value::Struct { fields, .. } => fields,
        _ => {
            return Err(Diagnostic::about_types("list-field mutation requires a struct", span));
        },
    };
    let place: usize = match find_value(fields, field) {
        Some(place) => place,
        None => {
            return Err(Diagnostic::about_types("mutated struct field must be a list", span));
        },
    };
    assert(named_view(fields@)[place as int] == fields@[place as int]@);
    match &fields[place].value {
        Value::List { elem_type, elems } => {
            assert(fields@[place as int].value@ == ValueView::List {
                elem_type: elem_type@,
                elems: values_view(elems@),
            });
            if is_text(name, "push") {
                return count_arguments(
                    given,
                    1,
                    "push() expects exactly one argument",
                    span,
                    MethodPlan::Push { elem: copy_type(elem_type) },
                );
            }
            if is_text(name, "pop") {
                return plan_pop(given, elems.len(), "list", span);
            }
            if is_text(name, "clear") {
                return expect_none(name, given, span, MethodPlan::Clear);
            }
            Err(Diagnostic::about_types("unknown mutable list-field method", span))
        },
        _ => Err(Diagnostic::about_types("mutated struct field must be a list", span)),
    }
}

/// A dictionary or a map without the entry of a key.
pub open spec fn without_key(value: ValueView, key: Seq<char>, span: Span) -> Result<
    ValueView,
    DiagnosticView,
> {
    match value {
        ValueView::Dict { key_type, value_type, entries } => Ok(
            ValueView::Dict { key_type, value_type, entries: without_entry(entries, key) },
        ),
        ValueView::Mapping { key_type, value_type, entries, keys } => Ok(
            ValueView::Mapping {
                key_type,
                value_type,
                entries: without_entry(entries, key),
                keys: without_entry(keys, key),
            },
        ),
        _ => Err(
            type_message("method call requires mutable array, list, dictionary, or map"@, span),
        ),
    }
}

/// Removes the entry of a key from the dictionary or map that a name stands for.
pub fn remove_key(env: &mut Env, name: &String, key: &String, span: Span) -> (outcome: Result<
    (),
    Diagnostic,
>)
    ensures
        is_changed(
            old(env)@,
            final(env)@,
            name@,
            without_key(value_of(old(env)@, name@), key@, span),
            span,
            outcome,
        ),
{
    proof {
        lemma_same_meaning(env@, name@);
    }
    match env.get_mut(name) {
        None => Err(say_unknown(name, span)),
        Some(binding) => match &mut binding.value {
            Value::Dict { entries, .. } => {
                remove_entry(entries, key);
                Ok(())
            },
            Value::Mapping { entries, keys, .. } => {
                remove_entry(entries, key);
                remove_entry(keys, key);
                Ok(())
            },
            _ => Err(
                Diagnostic::about_types(
                    "method call requires mutable array, list, dictionary, or map",
                    span,
                ),
            ),
        },
    }
}

/// A map without entries.
pub open spec fn emptied_map(value: ValueView, span: Span) -> Result<ValueView, DiagnosticView> {
    match value {
        ValueView::Mapping { key_type, value_type, .. } => Ok(
            ValueView::Mapping {
                key_type,
                value_type,
                entries: Seq::empty(),
                keys: Seq::empty(),
            },
        ),
        _ => Err(
            type_message("method call requires mutable array, list, dictionary, or map"@, span),
        ),
    }
}

/// Removes all entries from the map that a name stands for.
pub fn clear_map(env: &mut Env, name: &String, span: Span) -> (outcome: Result<(), Diagnostic>)
    ensures
        is_changed(
            old(env)@,
            final(env)@,
            name@,
            emptied_map(value_of(old(env)@, name@), span),
            span,
            outcome,
        ),
{
    proof {
        lemma_same_meaning(env@, name@);
    }
    match env.get_mut(name) {
        None => Err(say_unknown(name, span)),
        Some(binding) => match &mut binding.value {
            Value::Mapping { entries, keys, .. } => {
                entries.clear();
                keys.clear();
                assert(named_view(entries@) =~= Seq::empty());
                assert(named_view(keys@) =~= Seq::empty());
                Ok(())
            },
            _ => Err(
                Diagnostic::about_types(
                    "method call requires mutable array, list, dictionary, or map",
                    span,
                ),
            ),
        },
    }
}

/// The function that an argument names as the one to sort by: only of a sort by
/// a function, and only where there is a function of that name.
pub open spec fn comparator_named(method: Seq<char>, arg: ExprView, index: IndexView) -> Option<
    Seq<char>,
> {
    match arg {
        ExprView::Ident { name, .. } => if method == "sort_by"@ && is_listed(
            function_names(index.functions),
            name,
        ) {
            Some(name)
        } else {
            None
        },
        _ => None,
    }
}

/// The value of an argument that names the function to sort by.
pub fn comparator_argument(method: &String, arg: &Expr, index: &ProgramIndex) -> (value: Option<
    Value,
>)
    ensures
        match comparator_named(method@, arg@, index@) {
            Some(name) => value matches Some(found) && found@ == ValueView::Str(name),
            None => value is None,
        },
{
    match arg {
        Expr::Ident { name, .. } => {
            if is_text(method, "sort_by") && find_function(&index.functions, name).is_some() {
                Some(Value::Str(name.clone()))
            } else {
                None
            }
        },
        _ => None,
    }
}

/// The last element that was added is the one that is taken.
pub proof fn law_push_then_pop(elems: Seq<ValueView>, value: ValueView)
    ensures
        edited(elems, EditView::Push(value)).last() == value,
        edited(edited(elems, EditView::Push(value)), EditView::Pop) == elems,
{
    assert(elems.push(value).drop_last() =~= elems);
}

} // verus!
