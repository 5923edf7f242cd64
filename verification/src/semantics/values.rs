//! The values of a running program.

use crate::ast::{TypeName, TypeView};
use crate::copy::copy_type;
use crate::semantics::names::{position_from, position_of};
use crate::semantics::types::optional_type;
use vstd::prelude::*;

verus! {

/// A value of a running program. The number of a float stands by its bits. The
/// entries of a dictionary or a map stand in the order of their keys, and the
/// fields of a struct in any order.
#[derive(Debug, PartialEq, Eq)]
#[allow(inconsistent_fields)]
pub enum Value {
    Bool(bool),
    Str(String),
    Char(char),
    Int { bits: u16, value: i128 },
    UInt { bits: u16, value: u128 },
    Float { bits: u16, value: u64 },
    Ref { target: String, mutable: bool, inner: TypeName },
    Struct { name: String, fields: Vec<NamedValue> },
    Enum {
        name: String,
        variant: String,
        type_args: Vec<Option<TypeName>>,
        payload: EnumPayloadValue,
    },
    Array { elem_type: TypeName, elems: Vec<Value> },
    List { elem_type: TypeName, elems: Vec<Value> },
    Dict { key_type: TypeName, value_type: TypeName, entries: Vec<NamedValue> },
    Mapping {
        key_type: TypeName,
        value_type: TypeName,
        entries: Vec<NamedValue>,
        keys: Vec<NamedValue>,
    },
}

/// A value of a running program as a mathematical value.
#[verifier::ext_equal]
#[allow(inconsistent_fields)]
pub enum ValueView {
    Bool(bool),
    Str(Seq<char>),
    Char(char),
    Int { bits: u16, value: i128 },
    UInt { bits: u16, value: u128 },
    Float { bits: u16, value: u64 },
    Ref { target: Seq<char>, mutable: bool, inner: TypeView },
    Struct { name: Seq<char>, fields: Seq<NamedView> },
    Enum {
        name: Seq<char>,
        variant: Seq<char>,
        type_args: Seq<Option<TypeView>>,
        payload: PayloadValueView,
    },
    Array { elem_type: TypeView, elems: Seq<ValueView> },
    List { elem_type: TypeView, elems: Seq<ValueView> },
    Dict { key_type: TypeView, value_type: TypeView, entries: Seq<NamedView> },
    Mapping {
        key_type: TypeView,
        value_type: TypeView,
        entries: Seq<NamedView>,
        keys: Seq<NamedView>,
    },
}

/// What a value of an enum carries.
#[derive(Debug, PartialEq, Eq)]
#[allow(inconsistent_fields)]
pub enum EnumPayloadValue {
    Unit,
    Tuple(Vec<Value>),
    Named(Vec<NamedValue>),
}

/// What a value of an enum carries as a mathematical value.
#[verifier::ext_equal]
#[allow(inconsistent_fields)]
pub enum PayloadValueView {
    Unit,
    Tuple(Seq<ValueView>),
    Named(Seq<NamedView>),
}

/// A value with a name: a field, or an entry with its key.
#[derive(Debug, PartialEq, Eq)]
pub struct NamedValue {
    pub name: String,
    pub value: Value,
}

/// A value with a name as a mathematical value.
#[verifier::ext_equal]
pub struct NamedView {
    pub name: Seq<char>,
    pub value: ValueView,
}

/// Optional types as mathematical values.
pub open spec fn optional_types(types: Seq<Option<TypeName>>) -> Seq<Option<TypeView>> {
    Seq::new(types.len(), |i: int| optional_type(types[i]))
}

/// A value of a running program as a mathematical value.
pub open spec fn value_view(node: Value) -> ValueView
    decreases node,
{
    match node {
        Value::Bool(value) => ValueView::Bool(value),
        Value::Str(value) => ValueView::Str(value@),
        Value::Char(value) => ValueView::Char(value),
        Value::Int { bits, value } => ValueView::Int {
            bits,
            value,
        },
        Value::UInt { bits, value } => ValueView::UInt {
            bits,
            value,
        },
        Value::Float { bits, value } => ValueView::Float {
            bits,
            value,
        },
        Value::Ref { target, mutable, inner } => ValueView::Ref {
            target: target@,
            mutable,
            inner: inner@,
        },
        Value::Struct { name, fields } => ValueView::Struct {
            name: name@,
            fields: named_view(fields@),
        },
        Value::Enum { name, variant, type_args, payload } => ValueView::Enum {
            name: name@,
            variant: variant@,
            type_args: optional_types(type_args@),
            payload: payload_value_view(payload),
        },
        Value::Array { elem_type, elems } => ValueView::Array {
            elem_type: elem_type@,
            elems: values_view(elems@),
        },
        Value::List { elem_type, elems } => ValueView::List {
            elem_type: elem_type@,
            elems: values_view(elems@),
        },
        Value::Dict { key_type, value_type, entries } => ValueView::Dict {
            key_type: key_type@,
            value_type: value_type@,
            entries: named_view(entries@),
        },
        Value::Mapping { key_type, value_type, entries, keys } => ValueView::Mapping {
            key_type: key_type@,
            value_type: value_type@,
            entries: named_view(entries@),
            keys: named_view(keys@),
        },
    }
}

/// What a value of an enum carries as a mathematical value.
pub open spec fn payload_value_view(node: EnumPayloadValue) -> PayloadValueView
    decreases node,
{
    match node {
        EnumPayloadValue::Unit => PayloadValueView::Unit,
        EnumPayloadValue::Tuple(values) => PayloadValueView::Tuple(values_view(values@)),
        EnumPayloadValue::Named(fields) => PayloadValueView::Named(named_view(fields@)),
    }
}

/// A value with a name as a mathematical value.
pub open spec fn named_value_view(node: NamedValue) -> NamedView
    decreases node,
{
    NamedView { name: node.name@, value: value_view(node.value) }
}

/// Values as mathematical values.
pub open spec fn values_view(nodes: Seq<Value>) -> Seq<ValueView>
    decreases nodes,
{
    Seq::new(
        nodes.len(),
        |i: int|
            if 0 <= i < nodes.len() {
                value_view(nodes[i])
            } else {
                arbitrary()
            },
    )
}

/// Values with names as mathematical values.
pub open spec fn named_view(nodes: Seq<NamedValue>) -> Seq<NamedView>
    decreases nodes,
{
    Seq::new(
        nodes.len(),
        |i: int|
            if 0 <= i < nodes.len() {
                named_value_view(nodes[i])
            } else {
                arbitrary()
            },
    )
}

impl View for Value {
    type V = ValueView;

    open spec fn view(&self) -> ValueView {
        value_view(*self)
    }
}

impl View for EnumPayloadValue {
    type V = PayloadValueView;

    open spec fn view(&self) -> PayloadValueView {
        payload_value_view(*self)
    }
}

impl View for NamedValue {
    type V = NamedView;

    open spec fn view(&self) -> NamedView {
        named_value_view(*self)
    }
}

/// A copy of optional types.
pub fn copy_optional_types(types: &Vec<Option<TypeName>>) -> (copy: Vec<Option<TypeName>>)
    ensures
        optional_types(copy@) == optional_types(types@),
{
    let mut copy: Vec<Option<TypeName>> = Vec::with_capacity(types.len());
    for i in 0..types.len()
        invariant
            copy@.len() == i,
            forall|j: int|
                0 <= j < i ==> optional_type(#[trigger] copy@[j]) == optional_type(types@[j]),
    {
        copy.push(
            match &types[i] {
                Some(ty) => Some(copy_type(ty)),
                None => None,
            },
        );
    }
    assert(optional_types(copy@) =~= optional_types(types@));
    copy
}

/// A copy of a value.
pub fn copy_value(node: &Value) -> (copy: Value)
    ensures
        copy@ == node@,
    decreases node,
{
    match node {
        Value::Bool(value) => Value::Bool(*value),
        Value::Str(value) => Value::Str(value.clone()),
        Value::Char(value) => Value::Char(*value),
        Value::Int { bits, value } => Value::Int {
            bits: *bits,
            value: *value,
        },
        Value::UInt { bits, value } => Value::UInt {
            bits: *bits,
            value: *value,
        },
        Value::Float { bits, value } => Value::Float {
            bits: *bits,
            value: *value,
        },
        Value::Ref { target, mutable, inner } => Value::Ref {
            target: target.clone(),
            mutable: *mutable,
            inner: copy_type(inner),
        },
        Value::Struct { name, fields } => Value::Struct {
            name: name.clone(),
            fields: copy_named(fields),
        },
        Value::Enum { name, variant, type_args, payload } => Value::Enum {
            name: name.clone(),
            variant: variant.clone(),
            type_args: copy_optional_types(type_args),
            payload: copy_payload_value(payload),
        },
        Value::Array { elem_type, elems } => Value::Array {
            elem_type: copy_type(elem_type),
            elems: copy_values(elems),
        },
        Value::List { elem_type, elems } => Value::List {
            elem_type: copy_type(elem_type),
            elems: copy_values(elems),
        },
        Value::Dict { key_type, value_type, entries } => Value::Dict {
            key_type: copy_type(key_type),
            value_type: copy_type(value_type),
            entries: copy_named(entries),
        },
        Value::Mapping { key_type, value_type, entries, keys } => Value::Mapping {
            key_type: copy_type(key_type),
            value_type: copy_type(value_type),
            entries: copy_named(entries),
            keys: copy_named(keys),
        },
    }
}

/// A copy of what a value of an enum carries.
pub fn copy_payload_value(node: &EnumPayloadValue) -> (copy: EnumPayloadValue)
    ensures
        copy@ == node@,
    decreases node,
{
    match node {
        EnumPayloadValue::Unit => EnumPayloadValue::Unit,
        EnumPayloadValue::Tuple(values) => EnumPayloadValue::Tuple(copy_values(values)),
        EnumPayloadValue::Named(fields) => EnumPayloadValue::Named(copy_named(fields)),
    }
}

/// A copy of values.
pub fn copy_values(nodes: &Vec<Value>) -> (copy: Vec<Value>)
    ensures
        values_view(copy@) == values_view(nodes@),
    decreases nodes,
{
    let mut copy: Vec<Value> = Vec::with_capacity(nodes.len());
    for i in 0..nodes.len()
        invariant
            copy@.len() == i,
            forall|j: int| 0 <= j < i ==> (#[trigger] copy@[j])@ == nodes@[j]@,
    {
        copy.push(copy_value(&nodes[i]));
    }
    assert(values_view(copy@) =~= values_view(nodes@));
    copy
}

/// A copy of values with names.
pub fn copy_named(nodes: &Vec<NamedValue>) -> (copy: Vec<NamedValue>)
    ensures
        named_view(copy@) == named_view(nodes@),
    decreases nodes,
{
    let mut copy: Vec<NamedValue> = Vec::with_capacity(nodes.len());
    for i in 0..nodes.len()
        invariant
            copy@.len() == i,
            forall|j: int| 0 <= j < i ==> (#[trigger] copy@[j])@ == nodes@[j]@,
    {
        copy.push(NamedValue { name: nodes[i].name.clone(), value: copy_value(&nodes[i].value) });
    }
    assert(named_view(copy@) =~= named_view(nodes@));
    copy
}

impl Clone for Value {
    fn clone(&self) -> (copy: Self)
        ensures
            copy@ == self@,
    {
        copy_value(self)
    }
}

/// The names of named values.
pub open spec fn names_in(values: Seq<NamedView>) -> Seq<Seq<char>> {
    Seq::new(values.len(), |i: int| values[i].name)
}

/// The value of a name, if there is one.
pub open spec fn value_named(values: Seq<NamedView>, name: Seq<char>) -> Option<ValueView> {
    match position_of(names_in(values), name) {
        Some(at) => Some(values[at].value),
        None => None,
    }
}

/// Named values with one more, in the place of the one of the same name if there
/// is one.
pub open spec fn with_value(values: Seq<NamedView>, name: Seq<char>, value: ValueView) -> Seq<
    NamedView,
> {
    match position_of(names_in(values), name) {
        Some(at) => values.update(at, NamedView { name, value }),
        None => values.push(NamedView { name, value }),
    }
}

/// Where the value of a name stands.
pub fn find_value(values: &Vec<NamedValue>, name: &String) -> (at: Option<usize>)
    ensures
        match at {
            Some(at) => position_of(names_in(named_view(values@)), name@) == Some(at as int) && at
                < values@.len(),
            None => position_of(names_in(named_view(values@)), name@) is None,
        },
{
    let ghost all = names_in(named_view(values@));
    for i in 0..values.len()
        invariant
            all == names_in(named_view(values@)),
            position_of(all, name@) == position_from(all, name@, i as int),
    {
        assert(all[i as int] == values@[i as int].name@);
        if values[i].name == *name {
            return Some(i);
        }
    }
    None
}

/// Puts a named value among others, in the place of the one of the same name if
/// there is one.
pub fn put_value(values: &mut Vec<NamedValue>, name: &String, value: Value)
    ensures
        named_view(final(values)@) == with_value(named_view(old(values)@), name@, value@),
{
    let ghost before = named_view(values@);
    let found = find_value(values, name);
    let new = NamedValue { name: name.clone(), value };
    match found {
        Some(at) => {
            values.set(at, new);
            assert(named_view(values@) =~= before.update(at as int, new@));
        },
        None => {
            values.push(new);
            assert(named_view(values@) =~= before.push(new@));
        },
    }
}

} // verus!
