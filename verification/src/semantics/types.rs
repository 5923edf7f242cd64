//! Whether two types are the same.

use crate::ast::{types_view, TypeName, TypeView};
use vstd::prelude::*;

verus! {

/// Whether two types are the same.
pub fn same_type(a: &TypeName, b: &TypeName) -> (same: bool)
    ensures
        same == (a@ == b@),
    decreases a,
{
    match (a, b) {
        (TypeName::String, TypeName::String) => true,
        (TypeName::Path, TypeName::Path) => true,
        (TypeName::File, TypeName::File) => true,
        (TypeName::Thread, TypeName::Thread) => true,
        (TypeName::Byte, TypeName::Byte) => true,
        (TypeName::Char, TypeName::Char) => true,
        (TypeName::Bool, TypeName::Bool) => true,
        (
            TypeName::Int { signed, bits },
            TypeName::Int { signed: other_signed, bits: other_bits },
        ) => *signed == *other_signed && *bits == *other_bits,
        (TypeName::Float { bits }, TypeName::Float { bits: other_bits }) => *bits == *other_bits,
        (TypeName::Struct(name), TypeName::Struct(other_name)) => *name == *other_name,
        (
            TypeName::Applied { name, args },
            TypeName::Applied { name: other_name, args: other_args },
        ) => *name == *other_name && same_types(args, other_args),
        (
            TypeName::Array { elem, len },
            TypeName::Array { elem: other_elem, len: other_len },
        ) => *len == *other_len && same_type(elem, other_elem),
        (
            TypeName::Dict { key, value },
            TypeName::Dict { key: other_key, value: other_value },
        ) => same_type(key, other_key) && same_type(value, other_value),
        (TypeName::List { elem }, TypeName::List { elem: other_elem }) => same_type(
            elem,
            other_elem,
        ),
        (
            TypeName::Mapping { key, value },
            TypeName::Mapping { key: other_key, value: other_value },
        ) => same_type(key, other_key) && same_type(value, other_value),
        (
            TypeName::Ref { mutable, inner },
            TypeName::Ref { mutable: other_mutable, inner: other_inner },
        ) => *mutable == *other_mutable && same_type(inner, other_inner),
        _ => false,
    }
}

/// Whether two lists of types are the same.
pub fn same_types(a: &Vec<TypeName>, b: &Vec<TypeName>) -> (same: bool)
    ensures
        same == (types_view(a@) == types_view(b@)),
    decreases a,
{
    if a.len() != b.len() {
        assert(types_view(a@).len() != types_view(b@).len());
        return false;
    }
    for i in 0..a.len()
        invariant
            a@.len() == b@.len(),
            forall|j: int| 0 <= j < i ==> (#[trigger] a@[j])@ == b@[j]@,
    {
        if !same_type(&a[i], &b[i]) {
            assert(types_view(a@)[i as int] == a@[i as int]@);
            assert(types_view(b@)[i as int] == b@[i as int]@);
            return false;
        }
    }
    assert(types_view(a@) =~= types_view(b@));
    true
}

/// An optional type as a mathematical value.
pub open spec fn optional_type(ty: Option<TypeName>) -> Option<TypeView> {
    match ty {
        Some(ty) => Some(ty@),
        None => None,
    }
}

/// Whether two optional types are the same.
pub fn same_optional_type(a: &Option<TypeName>, b: &Option<TypeName>) -> (same: bool)
    ensures
        same == (optional_type(*a) == optional_type(*b)),
{
    match (a, b) {
        (Some(a), Some(b)) => same_type(a, b),
        (None, None) => true,
        _ => false,
    }
}

} // verus!
