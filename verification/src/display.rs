//! Types as they are shown to people.

use crate::ast::{types_view, TypeName, TypeView};
use crate::text::{decimal, decimal_text};
use vstd::prelude::*;
use vstd::string::StringExecFns;

verus! {

/// A type as it is shown.
pub open spec fn shown_type(ty: TypeView) -> Seq<char>
    decreases ty,
{
    match ty {
        TypeView::String => "string"@,
        TypeView::Path => "Path"@,
        TypeView::File => "File"@,
        TypeView::Thread => "Thread"@,
        TypeView::Byte => "byte"@,
        TypeView::Char => "char"@,
        TypeView::Bool => "bool"@,
        TypeView::Int { signed, bits } => (if signed {
            "i"@
        } else {
            "u"@
        }) + decimal(bits as nat),
        TypeView::Float { bits } => "f"@ + decimal(bits as nat),
        TypeView::Struct(name) => name,
        TypeView::Applied { name, args } => name + "<"@ + shown_types(args) + ">"@,
        TypeView::Array { elem, len } => "["@ + shown_type(*elem) + "; "@ + decimal(len as nat)
            + "]"@,
        TypeView::Dict { key, value } => "dict<"@ + shown_type(*key) + ", "@ + shown_type(*value)
            + ">"@,
        TypeView::List { elem } => "list<"@ + shown_type(*elem) + ">"@,
        TypeView::Mapping { key, value } => "map<"@ + shown_type(*key) + ", "@ + shown_type(*value)
            + ">"@,
        TypeView::Ref { mutable, inner } => (if mutable {
            "&mut "@
        } else {
            "&"@
        }) + shown_type(*inner),
    }
}

/// Types as they are shown in a list.
pub open spec fn shown_types(types: Seq<TypeView>) -> Seq<char>
    decreases types,
{
    shown_first(types, types.len())
}

/// The first n types as they are shown in a list.
pub open spec fn shown_first(types: Seq<TypeView>, n: nat) -> Seq<char>
    decreases types, n,
{
    if n == 0 || n > types.len() {
        Seq::empty()
    } else if n == 1 {
        shown_type(types[0])
    } else {
        shown_first(types, (n - 1) as nat) + ", "@ + shown_type(types[n - 1])
    }
}

/// A type as it is shown.
fn show_type(ty: &TypeName) -> (text: String)
    ensures
        text@ == shown_type(ty@),
    decreases ty,
{
    match ty {
        TypeName::String => String::from_str("string"),
        TypeName::Path => String::from_str("Path"),
        TypeName::File => String::from_str("File"),
        TypeName::Thread => String::from_str("Thread"),
        TypeName::Byte => String::from_str("byte"),
        TypeName::Char => String::from_str("char"),
        TypeName::Bool => String::from_str("bool"),
        TypeName::Int { signed, bits } => {
            let mut text = String::from_str(
                if *signed {
                    "i"
                } else {
                    "u"
                },
            );
            text.append(decimal_text(*bits as u64).as_str());
            text
        },
        TypeName::Float { bits } => {
            let mut text = String::from_str("f");
            text.append(decimal_text(*bits as u64).as_str());
            text
        },
        TypeName::Struct(name) => name.clone(),
        TypeName::Applied { name, args } => {
            let mut text = name.clone();
            text.append("<");
            text.append(show_types(args).as_str());
            text.append(">");
            text
        },
        TypeName::Array { elem, len } => {
            let mut text = String::from_str("[");
            text.append(show_type(elem).as_str());
            text.append("; ");
            text.append(decimal_text(*len).as_str());
            text.append("]");
            text
        },
        TypeName::Dict { key, value } => {
            let mut text = String::from_str("dict<");
            text.append(show_type(key).as_str());
            text.append(", ");
            text.append(show_type(value).as_str());
            text.append(">");
            text
        },
        TypeName::List { elem } => {
            let mut text = String::from_str("list<");
            text.append(show_type(elem).as_str());
            text.append(">");
            text
        },
        TypeName::Mapping { key, value } => {
            let mut text = String::from_str("map<");
            text.append(show_type(key).as_str());
            text.append(", ");
            text.append(show_type(value).as_str());
            text.append(">");
            text
        },
        TypeName::Ref { mutable, inner } => {
            let mut text = String::from_str(
                if *mutable {
                    "&mut "
                } else {
                    "&"
                },
            );
            text.append(show_type(inner).as_str());
            text
        },
    }
}

/// Types as they are shown in a list.
fn show_types(types: &Vec<TypeName>) -> (text: String)
    ensures
        text@ == shown_types(types_view(types@)),
    decreases types,
{
    let ghost all = types_view(types@);
    let mut text = String::new();
    assert(text@ =~= Seq::empty());
    for i in 0..types.len()
        invariant
            all == types_view(types@),
            text@ == shown_first(all, i as nat),
    {
        if i > 0 {
            text.append(", ");
        }
        text.append(show_type(&types[i]).as_str());
        assert(all[i as int] == types@[i as int]@);
        assert(text@ =~= shown_first(all, (i + 1) as nat));
    }
    text
}

impl TypeName {
    /// The type as it is shown to people.
    pub fn display(&self) -> (text: String)
        ensures
            text@ == shown_type(self@),
    {
        show_type(self)
    }
}

} // verus!
