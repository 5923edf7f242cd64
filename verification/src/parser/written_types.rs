//! Types that are written as tokens are read back as they were.

use crate::ast::TypeView;
use crate::diagnostic::DiagnosticView;
use crate::parser::cursor::{is_ahead, kind_at};
use crate::parser::types::{
    array_len, digits_value, is_digit, lemma_digit_count, named_type, type_after, type_at,
    type_list, type_list_after, type_pair_after,
};
use crate::parser::written::{names, stands};
use crate::text::{decimal, digit_char};
use crate::token::{KindView, TokenView};
use vstd::prelude::*;

verus! {

/// The name of a built-in type that has one.
pub open spec fn built_in_name(ty: TypeView) -> Option<Seq<char>> {
    match ty {
        TypeView::String => Some("string"@),
        TypeView::Path => Some("Path"@),
        TypeView::File => Some("File"@),
        TypeView::Thread => Some("Thread"@),
        TypeView::Byte => Some("byte"@),
        TypeView::Char => Some("char"@),
        TypeView::Bool => Some("bool"@),
        TypeView::Int { signed, bits } => {
            if signed {
                if bits == 8 {
                    Some("i8"@)
                } else if bits == 16 {
                    Some("i16"@)
                } else if bits == 32 {
                    Some("i32"@)
                } else if bits == 64 {
                    Some("i64"@)
                } else if bits == 128 {
                    Some("i128"@)
                } else {
                    None
                }
            } else {
                if bits == 8 {
                    Some("u8"@)
                } else if bits == 16 {
                    Some("u16"@)
                } else if bits == 32 {
                    Some("u32"@)
                } else if bits == 64 {
                    Some("u64"@)
                } else if bits == 128 {
                    Some("u128"@)
                } else {
                    None
                }
            }
        },
        TypeView::Float { bits } => if bits == 32 {
            Some("f32"@)
        } else if bits == 64 {
            Some("f64"@)
        } else {
            None
        },
        _ => None,
    }
}

/// A name that a struct or an enum can have: none of a built-in type.
pub open spec fn is_nominal(name: Seq<char>) -> bool {
    &&& name != "string"@
    &&& name != "Path"@
    &&& name != "File"@
    &&& name != "Thread"@
    &&& name != "byte"@
    &&& name != "char"@
    &&& name != "bool"@
    &&& name != "u8"@
    &&& name != "u16"@
    &&& name != "u32"@
    &&& name != "u64"@
    &&& name != "u128"@
    &&& name != "i8"@
    &&& name != "i16"@
    &&& name != "i32"@
    &&& name != "i64"@
    &&& name != "i128"@
    &&& name != "usize"@
    &&& name != "isize"@
    &&& name != "f32"@
    &&& name != "f64"@
    &&& name != "dict"@
    &&& name != "list"@
    &&& name != "map"@
}

/// How many tokens a type has.
pub open spec fn type_width(ty: TypeView) -> int
    decreases ty, 0int,
{
    match ty {
        TypeView::Applied { args, .. } => 3 + types_width(args, 0),
        TypeView::Array { elem, .. } => 4 + type_width(*elem),
        TypeView::Dict { key, value } => 4 + type_width(*key) + type_width(*value),
        TypeView::List { elem } => 3 + type_width(*elem),
        TypeView::Mapping { key, value } => 4 + type_width(*key) + type_width(*value),
        TypeView::Ref { mutable, inner } => (if mutable {
            2int
        } else {
            1
        }) + type_width(*inner),
        _ => 1,
    }
}

/// How many tokens types with commas between them have, from one on.
pub open spec fn types_width(list: Seq<TypeView>, from: int) -> int
    decreases list, list.len() - from,
{
    if from < 0 || from >= list.len() {
        0
    } else if from + 1 == list.len() {
        type_width(list[from])
    } else {
        type_width(list[from]) + 1 + types_width(list, from + 1)
    }
}

/// A type is written at a position.
pub open spec fn writes_type(toks: Seq<TokenView>, pos: int, ty: TypeView) -> bool
    decreases ty, 0int,
{
    match ty {
        TypeView::Struct(name) => is_nominal(name) && names(toks, pos, name),
        TypeView::Applied { name, args } => {
            &&& is_nominal(name)
            &&& names(toks, pos, name)
            &&& stands(toks, pos + 1, KindView::Less)
            &&& args.len() > 0
            &&& writes_types(toks, pos + 2, args, 0)
            &&& stands(toks, pos + 2 + types_width(args, 0), KindView::Greater)
        },
        TypeView::Array { elem, len } => {
            let end = pos + 1 + type_width(*elem);
            &&& stands(toks, pos, KindView::LBracket)
            &&& writes_type(toks, pos + 1, *elem)
            &&& stands(toks, end, KindView::Semicolon)
            &&& kind_at(toks, end + 1) matches KindView::Number(literal) && stands(
                toks,
                end + 1,
                KindView::Number(literal),
            ) && array_len(literal) == Ok::<u64, DiagnosticView>(len)
            &&& stands(toks, end + 2, KindView::RBracket)
        },
        TypeView::Dict { key, value } => {
            let comma = pos + 2 + type_width(*key);
            &&& names(toks, pos, "dict"@)
            &&& stands(toks, pos + 1, KindView::Less)
            &&& writes_type(toks, pos + 2, *key)
            &&& stands(toks, comma, KindView::Comma)
            &&& writes_type(toks, comma + 1, *value)
            &&& stands(toks, comma + 1 + type_width(*value), KindView::Greater)
        },
        TypeView::List { elem } => {
            &&& names(toks, pos, "list"@)
            &&& stands(toks, pos + 1, KindView::Less)
            &&& writes_type(toks, pos + 2, *elem)
            &&& stands(toks, pos + 2 + type_width(*elem), KindView::Greater)
        },
        TypeView::Mapping { key, value } => {
            let comma = pos + 2 + type_width(*key);
            &&& names(toks, pos, "map"@)
            &&& stands(toks, pos + 1, KindView::Less)
            &&& writes_type(toks, pos + 2, *key)
            &&& stands(toks, comma, KindView::Comma)
            &&& writes_type(toks, comma + 1, *value)
            &&& stands(toks, comma + 1 + type_width(*value), KindView::Greater)
        },
        TypeView::Ref { mutable, inner } => {
            let start = if mutable {
                pos + 2
            } else {
                pos + 1
            };
            &&& stands(toks, pos, KindView::Ampersand)
            &&& mutable ==> stands(toks, pos + 1, KindView::Mut)
            &&& writes_type(toks, start, *inner)
        },
        _ => built_in_name(ty) matches Some(name) && names(toks, pos, name),
    }
}

/// Types from one on are written at a position, with commas between them.
pub open spec fn writes_types(
    toks: Seq<TokenView>,
    pos: int,
    list: Seq<TypeView>,
    from: int,
) -> bool
    decreases list, list.len() - from,
{
    if from < 0 || from >= list.len() {
        true
    } else {
        let end = pos + type_width(list[from]);
        &&& writes_type(toks, pos, list[from])
        &&& from + 1 < list.len() ==> stands(toks, end, KindView::Comma) && writes_types(
            toks,
            end + 1,
            list,
            from + 1,
        )
    }
}

/// A built-in type is read from its name, and a nominal one from any other.
proof fn lemma_names(ty: TypeView, name: Seq<char>)
    ensures
        built_in_name(ty) matches Some(own) ==> named_type(own) == ty && own != "dict"@ && own
            != "list"@ && own != "map"@,
        is_nominal(name) ==> named_type(name) == TypeView::Struct(name),
{
    reveal(named_type);
    reveal_strlit("string");
    reveal_strlit("Path");
    reveal_strlit("File");
    reveal_strlit("Thread");
    reveal_strlit("byte");
    reveal_strlit("char");
    reveal_strlit("bool");
    reveal_strlit("u8");
    reveal_strlit("u16");
    reveal_strlit("u32");
    reveal_strlit("u64");
    reveal_strlit("u128");
    reveal_strlit("i8");
    reveal_strlit("i16");
    reveal_strlit("i32");
    reveal_strlit("i64");
    reveal_strlit("i128");
    reveal_strlit("usize");
    reveal_strlit("isize");
    reveal_strlit("f32");
    reveal_strlit("f64");
    reveal_strlit("dict");
    reveal_strlit("list");
    reveal_strlit("map");
    assert("string"@[0] != "Thread"@[0]);
    assert("Path"@[0] != "File"@[0]);
    assert("Path"@[0] != "byte"@[0]);
    assert("Path"@[0] != "char"@[0]);
    assert("Path"@[0] != "bool"@[0]);
    assert("Path"@[0] != "u128"@[0]);
    assert("Path"@[0] != "i128"@[0]);
    assert("Path"@[0] != "dict"@[0]);
    assert("Path"@[0] != "list"@[0]);
    assert("File"@[0] != "byte"@[0]);
    assert("File"@[0] != "char"@[0]);
    assert("File"@[0] != "bool"@[0]);
    assert("File"@[0] != "u128"@[0]);
    assert("File"@[0] != "i128"@[0]);
    assert("File"@[0] != "dict"@[0]);
    assert("File"@[0] != "list"@[0]);
    assert("byte"@[0] != "char"@[0]);
    assert("byte"@[1] != "bool"@[1]);
    assert("byte"@[0] != "u128"@[0]);
    assert("byte"@[0] != "i128"@[0]);
    assert("byte"@[0] != "dict"@[0]);
    assert("byte"@[0] != "list"@[0]);
    assert("char"@[0] != "bool"@[0]);
    assert("char"@[0] != "u128"@[0]);
    assert("char"@[0] != "i128"@[0]);
    assert("char"@[0] != "dict"@[0]);
    assert("char"@[0] != "list"@[0]);
    assert("bool"@[0] != "u128"@[0]);
    assert("bool"@[0] != "i128"@[0]);
    assert("bool"@[0] != "dict"@[0]);
    assert("bool"@[0] != "list"@[0]);
    assert("u8"@[0] != "i8"@[0]);
    assert("u16"@[1] != "u32"@[1]);
    assert("u16"@[1] != "u64"@[1]);
    assert("u16"@[0] != "i16"@[0]);
    assert("u16"@[0] != "i32"@[0]);
    assert("u16"@[0] != "i64"@[0]);
    assert("u16"@[0] != "f32"@[0]);
    assert("u16"@[0] != "f64"@[0]);
    assert("u16"@[0] != "map"@[0]);
    assert("u32"@[1] != "u64"@[1]);
    assert("u32"@[0] != "i16"@[0]);
    assert("u32"@[0] != "i32"@[0]);
    assert("u32"@[0] != "i64"@[0]);
    assert("u32"@[0] != "f32"@[0]);
    assert("u32"@[0] != "f64"@[0]);
    assert("u32"@[0] != "map"@[0]);
    assert("u64"@[0] != "i16"@[0]);
    assert("u64"@[0] != "i32"@[0]);
    assert("u64"@[0] != "i64"@[0]);
    assert("u64"@[0] != "f32"@[0]);
    assert("u64"@[0] != "f64"@[0]);
    assert("u64"@[0] != "map"@[0]);
    assert("u128"@[0] != "i128"@[0]);
    assert("u128"@[0] != "dict"@[0]);
    assert("u128"@[0] != "list"@[0]);
    assert("i16"@[1] != "i32"@[1]);
    assert("i16"@[1] != "i64"@[1]);
    assert("i16"@[0] != "f32"@[0]);
    assert("i16"@[0] != "f64"@[0]);
    assert("i16"@[0] != "map"@[0]);
    assert("i32"@[1] != "i64"@[1]);
    assert("i32"@[0] != "f32"@[0]);
    assert("i32"@[0] != "f64"@[0]);
    assert("i32"@[0] != "map"@[0]);
    assert("i64"@[0] != "f32"@[0]);
    assert("i64"@[0] != "f64"@[0]);
    assert("i64"@[0] != "map"@[0]);
    assert("i128"@[0] != "dict"@[0]);
    assert("i128"@[0] != "list"@[0]);
    assert("usize"@[0] != "isize"@[0]);
    assert("f32"@[1] != "f64"@[1]);
    assert("f32"@[0] != "map"@[0]);
    assert("f64"@[0] != "map"@[0]);
    assert("dict"@[0] != "list"@[0]);
    assert(named_type("string"@) == TypeView::String);
    assert(named_type("Path"@) == TypeView::Path);
    assert(named_type("File"@) == TypeView::File);
    assert(named_type("Thread"@) == TypeView::Thread);
    assert(named_type("byte"@) == TypeView::Byte);
    assert(named_type("char"@) == TypeView::Char);
    assert(named_type("bool"@) == TypeView::Bool);
    assert(named_type("u8"@) == TypeView::Int { signed: false, bits: 8 });
    assert(named_type("u16"@) == TypeView::Int { signed: false, bits: 16 });
    assert(named_type("u32"@) == TypeView::Int { signed: false, bits: 32 });
    assert(named_type("u64"@) == TypeView::Int { signed: false, bits: 64 });
    assert("u128"@ != "Path"@);
    assert("u128"@ != "File"@);
    assert("u128"@ != "byte"@);
    assert("u128"@ != "char"@);
    assert("u128"@ != "bool"@);
    assert("u128"@ != "i128"@);
    assert("u128"@ != "dict"@);
    assert("u128"@ != "list"@);
    assert("u128"@.len() != "string"@.len());
    assert("u128"@.len() != "Thread"@.len());
    assert("u128"@.len() != "u8"@.len());
    assert("u128"@.len() != "u16"@.len());
    assert("u128"@.len() != "u32"@.len());
    assert("u128"@.len() != "u64"@.len());
    assert("u128"@.len() != "i8"@.len());
    assert("u128"@.len() != "i16"@.len());
    assert("u128"@.len() != "i32"@.len());
    assert("u128"@.len() != "i64"@.len());
    assert("u128"@.len() != "usize"@.len());
    assert("u128"@.len() != "isize"@.len());
    assert("u128"@.len() != "f32"@.len());
    assert("u128"@.len() != "f64"@.len());
    assert("u128"@.len() != "map"@.len());
    assert(named_type("u128"@) == TypeView::Int { signed: false, bits: 128 });
    assert(named_type("i8"@) == TypeView::Int { signed: true, bits: 8 });
    assert(named_type("i16"@) == TypeView::Int { signed: true, bits: 16 });
    assert(named_type("i32"@) == TypeView::Int { signed: true, bits: 32 });
    assert(named_type("i64"@) == TypeView::Int { signed: true, bits: 64 });
    assert("i128"@ != "Path"@);
    assert("i128"@ != "File"@);
    assert("i128"@ != "byte"@);
    assert("i128"@ != "char"@);
    assert("i128"@ != "bool"@);
    assert("i128"@ != "u128"@);
    assert("i128"@ != "dict"@);
    assert("i128"@ != "list"@);
    assert("i128"@.len() != "string"@.len());
    assert("i128"@.len() != "Thread"@.len());
    assert("i128"@.len() != "u8"@.len());
    assert("i128"@.len() != "u16"@.len());
    assert("i128"@.len() != "u32"@.len());
    assert("i128"@.len() != "u64"@.len());
    assert("i128"@.len() != "i8"@.len());
    assert("i128"@.len() != "i16"@.len());
    assert("i128"@.len() != "i32"@.len());
    assert("i128"@.len() != "i64"@.len());
    assert("i128"@.len() != "usize"@.len());
    assert("i128"@.len() != "isize"@.len());
    assert("i128"@.len() != "f32"@.len());
    assert("i128"@.len() != "f64"@.len());
    assert("i128"@.len() != "map"@.len());
    assert(named_type("i128"@) == TypeView::Int { signed: true, bits: 128 });
    assert(named_type("f32"@) == TypeView::Float { bits: 32 });
    assert(named_type("f64"@) == TypeView::Float { bits: 64 });
}

/// What a type that is written may start with.
pub open spec fn starts_type(kind: KindView) -> bool {
    kind is Ident || kind == KindView::LBracket || kind == KindView::Ampersand
}

/// What is known of a type that is written.
spec fn is_type_read(toks: Seq<TokenView>, pos: int, ty: TypeView) -> bool {
    &&& is_ahead(toks, pos, pos + type_width(ty))
    &&& starts_type(kind_at(toks, pos))
    &&& kind_at(toks, pos + type_width(ty)) != KindView::Less ==> type_at(toks, pos) == Ok::<
        (TypeView, int),
        DiagnosticView,
    >((ty, pos + type_width(ty)))
}

/// A pair of types is read back.
proof fn lemma_pair(toks: Seq<TokenView>, pos: int, key: TypeView, value: TypeView, comma: int)
    requires
        0 <= pos,
        comma == pos + 2 + type_width(key),
        stands(toks, pos + 1, KindView::Less),
        is_type_read(toks, pos + 2, key),
        stands(toks, comma, KindView::Comma),
        is_type_read(toks, comma + 1, value),
        stands(toks, comma + 1 + type_width(value), KindView::Greater),
    ensures
        forall|open: Seq<char>, middle: Seq<char>, close: Seq<char>| #[trigger]
            type_pair_after(toks, pos, pos + 1, open, middle, close) == Ok::<
                ((TypeView, TypeView), int),
                DiagnosticView,
            >(((key, value), comma + 2 + type_width(value))),
{
    assert(type_after(toks, pos, pos + 2) == type_at(toks, pos + 2));
    assert(type_after(toks, pos, comma + 1) == type_at(toks, comma + 1));
}

/// A dictionary type is read back.
proof fn lemma_dict(toks: Seq<TokenView>, pos: int, key: TypeView, value: TypeView, comma: int)
    requires
        0 <= pos,
        comma == pos + 2 + type_width(key),
        names(toks, pos, "dict"@),
        stands(toks, pos + 1, KindView::Less),
        is_type_read(toks, pos + 2, key),
        stands(toks, comma, KindView::Comma),
        is_type_read(toks, comma + 1, value),
        stands(toks, comma + 1 + type_width(value), KindView::Greater),
    ensures
        type_at(toks, pos) == Ok::<(TypeView, int), DiagnosticView>(
            (
                TypeView::Dict { key: Box::new(key), value: Box::new(value) },
                comma + 2 + type_width(value),
            ),
        ),
        is_ahead(toks, pos, comma + 2 + type_width(value)),
{
    reveal_strlit("dict");
    reveal_strlit("list");
    reveal_strlit("map");
    lemma_pair(toks, pos, key, value, comma);
    assert(kind_at(toks, pos) == KindView::Ident("dict"@));
    assert(type_pair_after(
        toks,
        pos,
        pos + 1,
        "expected '<' in dict type"@,
        "expected ',' in dict type"@,
        "expected '>' in dict type"@,
    ) == Ok::<((TypeView, TypeView), int), DiagnosticView>(
        ((key, value), comma + 2 + type_width(value)),
    ));
}

/// A map type is read back.
proof fn lemma_map(toks: Seq<TokenView>, pos: int, key: TypeView, value: TypeView, comma: int)
    requires
        0 <= pos,
        comma == pos + 2 + type_width(key),
        names(toks, pos, "map"@),
        stands(toks, pos + 1, KindView::Less),
        is_type_read(toks, pos + 2, key),
        stands(toks, comma, KindView::Comma),
        is_type_read(toks, comma + 1, value),
        stands(toks, comma + 1 + type_width(value), KindView::Greater),
    ensures
        type_at(toks, pos) == Ok::<(TypeView, int), DiagnosticView>(
            (
                TypeView::Mapping { key: Box::new(key), value: Box::new(value) },
                comma + 2 + type_width(value),
            ),
        ),
        is_ahead(toks, pos, comma + 2 + type_width(value)),
{
    reveal_strlit("dict");
    reveal_strlit("list");
    reveal_strlit("map");
    assert("dict"@.len() != "map"@.len());
    lemma_pair(toks, pos, key, value, comma);
    assert(kind_at(toks, pos) == KindView::Ident("map"@));
    assert(type_pair_after(
        toks,
        pos,
        pos + 1,
        "expected '<' in map type"@,
        "expected ',' in map type"@,
        "expected '>' in map type"@,
    ) == Ok::<((TypeView, TypeView), int), DiagnosticView>(
        ((key, value), comma + 2 + type_width(value)),
    ));
}

/// A list type is read back.
proof fn lemma_list(toks: Seq<TokenView>, pos: int, elem: TypeView)
    requires
        0 <= pos,
        names(toks, pos, "list"@),
        stands(toks, pos + 1, KindView::Less),
        is_type_read(toks, pos + 2, elem),
        stands(toks, pos + 2 + type_width(elem), KindView::Greater),
    ensures
        type_at(toks, pos) == Ok::<(TypeView, int), DiagnosticView>(
            (TypeView::List { elem: Box::new(elem) }, pos + 3 + type_width(elem)),
        ),
        is_ahead(toks, pos, pos + 3 + type_width(elem)),
{
    reveal_strlit("dict");
    reveal_strlit("list");
    assert("dict"@[0] != "list"@[0]);
    assert(kind_at(toks, pos) == KindView::Ident("list"@));
    assert(type_after(toks, pos, pos + 2) == type_at(toks, pos + 2));
}

/// A type that is written is read back.
proof fn lemma_type(toks: Seq<TokenView>, pos: int, ty: TypeView)
    requires
        0 <= pos,
        writes_type(toks, pos, ty),
    ensures
        is_type_read(toks, pos, ty),
    decreases ty, 0int,
{
    match ty {
        TypeView::Struct(name) => {
            lemma_names(ty, name);
            assert(name != "dict"@ && name != "list"@ && name != "map"@);
            assert(kind_at(toks, pos) == KindView::Ident(name));
            assert(type_width(ty) == 1);
            assert(named_type(name) == ty);
            assert(is_ahead(toks, pos, pos + 1));
            assert(starts_type(kind_at(toks, pos)));
            let end = pos + type_width(ty);
            assert(end == pos + 1);
            if kind_at(toks, end) != KindView::Less {
                assert(type_at(toks, pos) == Ok::<(TypeView, int), DiagnosticView>((ty, pos + 1)));
                assert(type_at(toks, pos) == Ok::<(TypeView, int), DiagnosticView>((ty, end)));
            }
            assert(is_type_read(toks, pos, ty));
        },
        TypeView::Applied { name, args } => {
            lemma_names(ty, name);
            assert(args.take(0) =~= Seq::empty());
            lemma_types(toks, pos + 2, args, 0, Seq::empty());
            assert(type_list_after(toks, pos, pos + 2) == type_list(toks, pos + 2, Seq::empty()));
            assert(kind_at(toks, pos + 2) != KindView::Greater);
            assert(name != "dict"@ && name != "list"@ && name != "map"@);
            assert(is_type_read(toks, pos, ty));
        },
        TypeView::Array { elem, .. } => {
            lemma_type(toks, pos + 1, *elem);
            assert(type_after(toks, pos, pos + 1) == type_at(toks, pos + 1));
            assert(is_type_read(toks, pos, ty));
        },
        TypeView::Dict { key, value } => {
            let comma = pos + 2 + type_width(*key);
            lemma_type(toks, pos + 2, *key);
            lemma_type(toks, comma + 1, *value);
            lemma_dict(toks, pos, *key, *value, comma);
        },
        TypeView::List { elem } => {
            lemma_type(toks, pos + 2, *elem);
            lemma_list(toks, pos, *elem);
        },
        TypeView::Mapping { key, value } => {
            let comma = pos + 2 + type_width(*key);
            lemma_type(toks, pos + 2, *key);
            lemma_type(toks, comma + 1, *value);
            lemma_map(toks, pos, *key, *value, comma);
        },
        TypeView::Ref { mutable, inner } => {
            let start = if mutable {
                pos + 2
            } else {
                pos + 1
            };
            lemma_type(toks, start, *inner);
            assert(type_after(toks, pos, start) == type_at(toks, start));
            assert(is_type_read(toks, pos, ty));
        },
        _ => {
            lemma_names(ty, Seq::empty());
            let name = built_in_name(ty)->0;
            assert(kind_at(toks, pos) == KindView::Ident(name));
            assert(type_width(ty) == 1);
            let end = pos + type_width(ty);
            if kind_at(toks, end) != KindView::Less {
                assert(type_at(toks, pos) == Ok::<(TypeView, int), DiagnosticView>((ty, end)));
            }
            assert(is_type_read(toks, pos, ty));
        },
    }
}

/// Types with commas between them are read back.
proof fn lemma_types(
    toks: Seq<TokenView>,
    pos: int,
    list: Seq<TypeView>,
    from: int,
    before: Seq<TypeView>,
)
    requires
        0 <= pos,
        0 <= from < list.len(),
        before == list.take(from),
        writes_types(toks, pos, list, from),
        stands(toks, pos + types_width(list, from), KindView::Greater),
    ensures
        type_list(toks, pos, before) == Ok::<(Seq<TypeView>, int), DiagnosticView>(
            (list, pos + types_width(list, from)),
        ),
        types_width(list, from) > 0,
        starts_type(kind_at(toks, pos)),
    decreases list, list.len() - from,
{
    lemma_type(toks, pos, list[from]);
    assert(before.push(list[from]) =~= list.take(from + 1));
    if from + 1 < list.len() {
        let end = pos + type_width(list[from]);
        lemma_types(toks, end + 1, list, from + 1, list.take(from + 1));
    } else {
        assert(list.take(from + 1) =~= list);
    }
}

/// A type that is written is read back as it was, with its parts in their places, where
/// no `<` stands behind it.
pub proof fn law_written_types_are_read_back(toks: Seq<TokenView>, pos: int, ty: TypeView)
    requires
        0 <= pos,
        writes_type(toks, pos, ty),
        kind_at(toks, pos + type_width(ty)) != KindView::Less,
    ensures
        type_at(toks, pos) == Ok::<(TypeView, int), DiagnosticView>((ty, pos + type_width(ty))),
        is_ahead(toks, pos, pos + type_width(ty)),
        starts_type(kind_at(toks, pos)),
{
    lemma_type(toks, pos, ty);
}

/// What stands behind the first digits does not matter.
proof fn lemma_digits_before(text: Seq<char>, last: char, n: nat)
    requires
        n <= text.len(),
    ensures
        digits_value(text.push(last), n) == digits_value(text, n),
    decreases n,
{
    if n > 0 {
        lemma_digits_before(text, last, (n - 1) as nat);
    }
}

/// The text of a number has digits only, and stands for the number.
proof fn lemma_decimal(number: nat)
    ensures
        decimal(number).len() > 0,
        forall|i: int| 0 <= i < decimal(number).len() ==> is_digit(#[trigger] decimal(number)[i]),
        digits_value(decimal(number), decimal(number).len()) == number,
    decreases number,
{
    let text = decimal(number);
    if number < 10 {
        assert(digits_value(text, 0) == 0);
        assert(digits_value(text, 1) == digits_value(text, 0) * 10 + (text[0] as nat - '0' as nat)
            as nat);
    } else {
        let before = decimal(number / 10);
        lemma_decimal(number / 10);
        lemma_digits_before(before, digit_char(number % 10), before.len());
        assert(text[before.len() as int] == digit_char(number % 10));
        assert(digits_value(text, text.len()) == digits_value(text, before.len()) * 10 + (text[
        before.len() as int] as nat - '0' as nat) as nat);
    }
}

/// The length of an array is read back from the text of its number.
pub proof fn law_written_lengths_are_read_back(number: u64)
    ensures
        array_len(decimal(number as nat)) == Ok::<u64, DiagnosticView>(number),
{
    let text = decimal(number as nat);
    lemma_decimal(number as nat);
    lemma_digit_count(text, text.len());
}

} // verus!
