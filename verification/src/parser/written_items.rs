//! Items that are written as tokens are read back as they were, and so are programs.

use crate::ast::{
    EnumView, FieldView, FunctionView, InherentImplView, ItemView, MethodSigView, ModuleView,
    ParamView, PayloadView, StmtNode, StructView, SyntaxView, TraitImplView, TraitView,
    TupleFieldView, TypeView, UseView, VariantView,
};
use crate::diagnostic::DiagnosticView;
use crate::parser::cursor::{is_ahead, kind_at, past, span_at};
use crate::parser::items::{
    alias_at, embed_name, enum_at, field_at, function_at, impl_at, impl_head_at, item_at, item_list,
    member_at, member_list, method_list, method_sig_at, method_sig_list, module_at, param_at,
    param_list, payload_at, payload_field_at, payload_field_list, program_of, return_type_at,
    signature_at, struct_at, trait_at, tuple_field_at, tuple_field_list, type_param_list,
    type_params_at, use_at, variant_at, variant_list,
};
use crate::parser::stmts::body_at;
use crate::parser::written::{names, stands};
use crate::parser::written_stmts::{law_written_bodies_are_read_back, stmts_width, writes_body};
use crate::parser::written_types::{law_written_types_are_read_back, type_width, writes_type};
use crate::token::{KindView, TokenView};
use vstd::prelude::*;

verus! {

/// A parameter is written at a position.
pub open spec fn writes_param(toks: Seq<TokenView>, pos: int, param: ParamView) -> bool {
    &&& names(toks, pos, param.name)
    &&& param.span == span_at(toks, pos)
    &&& stands(toks, pos + 1, KindView::Colon)
    &&& writes_type(toks, pos + 2, param.ty)
}

/// How many tokens parameters with commas between them have, from one on.
pub open spec fn params_width(list: Seq<ParamView>, from: int) -> int
    decreases list.len() - from,
{
    if from < 0 || from >= list.len() {
        0
    } else if from + 1 == list.len() {
        (2 + type_width(list[from].ty))
    } else {
        (2 + type_width(list[from].ty)) + 1 + params_width(list, from + 1)
    }
}

/// Parameters from one on are written at a position, with commas between them.
pub open spec fn writes_params(
    toks: Seq<TokenView>,
    pos: int,
    list: Seq<ParamView>,
    from: int,
) -> bool
    decreases list.len() - from,
{
    if from < 0 || from >= list.len() {
        true
    } else {
        let end = pos + (2 + type_width(list[from].ty));
        &&& writes_param(toks, pos, list[from])
        &&& from + 1 < list.len() ==> stands(toks, end, KindView::Comma) && writes_params(
            toks,
            end + 1,
            list,
            from + 1,
        )
    }
}

/// How many tokens the type that is returned has.
pub open spec fn return_width(ty: Option<TypeView>) -> int {
    match ty {
        Some(ty) => 2 + type_width(ty),
        None => 0,
    }
}

/// How many tokens a signature has.
pub open spec fn signature_width(params: Seq<ParamView>, ty: Option<TypeView>) -> int {
    2 + params_width(params, 0) + return_width(ty)
}

/// Parameters in parentheses and the type that is returned are written at a position.
pub open spec fn writes_signature(
    toks: Seq<TokenView>,
    pos: int,
    params: Seq<ParamView>,
    ty: Option<TypeView>,
) -> bool {
    let close = pos + 1 + params_width(params, 0);
    &&& stands(toks, pos, KindView::LParen)
    &&& writes_params(toks, pos + 1, params, 0)
    &&& stands(toks, close, KindView::RParen)
    &&& ty matches Some(ty) ==> stands(toks, close + 1, KindView::Minus) && stands(
        toks,
        close + 2,
        KindView::Greater,
    ) && writes_type(toks, close + 3, ty)
}

/// How many tokens a function has.
pub open spec fn function_width(f: FunctionView, chained: bool) -> int {
    4 + signature_width(f.params, f.return_type) + stmts_width(f.body, 0, chained)
}

/// A function is written at a position, from its keyword on.
pub open spec fn writes_function(
    toks: Seq<TokenView>,
    pos: int,
    f: FunctionView,
    chained: bool,
) -> bool {
    &&& stands(toks, pos, KindView::Fn)
    &&& f.span == span_at(toks, pos)
    &&& names(toks, pos + 1, f.name)
    &&& writes_signature(toks, pos + 2, f.params, f.return_type)
    &&& writes_body(
        toks,
        pos + 2 + signature_width(f.params, f.return_type),
        f.body,
        chained,
    )
}

/// How many tokens functions have, from one on.
pub open spec fn functions_width(list: Seq<FunctionView>, from: int, chained: bool) -> int
    decreases list.len() - from,
{
    if from < 0 || from >= list.len() {
        0
    } else {
        function_width(list[from], chained) + functions_width(list, from + 1, chained)
    }
}

/// Functions from one on are written at a position, one behind another.
pub open spec fn writes_functions(
    toks: Seq<TokenView>,
    pos: int,
    list: Seq<FunctionView>,
    from: int,
    chained: bool,
) -> bool
    decreases list.len() - from,
{
    if from < 0 || from >= list.len() {
        true
    } else {
        &&& !list[from].public && writes_function(toks, pos, list[from], chained)
        &&& writes_functions(
            toks,
            pos + function_width(list[from], chained),
            list,
            from + 1,
            chained,
        )
    }
}

/// How many tokens the signature of a method has.
pub open spec fn sig_width(sig: MethodSigView) -> int {
    3 + signature_width(sig.params, sig.return_type)
}

/// The signature of a method is written at a position.
pub open spec fn writes_sig(toks: Seq<TokenView>, pos: int, sig: MethodSigView) -> bool {
    &&& stands(toks, pos, KindView::Fn)
    &&& sig.span == span_at(toks, pos)
    &&& names(toks, pos + 1, sig.name)
    &&& writes_signature(toks, pos + 2, sig.params, sig.return_type)
    &&& stands(
        toks,
        pos + 2 + signature_width(sig.params, sig.return_type),
        KindView::Semicolon,
    )
}

/// How many tokens signatures have, from one on.
pub open spec fn sigs_width(list: Seq<MethodSigView>, from: int) -> int
    decreases list.len() - from,
{
    if from < 0 || from >= list.len() {
        0
    } else {
        sig_width(list[from]) + sigs_width(list, from + 1)
    }
}

/// Signatures from one on are written at a position, one behind another.
pub open spec fn writes_sigs(
    toks: Seq<TokenView>,
    pos: int,
    list: Seq<MethodSigView>,
    from: int,
) -> bool
    decreases list.len() - from,
{
    if from < 0 || from >= list.len() {
        true
    } else {
        &&& writes_sig(toks, pos, list[from])
        &&& writes_sigs(toks, pos + sig_width(list[from]), list, from + 1)
    }
}

/// How many tokens fields of a tuple payload with commas between them have, from one on.
pub open spec fn tuple_fields_width(list: Seq<TupleFieldView>, from: int) -> int
    decreases list.len() - from,
{
    if from < 0 || from >= list.len() {
        0
    } else if from + 1 == list.len() {
        type_width(list[from].ty)
    } else {
        type_width(list[from].ty) + 1 + tuple_fields_width(list, from + 1)
    }
}

/// Fields of a tuple payload from one on are written at a position, with commas between them.
pub open spec fn writes_tuple_fields(
    toks: Seq<TokenView>,
    pos: int,
    list: Seq<TupleFieldView>,
    from: int,
) -> bool
    decreases list.len() - from,
{
    if from < 0 || from >= list.len() {
        true
    } else {
        let end = pos + type_width(list[from].ty);
        &&& writes_type(toks, pos, list[from].ty) && list[from].span == span_at(toks, pos)
        &&& from + 1 < list.len() ==> stands(toks, end, KindView::Comma) && writes_tuple_fields(
            toks,
            end + 1,
            list,
            from + 1,
        )
    }
}

/// A field with a name is written at a position.
pub open spec fn writes_field(toks: Seq<TokenView>, pos: int, field: FieldView) -> bool {
    &&& !field.embedded
    &&& names(toks, pos, field.name)
    &&& field.span == span_at(toks, pos)
    &&& stands(toks, pos + 1, KindView::Colon)
    &&& writes_type(toks, pos + 2, field.ty)
    &&& stands(toks, pos + 2 + type_width(field.ty), KindView::Semicolon)
}

/// How many tokens fields of a named payload have, from one on.
pub open spec fn fields_width(list: Seq<FieldView>, from: int) -> int
    decreases list.len() - from,
{
    if from < 0 || from >= list.len() {
        0
    } else {
        (3 + type_width(list[from].ty)) + fields_width(list, from + 1)
    }
}

/// Fields of a named payload from one on are written at a position, one behind another.
pub open spec fn writes_fields(
    toks: Seq<TokenView>,
    pos: int,
    list: Seq<FieldView>,
    from: int,
) -> bool
    decreases list.len() - from,
{
    if from < 0 || from >= list.len() {
        true
    } else {
        &&& writes_field(toks, pos, list[from])
        &&& writes_fields(toks, pos + (3 + type_width(list[from].ty)), list, from + 1)
    }
}

/// How many of the first fields are embedded.
pub open spec fn embedded_before(list: Seq<FieldView>, count: int) -> nat
    decreases count,
{
    if count <= 0 || count > list.len() {
        0
    } else {
        embedded_before(list, count - 1) + if list[count - 1].embedded {
            1nat
        } else {
            0nat
        }
    }
}

/// How many tokens a field of a struct has.
pub open spec fn member_width(field: FieldView) -> int {
    if field.embedded {
        2 + type_width(field.ty)
    } else {
        3 + type_width(field.ty)
    }
}

/// A field of a struct is written at a position. An embedded one has no name of its own.
pub open spec fn writes_member(
    toks: Seq<TokenView>,
    pos: int,
    list: Seq<FieldView>,
    at: int,
) -> bool {
    let field = list[at];
    if field.embedded {
        &&& stands(toks, pos, KindView::Embed)
        &&& field.span == span_at(toks, pos)
        &&& field.name == embed_name(embedded_before(list, at))
        &&& writes_type(toks, pos + 1, field.ty)
        &&& stands(toks, pos + 1 + type_width(field.ty), KindView::Semicolon)
    } else {
        writes_field(toks, pos, field)
    }
}

/// How many tokens fields of a struct have, from one on.
pub open spec fn members_width(list: Seq<FieldView>, from: int) -> int
    decreases list.len() - from,
{
    if from < 0 || from >= list.len() {
        0
    } else {
        member_width(list[from]) + members_width(list, from + 1)
    }
}

/// Fields of a struct from one on are written at a position, one behind another.
pub open spec fn writes_members(
    toks: Seq<TokenView>,
    pos: int,
    list: Seq<FieldView>,
    from: int,
) -> bool
    decreases list.len() - from,
{
    if from < 0 || from >= list.len() {
        true
    } else {
        &&& writes_member(toks, pos, list, from)
        &&& writes_members(toks, pos + member_width(list[from]), list, from + 1)
    }
}

/// How many tokens what a variant carries has.
pub open spec fn payload_width(payload: PayloadView) -> int {
    match payload {
        PayloadView::Unit => 0,
        PayloadView::Tuple(fields) => 2 + tuple_fields_width(fields, 0),
        PayloadView::Named(fields) => 2 + fields_width(fields, 0),
    }
}

/// What a variant carries is written at a position.
pub open spec fn writes_payload(toks: Seq<TokenView>, pos: int, payload: PayloadView) -> bool {
    match payload {
        PayloadView::Unit => true,
        PayloadView::Tuple(fields) => {
            &&& stands(toks, pos, KindView::LParen)
            &&& writes_tuple_fields(toks, pos + 1, fields, 0)
            &&& stands(toks, pos + 1 + tuple_fields_width(fields, 0), KindView::RParen)
        },
        PayloadView::Named(fields) => {
            &&& stands(toks, pos, KindView::LBrace)
            &&& writes_fields(toks, pos + 1, fields, 0)
            &&& stands(toks, pos + 1 + fields_width(fields, 0), KindView::RBrace)
        },
    }
}

/// A variant and the comma behind it are written at a position.
pub open spec fn writes_variant(toks: Seq<TokenView>, pos: int, variant: VariantView) -> bool {
    &&& names(toks, pos, variant.name)
    &&& variant.span == span_at(toks, pos)
    &&& writes_payload(toks, pos + 1, variant.payload)
    &&& stands(toks, pos + 1 + payload_width(variant.payload), KindView::Comma)
}

/// How many tokens variants have, from one on.
pub open spec fn variants_width(list: Seq<VariantView>, from: int) -> int
    decreases list.len() - from,
{
    if from < 0 || from >= list.len() {
        0
    } else {
        (2 + payload_width(list[from].payload)) + variants_width(list, from + 1)
    }
}

/// Variants from one on are written at a position, one behind another.
pub open spec fn writes_variants(
    toks: Seq<TokenView>,
    pos: int,
    list: Seq<VariantView>,
    from: int,
) -> bool
    decreases list.len() - from,
{
    if from < 0 || from >= list.len() {
        true
    } else {
        &&& writes_variant(toks, pos, list[from])
        &&& writes_variants(toks, pos + (2 + payload_width(list[from].payload)), list, from + 1)
    }
}

/// How many tokens names of type parameters with commas between them have, from one on.
pub open spec fn type_params_width(list: Seq<Seq<char>>, from: int) -> int
    decreases list.len() - from,
{
    if from < 0 || from >= list.len() {
        0
    } else if from + 1 == list.len() {
        1
    } else {
        1 + 1 + type_params_width(list, from + 1)
    }
}

/// Names of type parameters from one on are written at a position, with commas between them.
pub open spec fn writes_type_params(
    toks: Seq<TokenView>,
    pos: int,
    list: Seq<Seq<char>>,
    from: int,
) -> bool
    decreases list.len() - from,
{
    if from < 0 || from >= list.len() {
        true
    } else {
        let end = pos + 1;
        &&& names(toks, pos, list[from])
        &&& from + 1 < list.len() ==> stands(toks, end, KindView::Comma) && writes_type_params(
            toks,
            end + 1,
            list,
            from + 1,
        )
    }
}

/// How many tokens type parameters with their brackets have.
pub open spec fn generics_width(params: Seq<Seq<char>>) -> int {
    if params.len() == 0 {
        0
    } else {
        2 + type_params_width(params, 0)
    }
}

/// Type parameters with their brackets are written at a position, if there are some.
pub open spec fn writes_generics(toks: Seq<TokenView>, pos: int, params: Seq<Seq<char>>) -> bool {
    params.len() > 0 ==> stands(toks, pos, KindView::Less) && writes_type_params(
        toks,
        pos + 1,
        params,
        0,
    ) && stands(toks, pos + 1 + type_params_width(params, 0), KindView::Greater)
}

/// Whether an item is public.
pub open spec fn is_public(item: ItemView) -> bool {
    match item {
        ItemView::Function(f) => f.public,
        ItemView::Struct(s) => s.public,
        ItemView::Enum(e) => e.public,
        ItemView::Trait(t) => t.public,
        ItemView::Module(m) => m.public,
        ItemView::Use(u) => u.public,
        ItemView::Impl(_) | ItemView::InherentImpl(_) => false,
    }
}

/// How many tokens an item has from its keyword on.
#[verifier::opaque]
pub open spec fn bare_item_width(item: ItemView, chained: bool) -> int {
    match item {
        ItemView::Function(f) => function_width(f, chained),
        ItemView::Struct(s) => 4 + members_width(s.fields, 0),
        ItemView::Enum(e) => 4 + generics_width(e.type_params) + variants_width(e.variants, 0),
        ItemView::Trait(t) => 4 + sigs_width(t.methods, 0),
        ItemView::Impl(i) => 6 + functions_width(i.methods, 0, chained),
        ItemView::InherentImpl(i) => 4 + functions_width(i.methods, 0, chained),
        ItemView::Module(_) => 3,
        ItemView::Use(u) => if u.alias is Some {
            7
        } else {
            5
        },
    }
}

/// An item is written at a position, from its keyword on.
#[verifier::opaque]
pub open spec fn writes_bare_item(
    toks: Seq<TokenView>,
    pos: int,
    item: ItemView,
    chained: bool,
) -> bool {
    match item {
        ItemView::Function(f) => writes_function(toks, pos, f, chained),
        ItemView::Struct(s) => {
            &&& stands(toks, pos, KindView::Struct)
            &&& s.span == span_at(toks, pos)
            &&& names(toks, pos + 1, s.name)
            &&& stands(toks, pos + 2, KindView::LBrace)
            &&& writes_members(toks, pos + 3, s.fields, 0)
            &&& stands(toks, pos + 3 + members_width(s.fields, 0), KindView::RBrace)
        },
        ItemView::Enum(e) => {
            let brace = pos + 2 + generics_width(e.type_params);
            &&& stands(toks, pos, KindView::Enum)
            &&& e.span == span_at(toks, pos)
            &&& names(toks, pos + 1, e.name)
            &&& writes_generics(toks, pos + 2, e.type_params)
            &&& stands(toks, brace, KindView::LBrace)
            &&& writes_variants(toks, brace + 1, e.variants, 0)
            &&& stands(toks, brace + 1 + variants_width(e.variants, 0), KindView::RBrace)
        },
        ItemView::Trait(t) => {
            &&& stands(toks, pos, KindView::Trait)
            &&& t.span == span_at(toks, pos)
            &&& names(toks, pos + 1, t.name)
            &&& stands(toks, pos + 2, KindView::LBrace)
            &&& writes_sigs(toks, pos + 3, t.methods, 0)
            &&& stands(toks, pos + 3 + sigs_width(t.methods, 0), KindView::RBrace)
        },
        ItemView::Impl(i) => {
            &&& stands(toks, pos, KindView::Impl)
            &&& i.span == span_at(toks, pos)
            &&& names(toks, pos + 1, i.trait_name)
            &&& stands(toks, pos + 2, KindView::For)
            &&& names(toks, pos + 3, i.for_type)
            &&& stands(toks, pos + 4, KindView::LBrace)
            &&& writes_functions(toks, pos + 5, i.methods, 0, chained)
            &&& stands(toks, pos + 5 + functions_width(i.methods, 0, chained), KindView::RBrace)
        },
        ItemView::InherentImpl(i) => {
            &&& stands(toks, pos, KindView::Impl)
            &&& i.span == span_at(toks, pos)
            &&& names(toks, pos + 1, i.for_type)
            &&& stands(toks, pos + 2, KindView::LBrace)
            &&& writes_functions(toks, pos + 3, i.methods, 0, chained)
            &&& stands(toks, pos + 3 + functions_width(i.methods, 0, chained), KindView::RBrace)
        },
        ItemView::Module(m) => {
            &&& stands(toks, pos, KindView::Mod)
            &&& m.span == span_at(toks, pos)
            &&& names(toks, pos + 1, m.name)
            &&& stands(toks, pos + 2, KindView::Semicolon)
        },
        ItemView::Use(u) => {
            &&& stands(toks, pos, KindView::Use)
            &&& u.span == span_at(toks, pos)
            &&& names(toks, pos + 1, u.module)
            &&& stands(toks, pos + 2, KindView::ColonColon)
            &&& names(toks, pos + 3, u.name)
            &&& match u.alias {
                Some(alias) => {
                    &&& stands(toks, pos + 4, KindView::As)
                    &&& names(toks, pos + 5, alias)
                    &&& stands(toks, pos + 6, KindView::Semicolon)
                },
                None => stands(toks, pos + 4, KindView::Semicolon),
            }
        },
    }
}

/// How many tokens an item has.
pub open spec fn item_width(item: ItemView, chained: bool) -> int {
    if is_public(item) {
        1 + bare_item_width(item, chained)
    } else {
        bare_item_width(item, chained)
    }
}

/// An item is written at a position.
pub open spec fn writes_item(
    toks: Seq<TokenView>,
    pos: int,
    item: ItemView,
    chained: bool,
) -> bool {
    if is_public(item) {
        stands(toks, pos, KindView::Pub) && writes_bare_item(toks, pos + 1, item, chained)
    } else {
        writes_bare_item(toks, pos, item, chained)
    }
}

/// How many tokens items have, from one on.
pub open spec fn items_width(list: Seq<ItemView>, from: int, chained: bool) -> int
    decreases list.len() - from,
{
    if from < 0 || from >= list.len() {
        0
    } else {
        item_width(list[from], chained) + items_width(list, from + 1, chained)
    }
}

/// Items from one on are written at a position, one behind another.
pub open spec fn writes_items(
    toks: Seq<TokenView>,
    pos: int,
    list: Seq<ItemView>,
    from: int,
    chained: bool,
) -> bool
    decreases list.len() - from,
{
    if from < 0 || from >= list.len() {
        true
    } else {
        &&& writes_item(toks, pos, list[from], chained)
        &&& writes_items(toks, pos + item_width(list[from], chained), list, from + 1, chained)
    }
}

/// A parameter is read back.
proof fn lemma_param(toks: Seq<TokenView>, pos: int, param: ParamView)
    requires
        0 <= pos,
        writes_param(toks, pos, param),
        kind_at(toks, pos + 2 + type_width(param.ty)) != KindView::Less,
    ensures
        param_at(toks, pos) == Ok::<(ParamView, int), DiagnosticView>(
            (param, pos + 2 + type_width(param.ty)),
        ),
        is_ahead(toks, pos, pos + 2 + type_width(param.ty)),
        kind_at(toks, pos) is Ident,
{
    law_written_types_are_read_back(toks, pos + 2, param.ty);
}

/// A list with commas between its parts is read back.
proof fn lemma_params(
    toks: Seq<TokenView>,
    pos: int,
    list: Seq<ParamView>,
    from: int,
    before: Seq<ParamView>,
)
    requires
        0 <= pos,
        0 <= from < list.len(),
        before == list.take(from),
        writes_params(toks, pos, list, from),
        stands(toks, pos + params_width(list, from), KindView::RParen),
    ensures
        param_list(toks, pos, before) == Ok::<(Seq<ParamView>, int), DiagnosticView>(
            (list, pos + params_width(list, from)),
        ),
        params_width(list, from) > 0,
        kind_at(toks, pos) is Ident,
    decreases list.len() - from,
{
    let end = pos + 2 + type_width(list[from].ty);
    lemma_param(toks, pos, list[from]);
    assert(before.push(list[from]) =~= list.take(from + 1));
    if from + 1 < list.len() {
        lemma_params(toks, end + 1, list, from + 1, list.take(from + 1));
    } else {
        assert(list.take(from + 1) =~= list);
    }
}

/// A signature is read back, where no `-` or `<` stands behind it.
proof fn lemma_signature(
    toks: Seq<TokenView>,
    pos: int,
    params: Seq<ParamView>,
    ty: Option<TypeView>,
)
    requires
        0 <= pos,
        writes_signature(toks, pos, params, ty),
        kind_at(toks, pos + signature_width(params, ty)) != KindView::Less,
        kind_at(toks, pos + signature_width(params, ty)) != KindView::Minus,
    ensures
        signature_at(toks, pos) == Ok::<((Seq<ParamView>, Option<TypeView>), int), DiagnosticView>(
            ((params, ty), pos + signature_width(params, ty)),
        ),
        is_ahead(toks, pos, pos + signature_width(params, ty)),
{
    let close = pos + 1 + params_width(params, 0);
    assert(params.take(0) =~= Seq::empty());
    if params.len() > 0 {
        lemma_params(toks, pos + 1, params, 0, Seq::empty());
    } else {
        assert(params =~= Seq::empty());
    }
    if let Some(ty) = ty {
        law_written_types_are_read_back(toks, close + 3, ty);
    }
    assert(return_type_at(toks, close + 1) == Ok::<(Option<TypeView>, int), DiagnosticView>(
        (ty, close + 1 + return_width(ty)),
    ));
}

/// A function that is written is read back as it was: its parameters in their order, the
/// type that it returns, and its statements.
pub proof fn law_written_functions_are_read_back(
    toks: Seq<TokenView>,
    pos: int,
    f: FunctionView,
    chained: bool,
)
    requires
        0 <= pos,
        writes_function(toks, pos, f, chained),
    ensures
        function_at(toks, pos, f.public) == Ok::<(FunctionView, int), DiagnosticView>(
            (f, pos + function_width(f, chained)),
        ),
        is_ahead(toks, pos, pos + function_width(f, chained)),
{
    let body = pos + 2 + signature_width(f.params, f.return_type);
    assert(stands(toks, body, KindView::LBrace));
    lemma_signature(toks, pos + 2, f.params, f.return_type);
    law_written_bodies_are_read_back(toks, body, f.body, chained);
    assert(body_at(toks, body, "expected '{'"@, "expected '}'"@) == Ok::<
        (Seq<StmtNode>, int),
        DiagnosticView,
    >((f.body, pos + function_width(f, chained))));
    assert(past(toks, pos) == pos + 1);
}

/// What is written of the first of some functions.
proof fn lemma_first_function(
    toks: Seq<TokenView>,
    pos: int,
    list: Seq<FunctionView>,
    from: int,
    chained: bool,
)
    requires
        0 <= from < list.len(),
        writes_functions(toks, pos, list, from, chained),
    ensures
        !list[from].public,
        writes_function(toks, pos, list[from], chained),
        kind_at(toks, pos) == KindView::Fn,
        writes_functions(
            toks,
            pos + function_width(list[from], chained),
            list,
            from + 1,
            chained,
        ),
        functions_width(list, from, chained) == function_width(list[from], chained)
            + functions_width(list, from + 1, chained),
{
}

/// One more function is read.
proof fn lemma_one_more_function(
    toks: Seq<TokenView>,
    pos: int,
    f: FunctionView,
    end: int,
    before: Seq<FunctionView>,
)
    requires
        kind_at(toks, pos) == KindView::Fn,
        function_at(toks, pos, false) == Ok::<(FunctionView, int), DiagnosticView>((f, end)),
        is_ahead(toks, pos, end),
    ensures
        method_list(toks, pos, before) == method_list(toks, end, before.push(f)),
{
}

/// A list of parts one behind another is read back.
proof fn lemma_functions(
    toks: Seq<TokenView>,
    pos: int,
    list: Seq<FunctionView>,
    from: int,
    before: Seq<FunctionView>,
    chained: bool,
)
    requires
        0 <= pos,
        0 <= from <= list.len(),
        before == list.take(from),
        writes_functions(toks, pos, list, from, chained),
        stands(toks, pos + functions_width(list, from, chained), KindView::RBrace),
    ensures
        method_list(toks, pos, before) == Ok::<(Seq<FunctionView>, int), DiagnosticView>(
            (list, pos + functions_width(list, from, chained)),
        ),
        functions_width(list, from, chained) >= 0,
    decreases list.len() - from,
{
    if from < list.len() {
        let end = pos + function_width(list[from], chained);
        lemma_first_function(toks, pos, list, from, chained);
        law_written_functions_are_read_back(toks, pos, list[from], chained);
        assert(before.push(list[from]) =~= list.take(from + 1));
        lemma_one_more_function(toks, pos, list[from], end, before);
        lemma_functions(toks, end, list, from + 1, list.take(from + 1), chained);
    } else {
        assert(before =~= list);
    }
}

/// The signature of a method is read back.
proof fn lemma_sig(toks: Seq<TokenView>, pos: int, sig: MethodSigView)
    requires
        0 <= pos,
        writes_sig(toks, pos, sig),
    ensures
        method_sig_at(toks, pos) == Ok::<(MethodSigView, int), DiagnosticView>(
            (sig, pos + sig_width(sig)),
        ),
        is_ahead(toks, pos, pos + sig_width(sig)),
{
    lemma_signature(toks, pos + 2, sig.params, sig.return_type);
}

/// A list of parts one behind another is read back.
proof fn lemma_sigs(
    toks: Seq<TokenView>,
    pos: int,
    list: Seq<MethodSigView>,
    from: int,
    before: Seq<MethodSigView>,
)
    requires
        0 <= pos,
        0 <= from <= list.len(),
        before == list.take(from),
        writes_sigs(toks, pos, list, from),
        stands(toks, pos + sigs_width(list, from), KindView::RBrace),
    ensures
        method_sig_list(toks, pos, before) == Ok::<(Seq<MethodSigView>, int), DiagnosticView>(
            (list, pos + sigs_width(list, from)),
        ),
        sigs_width(list, from) >= 0,
    decreases list.len() - from,
{
    if from < list.len() {
        let end = pos + sig_width(list[from]);
        lemma_sig(toks, pos, list[from]);
        assert(before.push(list[from]) =~= list.take(from + 1));
        lemma_sigs(toks, end, list, from + 1, list.take(from + 1));
    } else {
        assert(before =~= list);
    }
}

/// A list with commas between its parts is read back.
proof fn lemma_tuple_fields(
    toks: Seq<TokenView>,
    pos: int,
    list: Seq<TupleFieldView>,
    from: int,
    before: Seq<TupleFieldView>,
)
    requires
        0 <= pos,
        0 <= from < list.len(),
        before == list.take(from),
        writes_tuple_fields(toks, pos, list, from),
        stands(toks, pos + tuple_fields_width(list, from), KindView::RParen),
    ensures
        tuple_field_list(toks, pos, before) == Ok::<(Seq<TupleFieldView>, int), DiagnosticView>(
            (list, pos + tuple_fields_width(list, from)),
        ),
        tuple_fields_width(list, from) > 0,
        kind_at(toks, pos) != KindView::RParen,
    decreases list.len() - from,
{
    let end = pos + type_width(list[from].ty);
    law_written_types_are_read_back(toks, pos, list[from].ty);
    assert(tuple_field_at(toks, pos) == Ok::<(TupleFieldView, int), DiagnosticView>(
        (list[from], end),
    ));
    assert(before.push(list[from]) =~= list.take(from + 1));
    if from + 1 < list.len() {
        lemma_tuple_fields(toks, end + 1, list, from + 1, list.take(from + 1));
    } else {
        assert(list.take(from + 1) =~= list);
    }
}

/// A field with a name is read back.
proof fn lemma_field(toks: Seq<TokenView>, pos: int, field: FieldView)
    requires
        0 <= pos,
        writes_field(toks, pos, field),
    ensures
        forall|name: Seq<char>, colon: Seq<char>, end: Seq<char>| #[trigger]
            field_at(toks, pos, name, colon, end) == Ok::<(FieldView, int), DiagnosticView>(
                (field, pos + 3 + type_width(field.ty)),
            ),
        is_ahead(toks, pos, pos + 3 + type_width(field.ty)),
        kind_at(toks, pos) is Ident,
{
    law_written_types_are_read_back(toks, pos + 2, field.ty);
}

/// A list of parts one behind another is read back.
proof fn lemma_fields(
    toks: Seq<TokenView>,
    pos: int,
    list: Seq<FieldView>,
    from: int,
    before: Seq<FieldView>,
)
    requires
        0 <= pos,
        0 <= from <= list.len(),
        before == list.take(from),
        writes_fields(toks, pos, list, from),
        stands(toks, pos + fields_width(list, from), KindView::RBrace),
    ensures
        payload_field_list(toks, pos, before) == Ok::<(Seq<FieldView>, int), DiagnosticView>(
            (list, pos + fields_width(list, from)),
        ),
        fields_width(list, from) >= 0,
    decreases list.len() - from,
{
    if from < list.len() {
        let end = pos + 3 + type_width(list[from].ty);
        lemma_field(toks, pos, list[from]);
        assert(payload_field_at(toks, pos) == Ok::<(FieldView, int), DiagnosticView>(
            (list[from], end),
        ));
        assert(before.push(list[from]) =~= list.take(from + 1));
        lemma_fields(toks, end, list, from + 1, list.take(from + 1));
    } else {
        assert(before =~= list);
    }
}

/// A field of a struct is read back.
proof fn lemma_member(toks: Seq<TokenView>, pos: int, list: Seq<FieldView>, at: int)
    requires
        0 <= pos,
        0 <= at < list.len(),
        writes_member(toks, pos, list, at),
    ensures
        member_at(toks, pos, embedded_before(list, at)) == Ok::<(FieldView, int), DiagnosticView>(
            (list[at], pos + member_width(list[at])),
        ),
        is_ahead(toks, pos, pos + member_width(list[at])),
        kind_at(toks, pos) != KindView::RBrace,
{
    let field = list[at];
    if field.embedded {
        law_written_types_are_read_back(toks, pos + 1, field.ty);
    } else {
        lemma_field(toks, pos, field);
        assert(field_at(
            toks,
            pos,
            "expected field name"@,
            "expected ':' after field name"@,
            "expected ';' or ',' after field type"@,
        ) == Ok::<(FieldView, int), DiagnosticView>((field, pos + member_width(field))));
    }
}

/// A list of parts one behind another is read back.
proof fn lemma_members(
    toks: Seq<TokenView>,
    pos: int,
    list: Seq<FieldView>,
    from: int,
    before: Seq<FieldView>,
)
    requires
        0 <= pos,
        0 <= from <= list.len(),
        before == list.take(from),
        writes_members(toks, pos, list, from),
        stands(toks, pos + members_width(list, from), KindView::RBrace),
    ensures
        member_list(
            toks,
            pos,
            embedded_before(list, from),
            before,
        ) == Ok::<(Seq<FieldView>, int), DiagnosticView>(
            (list, pos + members_width(list, from)),
        ),
        members_width(list, from) >= 0,
    decreases list.len() - from,
{
    if from < list.len() {
        let end = pos + member_width(list[from]);
        lemma_member(toks, pos, list, from);
        assert(embedded_before(list, from + 1) == if list[from].embedded {
            embedded_before(list, from) + 1
        } else {
            embedded_before(list, from)
        });
        assert(before.push(list[from]) =~= list.take(from + 1));
        lemma_members(toks, end, list, from + 1, list.take(from + 1));
    } else {
        assert(before =~= list);
    }
}

/// What a variant carries is read back, where no parenthesis or brace stands behind it.
proof fn lemma_payload(toks: Seq<TokenView>, pos: int, payload: PayloadView)
    requires
        0 <= pos,
        writes_payload(toks, pos, payload),
        stands(toks, pos + payload_width(payload), KindView::Comma),
    ensures
        payload_at(toks, pos) == Ok::<(PayloadView, int), DiagnosticView>(
            (payload, pos + payload_width(payload)),
        ),
        payload_width(payload) >= 0,
{
    match payload {
        PayloadView::Unit => {},
        PayloadView::Tuple(fields) => {
            assert(fields.take(0) =~= Seq::empty());
            if fields.len() > 0 {
                lemma_tuple_fields(toks, pos + 1, fields, 0, Seq::empty());
            } else {
                assert(fields =~= Seq::empty());
            }
        },
        PayloadView::Named(fields) => {
            assert(fields.take(0) =~= Seq::empty());
            lemma_fields(toks, pos + 1, fields, 0, Seq::empty());
        },
    }
}

/// A list of parts one behind another is read back.
proof fn lemma_variants(
    toks: Seq<TokenView>,
    pos: int,
    list: Seq<VariantView>,
    from: int,
    before: Seq<VariantView>,
)
    requires
        0 <= pos,
        0 <= from <= list.len(),
        before == list.take(from),
        writes_variants(toks, pos, list, from),
        stands(toks, pos + variants_width(list, from), KindView::RBrace),
    ensures
        variant_list(toks, pos, before) == Ok::<(Seq<VariantView>, int), DiagnosticView>(
            (list, pos + variants_width(list, from)),
        ),
        variants_width(list, from) >= 0,
    decreases list.len() - from,
{
    if from < list.len() {
        let end = pos + 2 + payload_width(list[from].payload);
        lemma_payload(toks, pos + 1, list[from].payload);
        assert(variant_at(toks, pos) == Ok::<(VariantView, int), DiagnosticView>(
            (list[from], end - 1),
        ));
        assert(before.push(list[from]) =~= list.take(from + 1));
        lemma_variants(toks, end, list, from + 1, list.take(from + 1));
    } else {
        assert(before =~= list);
    }
}

/// A list with commas between its parts is read back.
proof fn lemma_type_params(
    toks: Seq<TokenView>,
    pos: int,
    list: Seq<Seq<char>>,
    from: int,
    before: Seq<Seq<char>>,
)
    requires
        0 <= pos,
        0 <= from < list.len(),
        before == list.take(from),
        writes_type_params(toks, pos, list, from),
        stands(toks, pos + type_params_width(list, from), KindView::Greater),
    ensures
        type_param_list(toks, pos, before) == Ok::<(Seq<Seq<char>>, int), DiagnosticView>(
            (list, pos + type_params_width(list, from)),
        ),
        type_params_width(list, from) > 0,
        kind_at(toks, pos) is Ident,
    decreases list.len() - from,
{
    let end = pos + 1;
    
    assert(before.push(list[from]) =~= list.take(from + 1));
    if from + 1 < list.len() {
        lemma_type_params(toks, end + 1, list, from + 1, list.take(from + 1));
    } else {
        assert(list.take(from + 1) =~= list);
    }
}

/// Type parameters are read back, where no `<` stands behind them.
proof fn lemma_generics(toks: Seq<TokenView>, pos: int, params: Seq<Seq<char>>)
    requires
        0 <= pos,
        writes_generics(toks, pos, params),
        stands(toks, pos + generics_width(params), KindView::LBrace),
    ensures
        type_params_at(toks, pos) == Ok::<(Seq<Seq<char>>, int), DiagnosticView>(
            (params, pos + generics_width(params)),
        ),
        generics_width(params) >= 0,
{
    assert(params.take(0) =~= Seq::empty());
    if params.len() > 0 {
        lemma_type_params(toks, pos + 1, params, 0, Seq::empty());
    } else {
        assert(params =~= Seq::empty());
    }
}

/// An item of this kind is read back.
proof fn lemma_struct(toks: Seq<TokenView>, pos: int, s: StructView, chained: bool)
    requires
        0 <= pos,
        writes_bare_item(toks, pos, ItemView::Struct(s), chained),
    ensures
        struct_at(toks, pos, s.public) == Ok::<(StructView, int), DiagnosticView>(
            (s, pos + bare_item_width(ItemView::Struct(s), chained)),
        ),
        is_ahead(toks, pos, pos + bare_item_width(ItemView::Struct(s), chained)),
{
    reveal(writes_bare_item);
    reveal(bare_item_width);
    assert(s.fields.take(0) =~= Seq::empty());
    assert(embedded_before(s.fields, 0) == 0);
    lemma_members(toks, pos + 3, s.fields, 0, Seq::empty());
}

/// An item of this kind is read back.
proof fn lemma_enum(toks: Seq<TokenView>, pos: int, e: EnumView, chained: bool)
    requires
        0 <= pos,
        writes_bare_item(toks, pos, ItemView::Enum(e), chained),
    ensures
        enum_at(toks, pos, e.public) == Ok::<(EnumView, int), DiagnosticView>(
            (e, pos + bare_item_width(ItemView::Enum(e), chained)),
        ),
        is_ahead(toks, pos, pos + bare_item_width(ItemView::Enum(e), chained)),
{
    reveal(writes_bare_item);
    reveal(bare_item_width);
    assert(e.variants.take(0) =~= Seq::empty());
    lemma_generics(toks, pos + 2, e.type_params);
    let brace = pos + 2 + generics_width(e.type_params);
    lemma_variants(toks, brace + 1, e.variants, 0, Seq::empty());
}

/// An item of this kind is read back.
proof fn lemma_trait(toks: Seq<TokenView>, pos: int, t: TraitView, chained: bool)
    requires
        0 <= pos,
        writes_bare_item(toks, pos, ItemView::Trait(t), chained),
    ensures
        trait_at(toks, pos, t.public) == Ok::<(TraitView, int), DiagnosticView>(
            (t, pos + bare_item_width(ItemView::Trait(t), chained)),
        ),
        is_ahead(toks, pos, pos + bare_item_width(ItemView::Trait(t), chained)),
{
    reveal(writes_bare_item);
    reveal(bare_item_width);
    assert(t.methods.take(0) =~= Seq::empty());
    lemma_sigs(toks, pos + 3, t.methods, 0, Seq::empty());
}

/// An item of this kind is read back.
proof fn lemma_impl(toks: Seq<TokenView>, pos: int, i: TraitImplView, chained: bool)
    requires
        0 <= pos,
        writes_bare_item(toks, pos, ItemView::Impl(i), chained),
    ensures
        impl_at(toks, pos) == Ok::<(ItemView, int), DiagnosticView>(
            (ItemView::Impl(i), pos + bare_item_width(ItemView::Impl(i), chained)),
        ),
        is_ahead(toks, pos, pos + bare_item_width(ItemView::Impl(i), chained)),
{
    reveal(writes_bare_item);
    reveal(bare_item_width);
    assert(i.methods.take(0) =~= Seq::empty());
    lemma_functions(toks, pos + 5, i.methods, 0, Seq::empty(), chained);
    assert(impl_head_at(toks, pos + 1) == Ok::<
        ((Option<Seq<char>>, Seq<char>), int),
        DiagnosticView,
    >(((Some(i.trait_name), i.for_type), pos + 4)));
}

/// An item of this kind is read back.
proof fn lemma_inherentimpl(toks: Seq<TokenView>, pos: int, i: InherentImplView, chained: bool)
    requires
        0 <= pos,
        writes_bare_item(toks, pos, ItemView::InherentImpl(i), chained),
    ensures
        impl_at(toks, pos) == Ok::<(ItemView, int), DiagnosticView>(
            (ItemView::InherentImpl(i), pos + bare_item_width(ItemView::InherentImpl(i), chained)),
        ),
        is_ahead(toks, pos, pos + bare_item_width(ItemView::InherentImpl(i), chained)),
{
    reveal(writes_bare_item);
    reveal(bare_item_width);
    assert(i.methods.take(0) =~= Seq::empty());
    lemma_functions(toks, pos + 3, i.methods, 0, Seq::empty(), chained);
    assert(impl_head_at(toks, pos + 1) == Ok::<
        ((Option<Seq<char>>, Seq<char>), int),
        DiagnosticView,
    >(((None, i.for_type), pos + 2)));
}

/// An item of this kind is read back.
proof fn lemma_use(toks: Seq<TokenView>, pos: int, u: UseView, chained: bool)
    requires
        0 <= pos,
        writes_bare_item(toks, pos, ItemView::Use(u), chained),
    ensures
        use_at(toks, pos, u.public) == Ok::<(UseView, int), DiagnosticView>(
            (u, pos + bare_item_width(ItemView::Use(u), chained)),
        ),
        is_ahead(toks, pos, pos + bare_item_width(ItemView::Use(u), chained)),
{
    reveal(writes_bare_item);
    reveal(bare_item_width);
    assert(alias_at(toks, pos + 4) == Ok::<(Option<Seq<char>>, int), DiagnosticView>(
        (u.alias, pos + bare_item_width(ItemView::Use(u), chained) - 1),
    ));
}

/// An item of this kind is read back.
proof fn lemma_function(toks: Seq<TokenView>, pos: int, f: FunctionView, chained: bool)
    requires
        0 <= pos,
        writes_bare_item(toks, pos, ItemView::Function(f), chained),
    ensures
        function_at(toks, pos, f.public) == Ok::<(FunctionView, int), DiagnosticView>(
            (f, pos + bare_item_width(ItemView::Function(f), chained)),
        ),
        is_ahead(toks, pos, pos + bare_item_width(ItemView::Function(f), chained)),
{
    reveal(writes_bare_item);
    reveal(bare_item_width);
    law_written_functions_are_read_back(toks, pos, f, chained);
}

/// An item of this kind is read back.
proof fn lemma_module(toks: Seq<TokenView>, pos: int, m: ModuleView, chained: bool)
    requires
        0 <= pos,
        writes_bare_item(toks, pos, ItemView::Module(m), chained),
    ensures
        module_at(toks, pos, m.public) == Ok::<(ModuleView, int), DiagnosticView>(
            (m, pos + bare_item_width(ItemView::Module(m), chained)),
        ),
        is_ahead(toks, pos, pos + bare_item_width(ItemView::Module(m), chained)),
{
    reveal(writes_bare_item);
    reveal(bare_item_width);
}

/// The keyword of an item stands where it starts.
proof fn lemma_keyword(toks: Seq<TokenView>, pos: int, item: ItemView, chained: bool)
    requires
        writes_bare_item(toks, pos, item, chained),
    ensures
        0 <= pos < toks.len(),
        match item {
            ItemView::Function(_) => kind_at(toks, pos) == KindView::Fn,
            ItemView::Struct(_) => kind_at(toks, pos) == KindView::Struct,
            ItemView::Enum(_) => kind_at(toks, pos) == KindView::Enum,
            ItemView::Trait(_) => kind_at(toks, pos) == KindView::Trait,
            ItemView::Impl(_) | ItemView::InherentImpl(_) => kind_at(toks, pos) == KindView::Impl,
            ItemView::Module(_) => kind_at(toks, pos) == KindView::Mod,
            ItemView::Use(_) => kind_at(toks, pos) == KindView::Use,
        },
{
    reveal(writes_bare_item);
}

/// An item starts behind `pub`, if it is public.
spec fn is_head(toks: Seq<TokenView>, pos: int, start: int, public: bool) -> bool {
    if public {
        start == pos + 1 && kind_at(toks, pos) == KindView::Pub
    } else {
        start == pos && kind_at(toks, pos) != KindView::Pub
    }
}

/// An item of this kind is read, with its visibility.
proof fn read_function(toks: Seq<TokenView>, pos: int, start: int, f: FunctionView, end: int)
    requires
        is_head(toks, pos, start, f.public),
        kind_at(toks, start) == KindView::Fn,
        function_at(toks, start, f.public) == Ok::<(FunctionView, int), DiagnosticView>((f, end)),
    ensures
        item_at(toks, pos) == Ok::<(ItemView, int), DiagnosticView>((ItemView::Function(f), end)),
{
}

/// An item of this kind is read, with its visibility.
proof fn read_struct(toks: Seq<TokenView>, pos: int, start: int, s: StructView, end: int)
    requires
        is_head(toks, pos, start, s.public),
        kind_at(toks, start) == KindView::Struct,
        struct_at(toks, start, s.public) == Ok::<(StructView, int), DiagnosticView>((s, end)),
    ensures
        item_at(toks, pos) == Ok::<(ItemView, int), DiagnosticView>((ItemView::Struct(s), end)),
{
}

/// An item of this kind is read, with its visibility.
proof fn read_enum(toks: Seq<TokenView>, pos: int, start: int, e: EnumView, end: int)
    requires
        is_head(toks, pos, start, e.public),
        kind_at(toks, start) == KindView::Enum,
        enum_at(toks, start, e.public) == Ok::<(EnumView, int), DiagnosticView>((e, end)),
    ensures
        item_at(toks, pos) == Ok::<(ItemView, int), DiagnosticView>((ItemView::Enum(e), end)),
{
}

/// An item of this kind is read, with its visibility.
proof fn read_trait(toks: Seq<TokenView>, pos: int, start: int, t: TraitView, end: int)
    requires
        is_head(toks, pos, start, t.public),
        kind_at(toks, start) == KindView::Trait,
        trait_at(toks, start, t.public) == Ok::<(TraitView, int), DiagnosticView>((t, end)),
    ensures
        item_at(toks, pos) == Ok::<(ItemView, int), DiagnosticView>((ItemView::Trait(t), end)),
{
}

/// An item of this kind is read, with its visibility.
proof fn read_impl(toks: Seq<TokenView>, pos: int, start: int, i: TraitImplView, end: int)
    requires
        is_head(toks, pos, start, false),
        kind_at(toks, start) == KindView::Impl,
        impl_at(toks, start) == Ok::<(ItemView, int), DiagnosticView>((ItemView::Impl(i), end)),
    ensures
        item_at(toks, pos) == Ok::<(ItemView, int), DiagnosticView>((ItemView::Impl(i), end)),
{
}

/// An item of this kind is read, with its visibility.
proof fn read_inherentimpl(
    toks: Seq<TokenView>,
    pos: int,
    start: int,
    i: InherentImplView,
    end: int,
)
    requires
        is_head(toks, pos, start, false),
        kind_at(toks, start) == KindView::Impl,
        impl_at(
            toks,
            start,
        ) == Ok::<(ItemView, int), DiagnosticView>((ItemView::InherentImpl(i), end)),
    ensures
        item_at(
            toks,
            pos,
        ) == Ok::<(ItemView, int), DiagnosticView>((ItemView::InherentImpl(i), end)),
{
}

/// An item of this kind is read, with its visibility.
proof fn read_module(toks: Seq<TokenView>, pos: int, start: int, m: ModuleView, end: int)
    requires
        is_head(toks, pos, start, m.public),
        kind_at(toks, start) == KindView::Mod,
        module_at(toks, start, m.public) == Ok::<(ModuleView, int), DiagnosticView>((m, end)),
    ensures
        item_at(toks, pos) == Ok::<(ItemView, int), DiagnosticView>((ItemView::Module(m), end)),
{
}

/// An item of this kind is read, with its visibility.
proof fn read_use(toks: Seq<TokenView>, pos: int, start: int, u: UseView, end: int)
    requires
        is_head(toks, pos, start, u.public),
        kind_at(toks, start) == KindView::Use,
        use_at(toks, start, u.public) == Ok::<(UseView, int), DiagnosticView>((u, end)),
    ensures
        item_at(toks, pos) == Ok::<(ItemView, int), DiagnosticView>((ItemView::Use(u), end)),
{
}

/// An item that is written is read back as it was, with its visibility, names, types and
/// parts in their order.
pub proof fn law_written_items_are_read_back(
    toks: Seq<TokenView>,
    pos: int,
    item: ItemView,
    chained: bool,
)
    requires
        0 <= pos,
        writes_item(toks, pos, item, chained),
    ensures
        item_at(toks, pos) == Ok::<(ItemView, int), DiagnosticView>(
            (item, pos + item_width(item, chained)),
        ),
        is_ahead(toks, pos, pos + item_width(item, chained)),
        kind_at(toks, pos) != KindView::Eof,
{
    let start = if is_public(item) {
        pos + 1
    } else {
        pos
    };
    let end = start + bare_item_width(item, chained);
    lemma_keyword(toks, start, item, chained);
    match item {
        ItemView::Function(f) => {
            lemma_function(toks, start, f, chained);
            read_function(toks, pos, start, f, end);
        },
        ItemView::Struct(s) => {
            lemma_struct(toks, start, s, chained);
            read_struct(toks, pos, start, s, end);
        },
        ItemView::Enum(e) => {
            lemma_enum(toks, start, e, chained);
            read_enum(toks, pos, start, e, end);
        },
        ItemView::Trait(t) => {
            lemma_trait(toks, start, t, chained);
            read_trait(toks, pos, start, t, end);
        },
        ItemView::Impl(i) => {
            lemma_impl(toks, start, i, chained);
            read_impl(toks, pos, start, i, end);
        },
        ItemView::InherentImpl(i) => {
            lemma_inherentimpl(toks, start, i, chained);
            read_inherentimpl(toks, pos, start, i, end);
        },
        ItemView::Module(m) => {
            lemma_module(toks, start, m, chained);
            read_module(toks, pos, start, m, end);
        },
        ItemView::Use(u) => {
            lemma_use(toks, start, u, chained);
            read_use(toks, pos, start, u, end);
        },
    }
}

/// What is written of the first of some items.
proof fn lemma_first_item(
    toks: Seq<TokenView>,
    pos: int,
    list: Seq<ItemView>,
    from: int,
    chained: bool,
)
    requires
        0 <= from < list.len(),
        writes_items(toks, pos, list, from, chained),
    ensures
        writes_item(toks, pos, list[from], chained),
        writes_items(toks, pos + item_width(list[from], chained), list, from + 1, chained),
        items_width(list, from, chained) == item_width(list[from], chained) + items_width(
            list,
            from + 1,
            chained,
        ),
{
}

/// One more item is read.
proof fn lemma_one_more_item(
    toks: Seq<TokenView>,
    pos: int,
    item: ItemView,
    end: int,
    before: Seq<ItemView>,
)
    requires
        kind_at(toks, pos) != KindView::Eof,
        item_at(toks, pos) == Ok::<(ItemView, int), DiagnosticView>((item, end)),
        is_ahead(toks, pos, end),
    ensures
        item_list(toks, pos, before) == item_list(toks, end, before.push(item)),
{
}

/// A list of parts one behind another is read back.
proof fn lemma_items(
    toks: Seq<TokenView>,
    pos: int,
    list: Seq<ItemView>,
    from: int,
    before: Seq<ItemView>,
    chained: bool,
)
    requires
        0 <= pos,
        0 <= from <= list.len(),
        before == list.take(from),
        writes_items(toks, pos, list, from, chained),
        stands(toks, pos + items_width(list, from, chained), KindView::Eof),
    ensures
        item_list(toks, pos, before) == Ok::<(Seq<ItemView>, int), DiagnosticView>(
            (list, pos + items_width(list, from, chained)),
        ),
        items_width(list, from, chained) >= 0,
    decreases list.len() - from,
{
    if from < list.len() {
        let end = pos + item_width(list[from], chained);
        lemma_first_item(toks, pos, list, from, chained);
        law_written_items_are_read_back(toks, pos, list[from], chained);
        assert(before.push(list[from]) =~= list.take(from + 1));
        lemma_one_more_item(toks, pos, list[from], end, before);
        lemma_items(toks, end, list, from + 1, list.take(from + 1), chained);
    } else {
        assert(before =~= list);
    }
}

/// A program that is written as tokens, up to the end, is read back as it was: all of its
/// items, in their order.
pub proof fn law_written_programs_are_read_back(
    toks: Seq<TokenView>,
    program: SyntaxView,
    chained: bool,
)
    requires
        writes_items(toks, 0, program.items, 0, chained),
        stands(toks, items_width(program.items, 0, chained), KindView::Eof),
    ensures
        program_of(toks) == Ok::<SyntaxView, DiagnosticView>(program),
{
    assert(program.items.take(0) =~= Seq::empty());
    lemma_items(toks, 0, program.items, 0, Seq::empty(), chained);
}

} // verus!
