//! Items: functions, types, traits and imports.

use crate::ast::{
    fields_view, functions_view, items_view, method_sigs_view, params_view, texts_view,
    tuple_fields_view, variants_view, EnumDef, EnumTupleFieldDef, EnumVariantDef,
    EnumVariantPayloadDef, EnumView, FieldView, Function, FunctionParam, FunctionView,
    InherentImplDef, InherentImplView, Item, ItemView, MethodSigView, ModuleDecl, ModuleView,
    ParamView, PayloadView, Program, StructDef, StructField, StructView, SyntaxView, TraitDef,
    TraitImplDef, TraitImplView, TraitMethodSig, TraitView, TupleFieldView, TypeName, TypeView,
    UseDecl, UseView, VariantView,
};
use crate::diagnostic::{Diagnostic, DiagnosticView};
use crate::parser::cursor::{
    error_at, expect_at, ident_at, is_ahead, kind_at, past, separator_at, span_at, stuck, Parse,
    Parser,
};
use crate::parser::stmts::body_at;
use crate::parser::types::type_at;
use crate::text::{decimal, decimal_text};
use crate::token::{tokens_view, KindView, Token, TokenKind, TokenView};
use vstd::prelude::*;
use vstd::string::StringExecFns;

verus! {

/// A module declaration.
pub open spec fn module_at(toks: Seq<TokenView>, pos: int, public: bool) -> Parse<ModuleView> {
    match ident_at(toks, pos + 1, "expected module name after 'mod'"@) {
        Ok((name, p1)) => match expect_at(
            toks,
            p1,
            KindView::Semicolon,
            "expected ';' after module declaration"@,
        ) {
            Ok((_, p2)) => Ok((ModuleView { name, public, span: span_at(toks, pos) }, p2)),
            Err(error) => Err(error),
        },
        Err(error) => Err(error),
    }
}

/// The alias of an import, if it has one.
pub open spec fn alias_at(toks: Seq<TokenView>, pos: int) -> Parse<Option<Seq<char>>> {
    if kind_at(toks, pos) == KindView::As {
        match ident_at(toks, pos + 1, "expected import alias after 'as'"@) {
            Ok((alias, end)) => Ok((Some(alias), end)),
            Err(error) => Err(error),
        }
    } else {
        Ok((None, pos))
    }
}

/// An import.
pub open spec fn use_at(toks: Seq<TokenView>, pos: int, public: bool) -> Parse<UseView> {
    let span = span_at(toks, pos);
    match ident_at(toks, pos + 1, "expected module name after 'use'"@) {
        Ok(
            (module, p1),
        ) => match expect_at(toks, p1, KindView::ColonColon, "expected '::' in use declaration"@) {
            Ok((_, p2)) => match ident_at(toks, p2, "expected imported item name"@) {
                Ok((name, p3)) => match alias_at(toks, p3) {
                    Ok((alias, p4)) => match expect_at(
                        toks,
                        p4,
                        KindView::Semicolon,
                        "expected ';' after use declaration"@,
                    ) {
                        Ok((_, p5)) => Ok((UseView { module, name, alias, public, span }, p5)),
                        Err(error) => Err(error),
                    },
                    Err(error) => Err(error),
                },
                Err(error) => Err(error),
            },
            Err(error) => Err(error),
        },
        Err(error) => Err(error),
    }
}

/// The names of type parameters, added to those before them.
pub open spec fn type_param_list(
    toks: Seq<TokenView>,
    pos: int,
    before: Seq<Seq<char>>,
) -> Parse<Seq<Seq<char>>>
    decreases toks.len() - pos,
{
    match ident_at(toks, pos, "expected generic type parameter"@) {
        Ok((name, end)) => if kind_at(toks, end) != KindView::Comma {
            Ok((before.push(name), end))
        } else if is_ahead(toks, pos, end + 1) {
            type_param_list(toks, end + 1, before.push(name))
        } else {
            stuck(toks, pos)
        },
        Err(error) => Err(error),
    }
}

/// The type parameters of a declaration, if it has some.
pub open spec fn type_params_at(toks: Seq<TokenView>, pos: int) -> Parse<Seq<Seq<char>>> {
    if kind_at(toks, pos) != KindView::Less {
        Ok((Seq::empty(), pos))
    } else if kind_at(toks, pos + 1) == KindView::Greater {
        Err(
            error_at(toks, pos + 1, "generic declaration requires at least one type parameter"@),
        )
    } else {
        match type_param_list(toks, pos + 1, Seq::empty()) {
            Ok((params, p1)) => match expect_at(
                toks,
                p1,
                KindView::Greater,
                "expected '>' after generic type parameters"@,
            ) {
                Ok((_, p2)) => Ok((params, p2)),
                Err(error) => Err(error),
            },
            Err(error) => Err(error),
        }
    }
}

/// A field of a tuple payload.
pub open spec fn tuple_field_at(toks: Seq<TokenView>, pos: int) -> Parse<TupleFieldView> {
    match type_at(toks, pos) {
        Ok((ty, end)) => Ok((TupleFieldView { ty, span: span_at(toks, pos) }, end)),
        Err(error) => Err(error),
    }
}

/// Fields of a tuple payload, added to those before them.
pub open spec fn tuple_field_list(
    toks: Seq<TokenView>,
    pos: int,
    before: Seq<TupleFieldView>,
) -> Parse<Seq<TupleFieldView>>
    decreases toks.len() - pos,
{
    match tuple_field_at(toks, pos) {
        Ok((node, end)) => if kind_at(toks, end) != KindView::Comma {
            Ok((before.push(node), end))
        } else if kind_at(toks, end + 1) == KindView::RParen {
            Ok((before.push(node), end + 1))
        } else if is_ahead(toks, pos, end + 1) {
            tuple_field_list(toks, end + 1, before.push(node))
        } else {
            stuck(toks, pos)
        },
        Err(error) => Err(error),
    }
}

/// The fields of a tuple payload behind its parenthesis.
pub open spec fn tuple_fields_at(toks: Seq<TokenView>, pos: int) -> Parse<Seq<TupleFieldView>> {
    if kind_at(toks, pos) == KindView::RParen {
        Ok((Seq::empty(), pos))
    } else {
        tuple_field_list(toks, pos, Seq::empty())
    }
}

/// A field with a name and a type, and the separator behind it.
pub open spec fn field_at(
    toks: Seq<TokenView>,
    pos: int,
    name_message: Seq<char>,
    colon_message: Seq<char>,
    end_message: Seq<char>,
) -> Parse<FieldView> {
    match ident_at(toks, pos, name_message) {
        Ok((name, p1)) => match expect_at(toks, p1, KindView::Colon, colon_message) {
            Ok((_, p2)) => match type_at(toks, p2) {
                Ok((ty, p3)) => match separator_at(toks, p3, end_message) {
                    Ok((_, p4)) => Ok(
                        (
                            FieldView { name, ty, embedded: false, span: span_at(toks, pos) },
                            p4,
                        ),
                    ),
                    Err(error) => Err(error),
                },
                Err(error) => Err(error),
            },
            Err(error) => Err(error),
        },
        Err(error) => Err(error),
    }
}

/// A field of a named payload.
pub open spec fn payload_field_at(toks: Seq<TokenView>, pos: int) -> Parse<FieldView> {
    field_at(
        toks,
        pos,
        "expected enum payload field name"@,
        "expected ':' after enum payload field"@,
        "expected ';' or ',' after enum payload field type"@,
    )
}

/// Fields of a named payload, added to those before them.
pub open spec fn payload_field_list(
    toks: Seq<TokenView>,
    pos: int,
    before: Seq<FieldView>,
) -> Parse<Seq<FieldView>>
    decreases toks.len() - pos,
{
    if kind_at(toks, pos) == KindView::RBrace {
        Ok((before, pos))
    } else {
        match payload_field_at(toks, pos) {
            Ok((node, end)) => if is_ahead(toks, pos, end) {
                payload_field_list(toks, end, before.push(node))
            } else {
                stuck(toks, pos)
            },
            Err(error) => Err(error),
        }
    }
}

/// What a variant carries.
pub open spec fn payload_at(toks: Seq<TokenView>, pos: int) -> Parse<PayloadView> {
    if kind_at(toks, pos) == KindView::LParen {
        match tuple_fields_at(toks, pos + 1) {
            Ok((fields, p1)) => match expect_at(
                toks,
                p1,
                KindView::RParen,
                "expected ')' after enum tuple payload"@,
            ) {
                Ok((_, p2)) => Ok((PayloadView::Tuple(fields), p2)),
                Err(error) => Err(error),
            },
            Err(error) => Err(error),
        }
    } else if kind_at(toks, pos) == KindView::LBrace {
        match payload_field_list(toks, pos + 1, Seq::empty()) {
            Ok((fields, p1)) => match expect_at(
                toks,
                p1,
                KindView::RBrace,
                "expected '}' after named enum payload"@,
            ) {
                Ok((_, p2)) => Ok((PayloadView::Named(fields), p2)),
                Err(error) => Err(error),
            },
            Err(error) => Err(error),
        }
    } else {
        Ok((PayloadView::Unit, pos))
    }
}

/// A variant of an enum.
pub open spec fn variant_at(toks: Seq<TokenView>, pos: int) -> Parse<VariantView> {
    match ident_at(toks, pos, "expected enum variant name"@) {
        Ok((name, p1)) => match payload_at(toks, p1) {
            Ok((payload, p2)) => Ok((VariantView { name, payload, span: span_at(toks, pos) }, p2)),
            Err(error) => Err(error),
        },
        Err(error) => Err(error),
    }
}

/// The variants of an enum up to its brace, added to those before them.
pub open spec fn variant_list(
    toks: Seq<TokenView>,
    pos: int,
    before: Seq<VariantView>,
) -> Parse<Seq<VariantView>>
    decreases toks.len() - pos,
{
    if kind_at(toks, pos) == KindView::RBrace {
        Ok((before, pos))
    } else {
        match variant_at(toks, pos) {
            Ok((variant, end)) => {
                let next = if kind_at(toks, end) == KindView::Comma {
                    end + 1
                } else {
                    end
                };
                if next == end && kind_at(toks, end) != KindView::RBrace {
                    Err(error_at(toks, end, "expected ',' between enum variants"@))
                } else if is_ahead(toks, pos, next) {
                    variant_list(toks, next, before.push(variant))
                } else {
                    stuck(toks, pos)
                }
            },
            Err(error) => Err(error),
        }
    }
}

/// An enum.
pub open spec fn enum_at(toks: Seq<TokenView>, pos: int, public: bool) -> Parse<EnumView> {
    let span = span_at(toks, pos);
    match ident_at(toks, pos + 1, "expected enum name"@) {
        Ok((name, p1)) => match type_params_at(toks, p1) {
            Ok(
                (type_params, p2),
            ) => match expect_at(toks, p2, KindView::LBrace, "expected '{' after enum name"@) {
                Ok((_, p3)) => match variant_list(toks, p3, Seq::empty()) {
                    Ok(
                        (variants, p4),
                    ) => match expect_at(toks, p4, KindView::RBrace, "expected '}' after enum"@) {
                        Ok(
                            (_, p5),
                        ) => Ok((EnumView { name, public, type_params, variants, span }, p5)),
                        Err(error) => Err(error),
                    },
                    Err(error) => Err(error),
                },
                Err(error) => Err(error),
            },
            Err(error) => Err(error),
        },
        Err(error) => Err(error),
    }
}

/// The name that an embedded field is given.
pub open spec fn embed_name(index: nat) -> Seq<char> {
    "__embed_"@ + decimal(index)
}

/// A field of a struct: embedded, or with a name and a type.
pub open spec fn member_at(toks: Seq<TokenView>, pos: int, embeds: nat) -> Parse<FieldView> {
    if kind_at(toks, pos) == KindView::Embed {
        match type_at(toks, pos + 1) {
            Ok(
                (ty, p1),
            ) => match separator_at(toks, p1, "expected ';' or ',' after embedded field"@) {
                Ok((_, p2)) => Ok(
                    (
                        FieldView {
                            name: embed_name(embeds),
                            ty,
                            embedded: true,
                            span: span_at(toks, pos),
                        },
                        p2,
                    ),
                ),
                Err(error) => Err(error),
            },
            Err(error) => Err(error),
        }
    } else {
        field_at(
            toks,
            pos,
            "expected field name"@,
            "expected ':' after field name"@,
            "expected ';' or ',' after field type"@,
        )
    }
}

/// The fields of a struct up to its brace, added to those before them; `embeds`
/// of these are embedded.
pub open spec fn member_list(
    toks: Seq<TokenView>,
    pos: int,
    embeds: nat,
    before: Seq<FieldView>,
) -> Parse<Seq<FieldView>>
    decreases toks.len() - pos,
{
    if kind_at(toks, pos) == KindView::RBrace {
        Ok((before, pos))
    } else {
        match member_at(toks, pos, embeds) {
            Ok((field, end)) => if is_ahead(toks, pos, end) {
                member_list(
                    toks,
                    end,
                    if field.embedded {
                        embeds + 1
                    } else {
                        embeds
                    },
                    before.push(field),
                )
            } else {
                stuck(toks, pos)
            },
            Err(error) => Err(error),
        }
    }
}

/// A struct.
pub open spec fn struct_at(toks: Seq<TokenView>, pos: int, public: bool) -> Parse<StructView> {
    let span = span_at(toks, pos);
    match ident_at(toks, pos + 1, "expected struct name"@) {
        Ok(
            (name, p1),
        ) => match expect_at(toks, p1, KindView::LBrace, "expected '{' after struct name"@) {
            Ok((_, p2)) => match member_list(toks, p2, 0, Seq::empty()) {
                Ok(
                    (fields, p3),
                ) => match expect_at(toks, p3, KindView::RBrace, "expected '}' after struct"@) {
                    Ok((_, p4)) => Ok((StructView { name, public, fields, span }, p4)),
                    Err(error) => Err(error),
                },
                Err(error) => Err(error),
            },
            Err(error) => Err(error),
        },
        Err(error) => Err(error),
    }
}

/// A parameter of a function.
pub open spec fn param_at(toks: Seq<TokenView>, pos: int) -> Parse<ParamView> {
    match ident_at(toks, pos, "expected parameter name"@) {
        Ok(
            (name, p1),
        ) => match expect_at(toks, p1, KindView::Colon, "expected ':' after parameter name"@) {
            Ok((_, p2)) => match type_at(toks, p2) {
                Ok((ty, p3)) => Ok((ParamView { name, ty, span: span_at(toks, pos) }, p3)),
                Err(error) => Err(error),
            },
            Err(error) => Err(error),
        },
        Err(error) => Err(error),
    }
}

/// Parameters, added to those before them.
pub open spec fn param_list(
    toks: Seq<TokenView>,
    pos: int,
    before: Seq<ParamView>,
) -> Parse<Seq<ParamView>>
    decreases toks.len() - pos,
{
    match param_at(toks, pos) {
        Ok((node, end)) => if kind_at(toks, end) != KindView::Comma {
            Ok((before.push(node), end))
        } else if kind_at(toks, end + 1) == KindView::RParen {
            Ok((before.push(node), end + 1))
        } else if is_ahead(toks, pos, end + 1) {
            param_list(toks, end + 1, before.push(node))
        } else {
            stuck(toks, pos)
        },
        Err(error) => Err(error),
    }
}

/// The parameters of a function behind its parenthesis.
pub open spec fn params_at(toks: Seq<TokenView>, pos: int) -> Parse<Seq<ParamView>> {
    if kind_at(toks, pos) == KindView::RParen {
        Ok((Seq::empty(), pos))
    } else {
        param_list(toks, pos, Seq::empty())
    }
}

/// The type that a function returns, if it says one.
pub open spec fn return_type_at(toks: Seq<TokenView>, pos: int) -> Parse<Option<TypeView>> {
    if kind_at(toks, pos) == KindView::Minus {
        match expect_at(toks, pos + 1, KindView::Greater, "expected '>' in return type"@) {
            Ok((_, p1)) => match type_at(toks, p1) {
                Ok((ty, p2)) => Ok((Some(ty), p2)),
                Err(error) => Err(error),
            },
            Err(error) => Err(error),
        }
    } else {
        Ok((None, pos))
    }
}

/// The parameters of a function in parentheses, and what it returns.
pub open spec fn signature_at(toks: Seq<TokenView>, pos: int) -> Parse<
    (Seq<ParamView>, Option<TypeView>),
> {
    match expect_at(toks, pos, KindView::LParen, "expected '('"@) {
        Ok((_, p1)) => match params_at(toks, p1) {
            Ok((params, p2)) => match expect_at(toks, p2, KindView::RParen, "expected ')'"@) {
                Ok((_, p3)) => match return_type_at(toks, p3) {
                    Ok((return_type, p4)) => Ok(((params, return_type), p4)),
                    Err(error) => Err(error),
                },
                Err(error) => Err(error),
            },
            Err(error) => Err(error),
        },
        Err(error) => Err(error),
    }
}

/// A function.
pub open spec fn function_at(toks: Seq<TokenView>, pos: int, public: bool) -> Parse<FunctionView> {
    let span = span_at(toks, pos);
    match ident_at(toks, past(toks, pos), "expected function name"@) {
        Ok((name, p1)) => match signature_at(toks, p1) {
            Ok(((params, return_type), p2)) => match body_at(
                toks,
                p2,
                "expected '{'"@,
                "expected '}'"@,
            ) {
                Ok((body, p3)) => Ok(
                    (
                        FunctionView { name, public, params, return_type, body, span },
                        p3,
                    ),
                ),
                Err(error) => Err(error),
            },
            Err(error) => Err(error),
        },
        Err(error) => Err(error),
    }
}

/// The signature of a trait method.
pub open spec fn method_sig_at(toks: Seq<TokenView>, pos: int) -> Parse<MethodSigView> {
    let span = span_at(toks, pos);
    match expect_at(toks, pos, KindView::Fn, "expected 'fn' in trait body"@) {
        Ok((_, p1)) => match ident_at(toks, p1, "expected trait method name"@) {
            Ok((name, p2)) => match signature_at(toks, p2) {
                Ok(((params, return_type), p3)) => match expect_at(
                    toks,
                    p3,
                    KindView::Semicolon,
                    "expected ';' after trait method signature"@,
                ) {
                    Ok((_, p4)) => Ok((MethodSigView { name, params, return_type, span }, p4)),
                    Err(error) => Err(error),
                },
                Err(error) => Err(error),
            },
            Err(error) => Err(error),
        },
        Err(error) => Err(error),
    }
}

/// The methods of a trait up to its brace, added to those before them.
pub open spec fn method_sig_list(
    toks: Seq<TokenView>,
    pos: int,
    before: Seq<MethodSigView>,
) -> Parse<Seq<MethodSigView>>
    decreases toks.len() - pos,
{
    if kind_at(toks, pos) == KindView::RBrace {
        Ok((before, pos))
    } else {
        match method_sig_at(toks, pos) {
            Ok((node, end)) => if is_ahead(toks, pos, end) {
                method_sig_list(toks, end, before.push(node))
            } else {
                stuck(toks, pos)
            },
            Err(error) => Err(error),
        }
    }
}

/// A trait.
pub open spec fn trait_at(toks: Seq<TokenView>, pos: int, public: bool) -> Parse<TraitView> {
    let span = span_at(toks, pos);
    match ident_at(toks, pos + 1, "expected trait name"@) {
        Ok(
            (name, p1),
        ) => match expect_at(toks, p1, KindView::LBrace, "expected '{' after trait name"@) {
            Ok((_, p2)) => match method_sig_list(toks, p2, Seq::empty()) {
                Ok(
                    (methods, p3),
                ) => match expect_at(toks, p3, KindView::RBrace, "expected '}' after trait body"@) {
                    Ok((_, p4)) => Ok((TraitView { name, public, methods, span }, p4)),
                    Err(error) => Err(error),
                },
                Err(error) => Err(error),
            },
            Err(error) => Err(error),
        },
        Err(error) => Err(error),
    }
}

/// The functions of an implementation up to its brace, added to those before
/// them.
pub open spec fn method_list(
    toks: Seq<TokenView>,
    pos: int,
    before: Seq<FunctionView>,
) -> Parse<Seq<FunctionView>>
    decreases toks.len() - pos,
{
    if kind_at(toks, pos) == KindView::RBrace {
        Ok((before, pos))
    } else {
        match function_at(toks, pos, false) {
            Ok((node, end)) => if is_ahead(toks, pos, end) {
                method_list(toks, end, before.push(node))
            } else {
                stuck(toks, pos)
            },
            Err(error) => Err(error),
        }
    }
}

/// The head of an implementation: a trait and a type, or a type alone.
pub open spec fn impl_head_at(toks: Seq<TokenView>, pos: int) -> Parse<
    (Option<Seq<char>>, Seq<char>),
> {
    match ident_at(toks, pos, "expected trait or type name after impl"@) {
        Ok((name, end)) => if kind_at(toks, end) == KindView::For {
            match ident_at(toks, end + 1, "expected target type in trait impl"@) {
                Ok((for_type, end)) => Ok(((Some(name), for_type), end)),
                Err(error) => Err(error),
            }
        } else {
            Ok(((None, name), end))
        },
        Err(error) => Err(error),
    }
}

/// An implementation.
pub open spec fn impl_at(toks: Seq<TokenView>, pos: int) -> Parse<ItemView> {
    let span = span_at(toks, pos);
    match impl_head_at(toks, pos + 1) {
        Ok(
            ((trait_name, for_type), p1),
        ) => match expect_at(toks, p1, KindView::LBrace, "expected '{' after impl header"@) {
            Ok((_, p2)) => match method_list(toks, p2, Seq::empty()) {
                Ok(
                    (methods, p3),
                ) => match expect_at(toks, p3, KindView::RBrace, "expected '}' after impl body"@) {
                    Ok((_, p4)) => match trait_name {
                        Some(trait_name) => Ok(
                            (
                                ItemView::Impl(
                                    TraitImplView { trait_name, for_type, methods, span },
                                ),
                                p4,
                            ),
                        ),
                        None => Ok(
                            (
                                ItemView::InherentImpl(
                                    InherentImplView { for_type, methods, span },
                                ),
                                p4,
                            ),
                        ),
                    },
                    Err(error) => Err(error),
                },
                Err(error) => Err(error),
            },
            Err(error) => Err(error),
        },
        Err(error) => Err(error),
    }
}

/// An item from a position on.
pub open spec fn item_at(toks: Seq<TokenView>, pos: int) -> Parse<ItemView> {
    let public = kind_at(toks, pos) == KindView::Pub;
    let start = if public {
        pos + 1
    } else {
        pos
    };
    match kind_at(toks, start) {
        KindView::Struct => match struct_at(toks, start, public) {
            Ok((node, end)) => Ok((ItemView::Struct(node), end)),
            Err(error) => Err(error),
        },
        KindView::Enum => match enum_at(toks, start, public) {
            Ok((node, end)) => Ok((ItemView::Enum(node), end)),
            Err(error) => Err(error),
        },
        KindView::Trait => match trait_at(toks, start, public) {
            Ok((node, end)) => Ok((ItemView::Trait(node), end)),
            Err(error) => Err(error),
        },
        KindView::Impl => if public {
            Err(
                error_at(
                    toks,
                    start,
                    "'pub' is not allowed on impl blocks; visibility belongs to the type and trait"@,
                ),
            )
        } else {
            impl_at(toks, start)
        },
        KindView::Fn => match function_at(toks, start, public) {
            Ok((node, end)) => Ok((ItemView::Function(node), end)),
            Err(error) => Err(error),
        },
        KindView::Mod => match module_at(toks, start, public) {
            Ok((node, end)) => Ok((ItemView::Module(node), end)),
            Err(error) => Err(error),
        },
        KindView::Use => match use_at(toks, start, public) {
            Ok((node, end)) => Ok((ItemView::Use(node), end)),
            Err(error) => Err(error),
        },
        _ => Err(
            error_at(
                toks,
                start,
                "expected 'struct', 'enum', 'trait', 'impl', 'fn', 'mod', 'use', or 'pub'"@,
            ),
        ),
    }
}

/// Items up to the end, added to those before them.
pub open spec fn item_list(
    toks: Seq<TokenView>,
    pos: int,
    before: Seq<ItemView>,
) -> Parse<Seq<ItemView>>
    decreases toks.len() - pos,
{
    if kind_at(toks, pos) == KindView::Eof {
        Ok((before, pos))
    } else {
        match item_at(toks, pos) {
            Ok((item, end)) => if is_ahead(toks, pos, end) {
                item_list(toks, end, before.push(item))
            } else {
                stuck(toks, pos)
            },
            Err(error) => Err(error),
        }
    }
}

/// The program that tokens stand for, or why they stand for none.
pub open spec fn program_of(toks: Seq<TokenView>) -> Result<SyntaxView, DiagnosticView> {
    match item_list(toks, 0, Seq::empty()) {
        Ok((items, _)) => Ok(SyntaxView { items }),
        Err(error) => Err(DiagnosticView { source_id: toks[0].source_id, ..error }),
    }
}

impl<'a> Parser<'a> {
    /// Parses a module declaration.
    fn parse_module_decl(&mut self, public: bool) -> (result: Result<ModuleDecl, Diagnostic>)
        requires
            old(self).well_formed(),
            old(self).pos < old(self).tokens@.len(),
        ensures
            match result {
                Ok(module) => final(self).follows(old(self))
                    && module_at(old(self).toks(), old(self).pos as int, public) == Ok::<
                    (ModuleView, int),
                    DiagnosticView,
                >((module@, final(self).pos as int)),
                Err(error) => module_at(
                    old(self).toks(),
                    old(self).pos as int,
                    public,
                ) == Err::<(ModuleView, int), DiagnosticView>(error@),
            },
    {
        let span = self.advance_with_span();
        let name = self.expect_ident("expected module name after 'mod'")?;
        self.expect(TokenKind::Semicolon, "expected ';' after module declaration")?;
        Ok(ModuleDecl { name, public, span })
    }

    /// Parses an import.
    fn parse_use_decl(&mut self, public: bool) -> (result: Result<UseDecl, Diagnostic>)
        requires
            old(self).well_formed(),
            old(self).pos < old(self).tokens@.len(),
        ensures
            match result {
                Ok(import) => final(self).follows(old(self))
                    && use_at(old(self).toks(), old(self).pos as int, public) == Ok::<
                    (UseView, int),
                    DiagnosticView,
                >((import@, final(self).pos as int)),
                Err(error) => use_at(
                    old(self).toks(),
                    old(self).pos as int,
                    public,
                ) == Err::<(UseView, int), DiagnosticView>(error@),
            },
    {
        let span = self.advance_with_span();
        let module = self.expect_ident("expected module name after 'use'")?;
        self.expect(TokenKind::ColonColon, "expected '::' in use declaration")?;
        let name = self.expect_ident("expected imported item name")?;
        let alias = if self.matches(TokenKind::As) {
            self.advance();
            Some(self.expect_ident("expected import alias after 'as'")?)
        } else {
            None
        };
        self.expect(TokenKind::Semicolon, "expected ';' after use declaration")?;
        Ok(UseDecl { module, name, alias, public, span })
    }

    /// Parses the type parameters of a declaration.
    fn parse_type_parameter_names(&mut self) -> (result: Result<Vec<String>, Diagnostic>)
        requires
            old(self).well_formed(),
        ensures
            match result {
                Ok(params) => final(self).well_formed() && final(self).tokens == old(self).tokens
                    && final(self).pos >= old(self).pos
                    && type_params_at(old(self).toks(), old(self).pos as int) == Ok::<
                    (Seq<Seq<char>>, int),
                    DiagnosticView,
                >((texts_view(params@), final(self).pos as int)),
                Err(error) => type_params_at(
                    old(self).toks(),
                    old(self).pos as int,
                ) == Err::<(Seq<Seq<char>>, int), DiagnosticView>(error@),
            },
    {
        let ghost toks = self.toks();
        let mut params: Vec<String> = Vec::new();
        assert(texts_view(params@) =~= Seq::empty());
        if !self.matches(TokenKind::Less) {
            return Ok(params);
        }
        self.advance();
        if self.matches(TokenKind::Greater) {
            return Err(
                self.error_here("generic declaration requires at least one type parameter"),
            );
        }
        let ghost goal = type_param_list(toks, self.pos as int, Seq::empty());
        let mut more = true;
        while more
            invariant
                self.well_formed(),
                self.tokens == old(self).tokens,
                toks == self.toks(),
                self.pos > old(self).pos,
                kind_at(toks, old(self).pos as int) == KindView::Less,
                kind_at(toks, old(self).pos + 1) != KindView::Greater,
                goal == type_param_list(toks, old(self).pos + 1, Seq::empty()),
                more ==> type_param_list(toks, self.pos as int, texts_view(params@)) == goal,
                !more ==> goal == Ok::<(Seq<Seq<char>>, int), DiagnosticView>(
                    (texts_view(params@), self.pos as int),
                ),
            decreases self.tokens@.len() - self.pos + (if more { 1int } else { 0int }),
        {
            let ghost before = texts_view(params@);
            let name = self.expect_ident("expected generic type parameter")?;
            let ghost added = name@;
            params.push(name);
            assert(texts_view(params@) =~= before.push(added));
            more = self.matches(TokenKind::Comma);
            if more {
                self.advance();
            }
        }
        self.expect(TokenKind::Greater, "expected '>' after generic type parameters")?;
        Ok(params)
    }

    /// Parses the fields of a tuple payload.
    fn parse_tuple_fields(&mut self) -> (result: Result<Vec<EnumTupleFieldDef>, Diagnostic>)
        requires
            old(self).well_formed(),
        ensures
            match result {
                Ok(fields) => final(self).well_formed() && final(self).tokens == old(self).tokens
                    && final(self).pos >= old(self).pos
                    && tuple_fields_at(old(self).toks(), old(self).pos as int) == Ok::<
                    (Seq<TupleFieldView>, int),
                    DiagnosticView,
                >((tuple_fields_view(fields@), final(self).pos as int)),
                Err(error) => tuple_fields_at(
                    old(self).toks(),
                    old(self).pos as int,
                ) == Err::<(Seq<TupleFieldView>, int), DiagnosticView>(error@),
            },
    {
        let ghost toks = self.toks();
        let ghost goal = tuple_fields_at(toks, self.pos as int);
        let mut fields: Vec<EnumTupleFieldDef> = Vec::new();
        let mut more = !self.matches(TokenKind::RParen);
        assert(tuple_fields_view(fields@) =~= Seq::empty());
        while more
            invariant
                self.well_formed(),
                self.tokens == old(self).tokens,
                toks == self.toks(),
                self.pos >= old(self).pos,
                goal == tuple_fields_at(toks, old(self).pos as int),
                more ==> tuple_field_list(
                    toks,
                    self.pos as int,
                    tuple_fields_view(fields@),
                ) == goal,
                !more ==> goal == Ok::<(Seq<TupleFieldView>, int), DiagnosticView>(
                    (tuple_fields_view(fields@), self.pos as int),
                ),
            decreases self.tokens@.len() - self.pos + (if more { 1int } else { 0int }),
        {
            let ghost before = tuple_fields_view(fields@);
            let span = self.peek_span();
            let ty = self.parse_type()?;
            let ghost added = TupleFieldView { ty: ty@, span };
            fields.push(EnumTupleFieldDef { ty, span });
            assert(tuple_fields_view(fields@) =~= before.push(added));
            more = self.matches(TokenKind::Comma);
            if more {
                self.advance();
                more = !self.matches(TokenKind::RParen);
            }
        }
        Ok(fields)
    }

    /// Parses a field with a name and a type, and the separator behind it.
    fn parse_field(
        &mut self,
        name_message: &str,
        colon_message: &str,
        end_message: &str,
    ) -> (result: Result<StructField, Diagnostic>)
        requires
            old(self).well_formed(),
        ensures
            match result {
                Ok(field) => final(self).follows(old(self)) && field_at(
                    old(self).toks(), old(self).pos as int,
                    name_message@,
                    colon_message@,
                    end_message@,
                ) == Ok::<
                    (FieldView, int),
                    DiagnosticView,
                >((field@, final(self).pos as int)),
                Err(error) => field_at(
                    old(self).toks(), old(self).pos as int,
                    name_message@,
                    colon_message@,
                    end_message@,
                ) == Err::<(FieldView, int), DiagnosticView>(error@),
            },
    {
        let span = self.peek_span();
        let name = self.expect_ident(name_message)?;
        self.expect(TokenKind::Colon, colon_message)?;
        let ty = self.parse_type()?;
        self.expect_struct_member_sep(end_message)?;
        Ok(StructField { name, ty, embedded: false, span })
    }

    /// Parses the fields of a named payload.
    fn parse_payload_fields(&mut self) -> (result: Result<Vec<StructField>, Diagnostic>)
        requires
            old(self).well_formed(),
        ensures
            match result {
                Ok(fields) => final(self).well_formed() && final(self).tokens == old(self).tokens
                    && final(self).pos >= old(self).pos
                    && payload_field_list(old(self).toks(), old(self).pos as int, Seq::empty())
                    == Ok::<
                    (Seq<FieldView>, int),
                    DiagnosticView,
                >((fields_view(fields@), final(self).pos as int)),
                Err(error) => payload_field_list(
                    old(self).toks(),
                    old(self).pos as int,
                    Seq::empty(),
                ) == Err::<(Seq<FieldView>, int), DiagnosticView>(error@),
            },
    {
        let ghost toks = self.toks();
        let ghost goal = payload_field_list(toks, self.pos as int, Seq::empty());
        let mut fields: Vec<StructField> = Vec::new();
        assert(fields_view(fields@) =~= Seq::empty());
        while !self.matches(TokenKind::RBrace)
            invariant
                self.well_formed(),
                self.tokens == old(self).tokens,
                toks == self.toks(),
                self.pos >= old(self).pos,
                goal == payload_field_list(toks, old(self).pos as int, Seq::empty()),
                goal == payload_field_list(toks, self.pos as int, fields_view(fields@)),
            decreases self.tokens@.len() - self.pos,
        {
            let ghost before = fields_view(fields@);
            let field = self.parse_field(
                "expected enum payload field name",
                "expected ':' after enum payload field",
                "expected ';' or ',' after enum payload field type",
            )?;
            let ghost added = field@;
            fields.push(field);
            assert(fields_view(fields@) =~= before.push(added));
        }
        Ok(fields)
    }

    /// Parses a variant of an enum.
    fn parse_variant(&mut self) -> (result: Result<EnumVariantDef, Diagnostic>)
        requires
            old(self).well_formed(),
        ensures
            match result {
                Ok(variant) => final(self).follows(old(self))
                    && variant_at(old(self).toks(), old(self).pos as int) == Ok::<
                    (VariantView, int),
                    DiagnosticView,
                >((variant@, final(self).pos as int)),
                Err(error) => variant_at(
                    old(self).toks(),
                    old(self).pos as int,
                ) == Err::<(VariantView, int), DiagnosticView>(error@),
            },
    {
        let span = self.peek_span();
        let name = self.expect_ident("expected enum variant name")?;
        let payload = if self.matches(TokenKind::LParen) {
            self.advance();
            let fields = self.parse_tuple_fields()?;
            self.expect(TokenKind::RParen, "expected ')' after enum tuple payload")?;
            EnumVariantPayloadDef::Tuple(fields)
        } else if self.matches(TokenKind::LBrace) {
            self.advance();
            let fields = self.parse_payload_fields()?;
            self.expect(TokenKind::RBrace, "expected '}' after named enum payload")?;
            EnumVariantPayloadDef::Named(fields)
        } else {
            EnumVariantPayloadDef::Unit
        };
        Ok(EnumVariantDef { name, payload, span })
    }

    /// Parses the variants of an enum.
    fn parse_variants(&mut self) -> (result: Result<Vec<EnumVariantDef>, Diagnostic>)
        requires
            old(self).well_formed(),
        ensures
            match result {
                Ok(variants) => final(self).well_formed() && final(self).tokens == old(self).tokens
                    && final(self).pos >= old(self).pos
                    && variant_list(old(self).toks(), old(self).pos as int, Seq::empty()) == Ok::<
                    (Seq<VariantView>, int),
                    DiagnosticView,
                >((variants_view(variants@), final(self).pos as int)),
                Err(error) => variant_list(
                    old(self).toks(),
                    old(self).pos as int,
                    Seq::empty(),
                ) == Err::<(Seq<VariantView>, int), DiagnosticView>(error@),
            },
    {
        let ghost toks = self.toks();
        let ghost goal = variant_list(toks, self.pos as int, Seq::empty());
        let mut variants: Vec<EnumVariantDef> = Vec::new();
        assert(variants_view(variants@) =~= Seq::empty());
        while !self.matches(TokenKind::RBrace)
            invariant
                self.well_formed(),
                self.tokens == old(self).tokens,
                toks == self.toks(),
                self.pos >= old(self).pos,
                goal == variant_list(toks, old(self).pos as int, Seq::empty()),
                goal == variant_list(toks, self.pos as int, variants_view(variants@)),
            decreases self.tokens@.len() - self.pos,
        {
            let ghost before = variants_view(variants@);
            let variant = self.parse_variant()?;
            let ghost added = variant@;
            variants.push(variant);
            if self.matches(TokenKind::Comma) {
                self.advance();
            } else if !self.matches(TokenKind::RBrace) {
                return Err(self.error_here("expected ',' between enum variants"));
            }
            assert(variants_view(variants@) =~= before.push(added));
        }
        Ok(variants)
    }

    /// Parses an enum.
    fn parse_enum(&mut self, public: bool) -> (result: Result<EnumDef, Diagnostic>)
        requires
            old(self).well_formed(),
            old(self).pos < old(self).tokens@.len(),
        ensures
            match result {
                Ok(def) => final(self).follows(old(self))
                    && enum_at(old(self).toks(), old(self).pos as int, public) == Ok::<
                    (EnumView, int),
                    DiagnosticView,
                >((def@, final(self).pos as int)),
                Err(error) => enum_at(
                    old(self).toks(),
                    old(self).pos as int,
                    public,
                ) == Err::<(EnumView, int), DiagnosticView>(error@),
            },
    {
        let span = self.advance_with_span();
        let name = self.expect_ident("expected enum name")?;
        let type_params = self.parse_type_parameter_names()?;
        self.expect(TokenKind::LBrace, "expected '{' after enum name")?;
        let variants = self.parse_variants()?;
        self.expect(TokenKind::RBrace, "expected '}' after enum")?;
        Ok(EnumDef { name, public, type_params, variants, span })
    }

    /// Parses the fields of a struct.
    fn parse_members(&mut self) -> (result: Result<Vec<StructField>, Diagnostic>)
        requires
            old(self).well_formed(),
        ensures
            match result {
                Ok(fields) => final(self).well_formed() && final(self).tokens == old(self).tokens
                    && final(self).pos >= old(self).pos
                    && member_list(old(self).toks(), old(self).pos as int, 0, Seq::empty()) == Ok::<
                    (Seq<FieldView>, int),
                    DiagnosticView,
                >((fields_view(fields@), final(self).pos as int)),
                Err(error) => member_list(
                    old(self).toks(),
                    old(self).pos as int,
                    0,
                    Seq::empty(),
                ) == Err::<(Seq<FieldView>, int), DiagnosticView>(error@),
            },
    {
        let ghost toks = self.toks();
        let ghost goal = member_list(toks, self.pos as int, 0, Seq::empty());
        let mut fields: Vec<StructField> = Vec::new();
        let mut embed_index: usize = 0;
        assert(fields_view(fields@) =~= Seq::empty());
        while !self.matches(TokenKind::RBrace)
            invariant
                self.well_formed(),
                self.tokens == old(self).tokens,
                toks == self.toks(),
                self.pos >= old(self).pos,
                embed_index <= self.pos,
                goal == member_list(toks, old(self).pos as int, 0, Seq::empty()),
                goal == member_list(
                    toks,
                    self.pos as int,
                    embed_index as nat,
                    fields_view(fields@),
                ),
            decreases self.tokens@.len() - self.pos,
        {
            let ghost before = fields_view(fields@);
            let span = self.peek_span();
            let field = if self.matches(TokenKind::Embed) {
                self.advance();
                let ty = self.parse_type()?;
                self.expect_struct_member_sep("expected ';' or ',' after embedded field")?;
                let mut name = String::from_str("__embed_");
                name.append(decimal_text(embed_index as u64).as_str());
                embed_index = embed_index + 1;
                StructField { name, ty, embedded: true, span }
            } else {
                self.parse_field(
                    "expected field name",
                    "expected ':' after field name",
                    "expected ';' or ',' after field type",
                )?
            };
            let ghost added = field@;
            fields.push(field);
            assert(fields_view(fields@) =~= before.push(added));
        }
        Ok(fields)
    }

    /// Parses a struct.
    fn parse_struct(&mut self, public: bool) -> (result: Result<StructDef, Diagnostic>)
        requires
            old(self).well_formed(),
            old(self).pos < old(self).tokens@.len(),
        ensures
            match result {
                Ok(def) => final(self).follows(old(self))
                    && struct_at(old(self).toks(), old(self).pos as int, public) == Ok::<
                    (StructView, int),
                    DiagnosticView,
                >((def@, final(self).pos as int)),
                Err(error) => struct_at(
                    old(self).toks(),
                    old(self).pos as int,
                    public,
                ) == Err::<(StructView, int), DiagnosticView>(error@),
            },
    {
        let span = self.advance_with_span();
        let name = self.expect_ident("expected struct name")?;
        self.expect(TokenKind::LBrace, "expected '{' after struct name")?;
        let fields = self.parse_members()?;
        self.expect(TokenKind::RBrace, "expected '}' after struct")?;
        Ok(StructDef { name, public, fields, span })
    }

    /// Parses a parameter of a function.
    fn parse_param(&mut self) -> (result: Result<FunctionParam, Diagnostic>)
        requires
            old(self).well_formed(),
        ensures
            match result {
                Ok(param) => final(self).follows(old(self))
                    && param_at(old(self).toks(), old(self).pos as int) == Ok::<
                    (ParamView, int),
                    DiagnosticView,
                >((param@, final(self).pos as int)),
                Err(error) => param_at(
                    old(self).toks(),
                    old(self).pos as int,
                ) == Err::<(ParamView, int), DiagnosticView>(error@),
            },
    {
        let span = self.peek_span();
        let name = self.expect_ident("expected parameter name")?;
        self.expect(TokenKind::Colon, "expected ':' after parameter name")?;
        let ty = self.parse_type()?;
        Ok(FunctionParam { name, ty, span })
    }

    /// Parses the parameters of a function.
    fn parse_function_params(&mut self) -> (result: Result<Vec<FunctionParam>, Diagnostic>)
        requires
            old(self).well_formed(),
        ensures
            match result {
                Ok(params) => final(self).well_formed() && final(self).tokens == old(self).tokens
                    && final(self).pos >= old(self).pos
                    && params_at(old(self).toks(), old(self).pos as int) == Ok::<
                    (Seq<ParamView>, int),
                    DiagnosticView,
                >((params_view(params@), final(self).pos as int)),
                Err(error) => params_at(
                    old(self).toks(),
                    old(self).pos as int,
                ) == Err::<(Seq<ParamView>, int), DiagnosticView>(error@),
            },
    {
        let ghost toks = self.toks();
        let ghost goal = params_at(toks, self.pos as int);
        let mut params: Vec<FunctionParam> = Vec::new();
        let mut more = !self.matches(TokenKind::RParen);
        assert(params_view(params@) =~= Seq::empty());
        while more
            invariant
                self.well_formed(),
                self.tokens == old(self).tokens,
                toks == self.toks(),
                self.pos >= old(self).pos,
                goal == params_at(toks, old(self).pos as int),
                more ==> param_list(toks, self.pos as int, params_view(params@)) == goal,
                !more ==> goal == Ok::<(Seq<ParamView>, int), DiagnosticView>(
                    (params_view(params@), self.pos as int),
                ),
            decreases self.tokens@.len() - self.pos + (if more { 1int } else { 0int }),
        {
            let ghost before = params_view(params@);
            let param = self.parse_param()?;
            let ghost added = param@;
            params.push(param);
            assert(params_view(params@) =~= before.push(added));
            more = self.matches(TokenKind::Comma);
            if more {
                self.advance();
                more = !self.matches(TokenKind::RParen);
            }
        }
        Ok(params)
    }

    /// Parses the parameters of a function in parentheses, and what it returns.
    fn parse_signature(
        &mut self,
    ) -> (result: Result<(Vec<FunctionParam>, Option<TypeName>), Diagnostic>)
        requires
            old(self).well_formed(),
        ensures
            match result {
                Ok(signature) => final(self).follows(old(self))
                    && signature_at(old(self).toks(), old(self).pos as int) == Ok::<
                    ((Seq<ParamView>, Option<TypeView>), int),
                    DiagnosticView,
                >(
                    ((params_view(
                        signature.0@,
                    ), optional_type(signature.1)), final(self).pos as int),
                ),
                Err(error) => signature_at(
                    old(self).toks(),
                    old(self).pos as int,
                ) == Err::<((Seq<ParamView>, Option<TypeView>), int), DiagnosticView>(error@),
            },
    {
        self.expect(TokenKind::LParen, "expected '('")?;
        let params = self.parse_function_params()?;
        self.expect(TokenKind::RParen, "expected ')'")?;
        let return_type = if self.matches(TokenKind::Minus) {
            self.advance();
            self.expect(TokenKind::Greater, "expected '>' in return type")?;
            Some(self.parse_type()?)
        } else {
            None
        };
        Ok((params, return_type))
    }

    /// Parses a function.
    fn parse_function(&mut self, public: bool) -> (result: Result<Function, Diagnostic>)
        requires
            old(self).well_formed(),
        ensures
            match result {
                Ok(function) => final(self).follows(old(self))
                    && function_at(old(self).toks(), old(self).pos as int, public) == Ok::<
                    (FunctionView, int),
                    DiagnosticView,
                >((function@, final(self).pos as int)),
                Err(error) => function_at(
                    old(self).toks(),
                    old(self).pos as int,
                    public,
                ) == Err::<(FunctionView, int), DiagnosticView>(error@),
            },
    {
        let span = self.advance_with_span();
        let name = self.expect_ident("expected function name")?;
        let (params, return_type) = self.parse_signature()?;
        let body = self.parse_body("expected '{'", "expected '}'")?;
        Ok(Function { name, public, params, return_type, body, span })
    }

    /// Parses the signature of a trait method.
    fn parse_method_sig(&mut self) -> (result: Result<TraitMethodSig, Diagnostic>)
        requires
            old(self).well_formed(),
        ensures
            match result {
                Ok(sig) => final(self).follows(old(self))
                    && method_sig_at(old(self).toks(), old(self).pos as int) == Ok::<
                    (MethodSigView, int),
                    DiagnosticView,
                >((sig@, final(self).pos as int)),
                Err(error) => method_sig_at(
                    old(self).toks(),
                    old(self).pos as int,
                ) == Err::<(MethodSigView, int), DiagnosticView>(error@),
            },
    {
        let span = self.peek_span();
        self.expect(TokenKind::Fn, "expected 'fn' in trait body")?;
        let name = self.expect_ident("expected trait method name")?;
        let (params, return_type) = self.parse_signature()?;
        self.expect(TokenKind::Semicolon, "expected ';' after trait method signature")?;
        Ok(TraitMethodSig { name, params, return_type, span })
    }

    /// Parses the methods of a trait.
    fn parse_method_sigs(&mut self) -> (result: Result<Vec<TraitMethodSig>, Diagnostic>)
        requires
            old(self).well_formed(),
        ensures
            match result {
                Ok(methods) => final(self).well_formed() && final(self).tokens == old(self).tokens
                    && final(self).pos >= old(self).pos
                    && method_sig_list(old(self).toks(), old(self).pos as int, Seq::empty())
                    == Ok::<
                    (Seq<MethodSigView>, int),
                    DiagnosticView,
                >((method_sigs_view(methods@), final(self).pos as int)),
                Err(error) => method_sig_list(
                    old(self).toks(),
                    old(self).pos as int,
                    Seq::empty(),
                ) == Err::<(Seq<MethodSigView>, int), DiagnosticView>(error@),
            },
    {
        let ghost toks = self.toks();
        let ghost goal = method_sig_list(toks, self.pos as int, Seq::empty());
        let mut methods: Vec<TraitMethodSig> = Vec::new();
        assert(method_sigs_view(methods@) =~= Seq::empty());
        while !self.matches(TokenKind::RBrace)
            invariant
                self.well_formed(),
                self.tokens == old(self).tokens,
                toks == self.toks(),
                self.pos >= old(self).pos,
                goal == method_sig_list(toks, old(self).pos as int, Seq::empty()),
                goal == method_sig_list(toks, self.pos as int, method_sigs_view(methods@)),
            decreases self.tokens@.len() - self.pos,
        {
            let ghost before = method_sigs_view(methods@);
            let sig = self.parse_method_sig()?;
            let ghost added = sig@;
            methods.push(sig);
            assert(method_sigs_view(methods@) =~= before.push(added));
        }
        Ok(methods)
    }

    /// Parses a trait.
    fn parse_trait(&mut self, public: bool) -> (result: Result<TraitDef, Diagnostic>)
        requires
            old(self).well_formed(),
            old(self).pos < old(self).tokens@.len(),
        ensures
            match result {
                Ok(def) => final(self).follows(old(self))
                    && trait_at(old(self).toks(), old(self).pos as int, public) == Ok::<
                    (TraitView, int),
                    DiagnosticView,
                >((def@, final(self).pos as int)),
                Err(error) => trait_at(
                    old(self).toks(),
                    old(self).pos as int,
                    public,
                ) == Err::<(TraitView, int), DiagnosticView>(error@),
            },
    {
        let span = self.advance_with_span();
        let name = self.expect_ident("expected trait name")?;
        self.expect(TokenKind::LBrace, "expected '{' after trait name")?;
        let methods = self.parse_method_sigs()?;
        self.expect(TokenKind::RBrace, "expected '}' after trait body")?;
        Ok(TraitDef { name, public, methods, span })
    }

    /// Parses the functions of an implementation.
    fn parse_methods(&mut self) -> (result: Result<Vec<Function>, Diagnostic>)
        requires
            old(self).well_formed(),
        ensures
            match result {
                Ok(methods) => final(self).well_formed() && final(self).tokens == old(self).tokens
                    && final(self).pos >= old(self).pos
                    && method_list(old(self).toks(), old(self).pos as int, Seq::empty()) == Ok::<
                    (Seq<FunctionView>, int),
                    DiagnosticView,
                >((functions_view(methods@), final(self).pos as int)),
                Err(error) => method_list(
                    old(self).toks(),
                    old(self).pos as int,
                    Seq::empty(),
                ) == Err::<(Seq<FunctionView>, int), DiagnosticView>(error@),
            },
    {
        let ghost toks = self.toks();
        let ghost goal = method_list(toks, self.pos as int, Seq::empty());
        let mut methods: Vec<Function> = Vec::new();
        assert(functions_view(methods@) =~= Seq::empty());
        while !self.matches(TokenKind::RBrace)
            invariant
                self.well_formed(),
                self.tokens == old(self).tokens,
                toks == self.toks(),
                self.pos >= old(self).pos,
                goal == method_list(toks, old(self).pos as int, Seq::empty()),
                goal == method_list(toks, self.pos as int, functions_view(methods@)),
            decreases self.tokens@.len() - self.pos,
        {
            let ghost before = functions_view(methods@);
            let function = self.parse_function(false)?;
            let ghost added = function@;
            methods.push(function);
            assert(functions_view(methods@) =~= before.push(added));
        }
        Ok(methods)
    }

    /// Parses an implementation.
    fn parse_impl(&mut self) -> (result: Result<Item, Diagnostic>)
        requires
            old(self).well_formed(),
            old(self).pos < old(self).tokens@.len(),
        ensures
            match result {
                Ok(item) => final(self).follows(old(self))
                    && impl_at(old(self).toks(), old(self).pos as int) == Ok::<
                    (ItemView, int),
                    DiagnosticView,
                >((item@, final(self).pos as int)),
                Err(error) => impl_at(
                    old(self).toks(),
                    old(self).pos as int,
                ) == Err::<(ItemView, int), DiagnosticView>(error@),
            },
    {
        let span = self.advance_with_span();
        let name = self.expect_ident("expected trait or type name after impl")?;
        let (trait_name, for_type): (Option<String>, String) = if self.matches(TokenKind::For) {
            self.advance();
            let for_type = self.expect_ident("expected target type in trait impl")?;
            (Some(name), for_type)
        } else {
            (None, name)
        };
        self.expect(TokenKind::LBrace, "expected '{' after impl header")?;
        let methods = self.parse_methods()?;
        self.expect(TokenKind::RBrace, "expected '}' after impl body")?;
        match trait_name {
            Some(trait_name) => {
                Ok(Item::Impl(TraitImplDef { trait_name, for_type, methods, span }))
            },
            None => Ok(Item::InherentImpl(InherentImplDef { for_type, methods, span })),
        }
    }

    /// Parses an item.
    fn parse_item(&mut self) -> (result: Result<Item, Diagnostic>)
        requires
            old(self).well_formed(),
        ensures
            match result {
                Ok(item) => final(self).follows(old(self))
                    && item_at(old(self).toks(), old(self).pos as int) == Ok::<
                    (ItemView, int),
                    DiagnosticView,
                >((item@, final(self).pos as int)),
                Err(error) => item_at(
                    old(self).toks(),
                    old(self).pos as int,
                ) == Err::<(ItemView, int), DiagnosticView>(error@),
            },
    {
        let public = self.matches(TokenKind::Pub);
        if public {
            self.advance();
        }
        if self.matches(TokenKind::Struct) {
            return Ok(Item::Struct(self.parse_struct(public)?));
        }
        if self.matches(TokenKind::Enum) {
            return Ok(Item::Enum(self.parse_enum(public)?));
        }
        if self.matches(TokenKind::Trait) {
            return Ok(Item::Trait(self.parse_trait(public)?));
        }
        if self.matches(TokenKind::Impl) {
            if public {
                return Err(
                    self.error_here(
                        "'pub' is not allowed on impl blocks; visibility belongs to the type and trait",
                    ),
                );
            }
            return self.parse_impl();
        }
        if self.matches(TokenKind::Fn) {
            return Ok(Item::Function(self.parse_function(public)?));
        }
        if self.matches(TokenKind::Mod) {
            return Ok(Item::Module(self.parse_module_decl(public)?));
        }
        if self.matches(TokenKind::Use) {
            return Ok(Item::Use(self.parse_use_decl(public)?));
        }
        Err(
            self.error_here(
                "expected 'struct', 'enum', 'trait', 'impl', 'fn', 'mod', 'use', or 'pub'",
            ),
        )
    }

    /// Parses items up to the end.
    fn parse_program(&mut self) -> (result: Result<Program, Diagnostic>)
        requires
            old(self).well_formed(),
        ensures
            match result {
                Ok(
                    program,
                ) => item_list(old(self).toks(), old(self).pos as int, Seq::empty()) == Ok::<
                    (Seq<ItemView>, int),
                    DiagnosticView,
                >((items_view(program.items@), final(self).pos as int)),
                Err(
                    error,
                ) => item_list(old(self).toks(), old(self).pos as int, Seq::empty()) == Err::<
                    (Seq<ItemView>, int),
                    DiagnosticView,
                >(error@),
            },
    {
        let ghost toks = self.toks();
        let ghost goal = item_list(toks, self.pos as int, Seq::empty());
        let mut items: Vec<Item> = Vec::new();
        assert(items_view(items@) =~= Seq::empty());
        while !self.matches(TokenKind::Eof)
            invariant
                self.well_formed(),
                self.tokens == old(self).tokens,
                toks == self.toks(),
                goal == item_list(toks, old(self).pos as int, Seq::empty()),
                goal == item_list(toks, self.pos as int, items_view(items@)),
            decreases self.tokens@.len() - self.pos,
        {
            let ghost before = items_view(items@);
            let item = self.parse_item()?;
            let ghost added = item@;
            items.push(item);
            assert(items_view(items@) =~= before.push(added));
        }
        Ok(Program { items })
    }
}

/// An optional type in contracts.
pub open spec fn optional_type(ty: Option<TypeName>) -> Option<TypeView> {
    match ty {
        Some(ty) => Some(ty@),
        None => None,
    }
}

/// Tokens end with the mark of their end, as a lexer leaves them.
pub open spec fn is_token_stream(toks: Seq<TokenView>) -> bool {
    toks.len() > 0 && toks.last().kind == KindView::Eof
}

/// Parses a program.
pub fn parse(tokens: &[Token]) -> (result: Result<Program, Diagnostic>)
    requires
        is_token_stream(tokens_view(tokens@)),
    ensures
        match result {
            Ok(program) => program_of(tokens_view(tokens@)) == Ok::<SyntaxView, DiagnosticView>(
                program@,
            ),
            Err(error) => program_of(tokens_view(tokens@)) == Err::<SyntaxView, DiagnosticView>(
                error@,
            ),
        },
{
    let mut parser = Parser::new(tokens);
    match parser.parse_program() {
        Ok(program) => Ok(program),
        Err(error) => Err(error.with_source(tokens[0].source_id)),
    }
}

} // verus!
