//! Expressions.

use crate::ast::{
    arms_view, entries_view, exprs_view, inits_view, ArmView, BinaryOp, DictEntry, EntryView, Expr,
    ExprView, InitView, MatchArm, Span, StructInitField, UnaryOp,
};
use crate::diagnostic::{message_at, Diagnostic, DiagnosticView};
use crate::parser::cursor::{
    error_at, expect_at, ident_at, is_ahead, kind_at, span_at, starts_struct_init, stuck, Parse,
    Parser,
};
use crate::parser::patterns::pattern_at;
use crate::token::{is_plain, same_kind, KindView, TokenKind, TokenView};
use vstd::prelude::*;

verus! {

/// How many levels of binary operators there are, from the loosest to the
/// tightest.
pub const BINARY_LEVELS: u8 = 9;

/// The binary operator that a token is, and its level.
pub open spec fn operator_of(kind: KindView) -> Option<(BinaryOp, u8)> {
    match kind {
        KindView::PipePipe => Some((BinaryOp::Or, 0)),
        KindView::AmpAmp => Some((BinaryOp::And, 1)),
        KindView::EqualEqual => Some((BinaryOp::Eq, 2)),
        KindView::BangEqual => Some((BinaryOp::Ne, 2)),
        KindView::Less => Some((BinaryOp::Lt, 2)),
        KindView::LessEqual => Some((BinaryOp::Le, 2)),
        KindView::Greater => Some((BinaryOp::Gt, 2)),
        KindView::GreaterEqual => Some((BinaryOp::Ge, 2)),
        KindView::Pipe => Some((BinaryOp::BitOr, 3)),
        KindView::Caret => Some((BinaryOp::BitXor, 4)),
        KindView::Ampersand => Some((BinaryOp::BitAnd, 5)),
        KindView::ShiftLeft => Some((BinaryOp::Shl, 6)),
        KindView::ShiftRight => Some((BinaryOp::Shr, 6)),
        KindView::Plus => Some((BinaryOp::Add, 7)),
        KindView::Minus => Some((BinaryOp::Sub, 7)),
        KindView::Star => Some((BinaryOp::Mul, 8)),
        KindView::Slash => Some((BinaryOp::Div, 8)),
        KindView::Percent => Some((BinaryOp::Mod, 8)),
        _ => None,
    }
}

/// The binary operator that a token is at a level.
pub open spec fn binary_op(level: nat, kind: KindView) -> Option<BinaryOp> {
    match operator_of(kind) {
        Some((op, at)) => if at == level {
            Some(op)
        } else {
            None
        },
        None => None,
    }
}

/// An expression from a position on.
pub open spec fn expr_at(toks: Seq<TokenView>, pos: int) -> Parse<ExprView>
    decreases toks.len() - pos, 15int,
{
    binary_at(toks, pos, 0)
}

/// An expression from a position behind another on.
pub open spec fn expr_after(toks: Seq<TokenView>, from: int, pos: int) -> Parse<ExprView>
    decreases toks.len() - from, 0int,
{
    if is_ahead(toks, from, pos) {
        expr_at(toks, pos)
    } else {
        stuck(toks, from)
    }
}

/// Operands of a level joined by its operators, from the left. The operands of
/// the last level are unary expressions.
pub open spec fn binary_at(toks: Seq<TokenView>, pos: int, level: nat) -> Parse<ExprView>
    decreases toks.len() - pos, (if level < BINARY_LEVELS { 14 - level } else { 5int }),
{
    if level >= BINARY_LEVELS {
        unary_at(toks, pos)
    } else {
        match binary_at(toks, pos, level + 1) {
            Ok((left, end)) => operators_after(toks, pos, end, level, left),
            Err(error) => Err(error),
        }
    }
}

/// Operands of a level from a position behind another on.
pub open spec fn binary_after(
    toks: Seq<TokenView>,
    from: int,
    pos: int,
    level: nat,
) -> Parse<ExprView>
    decreases toks.len() - from, 0int,
{
    if is_ahead(toks, from, pos) {
        binary_at(toks, pos, level)
    } else {
        stuck(toks, from)
    }
}

/// An operand of a level and the operators of that level behind it.
pub open spec fn operators_at(
    toks: Seq<TokenView>,
    pos: int,
    level: nat,
    left: ExprView,
) -> Parse<ExprView>
    decreases toks.len() - pos, 1int,
{
    match binary_op(level, kind_at(toks, pos)) {
        Some(op) => match binary_after(toks, pos, pos + 1, level + 1) {
            Ok((right, end)) => operators_after(
                toks,
                pos,
                end,
                level,
                ExprView::Binary {
                    op,
                    left: Box::new(left),
                    right: Box::new(right),
                    span: span_at(toks, pos),
                },
            ),
            Err(error) => Err(error),
        },
        None => Ok((left, pos)),
    }
}

/// An operand of a level and the operators behind it, from a position behind
/// another on.
pub open spec fn operators_after(
    toks: Seq<TokenView>,
    from: int,
    pos: int,
    level: nat,
    left: ExprView,
) -> Parse<ExprView>
    decreases toks.len() - from, 0int,
{
    if is_ahead(toks, from, pos) {
        operators_at(toks, pos, level, left)
    } else {
        stuck(toks, from)
    }
}

/// The unary operator that a token is; a reference is mutable if it says so.
pub open spec fn unary_op(toks: Seq<TokenView>, pos: int) -> Option<UnaryOp> {
    match kind_at(toks, pos) {
        KindView::Plus => Some(UnaryOp::Plus),
        KindView::Minus => Some(UnaryOp::Neg),
        KindView::Bang => Some(UnaryOp::Not),
        KindView::Ampersand => if kind_at(toks, pos + 1) == KindView::Mut {
            Some(UnaryOp::RefMut)
        } else {
            Some(UnaryOp::Ref)
        },
        _ => None,
    }
}

/// Unary operators and what they apply to.
pub open spec fn unary_at(toks: Seq<TokenView>, pos: int) -> Parse<ExprView>
    decreases toks.len() - pos, 4int,
{
    match unary_op(toks, pos) {
        Some(op) => match unary_after(
            toks,
            pos,
            if op == UnaryOp::RefMut {
                pos + 2
            } else {
                pos + 1
            },
        ) {
            Ok((expr, end)) => Ok(
                (ExprView::Unary { op, expr: Box::new(expr), span: span_at(toks, pos) }, end),
            ),
            Err(error) => Err(error),
        },
        None => postfix_at(toks, pos),
    }
}

/// Unary operators from a position behind another on.
pub open spec fn unary_after(toks: Seq<TokenView>, from: int, pos: int) -> Parse<ExprView>
    decreases toks.len() - from, 0int,
{
    if is_ahead(toks, from, pos) {
        unary_at(toks, pos)
    } else {
        stuck(toks, from)
    }
}

/// A primary expression and the accesses behind it.
pub open spec fn postfix_at(toks: Seq<TokenView>, pos: int) -> Parse<ExprView>
    decreases toks.len() - pos, 3int,
{
    match primary_at(toks, pos) {
        Ok((base, end)) => accesses_after(toks, pos, end, base),
        Err(error) => Err(error),
    }
}

/// Field accesses, method calls and indexing behind an expression.
pub open spec fn accesses_at(toks: Seq<TokenView>, pos: int, base: ExprView) -> Parse<ExprView>
    decreases toks.len() - pos, 1int,
{
    let span = span_at(toks, pos);
    if kind_at(toks, pos) == KindView::Dot {
        match ident_at(toks, pos + 1, "expected field or method name after '.'"@) {
            Ok((name, end)) => if kind_at(toks, end) == KindView::LParen {
                match call_args_after(toks, pos, end + 1, "expected ')' after method call"@) {
                    Ok((args, end)) => accesses_after(
                        toks,
                        pos,
                        end,
                        ExprView::MethodCall { receiver: Box::new(base), name, args, span },
                    ),
                    Err(error) => Err(error),
                }
            } else {
                accesses_after(
                    toks,
                    pos,
                    end,
                    ExprView::FieldAccess { base: Box::new(base), field: name, span },
                )
            },
            Err(error) => Err(error),
        }
    } else if kind_at(toks, pos) == KindView::LBracket {
        match expr_after(toks, pos, pos + 1) {
            Ok((index, p1)) => match expect_at(
                toks,
                p1,
                KindView::RBracket,
                "expected ']' after index"@,
            ) {
                Ok((_, p2)) => accesses_after(
                    toks,
                    pos,
                    p2,
                    ExprView::Index { base: Box::new(base), index: Box::new(index), span },
                ),
                Err(error) => Err(error),
            },
            Err(error) => Err(error),
        }
    } else {
        Ok((base, pos))
    }
}

/// Accesses behind an expression, from a position behind another on.
pub open spec fn accesses_after(
    toks: Seq<TokenView>,
    from: int,
    pos: int,
    base: ExprView,
) -> Parse<ExprView>
    decreases toks.len() - from, 0int,
{
    if is_ahead(toks, from, pos) {
        accesses_at(toks, pos, base)
    } else {
        stuck(toks, from)
    }
}

/// Expressions separated by commas up to a closing token, added to those before
/// them. A comma may stand before the closing token.
pub open spec fn expr_list(
    toks: Seq<TokenView>,
    pos: int,
    close: KindView,
    before: Seq<ExprView>,
) -> Parse<Seq<ExprView>>
    decreases toks.len() - pos, 16int,
{
    match expr_at(toks, pos) {
        Ok((expr, end)) => if kind_at(toks, end) != KindView::Comma {
            Ok((before.push(expr), end))
        } else if kind_at(toks, end + 1) == close {
            Ok((before.push(expr), end + 1))
        } else if is_ahead(toks, pos, end + 1) {
            expr_list(toks, end + 1, close, before.push(expr))
        } else {
            stuck(toks, pos)
        },
        Err(error) => Err(error),
    }
}

/// Expressions up to a closing token, possibly none.
pub open spec fn exprs_at(toks: Seq<TokenView>, pos: int, close: KindView) -> Parse<Seq<ExprView>>
    decreases toks.len() - pos, 17int,
{
    if kind_at(toks, pos) == close {
        Ok((Seq::empty(), pos))
    } else {
        expr_list(toks, pos, close, Seq::empty())
    }
}

/// Arguments and the parenthesis behind them.
pub open spec fn call_args_at(
    toks: Seq<TokenView>,
    pos: int,
    message: Seq<char>,
) -> Parse<Seq<ExprView>>
    decreases toks.len() - pos, 18int,
{
    match exprs_at(toks, pos, KindView::RParen) {
        Ok((args, end)) => match expect_at(toks, end, KindView::RParen, message) {
            Ok((_, end)) => Ok((args, end)),
            Err(error) => Err(error),
        },
        Err(error) => Err(error),
    }
}

/// Arguments and the parenthesis behind them, from a position behind another
/// on.
pub open spec fn call_args_after(
    toks: Seq<TokenView>,
    from: int,
    pos: int,
    message: Seq<char>,
) -> Parse<Seq<ExprView>>
    decreases toks.len() - from, 0int,
{
    if is_ahead(toks, from, pos) {
        call_args_at(toks, pos, message)
    } else {
        stuck(toks, from)
    }
}

/// A field of a struct literal or of an enum payload.
pub open spec fn init_at(
    toks: Seq<TokenView>,
    pos: int,
    name_message: Seq<char>,
    colon_message: Seq<char>,
) -> Parse<InitView>
    decreases toks.len() - pos, 1int,
{
    match ident_at(toks, pos, name_message) {
        Ok((name, p1)) => match expect_at(toks, p1, KindView::Colon, colon_message) {
            Ok((_, p2)) => match expr_after(toks, pos, p2) {
                Ok((expr, p3)) => Ok((InitView { name, expr, span: span_at(toks, pos) }, p3)),
                Err(error) => Err(error),
            },
            Err(error) => Err(error),
        },
        Err(error) => Err(error),
    }
}

/// Fields of a literal separated by commas up to its brace, added to those
/// before them.
pub open spec fn init_list(
    toks: Seq<TokenView>,
    pos: int,
    name_message: Seq<char>,
    colon_message: Seq<char>,
    before: Seq<InitView>,
) -> Parse<Seq<InitView>>
    decreases toks.len() - pos, 16int,
{
    match init_at(toks, pos, name_message, colon_message) {
        Ok((field, end)) => if kind_at(toks, end) != KindView::Comma {
            Ok((before.push(field), end))
        } else if kind_at(toks, end + 1) == KindView::RBrace {
            Ok((before.push(field), end + 1))
        } else if is_ahead(toks, pos, end + 1) {
            init_list(toks, end + 1, name_message, colon_message, before.push(field))
        } else {
            stuck(toks, pos)
        },
        Err(error) => Err(error),
    }
}

/// The fields of a literal behind its brace, and the brace that closes it.
pub open spec fn inits_at(
    toks: Seq<TokenView>,
    pos: int,
    name_message: Seq<char>,
    colon_message: Seq<char>,
    close_message: Seq<char>,
) -> Parse<Seq<InitView>>
    decreases toks.len() - pos, 17int,
{
    let fields = if kind_at(toks, pos) == KindView::RBrace {
        Ok((Seq::empty(), pos))
    } else {
        init_list(toks, pos, name_message, colon_message, Seq::empty())
    };
    match fields {
        Ok((fields, end)) => match expect_at(toks, end, KindView::RBrace, close_message) {
            Ok((_, end)) => Ok((fields, end)),
            Err(error) => Err(error),
        },
        Err(error) => Err(error),
    }
}

/// The fields of a literal, from a position behind another on.
pub open spec fn inits_after(
    toks: Seq<TokenView>,
    from: int,
    pos: int,
    name_message: Seq<char>,
    colon_message: Seq<char>,
    close_message: Seq<char>,
) -> Parse<Seq<InitView>>
    decreases toks.len() - from, 0int,
{
    if is_ahead(toks, from, pos) {
        inits_at(toks, pos, name_message, colon_message, close_message)
    } else {
        stuck(toks, from)
    }
}

/// A struct literal from its brace on.
pub open spec fn struct_init_at(
    toks: Seq<TokenView>,
    pos: int,
    name: Seq<char>,
    span: Span,
) -> Parse<ExprView>
    decreases toks.len() - pos, 18int,
{
    match inits_after(
        toks,
        pos,
        pos + 1,
        "expected field name"@,
        "expected ':' after field name"@,
        "expected '}' after struct literal"@,
    ) {
        Ok((fields, end)) => Ok((ExprView::StructInit { name, fields, span }, end)),
        Err(error) => Err(error),
    }
}

/// A struct literal from its brace on, at a position behind another.
pub open spec fn struct_init_after(
    toks: Seq<TokenView>,
    from: int,
    pos: int,
    name: Seq<char>,
    span: Span,
) -> Parse<ExprView>
    decreases toks.len() - from, 0int,
{
    if is_ahead(toks, from, pos) {
        struct_init_at(toks, pos, name, span)
    } else {
        stuck(toks, from)
    }
}

/// An enum variant with named fields from its brace on.
pub open spec fn enum_init_at(
    toks: Seq<TokenView>,
    pos: int,
    enum_name: Seq<char>,
    variant: Seq<char>,
    span: Span,
) -> Parse<ExprView>
    decreases toks.len() - pos, 18int,
{
    match inits_after(
        toks,
        pos,
        pos + 1,
        "expected enum payload field name"@,
        "expected ':' after enum payload field"@,
        "expected '}' after enum payload"@,
    ) {
        Ok((fields, end)) => Ok(
            (ExprView::EnumStructVariant { enum_name, variant, fields, span }, end),
        ),
        Err(error) => Err(error),
    }
}

/// An enum variant with named fields from its brace on, at a position behind
/// another.
pub open spec fn enum_init_after(
    toks: Seq<TokenView>,
    from: int,
    pos: int,
    enum_name: Seq<char>,
    variant: Seq<char>,
    span: Span,
) -> Parse<ExprView>
    decreases toks.len() - from, 0int,
{
    if is_ahead(toks, from, pos) {
        enum_init_at(toks, pos, enum_name, variant, span)
    } else {
        stuck(toks, from)
    }
}

/// An entry of a dictionary literal: its key is a string.
pub open spec fn entry_at(toks: Seq<TokenView>, pos: int) -> Parse<EntryView>
    decreases toks.len() - pos, 1int,
{
    match kind_at(toks, pos) {
        KindView::String(
            key,
        ) => match expect_at(toks, pos + 1, KindView::Colon, "expected ':' after dictionary key"@) {
            Ok((_, p1)) => match expr_after(toks, pos, p1) {
                Ok((value, p2)) => Ok((EntryView { key, value, span: span_at(toks, pos) }, p2)),
                Err(error) => Err(error),
            },
            Err(error) => Err(error),
        },
        _ => Err(error_at(toks, pos, "dictionary keys must be string literals"@)),
    }
}

/// Entries separated by commas up to the brace, added to those before them.
pub open spec fn entry_list(
    toks: Seq<TokenView>,
    pos: int,
    before: Seq<EntryView>,
) -> Parse<Seq<EntryView>>
    decreases toks.len() - pos, 16int,
{
    match entry_at(toks, pos) {
        Ok((entry, end)) => if kind_at(toks, end) != KindView::Comma {
            Ok((before.push(entry), end))
        } else if kind_at(toks, end + 1) == KindView::RBrace {
            Ok((before.push(entry), end + 1))
        } else if is_ahead(toks, pos, end + 1) {
            entry_list(toks, end + 1, before.push(entry))
        } else {
            stuck(toks, pos)
        },
        Err(error) => Err(error),
    }
}

/// The entries of a dictionary literal behind its brace.
pub open spec fn entries_after(
    toks: Seq<TokenView>,
    from: int,
    pos: int,
) -> Parse<Seq<EntryView>>
    decreases toks.len() - from, 0int,
{
    if is_ahead(toks, from, pos) {
        if kind_at(toks, pos) == KindView::RBrace {
            Ok((Seq::empty(), pos))
        } else {
            entry_list(toks, pos, Seq::empty())
        }
    } else {
        stuck(toks, from)
    }
}

/// An arm of a match expression.
pub open spec fn arm_at(toks: Seq<TokenView>, pos: int) -> Parse<ArmView>
    decreases toks.len() - pos, 1int,
{
    match pattern_at(toks, pos) {
        Ok(
            (pattern, p1),
        ) => match expect_at(toks, p1, KindView::FatArrow, "expected '=>' after match pattern"@) {
            Ok((_, p2)) => match expr_after(toks, pos, p2) {
                Ok((expr, p3)) => Ok((ArmView { pattern, expr, span: span_at(toks, pos) }, p3)),
                Err(error) => Err(error),
            },
            Err(error) => Err(error),
        },
        Err(error) => Err(error),
    }
}

/// The arms of a match expression up to its brace, added to those before them.
pub open spec fn arm_list(toks: Seq<TokenView>, pos: int, before: Seq<ArmView>) -> Parse<
    Seq<ArmView>,
>
    decreases toks.len() - pos, 16int,
{
    if kind_at(toks, pos) == KindView::RBrace {
        Ok((before, pos))
    } else if kind_at(toks, pos) == KindView::Eof {
        Err(error_at(toks, pos, "unterminated match expression"@))
    } else {
        match arm_at(toks, pos) {
            Ok((arm, end)) => {
                let next = if kind_at(toks, end) == KindView::Comma {
                    end + 1
                } else {
                    end
                };
                if next == end && kind_at(toks, end) != KindView::RBrace {
                    Err(error_at(toks, end, "expected ',' between match arms"@))
                } else if is_ahead(toks, pos, next) {
                    arm_list(toks, next, before.push(arm))
                } else {
                    stuck(toks, pos)
                }
            },
            Err(error) => Err(error),
        }
    }
}

/// The arms of a match expression behind its brace.
pub open spec fn arms_after(toks: Seq<TokenView>, from: int, pos: int) -> Parse<Seq<ArmView>>
    decreases toks.len() - from, 0int,
{
    if is_ahead(toks, from, pos) {
        arm_list(toks, pos, Seq::empty())
    } else {
        stuck(toks, from)
    }
}

/// A match expression: it has at least one arm.
pub open spec fn match_at(toks: Seq<TokenView>, pos: int) -> Parse<ExprView>
    decreases toks.len() - pos, 1int,
{
    let span = span_at(toks, pos);
    match expr_after(toks, pos, pos + 1) {
        Ok(
            (value, p1),
        ) => match expect_at(toks, p1, KindView::LBrace, "expected '{' after match value"@) {
            Ok((_, p2)) => match arms_after(toks, pos, p2) {
                Ok(
                    (arms, p3),
                ) => match expect_at(toks, p3, KindView::RBrace, "expected '}' after match arms"@) {
                    Ok((_, p4)) => if arms.len() == 0 {
                        Err(
                            message_at(
                                "match expression must contain at least one arm"@,
                                span.line,
                                span.column,
                            ),
                        )
                    } else {
                        Ok((ExprView::Match { value: Box::new(value), arms, span }, p4))
                    },
                    Err(error) => Err(error),
                },
                Err(error) => Err(error),
            },
            Err(error) => Err(error),
        },
        Err(error) => Err(error),
    }
}

/// An expression that starts with a name: a call, a literal, a qualified name
/// or the name itself.
pub open spec fn name_expr_at(toks: Seq<TokenView>, pos: int, name: Seq<char>) -> Parse<ExprView>
    decreases toks.len() - pos, 1int,
{
    let span = span_at(toks, pos);
    if kind_at(toks, pos + 1) == KindView::LParen {
        match call_args_after(toks, pos, pos + 2, "expected ')' after call"@) {
            Ok((args, p1)) => Ok((ExprView::Call { name, args, span }, p1)),
            Err(error) => Err(error),
        }
    } else if starts_struct_init(toks, pos + 1) {
        struct_init_after(toks, pos, pos + 1, name, span)
    } else if kind_at(toks, pos + 1) == KindView::ColonColon {
        match ident_at(toks, pos + 2, "expected member after '::'"@) {
            Ok((member, end)) => if kind_at(toks, end) == KindView::LParen {
                match call_args_after(
                    toks,
                    pos,
                    end + 1,
                    "expected ')' after associated call"@,
                ) {
                    Ok(
                        (args, p1),
                    ) => Ok((ExprView::QualifiedCall { owner: name, member, args, span }, p1)),
                    Err(error) => Err(error),
                }
            } else if starts_struct_init(toks, end) {
                enum_init_after(toks, pos, end, name, member, span)
            } else {
                Ok((ExprView::EnumVariant { enum_name: name, variant: member, span }, end))
            },
            Err(error) => Err(error),
        }
    } else {
        Ok((ExprView::Ident { name, span }, pos + 1))
    }
}

/// A primary expression: a literal, a name, a match, or something in brackets.
pub open spec fn primary_at(toks: Seq<TokenView>, pos: int) -> Parse<ExprView>
    decreases toks.len() - pos, 2int,
{
    let span = span_at(toks, pos);
    match kind_at(toks, pos) {
        KindView::True => Ok((ExprView::Bool { value: true, span }, pos + 1)),
        KindView::False => Ok((ExprView::Bool { value: false, span }, pos + 1)),
        KindView::String(value) => Ok((ExprView::String { value, span }, pos + 1)),
        KindView::Char(value) => Ok((ExprView::Char { value, span }, pos + 1)),
        KindView::Number(literal) => Ok((ExprView::Number { literal, span }, pos + 1)),
        KindView::Match => match_at(toks, pos),
        KindView::Ident(name) => name_expr_at(toks, pos, name),
        KindView::LBracket => match exprs_after(toks, pos, pos + 1, KindView::RBracket) {
            Ok((elems, p1)) => match expect_at(
                toks,
                p1,
                KindView::RBracket,
                "expected ']' after array literal"@,
            ) {
                Ok((_, p2)) => Ok((ExprView::ArrayLit { elems, span }, p2)),
                Err(error) => Err(error),
            },
            Err(error) => Err(error),
        },
        KindView::LBrace => match entries_after(toks, pos, pos + 1) {
            Ok((entries, p1)) => match expect_at(
                toks,
                p1,
                KindView::RBrace,
                "expected '}' after dictionary literal"@,
            ) {
                Ok((_, p2)) => Ok((ExprView::DictLit { entries, span }, p2)),
                Err(error) => Err(error),
            },
            Err(error) => Err(error),
        },
        KindView::LParen => match expr_after(toks, pos, pos + 1) {
            Ok(
                (expr, p1),
            ) => match expect_at(toks, p1, KindView::RParen, "expected ')' after expression"@) {
                Ok((_, p2)) => Ok((expr, p2)),
                Err(error) => Err(error),
            },
            Err(error) => Err(error),
        },
        _ => Err(error_at(toks, pos, "expected expression"@)),
    }
}

/// Expressions up to a closing token, from a position behind another on.
pub open spec fn exprs_after(
    toks: Seq<TokenView>,
    from: int,
    pos: int,
    close: KindView,
) -> Parse<Seq<ExprView>>
    decreases toks.len() - from, 0int,
{
    if is_ahead(toks, from, pos) {
        exprs_at(toks, pos, close)
    } else {
        stuck(toks, from)
    }
}

impl<'a> Parser<'a> {
    /// The text of a string at the position.
    fn string_here(&self) -> (value: Option<String>)
        requires
            self.well_formed(),
        ensures
            match value {
                Some(value) => kind_at(self.toks(), self.pos as int) == KindView::String(value@),
                None => !(kind_at(self.toks(), self.pos as int) is String),
            },
    {
        match &self.peek().kind {
            TokenKind::String(value) => Some(value.clone()),
            _ => None,
        }
    }

    /// The character at the position.
    fn char_here(&self) -> (value: Option<char>)
        requires
            self.well_formed(),
        ensures
            match value {
                Some(value) => kind_at(self.toks(), self.pos as int) == KindView::Char(value),
                None => !(kind_at(self.toks(), self.pos as int) is Char),
            },
    {
        match &self.peek().kind {
            TokenKind::Char(value) => Some(*value),
            _ => None,
        }
    }

    /// The number at the position.
    fn number_here(&self) -> (literal: Option<String>)
        requires
            self.well_formed(),
        ensures
            match literal {
                Some(literal) => kind_at(self.toks(), self.pos as int) == KindView::Number(
                    literal@,
                ),
                None => !(kind_at(self.toks(), self.pos as int) is Number),
            },
    {
        match &self.peek().kind {
            TokenKind::Number(literal) => Some(literal.clone()),
            _ => None,
        }
    }

    /// The identifier at the position.
    fn ident_here(&self) -> (name: Option<String>)
        requires
            self.well_formed(),
        ensures
            match name {
                Some(name) => kind_at(self.toks(), self.pos as int) == KindView::Ident(name@),
                None => !(kind_at(self.toks(), self.pos as int) is Ident),
            },
    {
        match &self.peek().kind {
            TokenKind::Ident(name) => Some(name.clone()),
            _ => None,
        }
    }

    /// The binary operator at the position, and its level.
    fn operator_here(&self) -> (op: Option<(BinaryOp, u8)>)
        requires
            self.well_formed(),
        ensures
            op == operator_of(kind_at(self.toks(), self.pos as int)),
    {
        match &self.peek().kind {
            TokenKind::PipePipe => Some((BinaryOp::Or, 0)),
            TokenKind::AmpAmp => Some((BinaryOp::And, 1)),
            TokenKind::EqualEqual => Some((BinaryOp::Eq, 2)),
            TokenKind::BangEqual => Some((BinaryOp::Ne, 2)),
            TokenKind::Less => Some((BinaryOp::Lt, 2)),
            TokenKind::LessEqual => Some((BinaryOp::Le, 2)),
            TokenKind::Greater => Some((BinaryOp::Gt, 2)),
            TokenKind::GreaterEqual => Some((BinaryOp::Ge, 2)),
            TokenKind::Pipe => Some((BinaryOp::BitOr, 3)),
            TokenKind::Caret => Some((BinaryOp::BitXor, 4)),
            TokenKind::Ampersand => Some((BinaryOp::BitAnd, 5)),
            TokenKind::ShiftLeft => Some((BinaryOp::Shl, 6)),
            TokenKind::ShiftRight => Some((BinaryOp::Shr, 6)),
            TokenKind::Plus => Some((BinaryOp::Add, 7)),
            TokenKind::Minus => Some((BinaryOp::Sub, 7)),
            TokenKind::Star => Some((BinaryOp::Mul, 8)),
            TokenKind::Slash => Some((BinaryOp::Div, 8)),
            TokenKind::Percent => Some((BinaryOp::Mod, 8)),
            _ => None,
        }
    }

    /// The unary operator at the position.
    fn unary_here(&self) -> (op: Option<UnaryOp>)
        requires
            self.well_formed(),
        ensures
            op == unary_op(self.toks(), self.pos as int),
    {
        if self.matches(TokenKind::Plus) {
            Some(UnaryOp::Plus)
        } else if self.matches(TokenKind::Minus) {
            Some(UnaryOp::Neg)
        } else if self.matches(TokenKind::Bang) {
            Some(UnaryOp::Not)
        } else if self.matches(TokenKind::Ampersand) {
            if same_kind(&self.peek_n(1).kind, &TokenKind::Mut) {
                Some(UnaryOp::RefMut)
            } else {
                Some(UnaryOp::Ref)
            }
        } else {
            None
        }
    }

    /// Parses an expression.
    pub fn parse_expr(&mut self) -> (result: Result<Expr, Diagnostic>)
        requires
            old(self).well_formed(),
        ensures
            match result {
                Ok(expr) => final(self).follows(old(self))
                    && expr_at(old(self).toks(), old(self).pos as int) == Ok::<
                    (ExprView, int),
                    DiagnosticView,
                >((expr@, final(self).pos as int)),
                Err(error) => expr_at(
                    old(self).toks(),
                    old(self).pos as int,
                ) == Err::<(ExprView, int), DiagnosticView>(error@),
            },
        decreases old(self).tokens@.len() - old(self).pos, 15int,
    {
        self.parse_binary(0)
    }

    /// Parses operands of a level joined by its operators.
    fn parse_binary(&mut self, level: u8) -> (result: Result<Expr, Diagnostic>)
        requires
            old(self).well_formed(),
            level <= BINARY_LEVELS,
        ensures
            match result {
                Ok(expr) => final(self).follows(old(self))
                    && binary_at(old(self).toks(), old(self).pos as int, level as nat) == Ok::<
                    (ExprView, int),
                    DiagnosticView,
                >((expr@, final(self).pos as int)),
                Err(error) => binary_at(
                    old(self).toks(),
                    old(self).pos as int,
                    level as nat,
                ) == Err::<(ExprView, int), DiagnosticView>(error@),
            },
        decreases old(self).tokens@.len() - old(self).pos, 14 - level,
    {
        if level >= BINARY_LEVELS {
            return self.parse_unary();
        }
        let ghost toks = self.toks();
        let ghost start = self.pos as int;
        let ghost goal = binary_at(toks, start, level as nat);
        let mut expr = self.parse_binary(level + 1)?;
        assert(operators_after(toks, start, self.pos as int, level as nat, expr@) == operators_at(
            toks,
            self.pos as int,
            level as nat,
            expr@,
        ));
        loop
            invariant
                self.well_formed(),
                self.tokens == old(self).tokens,
                toks == self.toks(),
                level < BINARY_LEVELS,
                self.pos > old(self).pos,
                goal == binary_at(toks, old(self).pos as int, level as nat),
                goal == operators_at(toks, self.pos as int, level as nat, expr@),
            decreases self.tokens@.len() - self.pos,
        {
            let op = match self.operator_here() {
                Some((op, at)) => if at == level {
                    op
                } else {
                    return Ok(expr);
                },
                None => return Ok(expr),
            };
            let ghost at = self.pos as int;
            let ghost left = expr@;
            let span = self.advance_with_span();
            assert(binary_after(toks, at, self.pos as int, level as nat + 1) == binary_at(
                toks,
                self.pos as int,
                level as nat + 1,
            ));
            let right = self.parse_binary(level + 1)?;
            expr = Expr::Binary { op, left: Box::new(expr), right: Box::new(right), span };
            assert(operators_after(toks, at, self.pos as int, level as nat, expr@)
                == operators_at(toks, self.pos as int, level as nat, expr@));
        }
    }

    /// Parses unary operators and what they apply to.
    fn parse_unary(&mut self) -> (result: Result<Expr, Diagnostic>)
        requires
            old(self).well_formed(),
        ensures
            match result {
                Ok(expr) => final(self).follows(old(self))
                    && unary_at(old(self).toks(), old(self).pos as int) == Ok::<
                    (ExprView, int),
                    DiagnosticView,
                >((expr@, final(self).pos as int)),
                Err(error) => unary_at(
                    old(self).toks(),
                    old(self).pos as int,
                ) == Err::<(ExprView, int), DiagnosticView>(error@),
            },
        decreases old(self).tokens@.len() - old(self).pos, 4int,
    {
        let ghost toks = self.toks();
        let ghost start = self.pos as int;
        if let Some(op) = self.unary_here() {
            let span = self.advance_with_span();
            if op == UnaryOp::RefMut {
                self.advance();
            }
            assert(unary_after(toks, start, self.pos as int) == unary_at(toks, self.pos as int));
            let expr = self.parse_unary()?;
            return Ok(Expr::Unary { op, expr: Box::new(expr), span });
        }
        self.parse_postfix()
    }

    /// Parses a primary expression and the accesses behind it.
    fn parse_postfix(&mut self) -> (result: Result<Expr, Diagnostic>)
        requires
            old(self).well_formed(),
        ensures
            match result {
                Ok(expr) => final(self).follows(old(self))
                    && postfix_at(old(self).toks(), old(self).pos as int) == Ok::<
                    (ExprView, int),
                    DiagnosticView,
                >((expr@, final(self).pos as int)),
                Err(error) => postfix_at(
                    old(self).toks(),
                    old(self).pos as int,
                ) == Err::<(ExprView, int), DiagnosticView>(error@),
            },
        decreases old(self).tokens@.len() - old(self).pos, 3int,
    {
        let ghost toks = self.toks();
        let ghost start = self.pos as int;
        let ghost goal = postfix_at(toks, start);
        let mut expr = self.parse_primary()?;
        assert(accesses_after(toks, start, self.pos as int, expr@) == accesses_at(
            toks,
            self.pos as int,
            expr@,
        ));
        loop
            invariant
                self.well_formed(),
                self.tokens == old(self).tokens,
                toks == self.toks(),
                self.pos > old(self).pos,
                goal == postfix_at(toks, old(self).pos as int),
                goal == accesses_at(toks, self.pos as int, expr@),
            decreases self.tokens@.len() - self.pos,
        {
            let ghost at = self.pos as int;
            if self.matches(TokenKind::Dot) {
                let span = self.advance_with_span();
                let name = self.expect_ident("expected field or method name after '.'")?;
                if self.matches(TokenKind::LParen) {
                    self.advance();
                    assert(call_args_after(
                        toks,
                        at,
                        self.pos as int,
                        "expected ')' after method call"@,
                    ) == call_args_at(
                        toks,
                        self.pos as int,
                        "expected ')' after method call"@,
                    ));
                    let args = self.parse_call_args("expected ')' after method call")?;
                    expr = Expr::MethodCall { receiver: Box::new(expr), name, args, span };
                } else {
                    expr = Expr::FieldAccess { base: Box::new(expr), field: name, span };
                }
            } else if self.matches(TokenKind::LBracket) {
                let span = self.advance_with_span();
                assert(expr_after(toks, at, self.pos as int) == expr_at(toks, self.pos as int));
                let index = self.parse_expr()?;
                self.expect(TokenKind::RBracket, "expected ']' after index")?;
                expr = Expr::Index { base: Box::new(expr), index: Box::new(index), span };
            } else {
                return Ok(expr);
            }
            assert(accesses_after(toks, at, self.pos as int, expr@) == accesses_at(
                toks,
                self.pos as int,
                expr@,
            ));
        }
    }

    /// Parses expressions up to a closing token.
    fn parse_exprs(&mut self, close: &TokenKind) -> (result: Result<Vec<Expr>, Diagnostic>)
        requires
            old(self).well_formed(),
            is_plain(close@),
        ensures
            match result {
                Ok(exprs) => final(self).well_formed() && final(self).tokens == old(self).tokens
                    && final(self).pos >= old(self).pos
                    && exprs_at(old(self).toks(), old(self).pos as int, close@) == Ok::<
                    (Seq<ExprView>, int),
                    DiagnosticView,
                >((exprs_view(exprs@), final(self).pos as int)),
                Err(error) => exprs_at(old(self).toks(), old(self).pos as int, close@) == Err::<
                    (Seq<ExprView>, int),
                    DiagnosticView,
                >(error@),
            },
        decreases old(self).tokens@.len() - old(self).pos, 17int,
    {
        let ghost toks = self.toks();
        let ghost goal = exprs_at(toks, self.pos as int, close@);
        let mut exprs: Vec<Expr> = Vec::new();
        let mut more = !same_kind(&self.peek().kind, close);
        assert(exprs_view(exprs@) =~= Seq::empty());
        while more
            invariant
                self.well_formed(),
                self.tokens == old(self).tokens,
                toks == self.toks(),
                is_plain(close@),
                self.pos >= old(self).pos,
                goal == exprs_at(toks, old(self).pos as int, close@),
                more ==> expr_list(toks, self.pos as int, close@, exprs_view(exprs@)) == goal,
                !more ==> goal == Ok::<(Seq<ExprView>, int), DiagnosticView>(
                    (exprs_view(exprs@), self.pos as int),
                ),
            decreases self.tokens@.len() - self.pos + (if more { 1int } else { 0int }),
        {
            let ghost before = exprs_view(exprs@);
            let expr = self.parse_expr()?;
            let ghost added = expr@;
            exprs.push(expr);
            assert(exprs_view(exprs@) =~= before.push(added));
            more = self.matches(TokenKind::Comma);
            if more {
                self.advance();
                more = !same_kind(&self.peek().kind, close);
            }
        }
        Ok(exprs)
    }

    /// Parses arguments and the parenthesis behind them.
    pub fn parse_call_args(&mut self, message: &str) -> (result: Result<Vec<Expr>, Diagnostic>)
        requires
            old(self).well_formed(),
        ensures
            match result {
                Ok(args) => final(self).follows(old(self))
                    && call_args_at(old(self).toks(), old(self).pos as int, message@) == Ok::<
                    (Seq<ExprView>, int),
                    DiagnosticView,
                >((exprs_view(args@), final(self).pos as int)),
                Err(error) => call_args_at(
                    old(self).toks(),
                    old(self).pos as int,
                    message@,
                ) == Err::<(Seq<ExprView>, int), DiagnosticView>(error@),
            },
        decreases old(self).tokens@.len() - old(self).pos, 18int,
    {
        let args = self.parse_exprs(&TokenKind::RParen)?;
        self.expect(TokenKind::RParen, message)?;
        Ok(args)
    }

    /// Parses a field of a literal.
    fn parse_init(&mut self, name_message: &str, colon_message: &str) -> (result: Result<
        StructInitField,
        Diagnostic,
    >)
        requires
            old(self).well_formed(),
        ensures
            match result {
                Ok(field) => final(self).follows(old(self))
                    && init_at(
                        old(self).toks(),
                        old(self).pos as int,
                        name_message@,
                        colon_message@,
                    ) == Ok::<
                    (InitView, int),
                    DiagnosticView,
                >((field@, final(self).pos as int)),
                Err(error) => init_at(
                    old(self).toks(),
                    old(self).pos as int,
                    name_message@,
                    colon_message@,
                ) == Err::<(InitView, int), DiagnosticView>(error@),
            },
        decreases old(self).tokens@.len() - old(self).pos, 1int,
    {
        let ghost toks = self.toks();
        let ghost start = self.pos as int;
        let span = self.peek_span();
        let name = self.expect_ident(name_message)?;
        self.expect(TokenKind::Colon, colon_message)?;
        assert(expr_after(toks, start, self.pos as int) == expr_at(toks, self.pos as int));
        let expr = self.parse_expr()?;
        Ok(StructInitField { name, expr, span })
    }

    /// Parses the fields of a literal and the brace behind them.
    fn parse_inits(
        &mut self,
        name_message: &str,
        colon_message: &str,
        close_message: &str,
    ) -> (result: Result<Vec<StructInitField>, Diagnostic>)
        requires
            old(self).well_formed(),
        ensures
            match result {
                Ok(fields) => final(self).follows(old(self))
                    && inits_at(
                        old(self).toks(),
                        old(self).pos as int,
                        name_message@,
                        colon_message@,
                        close_message@,
                    ) == Ok::<
                    (Seq<InitView>, int),
                    DiagnosticView,
                >((inits_view(fields@), final(self).pos as int)),
                Err(error) => inits_at(
                    old(self).toks(),
                    old(self).pos as int,
                    name_message@,
                    colon_message@,
                    close_message@,
                ) == Err::<(Seq<InitView>, int), DiagnosticView>(error@),
            },
        decreases old(self).tokens@.len() - old(self).pos, 17int,
    {
        let ghost toks = self.toks();
        let ghost begin = self.pos as int;
        let mut fields: Vec<StructInitField> = Vec::new();
        let mut more = !self.matches(TokenKind::RBrace);
        let ghost goal = if more {
            init_list(toks, begin, name_message@, colon_message@, Seq::empty())
        } else {
            Ok((Seq::empty(), begin))
        };
        assert(inits_view(fields@) =~= Seq::empty());
        while more
            invariant
                self.well_formed(),
                self.tokens == old(self).tokens,
                toks == self.toks(),
                begin == old(self).pos,
                self.pos >= old(self).pos,
                goal == (if kind_at(toks, begin) == KindView::RBrace {
                    Ok((Seq::empty(), begin))
                } else {
                    init_list(toks, begin, name_message@, colon_message@, Seq::empty())
                }),
                more ==> init_list(
                    toks,
                    self.pos as int,
                    name_message@,
                    colon_message@,
                    inits_view(fields@),
                ) == goal,
                !more ==> goal == Ok::<(Seq<InitView>, int), DiagnosticView>(
                    (inits_view(fields@), self.pos as int),
                ),
            decreases self.tokens@.len() - self.pos + (if more { 1int } else { 0int }),
        {
            let ghost before = inits_view(fields@);
            let field = self.parse_init(name_message, colon_message)?;
            let ghost added = field@;
            fields.push(field);
            assert(inits_view(fields@) =~= before.push(added));
            more = self.matches(TokenKind::Comma);
            if more {
                self.advance();
                more = !self.matches(TokenKind::RBrace);
            }
        }
        self.expect(TokenKind::RBrace, close_message)?;
        Ok(fields)
    }

    /// Parses an entry of a dictionary literal.
    fn parse_entry(&mut self) -> (result: Result<DictEntry, Diagnostic>)
        requires
            old(self).well_formed(),
        ensures
            match result {
                Ok(entry) => final(self).follows(old(self))
                    && entry_at(old(self).toks(), old(self).pos as int) == Ok::<
                    (EntryView, int),
                    DiagnosticView,
                >((entry@, final(self).pos as int)),
                Err(error) => entry_at(
                    old(self).toks(),
                    old(self).pos as int,
                ) == Err::<(EntryView, int), DiagnosticView>(error@),
            },
        decreases old(self).tokens@.len() - old(self).pos, 1int,
    {
        let ghost toks = self.toks();
        let ghost start = self.pos as int;
        let span = self.peek_span();
        let key = match self.string_here() {
            Some(key) => key,
            None => return Err(self.error_here("dictionary keys must be string literals")),
        };
        self.advance();
        self.expect(TokenKind::Colon, "expected ':' after dictionary key")?;
        assert(expr_after(toks, start, self.pos as int) == expr_at(toks, self.pos as int));
        let value = self.parse_expr()?;
        Ok(DictEntry { key, value, span })
    }

    /// Parses a dictionary literal.
    fn parse_dict_lit(&mut self) -> (result: Result<Expr, Diagnostic>)
        requires
            old(self).well_formed(),
            kind_at(old(self).toks(), old(self).pos as int) == KindView::LBrace,
        ensures
            match result {
                Ok(expr) => final(self).follows(old(self))
                    && primary_at(old(self).toks(), old(self).pos as int) == Ok::<
                    (ExprView, int),
                    DiagnosticView,
                >((expr@, final(self).pos as int)),
                Err(error) => primary_at(
                    old(self).toks(),
                    old(self).pos as int,
                ) == Err::<(ExprView, int), DiagnosticView>(error@),
            },
        decreases old(self).tokens@.len() - old(self).pos, 1int,
    {
        let ghost toks = self.toks();
        let ghost start = self.pos as int;
        let span = self.advance_with_span();
        let ghost begin = self.pos as int;
        let mut entries: Vec<DictEntry> = Vec::new();
        let mut more = !self.matches(TokenKind::RBrace);
        let ghost goal = entries_after(toks, start, begin);
        assert(entries_view(entries@) =~= Seq::empty());
        while more
            invariant
                self.well_formed(),
                self.tokens == old(self).tokens,
                toks == self.toks(),
                start == old(self).pos,
                start < begin <= self.pos,
                goal == entries_after(toks, start, begin),
                kind_at(toks, start) == KindView::LBrace,
                begin == start + 1,
                span == span_at(toks, start),
                more ==> entry_list(toks, self.pos as int, entries_view(entries@)) == goal,
                !more ==> goal == Ok::<(Seq<EntryView>, int), DiagnosticView>(
                    (entries_view(entries@), self.pos as int),
                ),
            decreases self.tokens@.len() - self.pos + (if more { 1int } else { 0int }),
        {
            let ghost before = entries_view(entries@);
            let entry = self.parse_entry()?;
            let ghost added = entry@;
            entries.push(entry);
            assert(entries_view(entries@) =~= before.push(added));
            more = self.matches(TokenKind::Comma);
            if more {
                self.advance();
                more = !self.matches(TokenKind::RBrace);
            }
        }
        self.expect(TokenKind::RBrace, "expected '}' after dictionary literal")?;
        Ok(Expr::DictLit { entries, span })
    }

    /// Parses an array literal.
    fn parse_array_lit(&mut self) -> (result: Result<Expr, Diagnostic>)
        requires
            old(self).well_formed(),
            kind_at(old(self).toks(), old(self).pos as int) == KindView::LBracket,
        ensures
            match result {
                Ok(expr) => final(self).follows(old(self))
                    && primary_at(old(self).toks(), old(self).pos as int) == Ok::<
                    (ExprView, int),
                    DiagnosticView,
                >((expr@, final(self).pos as int)),
                Err(error) => primary_at(
                    old(self).toks(),
                    old(self).pos as int,
                ) == Err::<(ExprView, int), DiagnosticView>(error@),
            },
        decreases old(self).tokens@.len() - old(self).pos, 1int,
    {
        let ghost toks = self.toks();
        let ghost start = self.pos as int;
        let span = self.advance_with_span();
        assert(exprs_after(toks, start, self.pos as int, KindView::RBracket) == exprs_at(
            toks,
            self.pos as int,
            KindView::RBracket,
        ));
        let elems = self.parse_exprs(&TokenKind::RBracket)?;
        self.expect(TokenKind::RBracket, "expected ']' after array literal")?;
        Ok(Expr::ArrayLit { elems, span })
    }

    /// Parses an arm of a match expression.
    fn parse_arm(&mut self) -> (result: Result<MatchArm, Diagnostic>)
        requires
            old(self).well_formed(),
        ensures
            match result {
                Ok(arm) => final(self).follows(old(self))
                    && arm_at(old(self).toks(), old(self).pos as int) == Ok::<
                    (ArmView, int),
                    DiagnosticView,
                >((arm@, final(self).pos as int)),
                Err(error) => arm_at(
                    old(self).toks(),
                    old(self).pos as int,
                ) == Err::<(ArmView, int), DiagnosticView>(error@),
            },
        decreases old(self).tokens@.len() - old(self).pos, 1int,
    {
        let ghost toks = self.toks();
        let ghost start = self.pos as int;
        let span = self.peek_span();
        let pattern = self.parse_match_pattern()?;
        self.expect(TokenKind::FatArrow, "expected '=>' after match pattern")?;
        assert(expr_after(toks, start, self.pos as int) == expr_at(toks, self.pos as int));
        let expr = self.parse_expr()?;
        Ok(MatchArm { pattern, expr, span })
    }

    /// Parses a match expression.
    fn parse_match_expr(&mut self) -> (result: Result<Expr, Diagnostic>)
        requires
            old(self).well_formed(),
            kind_at(old(self).toks(), old(self).pos as int) == KindView::Match,
        ensures
            match result {
                Ok(expr) => final(self).follows(old(self))
                    && match_at(old(self).toks(), old(self).pos as int) == Ok::<
                    (ExprView, int),
                    DiagnosticView,
                >((expr@, final(self).pos as int)),
                Err(error) => match_at(
                    old(self).toks(),
                    old(self).pos as int,
                ) == Err::<(ExprView, int), DiagnosticView>(error@),
            },
        decreases old(self).tokens@.len() - old(self).pos, 1int,
    {
        let ghost toks = self.toks();
        let ghost start = self.pos as int;
        let span = self.advance_with_span();
        assert(expr_after(toks, start, self.pos as int) == expr_at(toks, self.pos as int));
        let value = self.parse_expr()?;
        self.expect(TokenKind::LBrace, "expected '{' after match value")?;
        let ghost begin = self.pos as int;
        let ghost goal = arms_after(toks, start, begin);
        let mut arms: Vec<MatchArm> = Vec::new();
        assert(arms_view(arms@) =~= Seq::empty());
        while !self.matches(TokenKind::RBrace)
            invariant
                self.well_formed(),
                self.tokens == old(self).tokens,
                toks == self.toks(),
                start == old(self).pos,
                start < self.pos,
                goal == arms_after(toks, start, begin),
                match_at(toks, start) == (match goal {
                    Ok((arms, end)) => match expect_at(
                        toks,
                        end,
                        KindView::RBrace,
                        "expected '}' after match arms"@,
                    ) {
                        Ok((_, end)) => if arms.len() == 0 {
                            Err(
                                message_at(
                                    "match expression must contain at least one arm"@,
                                    span.line,
                                    span.column,
                                ),
                            )
                        } else {
                            Ok((ExprView::Match { value: Box::new(value@), arms, span }, end))
                        },
                        Err(error) => Err(error),
                    },
                    Err(error) => Err(error),
                }),
                arm_list(toks, self.pos as int, arms_view(arms@)) == goal,
            decreases self.tokens@.len() - self.pos,
        {
            if self.matches(TokenKind::Eof) {
                return Err(self.error_here("unterminated match expression"));
            }
            let ghost before = arms_view(arms@);
            let arm = self.parse_arm()?;
            let ghost added = arm@;
            arms.push(arm);
            assert(arms_view(arms@) =~= before.push(added));
            if self.matches(TokenKind::Comma) {
                self.advance();
            } else if !self.matches(TokenKind::RBrace) {
                return Err(self.error_here("expected ',' between match arms"));
            }
        }
        self.expect(TokenKind::RBrace, "expected '}' after match arms")?;
        if arms.len() == 0 {
            return Err(
                Diagnostic::new(
                    "match expression must contain at least one arm",
                    span.line,
                    span.column,
                ),
            );
        }
        Ok(Expr::Match { value: Box::new(value), arms, span })
    }

    /// Parses a struct literal behind its name.
    fn parse_struct_init(&mut self, name: String, span: Span) -> (result: Result<Expr, Diagnostic>)
        requires
            old(self).well_formed(),
            kind_at(old(self).toks(), old(self).pos as int) == KindView::LBrace,
        ensures
            match result {
                Ok(expr) => final(self).follows(old(self))
                    && struct_init_at(old(self).toks(), old(self).pos as int, name@, span) == Ok::<
                    (ExprView, int),
                    DiagnosticView,
                >((expr@, final(self).pos as int)),
                Err(error) => struct_init_at(
                    old(self).toks(),
                    old(self).pos as int,
                    name@,
                    span,
                ) == Err::<(ExprView, int), DiagnosticView>(error@),
            },
        decreases old(self).tokens@.len() - old(self).pos, 18int,
    {
        self.advance();
        let fields = self.parse_inits(
            "expected field name",
            "expected ':' after field name",
            "expected '}' after struct literal",
        )?;
        Ok(Expr::StructInit { name, fields, span })
    }

    /// Parses an enum variant with named fields behind its name.
    fn parse_enum_struct_variant(
        &mut self,
        enum_name: String,
        variant: String,
        span: Span,
    ) -> (result: Result<Expr, Diagnostic>)
        requires
            old(self).well_formed(),
            kind_at(old(self).toks(), old(self).pos as int) == KindView::LBrace,
        ensures
            match result {
                Ok(expr) => final(self).follows(old(self))
                    && enum_init_at(
                        old(self).toks(),
                        old(self).pos as int,
                        enum_name@,
                        variant@,
                        span,
                    ) == Ok::<
                    (ExprView, int),
                    DiagnosticView,
                >((expr@, final(self).pos as int)),
                Err(error) => enum_init_at(
                    old(self).toks(),
                    old(self).pos as int,
                    enum_name@,
                    variant@,
                    span,
                ) == Err::<(ExprView, int), DiagnosticView>(error@),
            },
        decreases old(self).tokens@.len() - old(self).pos, 18int,
    {
        self.advance();
        let fields = self.parse_inits(
            "expected enum payload field name",
            "expected ':' after enum payload field",
            "expected '}' after enum payload",
        )?;
        Ok(Expr::EnumStructVariant { enum_name, variant, fields, span })
    }

    /// Parses an expression that starts with a name.
    fn parse_name_expr(&mut self, name: String) -> (result: Result<Expr, Diagnostic>)
        requires
            old(self).well_formed(),
            kind_at(old(self).toks(), old(self).pos as int) == KindView::Ident(name@),
        ensures
            match result {
                Ok(expr) => final(self).follows(old(self))
                    && name_expr_at(old(self).toks(), old(self).pos as int, name@) == Ok::<
                    (ExprView, int),
                    DiagnosticView,
                >((expr@, final(self).pos as int)),
                Err(error) => name_expr_at(
                    old(self).toks(),
                    old(self).pos as int,
                    name@,
                ) == Err::<(ExprView, int), DiagnosticView>(error@),
            },
        decreases old(self).tokens@.len() - old(self).pos, 1int,
    {
        let ghost toks = self.toks();
        let ghost start = self.pos as int;
        let span = self.advance_with_span();
        if self.matches(TokenKind::LParen) {
            self.advance();
            assert(call_args_after(toks, start, self.pos as int, "expected ')' after call"@)
                == call_args_at(toks, self.pos as int, "expected ')' after call"@));
            let args = self.parse_call_args("expected ')' after call")?;
            return Ok(Expr::Call { name, args, span });
        }
        if self.matches(TokenKind::LBrace) && self.looks_like_struct_init() {
            assert(struct_init_after(toks, start, self.pos as int, name@, span)
                == struct_init_at(toks, self.pos as int, name@, span));
            return self.parse_struct_init(name, span);
        }
        if self.matches(TokenKind::ColonColon) {
            self.advance();
            let member = self.expect_ident("expected member after '::'")?;
            if self.matches(TokenKind::LParen) {
                self.advance();
                assert(call_args_after(
                    toks,
                    start,
                    self.pos as int,
                    "expected ')' after associated call"@,
                ) == call_args_at(toks, self.pos as int, "expected ')' after associated call"@));
                let args = self.parse_call_args("expected ')' after associated call")?;
                return Ok(Expr::QualifiedCall { owner: name, member, args, span });
            }
            if self.matches(TokenKind::LBrace) && self.looks_like_struct_init() {
                assert(enum_init_after(toks, start, self.pos as int, name@, member@, span)
                    == enum_init_at(toks, self.pos as int, name@, member@, span));
                return self.parse_enum_struct_variant(name, member, span);
            }
            return Ok(Expr::EnumVariant { enum_name: name, variant: member, span });
        }
        Ok(Expr::Ident { name, span })
    }

    /// Parses a primary expression.
    fn parse_primary(&mut self) -> (result: Result<Expr, Diagnostic>)
        requires
            old(self).well_formed(),
        ensures
            match result {
                Ok(expr) => final(self).follows(old(self))
                    && primary_at(old(self).toks(), old(self).pos as int) == Ok::<
                    (ExprView, int),
                    DiagnosticView,
                >((expr@, final(self).pos as int)),
                Err(error) => primary_at(
                    old(self).toks(),
                    old(self).pos as int,
                ) == Err::<(ExprView, int), DiagnosticView>(error@),
            },
        decreases old(self).tokens@.len() - old(self).pos, 2int,
    {
        let ghost toks = self.toks();
        let ghost start = self.pos as int;
        let span = self.peek_span();
        if self.matches(TokenKind::True) {
            self.advance();
            return Ok(Expr::Bool { value: true, span });
        }
        if self.matches(TokenKind::False) {
            self.advance();
            return Ok(Expr::Bool { value: false, span });
        }
        if let Some(value) = self.string_here() {
            self.advance();
            return Ok(Expr::String { value, span });
        }
        if let Some(value) = self.char_here() {
            self.advance();
            return Ok(Expr::Char { value, span });
        }
        if let Some(literal) = self.number_here() {
            self.advance();
            return Ok(Expr::Number { literal, span });
        }
        if self.matches(TokenKind::Match) {
            return self.parse_match_expr();
        }
        if let Some(name) = self.ident_here() {
            return self.parse_name_expr(name);
        }
        if self.matches(TokenKind::LBracket) {
            return self.parse_array_lit();
        }
        if self.matches(TokenKind::LBrace) {
            return self.parse_dict_lit();
        }
        if self.matches(TokenKind::LParen) {
            self.advance();
            assert(expr_after(toks, start, self.pos as int) == expr_at(toks, self.pos as int));
            let expr = self.parse_expr()?;
            self.expect(TokenKind::RParen, "expected ')' after expression")?;
            return Ok(expr);
        }
        Err(self.error_here("expected expression"))
    }
}

} // verus!
