//! Trees written as tokens. Every expression that is not delimited by itself stands in
//! parentheses, and a conditional behind `else` stands there as it is or in braces. The
//! places of a tree are those of its tokens.

use crate::ast::{
    ArmView, BinaryOp, EntryView, ExprView, InitView, NamedPatternView, PatternView, UnaryOp,
};
use crate::parser::cursor::span_at;
use crate::token::{KindView, TokenView};
use vstd::prelude::*;

verus! {

/// A token of a kind stands at a position.
pub open spec fn stands(toks: Seq<TokenView>, pos: int, kind: KindView) -> bool {
    0 <= pos < toks.len() && toks[pos].kind == kind
}

/// A name stands at a position.
pub open spec fn names(toks: Seq<TokenView>, pos: int, name: Seq<char>) -> bool {
    stands(toks, pos, KindView::Ident(name))
}

/// The sign of a binary operator.
pub open spec fn sign_of(op: BinaryOp) -> KindView {
    match op {
        BinaryOp::Or => KindView::PipePipe,
        BinaryOp::And => KindView::AmpAmp,
        BinaryOp::Eq => KindView::EqualEqual,
        BinaryOp::Ne => KindView::BangEqual,
        BinaryOp::Lt => KindView::Less,
        BinaryOp::Le => KindView::LessEqual,
        BinaryOp::Gt => KindView::Greater,
        BinaryOp::Ge => KindView::GreaterEqual,
        BinaryOp::BitOr => KindView::Pipe,
        BinaryOp::BitXor => KindView::Caret,
        BinaryOp::BitAnd => KindView::Ampersand,
        BinaryOp::Shl => KindView::ShiftLeft,
        BinaryOp::Shr => KindView::ShiftRight,
        BinaryOp::Add => KindView::Plus,
        BinaryOp::Sub => KindView::Minus,
        BinaryOp::Mul => KindView::Star,
        BinaryOp::Div => KindView::Slash,
        BinaryOp::Mod => KindView::Percent,
    }
}

/// How many tokens a unary operator has.
pub open spec fn unary_width(op: UnaryOp) -> int {
    if op == UnaryOp::RefMut {
        2
    } else {
        1
    }
}

/// A unary operator is written at a position.
pub open spec fn writes_unary(toks: Seq<TokenView>, pos: int, op: UnaryOp) -> bool {
    match op {
        UnaryOp::Plus => stands(toks, pos, KindView::Plus),
        UnaryOp::Neg => stands(toks, pos, KindView::Minus),
        UnaryOp::Not => stands(toks, pos, KindView::Bang),
        UnaryOp::Ref => stands(toks, pos, KindView::Ampersand),
        UnaryOp::RefMut => stands(toks, pos, KindView::Ampersand) && stands(
            toks,
            pos + 1,
            KindView::Mut,
        ),
    }
}

/// The name that a pattern has for what it binds.
pub open spec fn binding_name(binding: Option<Seq<char>>) -> Seq<char> {
    match binding {
        Some(name) => name,
        None => "_"@,
    }
}

/// What a pattern binds has a name of its own.
pub open spec fn is_binding(binding: Option<Seq<char>>) -> bool {
    binding != Some("_"@)
}

/// The names of a tuple pattern from one on are written at a position, with commas
/// between them.
pub open spec fn writes_bindings(
    toks: Seq<TokenView>,
    pos: int,
    list: Seq<Option<Seq<char>>>,
    from: int,
) -> bool
    decreases list.len() - from,
{
    if from < 0 || from >= list.len() {
        true
    } else {
        &&& is_binding(list[from])
        &&& names(toks, pos, binding_name(list[from]))
        &&& from + 1 < list.len() ==> stands(toks, pos + 1, KindView::Comma) && writes_bindings(
            toks,
            pos + 2,
            list,
            from + 1,
        )
    }
}

/// How many tokens names with commas between them have, from one on.
pub open spec fn bindings_width(count: int, from: int) -> int {
    if from >= count {
        0
    } else {
        2 * (count - from) - 1
    }
}

/// The fields of a named pattern from one on are written at a position, with commas
/// between them.
pub open spec fn writes_named_patterns(
    toks: Seq<TokenView>,
    pos: int,
    list: Seq<NamedPatternView>,
    from: int,
) -> bool
    decreases list.len() - from,
{
    if from < 0 || from >= list.len() {
        true
    } else {
        &&& is_binding(list[from].binding)
        &&& names(toks, pos, list[from].name)
        &&& list[from].span == span_at(toks, pos)
        &&& stands(toks, pos + 1, KindView::Colon)
        &&& names(toks, pos + 2, binding_name(list[from].binding))
        &&& from + 1 < list.len() ==> stands(toks, pos + 3, KindView::Comma)
            && writes_named_patterns(toks, pos + 4, list, from + 1)
    }
}

/// How many tokens fields of a named pattern have, from one on.
pub open spec fn named_patterns_width(count: int, from: int) -> int {
    if from >= count {
        0
    } else {
        4 * (count - from) - 1
    }
}

/// How many tokens a pattern has.
pub open spec fn pattern_width(pattern: PatternView) -> int {
    match pattern {
        PatternView::Wildcard { .. } => 1,
        PatternView::EnumUnit { .. } => 3,
        PatternView::EnumTuple { bindings, .. } => 5 + bindings_width(bindings.len() as int, 0),
        PatternView::EnumNamed { fields, .. } => 5 + named_patterns_width(fields.len() as int, 0),
    }
}

/// A pattern is written at a position.
pub open spec fn writes_pattern(toks: Seq<TokenView>, pos: int, pattern: PatternView) -> bool {
    match pattern {
        PatternView::Wildcard { span } => names(toks, pos, "_"@) && span == span_at(toks, pos),
        PatternView::EnumUnit { enum_name, variant, span } => {
            &&& enum_name != "_"@
            &&& names(toks, pos, enum_name)
            &&& span == span_at(toks, pos)
            &&& stands(toks, pos + 1, KindView::ColonColon)
            &&& names(toks, pos + 2, variant)
        },
        PatternView::EnumTuple { enum_name, variant, bindings, span } => {
            &&& enum_name != "_"@
            &&& names(toks, pos, enum_name)
            &&& span == span_at(toks, pos)
            &&& stands(toks, pos + 1, KindView::ColonColon)
            &&& names(toks, pos + 2, variant)
            &&& stands(toks, pos + 3, KindView::LParen)
            &&& writes_bindings(toks, pos + 4, bindings, 0)
            &&& stands(
                toks,
                pos + 4 + bindings_width(bindings.len() as int, 0),
                KindView::RParen,
            )
        },
        PatternView::EnumNamed { enum_name, variant, fields, span } => {
            &&& enum_name != "_"@
            &&& names(toks, pos, enum_name)
            &&& span == span_at(toks, pos)
            &&& stands(toks, pos + 1, KindView::ColonColon)
            &&& names(toks, pos + 2, variant)
            &&& stands(toks, pos + 3, KindView::LBrace)
            &&& writes_named_patterns(toks, pos + 4, fields, 0)
            &&& stands(
                toks,
                pos + 4 + named_patterns_width(fields.len() as int, 0),
                KindView::RBrace,
            )
        },
    }
}

/// How many tokens an expression has.
pub open spec fn expr_width(e: ExprView) -> int
    decreases e, 0int,
{
    match e {
        ExprView::Ident { .. } => 3,
        ExprView::Call { args, .. } => 3 + exprs_width(args, 0),
        ExprView::QualifiedCall { args, .. } => 5 + exprs_width(args, 0),
        ExprView::Unary { op, expr, .. } => 2 + unary_width(op) + expr_width(*expr),
        ExprView::Binary { left, right, .. } => 3 + expr_width(*left) + expr_width(*right),
        ExprView::FieldAccess { base, .. } => 4 + expr_width(*base),
        ExprView::Index { base, index, .. } => 4 + expr_width(*base) + expr_width(*index),
        ExprView::ArrayLit { elems, .. } => 2 + exprs_width(elems, 0),
        ExprView::StructInit { fields, .. } => 3 + inits_width(fields, 0),
        ExprView::EnumVariant { .. } => 5,
        ExprView::EnumStructVariant { fields, .. } => 5 + inits_width(fields, 0),
        ExprView::DictLit { entries, .. } => 2 + entries_width(entries, 0),
        ExprView::MethodCall { receiver, args, .. } => 6 + expr_width(*receiver) + exprs_width(
            args,
            0,
        ),
        ExprView::Match { value, arms, .. } => 3 + expr_width(*value) + arms_width(arms, 0),
        _ => 1,
    }
}

/// How many tokens expressions with commas between them have, from one on.
pub open spec fn exprs_width(list: Seq<ExprView>, from: int) -> int
    decreases list, list.len() - from,
{
    if from < 0 || from >= list.len() {
        0
    } else if from + 1 == list.len() {
        expr_width(list[from])
    } else {
        expr_width(list[from]) + 1 + exprs_width(list, from + 1)
    }
}

/// How many tokens fields of a literal have, from one on.
pub open spec fn inits_width(list: Seq<InitView>, from: int) -> int
    decreases list, list.len() - from,
{
    if from < 0 || from >= list.len() {
        0
    } else if from + 1 == list.len() {
        2 + expr_width(list[from].expr)
    } else {
        2 + expr_width(list[from].expr) + 1 + inits_width(list, from + 1)
    }
}

/// How many tokens entries of a dictionary have, from one on.
pub open spec fn entries_width(list: Seq<EntryView>, from: int) -> int
    decreases list, list.len() - from,
{
    if from < 0 || from >= list.len() {
        0
    } else if from + 1 == list.len() {
        2 + expr_width(list[from].value)
    } else {
        2 + expr_width(list[from].value) + 1 + entries_width(list, from + 1)
    }
}

/// How many tokens an arm has.
pub open spec fn arm_width(arm: ArmView) -> int
    decreases arm, 0int,
{
    pattern_width(arm.pattern) + 1 + expr_width(arm.expr)
}

/// How many tokens arms have, from one on.
pub open spec fn arms_width(list: Seq<ArmView>, from: int) -> int
    decreases list, list.len() - from,
{
    if from < 0 || from >= list.len() {
        0
    } else if from + 1 == list.len() {
        arm_width(list[from])
    } else {
        arm_width(list[from]) + 1 + arms_width(list, from + 1)
    }
}

/// An expression is written at a position.
pub open spec fn writes_expr(toks: Seq<TokenView>, pos: int, e: ExprView) -> bool
    decreases e, 0int,
{
    match e {
        ExprView::Bool { value, span } => {
            &&& stands(
                toks,
                pos,
                if value {
                    KindView::True
                } else {
                    KindView::False
                },
            )
            &&& span == span_at(toks, pos)
        },
        ExprView::String { value, span } => {
            stands(toks, pos, KindView::String(value)) && span == span_at(toks, pos)
        },
        ExprView::Char { value, span } => {
            stands(toks, pos, KindView::Char(value)) && span == span_at(toks, pos)
        },
        ExprView::Number { literal, span } => {
            stands(toks, pos, KindView::Number(literal)) && span == span_at(toks, pos)
        },
        ExprView::Ident { name, span } => {
            &&& stands(toks, pos, KindView::LParen)
            &&& names(toks, pos + 1, name)
            &&& span == span_at(toks, pos + 1)
            &&& stands(toks, pos + 2, KindView::RParen)
        },
        ExprView::Call { name, args, span } => {
            &&& names(toks, pos, name)
            &&& span == span_at(toks, pos)
            &&& stands(toks, pos + 1, KindView::LParen)
            &&& writes_exprs(toks, pos + 2, args, 0)
            &&& stands(toks, pos + 2 + exprs_width(args, 0), KindView::RParen)
        },
        ExprView::QualifiedCall { owner, member, args, span } => {
            &&& names(toks, pos, owner)
            &&& span == span_at(toks, pos)
            &&& stands(toks, pos + 1, KindView::ColonColon)
            &&& names(toks, pos + 2, member)
            &&& stands(toks, pos + 3, KindView::LParen)
            &&& writes_exprs(toks, pos + 4, args, 0)
            &&& stands(toks, pos + 4 + exprs_width(args, 0), KindView::RParen)
        },
        ExprView::Unary { op, expr, span } => {
            &&& stands(toks, pos, KindView::LParen)
            &&& writes_unary(toks, pos + 1, op)
            &&& span == span_at(toks, pos + 1)
            &&& writes_expr(toks, pos + 1 + unary_width(op), *expr)
            &&& stands(toks, pos + 1 + unary_width(op) + expr_width(*expr), KindView::RParen)
        },
        ExprView::Binary { op, left, right, span } => {
            let sign = pos + 1 + expr_width(*left);
            &&& stands(toks, pos, KindView::LParen)
            &&& writes_expr(toks, pos + 1, *left)
            &&& stands(toks, sign, sign_of(op))
            &&& span == span_at(toks, sign)
            &&& writes_expr(toks, sign + 1, *right)
            &&& stands(toks, sign + 1 + expr_width(*right), KindView::RParen)
        },
        ExprView::FieldAccess { base, field, span } => {
            let dot = pos + 1 + expr_width(*base);
            &&& stands(toks, pos, KindView::LParen)
            &&& writes_expr(toks, pos + 1, *base)
            &&& stands(toks, dot, KindView::Dot)
            &&& span == span_at(toks, dot)
            &&& names(toks, dot + 1, field)
            &&& stands(toks, dot + 2, KindView::RParen)
        },
        ExprView::Index { base, index, span } => {
            let bracket = pos + 1 + expr_width(*base);
            &&& stands(toks, pos, KindView::LParen)
            &&& writes_expr(toks, pos + 1, *base)
            &&& stands(toks, bracket, KindView::LBracket)
            &&& span == span_at(toks, bracket)
            &&& writes_expr(toks, bracket + 1, *index)
            &&& stands(toks, bracket + 1 + expr_width(*index), KindView::RBracket)
            &&& stands(toks, bracket + 2 + expr_width(*index), KindView::RParen)
        },
        ExprView::ArrayLit { elems, span } => {
            &&& stands(toks, pos, KindView::LBracket)
            &&& span == span_at(toks, pos)
            &&& writes_exprs(toks, pos + 1, elems, 0)
            &&& stands(toks, pos + 1 + exprs_width(elems, 0), KindView::RBracket)
        },
        ExprView::StructInit { name, fields, span } => {
            &&& names(toks, pos, name)
            &&& span == span_at(toks, pos)
            &&& stands(toks, pos + 1, KindView::LBrace)
            &&& writes_inits(toks, pos + 2, fields, 0)
            &&& stands(toks, pos + 2 + inits_width(fields, 0), KindView::RBrace)
        },
        ExprView::EnumVariant { enum_name, variant, span } => {
            &&& stands(toks, pos, KindView::LParen)
            &&& names(toks, pos + 1, enum_name)
            &&& span == span_at(toks, pos + 1)
            &&& stands(toks, pos + 2, KindView::ColonColon)
            &&& names(toks, pos + 3, variant)
            &&& stands(toks, pos + 4, KindView::RParen)
        },
        ExprView::EnumStructVariant { enum_name, variant, fields, span } => {
            &&& names(toks, pos, enum_name)
            &&& span == span_at(toks, pos)
            &&& stands(toks, pos + 1, KindView::ColonColon)
            &&& names(toks, pos + 2, variant)
            &&& stands(toks, pos + 3, KindView::LBrace)
            &&& writes_inits(toks, pos + 4, fields, 0)
            &&& stands(toks, pos + 4 + inits_width(fields, 0), KindView::RBrace)
        },
        ExprView::DictLit { entries, span } => {
            &&& stands(toks, pos, KindView::LBrace)
            &&& span == span_at(toks, pos)
            &&& writes_entries(toks, pos + 1, entries, 0)
            &&& stands(toks, pos + 1 + entries_width(entries, 0), KindView::RBrace)
        },
        ExprView::MethodCall { receiver, name, args, span } => {
            let dot = pos + 1 + expr_width(*receiver);
            &&& stands(toks, pos, KindView::LParen)
            &&& writes_expr(toks, pos + 1, *receiver)
            &&& stands(toks, dot, KindView::Dot)
            &&& span == span_at(toks, dot)
            &&& names(toks, dot + 1, name)
            &&& stands(toks, dot + 2, KindView::LParen)
            &&& writes_exprs(toks, dot + 3, args, 0)
            &&& stands(toks, dot + 3 + exprs_width(args, 0), KindView::RParen)
            &&& stands(toks, dot + 4 + exprs_width(args, 0), KindView::RParen)
        },
        ExprView::Match { value, arms, span } => {
            let brace = pos + 1 + expr_width(*value);
            &&& stands(toks, pos, KindView::Match)
            &&& span == span_at(toks, pos)
            &&& writes_expr(toks, pos + 1, *value)
            &&& stands(toks, brace, KindView::LBrace)
            &&& arms.len() > 0
            &&& writes_arms(toks, brace + 1, arms, 0)
            &&& stands(toks, brace + 1 + arms_width(arms, 0), KindView::RBrace)
        },
        ExprView::EnumTupleVariant { .. } => false,
    }
}

/// Expressions from one on are written at a position, with commas between them.
pub open spec fn writes_exprs(
    toks: Seq<TokenView>,
    pos: int,
    list: Seq<ExprView>,
    from: int,
) -> bool
    decreases list, list.len() - from,
{
    if from < 0 || from >= list.len() {
        true
    } else {
        let end = pos + expr_width(list[from]);
        &&& writes_expr(toks, pos, list[from])
        &&& from + 1 < list.len() ==> stands(toks, end, KindView::Comma) && writes_exprs(
            toks,
            end + 1,
            list,
            from + 1,
        )
    }
}

/// Fields of a literal from one on are written at a position, with commas between
/// them.
pub open spec fn writes_inits(
    toks: Seq<TokenView>,
    pos: int,
    list: Seq<InitView>,
    from: int,
) -> bool
    decreases list, list.len() - from,
{
    if from < 0 || from >= list.len() {
        true
    } else {
        let end = pos + 2 + expr_width(list[from].expr);
        &&& names(toks, pos, list[from].name)
        &&& list[from].span == span_at(toks, pos)
        &&& stands(toks, pos + 1, KindView::Colon)
        &&& writes_expr(toks, pos + 2, list[from].expr)
        &&& from + 1 < list.len() ==> stands(toks, end, KindView::Comma) && writes_inits(
            toks,
            end + 1,
            list,
            from + 1,
        )
    }
}

/// Entries of a dictionary from one on are written at a position, with commas between
/// them.
pub open spec fn writes_entries(
    toks: Seq<TokenView>,
    pos: int,
    list: Seq<EntryView>,
    from: int,
) -> bool
    decreases list, list.len() - from,
{
    if from < 0 || from >= list.len() {
        true
    } else {
        let end = pos + 2 + expr_width(list[from].value);
        &&& stands(toks, pos, KindView::String(list[from].key))
        &&& list[from].span == span_at(toks, pos)
        &&& stands(toks, pos + 1, KindView::Colon)
        &&& writes_expr(toks, pos + 2, list[from].value)
        &&& from + 1 < list.len() ==> stands(toks, end, KindView::Comma) && writes_entries(
            toks,
            end + 1,
            list,
            from + 1,
        )
    }
}

/// Arms from one on are written at a position, with commas between them.
pub open spec fn writes_arms(
    toks: Seq<TokenView>,
    pos: int,
    list: Seq<ArmView>,
    from: int,
) -> bool
    decreases list, list.len() - from,
{
    if from < 0 || from >= list.len() {
        true
    } else {
        let arrow = pos + pattern_width(list[from].pattern);
        let end = arrow + 1 + expr_width(list[from].expr);
        &&& writes_pattern(toks, pos, list[from].pattern)
        &&& list[from].span == span_at(toks, pos)
        &&& stands(toks, arrow, KindView::FatArrow)
        &&& writes_expr(toks, arrow + 1, list[from].expr)
        &&& from + 1 < list.len() ==> stands(toks, end, KindView::Comma) && writes_arms(
            toks,
            end + 1,
            list,
            from + 1,
        )
    }
}

} // verus!
