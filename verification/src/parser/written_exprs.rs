//! Expressions that are written as tokens are read back as they were.

use crate::ast::{ArmView, BinaryOp, EntryView, ExprView, InitView, NamedPatternView, PatternView};
use crate::diagnostic::DiagnosticView;
use crate::parser::cursor::{is_ahead, kind_at, span_at, starts_struct_init};
use crate::parser::exprs::{
    accesses_after, accesses_at, arm_at, arm_list, arms_after, binary_at, call_args_after,
    call_args_at, entries_after, entry_at, entry_list, enum_init_after, enum_init_at, expr_after,
    expr_at, expr_list, exprs_after, exprs_at, init_at, init_list, inits_after, inits_at, match_at,
    name_expr_at, operator_of, operators_after, operators_at, postfix_at, primary_at,
    struct_init_after, struct_init_at, unary_after, unary_at, unary_op, BINARY_LEVELS,
};
use crate::parser::laws::{
    joined_by, lemma_looser_levels, lemma_operand_at_level, lemma_operator_step, level_at,
};
use crate::parser::patterns::{binding_list, named_pattern_at, named_pattern_list, pattern_at};
use crate::parser::written::{
    arm_width, arms_width, bindings_width, entries_width, expr_width, exprs_width, inits_width,
    named_patterns_width, names, pattern_width, sign_of, stands, unary_width, writes_arms,
    writes_bindings, writes_entries, writes_expr, writes_exprs, writes_inits, writes_named_patterns,
    writes_pattern,
};
use crate::token::{KindView, TokenView};
use vstd::prelude::*;

verus! {

/// What may stand behind an expression and is no part of it.
pub open spec fn ends_expr(kind: KindView) -> bool {
    match kind {
        KindView::Semicolon
        | KindView::Comma
        | KindView::RParen
        | KindView::RBracket
        | KindView::RBrace
        | KindView::LBrace
        | KindView::DotDot
        | KindView::FatArrow
        | KindView::Equal
        | KindView::Ident(_)
        | KindView::Eof => true,
        _ => false,
    }
}

/// What an expression that is written may start with.
pub open spec fn starts_expr(kind: KindView) -> bool {
    match kind {
        KindView::True
        | KindView::False
        | KindView::String(_)
        | KindView::Char(_)
        | KindView::Number(_)
        | KindView::Match
        | KindView::Ident(_)
        | KindView::LBracket
        | KindView::LBrace
        | KindView::LParen => true,
        _ => false,
    }
}

/// What a postfix expression is read as, an expression is.
proof fn lemma_postfix_is_expr(toks: Seq<TokenView>, pos: int, e: ExprView, end: int)
    requires
        is_ahead(toks, pos, end),
        postfix_at(toks, pos) == Ok::<(ExprView, int), DiagnosticView>((e, end)),
        starts_expr(kind_at(toks, pos)),
        ends_expr(kind_at(toks, end)),
    ensures
        unary_at(toks, pos) == Ok::<(ExprView, int), DiagnosticView>((e, end)),
        expr_at(toks, pos) == Ok::<(ExprView, int), DiagnosticView>((e, end)),
{
    assert(unary_op(toks, pos) is None);
    lemma_operand_at_level(toks, pos, 0, e, end);
}

/// What a primary expression is read as, an expression is.
proof fn lemma_primary_is_expr(toks: Seq<TokenView>, pos: int, e: ExprView, end: int)
    requires
        is_ahead(toks, pos, end),
        primary_at(toks, pos) == Ok::<(ExprView, int), DiagnosticView>((e, end)),
        starts_expr(kind_at(toks, pos)),
        ends_expr(kind_at(toks, end)),
    ensures
        unary_at(toks, pos) == Ok::<(ExprView, int), DiagnosticView>((e, end)),
        expr_at(toks, pos) == Ok::<(ExprView, int), DiagnosticView>((e, end)),
{
    assert(accesses_after(toks, pos, end, e) == accesses_at(toks, end, e));
    lemma_postfix_is_expr(toks, pos, e, end);
}

/// What is read between parentheses.
proof fn lemma_in_parentheses(toks: Seq<TokenView>, pos: int, e: ExprView, end: int)
    requires
        stands(toks, pos, KindView::LParen),
        is_ahead(toks, pos + 1, end),
        stands(toks, end, KindView::RParen),
        expr_at(toks, pos + 1) == Ok::<(ExprView, int), DiagnosticView>((e, end)),
    ensures
        primary_at(toks, pos) == Ok::<(ExprView, int), DiagnosticView>((e, end + 1)),
{
    assert(expr_after(toks, pos, pos + 1) == expr_at(toks, pos + 1));
}

/// The sign of an operator is read as the operator.
proof fn lemma_sign(op: BinaryOp)
    ensures
        operator_of(sign_of(op)) matches Some((found, level)) && found == op && level
            < BINARY_LEVELS,
{
}

/// Two operands with an operator between them.
proof fn lemma_binary(
    toks: Seq<TokenView>,
    pos: int,
    left: ExprView,
    sign: int,
    op: BinaryOp,
    right: ExprView,
    end: int,
)
    requires
        0 <= pos,
        is_ahead(toks, pos, sign),
        is_ahead(toks, sign + 1, end),
        end < toks.len(),
        stands(toks, sign, sign_of(op)),
        unary_at(toks, pos) == Ok::<(ExprView, int), DiagnosticView>((left, sign)),
        unary_at(toks, sign + 1) == Ok::<(ExprView, int), DiagnosticView>((right, end)),
        ends_expr(kind_at(toks, end)),
    ensures
        expr_at(toks, pos) == Ok::<(ExprView, int), DiagnosticView>(
            (
                ExprView::Binary {
                    op,
                    left: Box::new(left),
                    right: Box::new(right),
                    span: span_at(toks, sign),
                },
                end,
            ),
        ),
{
    lemma_sign(op);
    let level = level_at(toks, sign);
    let whole = joined_by(toks, sign, left, right);
    lemma_operand_at_level(toks, pos, level + 1, left, sign);
    lemma_operand_at_level(toks, sign + 1, level + 1, right, end);
    lemma_operator_step(toks, sign, left, right, end);
    assert(operators_after(toks, pos, sign, level, left) == operators_at(toks, sign, level, left));
    assert(operators_at(toks, end, level, whole) == Ok::<(ExprView, int), DiagnosticView>(
        (whole, end),
    ));
    assert(binary_at(toks, pos, level) == Ok::<(ExprView, int), DiagnosticView>((whole, end)));
    lemma_looser_levels(toks, pos, level, 0, whole, end);
}

/// Names of a tuple pattern are read back.
proof fn lemma_bindings(
    toks: Seq<TokenView>,
    pos: int,
    list: Seq<Option<Seq<char>>>,
    from: int,
    before: Seq<Option<Seq<char>>>,
)
    requires
        0 <= pos,
        0 <= from < list.len(),
        before == list.take(from),
        writes_bindings(toks, pos, list, from),
        stands(toks, pos + bindings_width(list.len() as int, from), KindView::RParen),
    ensures
        binding_list(toks, pos, before) == Ok::<(Seq<Option<Seq<char>>>, int), DiagnosticView>(
            (list, pos + bindings_width(list.len() as int, from)),
        ),
    decreases list.len() - from,
{
    assert(before.push(list[from]) =~= list.take(from + 1));
    if from + 1 < list.len() {
        lemma_bindings(toks, pos + 2, list, from + 1, list.take(from + 1));
    } else {
        assert(list.take(from + 1) =~= list);
    }
}

/// Fields of a named pattern are read back.
proof fn lemma_named_patterns(
    toks: Seq<TokenView>,
    pos: int,
    list: Seq<NamedPatternView>,
    from: int,
    before: Seq<NamedPatternView>,
)
    requires
        0 <= pos,
        0 <= from < list.len(),
        before == list.take(from),
        writes_named_patterns(toks, pos, list, from),
        stands(toks, pos + named_patterns_width(list.len() as int, from), KindView::RBrace),
    ensures
        named_pattern_list(toks, pos, before) == Ok::<(Seq<NamedPatternView>, int), DiagnosticView>(
            (list, pos + named_patterns_width(list.len() as int, from)),
        ),
    decreases list.len() - from,
{
    assert(before.push(list[from]) =~= list.take(from + 1));
    assert(named_pattern_at(toks, pos) == Ok::<(NamedPatternView, int), DiagnosticView>(
        (list[from], pos + 3),
    ));
    if from + 1 < list.len() {
        lemma_named_patterns(toks, pos + 4, list, from + 1, list.take(from + 1));
    } else {
        assert(list.take(from + 1) =~= list);
    }
}

/// A pattern that is written is read back, where no parenthesis or brace stands behind
/// it.
pub proof fn law_written_patterns_are_read_back(
    toks: Seq<TokenView>,
    pos: int,
    pattern: PatternView,
)
    requires
        0 <= pos,
        writes_pattern(toks, pos, pattern),
        kind_at(toks, pos + pattern_width(pattern)) != KindView::LParen,
        kind_at(toks, pos + pattern_width(pattern)) != KindView::LBrace,
    ensures
        pattern_at(toks, pos) == Ok::<(PatternView, int), DiagnosticView>(
            (pattern, pos + pattern_width(pattern)),
        ),
        pattern_width(pattern) > 0,
        pos + pattern_width(pattern) <= toks.len(),
        kind_at(toks, pos) is Ident,
{
    match pattern {
        PatternView::EnumTuple { bindings, .. } => {
            assert(bindings.take(0) =~= Seq::empty());
            if bindings.len() > 0 {
                lemma_bindings(toks, pos + 4, bindings, 0, Seq::empty());
            } else {
                assert(bindings =~= Seq::empty());
            }
        },
        PatternView::EnumNamed { fields, .. } => {
            assert(fields.take(0) =~= Seq::empty());
            if fields.len() > 0 {
                lemma_named_patterns(toks, pos + 4, fields, 0, Seq::empty());
            } else {
                assert(fields =~= Seq::empty());
            }
        },
        _ => {},
    }
}

/// What is known of an expression that is written: it is read back as a primary one.
spec fn is_read_back(toks: Seq<TokenView>, pos: int, e: ExprView) -> bool {
    let end = pos + expr_width(e);
    &&& primary_at(toks, pos) == Ok::<(ExprView, int), DiagnosticView>((e, end))
    &&& is_ahead(toks, pos, end)
    &&& starts_expr(kind_at(toks, pos))
    &&& ends_expr(kind_at(toks, end)) ==> unary_at(toks, pos) == Ok::<
        (ExprView, int),
        DiagnosticView,
    >((e, end)) && expr_at(toks, pos) == Ok::<(ExprView, int), DiagnosticView>((e, end))
}

/// A primary expression is read back.
proof fn lemma_read_back(toks: Seq<TokenView>, pos: int, e: ExprView)
    requires
        primary_at(toks, pos) == Ok::<(ExprView, int), DiagnosticView>((e, pos + expr_width(e))),
        is_ahead(toks, pos, pos + expr_width(e)),
        starts_expr(kind_at(toks, pos)),
    ensures
        is_read_back(toks, pos, e),
{
    if ends_expr(kind_at(toks, pos + expr_width(e))) {
        lemma_primary_is_expr(toks, pos, e, pos + expr_width(e));
    }
}

/// A name is read back.
proof fn lemma_ident(toks: Seq<TokenView>, pos: int, e: ExprView)
    requires
        0 <= pos,
        writes_expr(toks, pos, e),
        e is Ident,
    ensures
        is_read_back(toks, pos, e),
{
    lemma_primary_is_expr(toks, pos + 1, e, pos + 2);
    lemma_in_parentheses(toks, pos, e, pos + 2);
    lemma_read_back(toks, pos, e);
}

/// A call is read back.
proof fn lemma_call(toks: Seq<TokenView>, pos: int, e: ExprView)
    requires
        0 <= pos,
        writes_expr(toks, pos, e),
        e is Call,
        exprs_width(e->Call_args, 0) >= 0,
        forall|message: Seq<char>| #[trigger] call_args_after(toks, pos, pos + 2, message)
            == Ok::<(Seq<ExprView>, int), DiagnosticView>(
                (e->Call_args, pos + 2 + exprs_width(e->Call_args, 0) + 1),
            ),
    ensures
        is_read_back(toks, pos, e),
{
    assert(call_args_after(toks, pos, pos + 2, "expected ')' after call"@) == Ok::<
        (Seq<ExprView>, int),
        DiagnosticView,
    >((e->Call_args, pos + expr_width(e))));
    assert(name_expr_at(toks, pos, e->Call_name) == Ok::<(ExprView, int), DiagnosticView>(
        (e, pos + expr_width(e)),
    ));
    lemma_read_back(toks, pos, e);
}

/// A qualified call is read back.
proof fn lemma_qualified_call(toks: Seq<TokenView>, pos: int, e: ExprView)
    requires
        0 <= pos,
        writes_expr(toks, pos, e),
        e is QualifiedCall,
        exprs_width(e->QualifiedCall_args, 0) >= 0,
        forall|message: Seq<char>| #[trigger] call_args_after(toks, pos, pos + 4, message)
            == Ok::<(Seq<ExprView>, int), DiagnosticView>(
                (e->QualifiedCall_args, pos + 4 + exprs_width(e->QualifiedCall_args, 0) + 1),
            ),
    ensures
        is_read_back(toks, pos, e),
{
    assert(!starts_struct_init(toks, pos + 1));
    assert(call_args_after(toks, pos, pos + 4, "expected ')' after associated call"@) == Ok::<
        (Seq<ExprView>, int),
        DiagnosticView,
    >((e->QualifiedCall_args, pos + expr_width(e))));
    assert(name_expr_at(toks, pos, e->QualifiedCall_owner) == Ok::<
        (ExprView, int),
        DiagnosticView,
    >((e, pos + expr_width(e))));
    lemma_read_back(toks, pos, e);
}

/// A unary expression is read back.
proof fn lemma_unary(toks: Seq<TokenView>, pos: int, e: ExprView)
    requires
        0 <= pos,
        writes_expr(toks, pos, e),
        e is Unary,
        is_read_back(toks, pos + 1 + unary_width(e->Unary_op), *e->Unary_expr),
    ensures
        is_read_back(toks, pos, e),
{
    let op = e->Unary_op;
    let start = pos + 1 + unary_width(op);
    let end = pos + expr_width(e);
    assert(unary_op(toks, pos + 1) == Some(op));
    assert(unary_after(toks, pos + 1, start) == unary_at(toks, start));
    assert(unary_at(toks, pos + 1) == Ok::<(ExprView, int), DiagnosticView>((e, end - 1)));
    lemma_operand_at_level(toks, pos + 1, 0, e, end - 1);
    lemma_in_parentheses(toks, pos, e, end - 1);
    lemma_read_back(toks, pos, e);
}

/// A binary expression is read back.
proof fn lemma_binary_expr(toks: Seq<TokenView>, pos: int, e: ExprView)
    requires
        0 <= pos,
        writes_expr(toks, pos, e),
        e is Binary,
        is_read_back(toks, pos + 1, *e->left),
        is_read_back(toks, pos + 2 + expr_width(*e->left), *e->right),
    ensures
        is_read_back(toks, pos, e),
{
    let left = *e->left;
    let right = *e->right;
    let sign = pos + 1 + expr_width(left);
    let end = pos + expr_width(e);
    assert(accesses_after(toks, pos + 1, sign, left) == accesses_at(toks, sign, left));
    assert(postfix_at(toks, pos + 1) == Ok::<(ExprView, int), DiagnosticView>((left, sign)));
    assert(unary_op(toks, pos + 1) is None);
    assert(unary_at(toks, pos + 1) == Ok::<(ExprView, int), DiagnosticView>((left, sign)));
    lemma_binary(toks, pos + 1, left, sign, e->Binary_op, right, end - 1);
    lemma_in_parentheses(toks, pos, e, end - 1);
    lemma_read_back(toks, pos, e);
}

/// An access to a field is read back.
proof fn lemma_field(toks: Seq<TokenView>, pos: int, e: ExprView)
    requires
        0 <= pos,
        writes_expr(toks, pos, e),
        e is FieldAccess,
        is_read_back(toks, pos + 1, *e->FieldAccess_base),
    ensures
        is_read_back(toks, pos, e),
{
    let base = *e->FieldAccess_base;
    let dot = pos + 1 + expr_width(base);
    let end = pos + expr_width(e);
    assert(accesses_after(toks, dot, dot + 2, e) == accesses_at(toks, dot + 2, e));
    assert(accesses_at(toks, dot, base) == Ok::<(ExprView, int), DiagnosticView>((e, end - 1)));
    assert(accesses_after(toks, pos + 1, dot, base) == accesses_at(toks, dot, base));
    lemma_postfix_is_expr(toks, pos + 1, e, end - 1);
    lemma_in_parentheses(toks, pos, e, end - 1);
    lemma_read_back(toks, pos, e);
}

/// An indexed expression is read back.
proof fn lemma_index(toks: Seq<TokenView>, pos: int, e: ExprView)
    requires
        0 <= pos,
        writes_expr(toks, pos, e),
        e is Index,
        is_read_back(toks, pos + 1, *e->Index_base),
        is_read_back(toks, pos + 2 + expr_width(*e->Index_base), *e->index),
    ensures
        is_read_back(toks, pos, e),
{
    let base = *e->Index_base;
    let bracket = pos + 1 + expr_width(base);
    let end = pos + expr_width(e);
    assert(expr_after(toks, bracket, bracket + 1) == expr_at(toks, bracket + 1));
    assert(accesses_after(toks, bracket, end - 1, e) == accesses_at(toks, end - 1, e));
    assert(accesses_at(toks, bracket, base) == Ok::<(ExprView, int), DiagnosticView>((e, end - 1)));
    assert(accesses_after(toks, pos + 1, bracket, base) == accesses_at(toks, bracket, base));
    lemma_postfix_is_expr(toks, pos + 1, e, end - 1);
    lemma_in_parentheses(toks, pos, e, end - 1);
    lemma_read_back(toks, pos, e);
}

/// An array is read back.
proof fn lemma_array(toks: Seq<TokenView>, pos: int, e: ExprView)
    requires
        0 <= pos,
        writes_expr(toks, pos, e),
        e is ArrayLit,
        exprs_width(e->elems, 0) >= 0,
        exprs_at(toks, pos + 1, KindView::RBracket) == Ok::<(Seq<ExprView>, int), DiagnosticView>(
            (e->elems, pos + 1 + exprs_width(e->elems, 0)),
        ),
    ensures
        is_read_back(toks, pos, e),
{
    assert(exprs_after(toks, pos, pos + 1, KindView::RBracket) == exprs_at(
        toks,
        pos + 1,
        KindView::RBracket,
    ));
    lemma_read_back(toks, pos, e);
}

/// A struct literal is read back.
proof fn lemma_struct_init(toks: Seq<TokenView>, pos: int, e: ExprView)
    requires
        0 <= pos,
        writes_expr(toks, pos, e),
        e is StructInit,
        inits_width(e->StructInit_fields, 0) >= 0,
        inits_at(
            toks,
            pos + 2,
            "expected field name"@,
            "expected ':' after field name"@,
            "expected '}' after struct literal"@,
        ) == Ok::<(Seq<InitView>, int), DiagnosticView>(
            (e->StructInit_fields, pos + 2 + inits_width(e->StructInit_fields, 0) + 1),
        ),
        e->StructInit_fields.len() > 0 ==> names(toks, pos + 2, e->StructInit_fields[0].name)
            && stands(toks, pos + 2 + 1, KindView::Colon),
        e->StructInit_fields.len() == 0 ==> inits_width(e->StructInit_fields, 0) == 0,
    ensures
        is_read_back(toks, pos, e),
{
    let name = e->StructInit_name;
    let span = e->StructInit_span;
    assert(starts_struct_init(toks, pos + 1));
    assert(inits_after(
        toks,
        pos + 1,
        pos + 2,
        "expected field name"@,
            "expected ':' after field name"@,
            "expected '}' after struct literal"@,
    ) == inits_at(
        toks,
        pos + 2,
        "expected field name"@,
            "expected ':' after field name"@,
            "expected '}' after struct literal"@,
    ));
    assert(struct_init_at(toks, pos + 1, name, span) == Ok::<(ExprView, int), DiagnosticView>(
        (e, pos + expr_width(e)),
    ));
    assert(struct_init_after(toks, pos, pos + 1, name, span) == struct_init_at(
        toks,
        pos + 1,
        name,
        span,
    ));
    assert(name_expr_at(toks, pos, name) == Ok::<(ExprView, int), DiagnosticView>(
        (e, pos + expr_width(e)),
    ));
    lemma_read_back(toks, pos, e);
}

/// A variant is read back.
proof fn lemma_variant(toks: Seq<TokenView>, pos: int, e: ExprView)
    requires
        0 <= pos,
        writes_expr(toks, pos, e),
        e is EnumVariant,
    ensures
        is_read_back(toks, pos, e),
{
    assert(!starts_struct_init(toks, pos + 2));
    assert(!starts_struct_init(toks, pos + 4));
    assert(name_expr_at(toks, pos + 1, e->EnumVariant_enum_name) == Ok::<
        (ExprView, int),
        DiagnosticView,
    >((e, pos + 4)));
    assert(primary_at(toks, pos + 1) == Ok::<(ExprView, int), DiagnosticView>((e, pos + 4)));
    lemma_primary_is_expr(toks, pos + 1, e, pos + 4);
    lemma_in_parentheses(toks, pos, e, pos + 4);
    lemma_read_back(toks, pos, e);
}

/// A variant with fields is read back.
proof fn lemma_variant_init(toks: Seq<TokenView>, pos: int, e: ExprView)
    requires
        0 <= pos,
        writes_expr(toks, pos, e),
        e is EnumStructVariant,
        inits_width(e->EnumStructVariant_fields, 0) >= 0,
        inits_at(
            toks,
            pos + 4,
            "expected enum payload field name"@,
            "expected ':' after enum payload field"@,
            "expected '}' after enum payload"@,
        ) == Ok::<(Seq<InitView>, int), DiagnosticView>(
            (e->EnumStructVariant_fields, pos + 4 + inits_width(
                e->EnumStructVariant_fields,
                0,
            ) + 1),
        ),
        e->EnumStructVariant_fields.len() > 0
            ==> names(toks, pos + 4, e->EnumStructVariant_fields[0].name)
            && stands(toks, pos + 4 + 1, KindView::Colon),
        e->EnumStructVariant_fields.len() == 0 ==> inits_width(e->EnumStructVariant_fields, 0) == 0,
    ensures
        is_read_back(toks, pos, e),
{
    let enum_name = e->EnumStructVariant_enum_name;
    let variant = e->EnumStructVariant_variant;
    let span = e->EnumStructVariant_span;
    assert(!starts_struct_init(toks, pos + 1));
    assert(starts_struct_init(toks, pos + 3));
    assert(inits_after(
        toks,
        pos + 3,
        pos + 4,
        "expected enum payload field name"@,
            "expected ':' after enum payload field"@,
            "expected '}' after enum payload"@,
    ) == inits_at(
        toks,
        pos + 4,
        "expected enum payload field name"@,
            "expected ':' after enum payload field"@,
            "expected '}' after enum payload"@,
    ));
    assert(enum_init_at(toks, pos + 3, enum_name, variant, span) == Ok::<
        (ExprView, int),
        DiagnosticView,
    >((e, pos + expr_width(e))));
    assert(enum_init_after(toks, pos, pos + 3, enum_name, variant, span) == enum_init_at(
        toks,
        pos + 3,
        enum_name,
        variant,
        span,
    ));
    assert(name_expr_at(toks, pos, enum_name) == Ok::<(ExprView, int), DiagnosticView>(
        (e, pos + expr_width(e)),
    ));
    lemma_read_back(toks, pos, e);
}

/// A dictionary is read back.
proof fn lemma_dict(toks: Seq<TokenView>, pos: int, e: ExprView)
    requires
        0 <= pos,
        writes_expr(toks, pos, e),
        e is DictLit,
        entries_width(e->entries, 0) >= 0,
        entries_after(toks, pos, pos + 1) == Ok::<(Seq<EntryView>, int), DiagnosticView>(
            (e->entries, pos + 1 + entries_width(e->entries, 0)),
        ),
    ensures
        is_read_back(toks, pos, e),
{
    lemma_read_back(toks, pos, e);
}

/// A call of a method is read back.
proof fn lemma_method_call(toks: Seq<TokenView>, pos: int, e: ExprView, dot: int)
    requires
        0 <= pos,
        writes_expr(toks, pos, e),
        e is MethodCall,
        dot == pos + 1 + expr_width(*e->receiver),
        is_read_back(toks, pos + 1, *e->receiver),
        exprs_width(e->MethodCall_args, 0) >= 0,
        forall|message: Seq<char>| #[trigger] call_args_after(toks, dot, dot + 3, message)
            == Ok::<(Seq<ExprView>, int), DiagnosticView>(
                (e->MethodCall_args, dot + 3 + exprs_width(e->MethodCall_args, 0) + 1),
            ),
    ensures
        is_read_back(toks, pos, e),
{
    let receiver = *e->receiver;
    let end = pos + expr_width(e);
    assert(call_args_after(toks, dot, dot + 3, "expected ')' after method call"@) == Ok::<
        (Seq<ExprView>, int),
        DiagnosticView,
    >((e->MethodCall_args, end - 1)));
    assert(accesses_after(toks, dot, end - 1, e) == accesses_at(toks, end - 1, e));
    assert(accesses_at(toks, dot, receiver) == Ok::<(ExprView, int), DiagnosticView>((e, end - 1)));
    assert(accesses_after(toks, pos + 1, dot, receiver) == accesses_at(toks, dot, receiver));
    lemma_postfix_is_expr(toks, pos + 1, e, end - 1);
    lemma_in_parentheses(toks, pos, e, end - 1);
    lemma_read_back(toks, pos, e);
}

/// A match is read back.
proof fn lemma_match(toks: Seq<TokenView>, pos: int, e: ExprView)
    requires
        0 <= pos,
        writes_expr(toks, pos, e),
        e is Match,
        is_read_back(toks, pos + 1, *e->Match_value),
        arms_width(e->arms, 0) > 0,
        arm_list(
            toks,
            pos + 2 + expr_width(*e->Match_value),
            Seq::empty(),
        ) == Ok::<(Seq<ArmView>, int), DiagnosticView>(
            (e->arms, pos + 2 + expr_width(*e->Match_value) + arms_width(e->arms, 0)),
        ),
    ensures
        is_read_back(toks, pos, e),
{
    let brace = pos + 1 + expr_width(*e->Match_value);
    assert(expr_after(toks, pos, pos + 1) == expr_at(toks, pos + 1));
    assert(arms_after(toks, pos, brace + 1) == arm_list(toks, brace + 1, Seq::empty()));
    assert(match_at(toks, pos) == Ok::<(ExprView, int), DiagnosticView>((e, pos + expr_width(e))));
    lemma_read_back(toks, pos, e);
}

/// An expression that is written is read back as a primary one.
proof fn lemma_expr(toks: Seq<TokenView>, pos: int, e: ExprView)
    requires
        0 <= pos,
        writes_expr(toks, pos, e),
    ensures
        is_read_back(toks, pos, e),
    decreases e, 0int,
{
    match e {
        ExprView::Ident { .. } => {
            lemma_ident(toks, pos, e);
        },
        ExprView::Call { args, .. } => {
            lemma_args(toks, pos, pos + 2, args);
            lemma_call(toks, pos, e);
        },
        ExprView::QualifiedCall { args, .. } => {
            lemma_args(toks, pos, pos + 4, args);
            lemma_qualified_call(toks, pos, e);
        },
        ExprView::Unary { op, expr, .. } => {
            lemma_expr(toks, pos + 1 + unary_width(op), *expr);
            lemma_unary(toks, pos, e);
        },
        ExprView::Binary { left, right, .. } => {
            lemma_expr(toks, pos + 1, *left);
            lemma_expr(toks, pos + 2 + expr_width(*left), *right);
            lemma_binary_expr(toks, pos, e);
        },
        ExprView::FieldAccess { base, .. } => {
            lemma_expr(toks, pos + 1, *base);
            lemma_field(toks, pos, e);
        },
        ExprView::Index { base, index, .. } => {
            lemma_expr(toks, pos + 1, *base);
            lemma_expr(toks, pos + 2 + expr_width(*base), *index);
            lemma_index(toks, pos, e);
        },
        ExprView::ArrayLit { elems, .. } => {
            lemma_exprs(toks, pos + 1, elems, KindView::RBracket);
            lemma_array(toks, pos, e);
        },
        ExprView::StructInit { fields, .. } => {
            lemma_inits(
                toks,
                pos + 2,
                fields,
                "expected field name"@,
                "expected ':' after field name"@,
                "expected '}' after struct literal"@,
            );
            lemma_struct_init(toks, pos, e);
        },
        ExprView::EnumVariant { .. } => {
            lemma_variant(toks, pos, e);
        },
        ExprView::EnumStructVariant { fields, .. } => {
            lemma_inits(
                toks,
                pos + 4,
                fields,
                "expected enum payload field name"@,
                "expected ':' after enum payload field"@,
                "expected '}' after enum payload"@,
            );
            lemma_variant_init(toks, pos, e);
        },
        ExprView::DictLit { entries, .. } => {
            lemma_entries(toks, pos + 1, entries);
            lemma_dict(toks, pos, e);
        },
        ExprView::MethodCall { receiver, args, .. } => {
            let dot = pos + 1 + expr_width(*receiver);
            lemma_expr(toks, pos + 1, *receiver);
            lemma_args(toks, dot, dot + 3, args);
            lemma_method_call(toks, pos, e, dot);
        },
        ExprView::Match { value, arms, .. } => {
            let brace = pos + 1 + expr_width(*value);
            lemma_expr(toks, pos + 1, *value);
            assert(arms.take(0) =~= Seq::empty());
            lemma_arms(toks, brace + 1, arms, 0, Seq::empty());
            lemma_match(toks, pos, e);
        },
        _ => {
            lemma_read_back(toks, pos, e);
        },
    }
}

/// Expressions with commas between them are read back.
proof fn lemma_expr_list(
    toks: Seq<TokenView>,
    pos: int,
    list: Seq<ExprView>,
    from: int,
    close: KindView,
    before: Seq<ExprView>,
)
    requires
        0 <= pos,
        0 <= from < list.len(),
        before == list.take(from),
        writes_exprs(toks, pos, list, from),
        close == KindView::RParen || close == KindView::RBracket,
        stands(toks, pos + exprs_width(list, from), close),
    ensures
        expr_list(toks, pos, close, before) == Ok::<(Seq<ExprView>, int), DiagnosticView>(
            (list, pos + exprs_width(list, from)),
        ),
        starts_expr(kind_at(toks, pos)),
        exprs_width(list, from) > 0,
    decreases list, list.len() - from,
{
    lemma_expr(toks, pos, list[from]);
    assert(before.push(list[from]) =~= list.take(from + 1));
    if from + 1 < list.len() {
        let end = pos + expr_width(list[from]);
        lemma_expr_list(toks, end + 1, list, from + 1, close, list.take(from + 1));
    } else {
        assert(list.take(from + 1) =~= list);
    }
}

/// Expressions up to a closing token are read back.
proof fn lemma_exprs(toks: Seq<TokenView>, pos: int, list: Seq<ExprView>, close: KindView)
    requires
        0 <= pos,
        writes_exprs(toks, pos, list, 0),
        close == KindView::RParen || close == KindView::RBracket,
        stands(toks, pos + exprs_width(list, 0), close),
    ensures
        exprs_at(toks, pos, close) == Ok::<(Seq<ExprView>, int), DiagnosticView>(
            (list, pos + exprs_width(list, 0)),
        ),
        exprs_width(list, 0) >= 0,
    decreases list, list.len() + 1,
{
    assert(list.take(0) =~= Seq::empty());
    if list.len() > 0 {
        lemma_expr_list(toks, pos, list, 0, close, Seq::empty());
    } else {
        assert(list =~= Seq::empty());
    }
}

/// Arguments are read back.
proof fn lemma_args(toks: Seq<TokenView>, from: int, pos: int, args: Seq<ExprView>)
    requires
        0 <= from < pos,
        writes_exprs(toks, pos, args, 0),
        stands(toks, pos + exprs_width(args, 0), KindView::RParen),
    ensures
        forall|message: Seq<char>| #[trigger]
            call_args_at(toks, pos, message) == Ok::<(Seq<ExprView>, int), DiagnosticView>(
                (args, pos + exprs_width(args, 0) + 1),
            ),
        forall|message: Seq<char>| #[trigger]
            call_args_after(toks, from, pos, message) == Ok::<(Seq<ExprView>, int), DiagnosticView>(
                (args, pos + exprs_width(args, 0) + 1),
            ),
        exprs_width(args, 0) >= 0,
    decreases args, args.len() + 2,
{
    lemma_exprs(toks, pos, args, KindView::RParen);
}

/// A field of a literal is read back.
proof fn lemma_init(
    toks: Seq<TokenView>,
    pos: int,
    init: InitView,
    name_message: Seq<char>,
    colon_message: Seq<char>,
)
    requires
        0 <= pos,
        names(toks, pos, init.name),
        init.span == span_at(toks, pos),
        stands(toks, pos + 1, KindView::Colon),
        is_read_back(toks, pos + 2, init.expr),
        ends_expr(kind_at(toks, pos + 2 + expr_width(init.expr))),
    ensures
        init_at(toks, pos, name_message, colon_message) == Ok::<(InitView, int), DiagnosticView>(
            (init, pos + 2 + expr_width(init.expr)),
        ),
{
    assert(expr_after(toks, pos, pos + 2) == expr_at(toks, pos + 2));
}

/// An entry of a dictionary is read back.
proof fn lemma_entry(toks: Seq<TokenView>, pos: int, entry: EntryView)
    requires
        0 <= pos,
        stands(toks, pos, KindView::String(entry.key)),
        entry.span == span_at(toks, pos),
        stands(toks, pos + 1, KindView::Colon),
        is_read_back(toks, pos + 2, entry.value),
        ends_expr(kind_at(toks, pos + 2 + expr_width(entry.value))),
    ensures
        entry_at(toks, pos) == Ok::<(EntryView, int), DiagnosticView>(
            (entry, pos + 2 + expr_width(entry.value)),
        ),
{
    assert(expr_after(toks, pos, pos + 2) == expr_at(toks, pos + 2));
}

/// An arm is read back.
proof fn lemma_arm(toks: Seq<TokenView>, pos: int, arm: ArmView)
    requires
        0 <= pos,
        writes_pattern(toks, pos, arm.pattern),
        arm.span == span_at(toks, pos),
        stands(toks, pos + pattern_width(arm.pattern), KindView::FatArrow),
        is_read_back(toks, pos + pattern_width(arm.pattern) + 1, arm.expr),
        ends_expr(kind_at(toks, pos + pattern_width(arm.pattern) + 1 + expr_width(arm.expr))),
    ensures
        arm_at(toks, pos) == Ok::<(ArmView, int), DiagnosticView>((arm, pos + arm_width(arm))),
        arm_width(arm) == pattern_width(arm.pattern) + 1 + expr_width(arm.expr),
        is_ahead(toks, pos, pos + arm_width(arm)),
        kind_at(toks, pos) is Ident,
{
    let arrow = pos + pattern_width(arm.pattern);
    law_written_patterns_are_read_back(toks, pos, arm.pattern);
    assert(expr_after(toks, pos, arrow + 1) == expr_at(toks, arrow + 1));
}

/// Fields of a literal with commas between them are read back.
proof fn lemma_init_list(
    toks: Seq<TokenView>,
    pos: int,
    list: Seq<InitView>,
    from: int,
    name_message: Seq<char>,
    colon_message: Seq<char>,
    before: Seq<InitView>,
)
    requires
        0 <= pos,
        0 <= from < list.len(),
        before == list.take(from),
        writes_inits(toks, pos, list, from),
        stands(toks, pos + inits_width(list, from), KindView::RBrace),
    ensures
        init_list(toks, pos, name_message, colon_message, before) == Ok::<
            (Seq<InitView>, int),
            DiagnosticView,
        >((list, pos + inits_width(list, from))),
        inits_width(list, from) > 0,
        kind_at(toks, pos) is Ident,
    decreases list, list.len() - from,
{
    let end = pos + 2 + expr_width(list[from].expr);
    lemma_expr(toks, pos + 2, list[from].expr);
    lemma_init(toks, pos, list[from], name_message, colon_message);
    assert(before.push(list[from]) =~= list.take(from + 1));
    if from + 1 < list.len() {
        lemma_init_list(
            toks,
            end + 1,
            list,
            from + 1,
            name_message,
            colon_message,
            list.take(from + 1),
        );
    } else {
        assert(list.take(from + 1) =~= list);
    }
}

/// Fields of a literal up to its brace are read back.
proof fn lemma_inits(
    toks: Seq<TokenView>,
    pos: int,
    list: Seq<InitView>,
    name_message: Seq<char>,
    colon_message: Seq<char>,
    close_message: Seq<char>,
)
    requires
        0 <= pos,
        writes_inits(toks, pos, list, 0),
        stands(toks, pos + inits_width(list, 0), KindView::RBrace),
    ensures
        inits_at(toks, pos, name_message, colon_message, close_message) == Ok::<
            (Seq<InitView>, int),
            DiagnosticView,
        >((list, pos + inits_width(list, 0) + 1)),
        inits_width(list, 0) >= 0,
        list.len() > 0 ==> names(toks, pos, list[0].name) && stands(toks, pos + 1, KindView::Colon),
        list.len() == 0 ==> inits_width(list, 0) == 0,
    decreases list, list.len() + 1,
{
    assert(list.take(0) =~= Seq::empty());
    if list.len() > 0 {
        lemma_init_list(toks, pos, list, 0, name_message, colon_message, Seq::empty());
    } else {
        assert(list =~= Seq::empty());
    }
}

/// Entries of a dictionary with commas between them are read back.
proof fn lemma_entry_list(
    toks: Seq<TokenView>,
    pos: int,
    list: Seq<EntryView>,
    from: int,
    before: Seq<EntryView>,
)
    requires
        0 <= pos,
        0 <= from < list.len(),
        before == list.take(from),
        writes_entries(toks, pos, list, from),
        stands(toks, pos + entries_width(list, from), KindView::RBrace),
    ensures
        entry_list(toks, pos, before) == Ok::<(Seq<EntryView>, int), DiagnosticView>(
            (list, pos + entries_width(list, from)),
        ),
        entries_width(list, from) > 0,
        kind_at(toks, pos) is String,
    decreases list, list.len() - from,
{
    let end = pos + 2 + expr_width(list[from].value);
    lemma_expr(toks, pos + 2, list[from].value);
    lemma_entry(toks, pos, list[from]);
    assert(before.push(list[from]) =~= list.take(from + 1));
    if from + 1 < list.len() {
        lemma_entry_list(toks, end + 1, list, from + 1, list.take(from + 1));
    } else {
        assert(list.take(from + 1) =~= list);
    }
}

/// Entries of a dictionary behind its brace are read back.
proof fn lemma_entries(toks: Seq<TokenView>, pos: int, list: Seq<EntryView>)
    requires
        0 < pos,
        writes_entries(toks, pos, list, 0),
        stands(toks, pos + entries_width(list, 0), KindView::RBrace),
    ensures
        entries_after(toks, pos - 1, pos) == Ok::<(Seq<EntryView>, int), DiagnosticView>(
            (list, pos + entries_width(list, 0)),
        ),
        entries_width(list, 0) >= 0,
    decreases list, list.len() + 1,
{
    assert(list.take(0) =~= Seq::empty());
    if list.len() > 0 {
        lemma_entry_list(toks, pos, list, 0, Seq::empty());
    } else {
        assert(list =~= Seq::empty());
    }
}

/// Arms with commas between them are read back.
proof fn lemma_arms(
    toks: Seq<TokenView>,
    pos: int,
    list: Seq<ArmView>,
    from: int,
    before: Seq<ArmView>,
)
    requires
        0 <= pos,
        0 <= from < list.len(),
        before == list.take(from),
        writes_arms(toks, pos, list, from),
        stands(toks, pos + arms_width(list, from), KindView::RBrace),
    ensures
        arm_list(toks, pos, before) == Ok::<(Seq<ArmView>, int), DiagnosticView>(
            (list, pos + arms_width(list, from)),
        ),
        arms_width(list, from) > 0,
        kind_at(toks, pos) is Ident,
    decreases list, list.len() - from,
{
    let arm = list[from];
    let arrow = pos + pattern_width(arm.pattern);
    let end = arrow + 1 + expr_width(arm.expr);
    lemma_expr(toks, arrow + 1, arm.expr);
    assert(arm_width(arm) == end - pos);
    lemma_arm(toks, pos, arm);
    assert(before.push(arm) =~= list.take(from + 1));
    if from + 1 < list.len() {
        lemma_arms(toks, end + 1, list, from + 1, list.take(from + 1));
    } else {
        assert(list.take(from + 1) =~= list);
        assert(arm_list(toks, end, list) == Ok::<(Seq<ArmView>, int), DiagnosticView>((list, end)));
    }
}

/// An expression that is written is read back as it was, with each operand, argument,
/// field and arm in its place.
pub proof fn law_written_expressions_are_read_back(toks: Seq<TokenView>, pos: int, e: ExprView)
    requires
        0 <= pos,
        writes_expr(toks, pos, e),
        ends_expr(kind_at(toks, pos + expr_width(e))),
    ensures
        expr_at(toks, pos) == Ok::<(ExprView, int), DiagnosticView>((e, pos + expr_width(e))),
        is_ahead(toks, pos, pos + expr_width(e)),
        starts_expr(kind_at(toks, pos)),
{
    lemma_expr(toks, pos, e);
}

/// Arguments that are written are read back as they were, in their order.
pub proof fn law_written_arguments_are_read_back(
    toks: Seq<TokenView>,
    pos: int,
    args: Seq<ExprView>,
)
    requires
        0 < pos,
        writes_exprs(toks, pos, args, 0),
        stands(toks, pos + exprs_width(args, 0), KindView::RParen),
    ensures
        forall|message: Seq<char>| #[trigger]
            call_args_at(toks, pos, message) == Ok::<(Seq<ExprView>, int), DiagnosticView>(
                (args, pos + exprs_width(args, 0) + 1),
            ),
        exprs_width(args, 0) >= 0,
{
    lemma_args(toks, 0, pos, args);
}

} // verus!
