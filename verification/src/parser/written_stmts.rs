//! Statements that are written as tokens are read back as they were.

use crate::ast::{ExprView, ReductionOp, ReductionView, StmtNode, TypeView};
use crate::diagnostic::DiagnosticView;
use crate::parser::cursor::{is_ahead, kind_at, span_at};
use crate::parser::exprs::{call_args_at, expr_at};
use crate::parser::stmts::{
    assert_at, assignment_at, block_after, block_at, block_list, body_after, body_at, call_stmt_at,
    else_after, for_at, foreach_at, if_after, if_at, index_assignment_at, keyword_call_at, let_at,
    let_rest_at, loop_at, member_stmt_at, name_stmt_at, parfor_at, past_semicolon, range_at,
    reduction_at, reduction_op, return_at, stmt_at, stmt_list, stmts_after, while_at,
};
use crate::parser::written::{expr_width, exprs_width, names, stands, writes_expr, writes_exprs};
use crate::parser::written_exprs::{
    ends_expr, law_written_arguments_are_read_back, law_written_expressions_are_read_back,
    starts_expr,
};
use crate::parser::written_types::{law_written_types_are_read_back, type_width, writes_type};
use crate::token::{KindView, TokenView};
use vstd::prelude::*;

verus! {

/// The name of a reduction.
pub open spec fn reduction_name(op: ReductionOp) -> Seq<char> {
    match op {
        ReductionOp::Sum => "sum"@,
        ReductionOp::Min => "min"@,
        ReductionOp::Max => "max"@,
    }
}

/// Where the name of a variable that is declared stands.
pub open spec fn let_name(pos: int, mutable: bool) -> int {
    if mutable {
        pos + 2
    } else {
        pos + 1
    }
}

/// Where the sign of a declaration stands.
pub open spec fn let_sign(pos: int, mutable: bool, ty: Option<TypeView>) -> int {
    match ty {
        Some(ty) => let_name(pos, mutable) + 2 + type_width(ty),
        None => let_name(pos, mutable) + 1,
    }
}

/// A conditional stands alone in a branch, and is written without braces.
pub open spec fn is_chained(branch: Seq<StmtNode>, chained: bool) -> bool {
    chained && branch.len() == 1 && branch[0] is If
}

/// How many tokens a statement has. Where `chained`, a conditional that stands alone
/// behind `else` has no braces round it.
pub open spec fn stmt_width(s: StmtNode, chained: bool) -> int
    decreases s, 0int,
{
    match s {
        StmtNode::Let { mutable, ty, expr, .. } => let_sign(0, mutable, ty) + 2 + expr_width(expr),
        StmtNode::Assign { expr, .. } => 3 + expr_width(expr),
        StmtNode::AssignField { expr, .. } => 5 + expr_width(expr),
        StmtNode::AssignIndex { index, expr, .. } => 5 + expr_width(index) + expr_width(expr),
        StmtNode::AssignStructListIndex { index, expr, .. } => 7 + expr_width(index) + expr_width(
            expr,
        ),
        StmtNode::Call { args, .. } => 4 + exprs_width(args, 0),
        StmtNode::MethodCall { args, .. } => 6 + exprs_width(args, 0),
        StmtNode::StructListMethodCall { args, .. } => 8 + exprs_width(args, 0),
        StmtNode::Return { expr, .. } => match expr {
            Some(expr) => 2 + expr_width(expr),
            None => 2,
        },
        StmtNode::Print { expr, .. } | StmtNode::Exit { expr, .. } => 4 + expr_width(expr),
        StmtNode::BenchLoop { iterations, .. } => 4 + expr_width(iterations),
        StmtNode::Panic { message, .. } => 4 + expr_width(message),
        StmtNode::Block { stmts, .. } => 2 + stmts_width(stmts, 0, chained),
        StmtNode::If { cond, then_branch, else_branch, .. } => 3 + expr_width(cond) + stmts_width(
            then_branch,
            0,
            chained,
        ) + (match else_branch {
            None => 0,
            Some(branch) => if is_chained(branch, chained) {
                1 + stmt_width(branch[0], chained)
            } else {
                3 + stmts_width(branch, 0, chained)
            },
        }),
        StmtNode::While { cond, body, .. } => 3 + expr_width(cond) + stmts_width(body, 0, chained),
        StmtNode::Loop { body, .. } => 3 + stmts_width(body, 0, chained),
        StmtNode::For { start, end, body, .. } => 6 + expr_width(start) + expr_width(end)
            + stmts_width(body, 0, chained),
        StmtNode::ParFor { start, end, body, reduction, .. } => 4 + expr_width(start) + expr_width(
            end,
        ) + (match reduction {
            Some(reduction) => 7 + expr_width(reduction.expr),
            None => 3 + stmts_width(body, 0, chained),
        }),
        StmtNode::ForEach { iterable, body, .. } => 5 + expr_width(iterable) + stmts_width(
            body,
            0,
            chained,
        ),
        StmtNode::Break { .. } | StmtNode::Continue { .. } => 2,
        StmtNode::Assert { cond, message, .. } => 4 + expr_width(cond) + (match message {
            Some(message) => 1 + expr_width(message),
            None => 0,
        }),
    }
}

/// How many tokens statements have, from one on.
pub open spec fn stmts_width(list: Seq<StmtNode>, from: int, chained: bool) -> int
    decreases list, list.len() - from,
{
    if from < 0 || from >= list.len() {
        0
    } else {
        stmt_width(list[from], chained) + stmts_width(list, from + 1, chained)
    }
}

/// A keyword and an expression in parentheses are written at a position.
pub open spec fn writes_keyword_call(
    toks: Seq<TokenView>,
    pos: int,
    keyword: KindView,
    expr: ExprView,
) -> bool {
    &&& stands(toks, pos, keyword)
    &&& stands(toks, pos + 1, KindView::LParen)
    &&& writes_expr(toks, pos + 2, expr)
    &&& stands(toks, pos + 2 + expr_width(expr), KindView::RParen)
    &&& stands(toks, pos + 3 + expr_width(expr), KindView::Semicolon)
}

/// Arguments behind their parenthesis, up to the semicolon, are written at a position.
pub open spec fn writes_call(toks: Seq<TokenView>, pos: int, args: Seq<ExprView>) -> bool {
    &&& writes_exprs(toks, pos, args, 0)
    &&& stands(toks, pos + exprs_width(args, 0), KindView::RParen)
    &&& stands(toks, pos + exprs_width(args, 0) + 1, KindView::Semicolon)
}

/// An expression and a semicolon are written at a position.
pub open spec fn writes_value(toks: Seq<TokenView>, pos: int, expr: ExprView) -> bool {
    &&& writes_expr(toks, pos, expr)
    &&& stands(toks, pos + expr_width(expr), KindView::Semicolon)
}

/// An index in brackets and an assignment are written at a position.
pub open spec fn writes_indexed(
    toks: Seq<TokenView>,
    pos: int,
    index: ExprView,
    expr: ExprView,
) -> bool {
    &&& stands(toks, pos, KindView::LBracket)
    &&& writes_expr(toks, pos + 1, index)
    &&& stands(toks, pos + 1 + expr_width(index), KindView::RBracket)
    &&& stands(toks, pos + 2 + expr_width(index), KindView::Equal)
    &&& writes_value(toks, pos + 3 + expr_width(index), expr)
}

/// A variable and a range are written behind a keyword.
pub open spec fn writes_range(
    toks: Seq<TokenView>,
    pos: int,
    name: Seq<char>,
    start: ExprView,
    end: ExprView,
) -> bool {
    &&& names(toks, pos + 1, name)
    &&& stands(toks, pos + 2, KindView::In)
    &&& writes_expr(toks, pos + 3, start)
    &&& stands(toks, pos + 3 + expr_width(start), KindView::DotDot)
    &&& writes_expr(toks, pos + 4 + expr_width(start), end)
}

/// A reduction is written at a position.
pub open spec fn writes_reduction(
    toks: Seq<TokenView>,
    pos: int,
    reduction: ReductionView,
) -> bool {
    &&& names(toks, pos, "reduce"@)
    &&& reduction.span == span_at(toks, pos)
    &&& names(toks, pos + 1, reduction_name(reduction.op))
    &&& names(toks, pos + 2, "into"@)
    &&& names(toks, pos + 3, reduction.target)
    &&& stands(toks, pos + 4, KindView::LBrace)
    &&& writes_expr(toks, pos + 5, reduction.expr)
    &&& stands(toks, pos + 5 + expr_width(reduction.expr), KindView::RBrace)
}

/// Statements in braces are written at a position.
pub open spec fn writes_body(
    toks: Seq<TokenView>,
    pos: int,
    list: Seq<StmtNode>,
    chained: bool,
) -> bool
    decreases list, list.len() + 1,
{
    &&& stands(toks, pos, KindView::LBrace)
    &&& writes_stmts(toks, pos + 1, list, 0, chained)
    &&& stands(toks, pos + 1 + stmts_width(list, 0, chained), KindView::RBrace)
}

/// A statement is written at a position.
pub open spec fn writes_stmt(toks: Seq<TokenView>, pos: int, s: StmtNode, chained: bool) -> bool
    decreases s, 0int,
{
    match s {
        StmtNode::Let { name, mutable, ty, expr, span } => {
            let sign = let_sign(pos, mutable, ty);
            &&& stands(toks, pos, KindView::Let)
            &&& span == span_at(toks, pos)
            &&& mutable ==> stands(toks, pos + 1, KindView::Mut)
            &&& names(toks, let_name(pos, mutable), name)
            &&& ty matches Some(ty) ==> stands(toks, let_name(pos, mutable) + 1, KindView::Colon)
                && writes_type(toks, let_name(pos, mutable) + 2, ty)
            &&& stands(toks, sign, KindView::Equal)
            &&& writes_value(toks, sign + 1, expr)
        },
        StmtNode::Assign { name, expr, span } => {
            &&& names(toks, pos, name)
            &&& span == span_at(toks, pos)
            &&& stands(toks, pos + 1, KindView::Equal)
            &&& writes_value(toks, pos + 2, expr)
        },
        StmtNode::AssignField { receiver, field, expr, span } => {
            &&& names(toks, pos, receiver)
            &&& span == span_at(toks, pos)
            &&& stands(toks, pos + 1, KindView::Dot)
            &&& names(toks, pos + 2, field)
            &&& stands(toks, pos + 3, KindView::Equal)
            &&& writes_value(toks, pos + 4, expr)
        },
        StmtNode::AssignIndex { name, index, expr, span } => {
            &&& names(toks, pos, name)
            &&& span == span_at(toks, pos)
            &&& writes_indexed(toks, pos + 1, index, expr)
        },
        StmtNode::AssignStructListIndex { receiver, field, index, expr, span } => {
            &&& names(toks, pos, receiver)
            &&& span == span_at(toks, pos)
            &&& stands(toks, pos + 1, KindView::Dot)
            &&& names(toks, pos + 2, field)
            &&& writes_indexed(toks, pos + 3, index, expr)
        },
        StmtNode::Call { name, args, span } => {
            &&& names(toks, pos, name)
            &&& span == span_at(toks, pos)
            &&& stands(toks, pos + 1, KindView::LParen)
            &&& writes_call(toks, pos + 2, args)
        },
        StmtNode::MethodCall { receiver, name, args, span } => {
            &&& names(toks, pos, receiver)
            &&& span == span_at(toks, pos)
            &&& stands(toks, pos + 1, KindView::Dot)
            &&& names(toks, pos + 2, name)
            &&& stands(toks, pos + 3, KindView::LParen)
            &&& writes_call(toks, pos + 4, args)
        },
        StmtNode::StructListMethodCall { receiver, field, name, args, span } => {
            &&& names(toks, pos, receiver)
            &&& span == span_at(toks, pos)
            &&& stands(toks, pos + 1, KindView::Dot)
            &&& names(toks, pos + 2, field)
            &&& stands(toks, pos + 3, KindView::Dot)
            &&& names(toks, pos + 4, name)
            &&& stands(toks, pos + 5, KindView::LParen)
            &&& writes_call(toks, pos + 6, args)
        },
        StmtNode::Return { expr, span } => {
            &&& stands(toks, pos, KindView::Return)
            &&& span == span_at(toks, pos)
            &&& match expr {
                Some(expr) => writes_value(toks, pos + 1, expr),
                None => stands(toks, pos + 1, KindView::Semicolon),
            }
        },
        StmtNode::Print { expr, span } => {
            writes_keyword_call(toks, pos, KindView::Print, expr) && span == span_at(toks, pos)
        },
        StmtNode::Exit { expr, span } => {
            writes_keyword_call(toks, pos, KindView::Exit, expr) && span == span_at(toks, pos)
        },
        StmtNode::BenchLoop { iterations, span } => {
            writes_keyword_call(toks, pos, KindView::BenchLoop, iterations) && span == span_at(
                toks,
                pos,
            )
        },
        StmtNode::Panic { message, span } => {
            writes_keyword_call(toks, pos, KindView::Panic, message) && span == span_at(toks, pos)
        },
        StmtNode::Block { stmts, span } => {
            writes_body(toks, pos, stmts, chained) && span == span_at(toks, pos)
        },
        StmtNode::If { cond, then_branch, else_branch, span } => {
            let body = pos + 1 + expr_width(cond);
            let after = body + 2 + stmts_width(then_branch, 0, chained);
            &&& stands(toks, pos, KindView::If)
            &&& span == span_at(toks, pos)
            &&& writes_expr(toks, pos + 1, cond)
            &&& writes_body(toks, body, then_branch, chained)
            &&& else_branch matches Some(branch) ==> stands(toks, after, KindView::Else) && (
            if is_chained(branch, chained) {
                writes_stmt(toks, after + 1, branch[0], chained)
            } else {
                writes_body(toks, after + 1, branch, chained)
            })
        },
        StmtNode::While { cond, body, span } => {
            &&& stands(toks, pos, KindView::While)
            &&& span == span_at(toks, pos)
            &&& writes_expr(toks, pos + 1, cond)
            &&& writes_body(toks, pos + 1 + expr_width(cond), body, chained)
        },
        StmtNode::Loop { body, span } => {
            &&& stands(toks, pos, KindView::Loop)
            &&& span == span_at(toks, pos)
            &&& writes_body(toks, pos + 1, body, chained)
        },
        StmtNode::For { name, start, end, body, span } => {
            &&& stands(toks, pos, KindView::For)
            &&& span == span_at(toks, pos)
            &&& writes_range(toks, pos, name, start, end)
            &&& writes_body(
                toks,
                pos + 4 + expr_width(start) + expr_width(end),
                body,
                chained,
            )
        },
        StmtNode::ParFor { name, start, end, body, reduction, span } => {
            let after = pos + 4 + expr_width(start) + expr_width(end);
            &&& stands(toks, pos, KindView::ParFor)
            &&& span == span_at(toks, pos)
            &&& writes_range(toks, pos, name, start, end)
            &&& match reduction {
                Some(reduction) => {
                    &&& body == Seq::<StmtNode>::empty()
                    &&& writes_reduction(toks, after, reduction)
                    &&& stands(toks, after + 6 + expr_width(reduction.expr), KindView::Semicolon)
                },
                None => {
                    &&& writes_body(toks, after, body, chained)
                    &&& stands(
                        toks,
                        after + 2 + stmts_width(body, 0, chained),
                        KindView::Semicolon,
                    )
                },
            }
        },
        StmtNode::ForEach { name, iterable, body, span } => {
            &&& stands(toks, pos, KindView::Foreach)
            &&& span == span_at(toks, pos)
            &&& names(toks, pos + 1, name)
            &&& stands(toks, pos + 2, KindView::In)
            &&& writes_expr(toks, pos + 3, iterable)
            &&& writes_body(toks, pos + 3 + expr_width(iterable), body, chained)
        },
        StmtNode::Break { span } => {
            &&& stands(toks, pos, KindView::Break)
            &&& span == span_at(toks, pos)
            &&& stands(toks, pos + 1, KindView::Semicolon)
        },
        StmtNode::Continue { span } => {
            &&& stands(toks, pos, KindView::Continue)
            &&& span == span_at(toks, pos)
            &&& stands(toks, pos + 1, KindView::Semicolon)
        },
        StmtNode::Assert { cond, message, span } => {
            let comma = pos + 2 + expr_width(cond);
            let close = match message {
                Some(message) => comma + 1 + expr_width(message),
                None => comma,
            };
            &&& stands(toks, pos, KindView::Assert)
            &&& span == span_at(toks, pos)
            &&& stands(toks, pos + 1, KindView::LParen)
            &&& writes_expr(toks, pos + 2, cond)
            &&& message matches Some(message) ==> stands(toks, comma, KindView::Comma)
                && writes_expr(toks, comma + 1, message)
            &&& stands(toks, close, KindView::RParen)
            &&& stands(toks, close + 1, KindView::Semicolon)
        },
    }
}

/// Statements from one on are written at a position, one behind another.
pub open spec fn writes_stmts(
    toks: Seq<TokenView>,
    pos: int,
    list: Seq<StmtNode>,
    from: int,
    chained: bool,
) -> bool
    decreases list, list.len() - from,
{
    if from < 0 || from >= list.len() {
        true
    } else {
        &&& writes_stmt(toks, pos, list[from], chained)
        &&& writes_stmts(toks, pos + stmt_width(list[from], chained), list, from + 1, chained)
    }
}

/// What a statement may start with.
pub open spec fn starts_stmt(kind: KindView) -> bool {
    kind != KindView::RBrace && kind != KindView::Eof && kind != KindView::Else
}

/// What is known of a statement that is written.
spec fn is_stmt_read(toks: Seq<TokenView>, pos: int, s: StmtNode, chained: bool) -> bool {
    let end = pos + stmt_width(s, chained);
    &&& stmt_at(toks, pos) == Ok::<(StmtNode, int), DiagnosticView>((s, end))
    &&& is_ahead(toks, pos, end)
    &&& starts_stmt(kind_at(toks, pos))
}

/// What is known of an expression that is written and something that ends it.
spec fn is_value(toks: Seq<TokenView>, pos: int, e: ExprView, end: int) -> bool {
    &&& end == pos + expr_width(e)
    &&& expr_at(toks, pos) == Ok::<(ExprView, int), DiagnosticView>((e, end))
    &&& is_ahead(toks, pos, end)
    &&& starts_expr(kind_at(toks, pos))
}

/// An expression and what ends it.
proof fn lemma_value(toks: Seq<TokenView>, pos: int, e: ExprView, end: int)
    requires
        0 <= pos,
        writes_expr(toks, pos, e),
        end == pos + expr_width(e),
        ends_expr(kind_at(toks, end)),
    ensures
        is_value(toks, pos, e, end),
{
    law_written_expressions_are_read_back(toks, pos, e);
}

/// A declaration is read back.
proof fn lemma_let(toks: Seq<TokenView>, pos: int, s: StmtNode, chained: bool)
    requires
        0 <= pos,
        writes_stmt(toks, pos, s, chained),
        s is Let,
    ensures
        is_stmt_read(toks, pos, s, chained),
{
    let name = s->Let_name;
    let mutable = s->mutable;
    let ty = s->ty;
    let expr = s->Let_expr;
    let span = s->Let_span;
    let at = let_name(pos, mutable);
    let sign = let_sign(pos, mutable, ty);
    lemma_value(toks, sign + 1, expr, sign + 1 + expr_width(expr));
    if let Some(ty) = ty {
        law_written_types_are_read_back(toks, at + 2, ty);
    }
    assert(let_rest_at(toks, at + 1, name, mutable, span) == Ok::<(StmtNode, int), DiagnosticView>(
        (s, sign + 2 + expr_width(expr)),
    ));
    assert(let_at(toks, pos) == Ok::<(StmtNode, int), DiagnosticView>(
        (s, pos + stmt_width(s, chained)),
    ));
}

/// An assignment is read back.
proof fn lemma_assign(toks: Seq<TokenView>, pos: int, s: StmtNode, chained: bool)
    requires
        0 <= pos,
        writes_stmt(toks, pos, s, chained),
        s is Assign,
    ensures
        is_stmt_read(toks, pos, s, chained),
{
    let expr = s->Assign_expr;
    lemma_value(toks, pos + 2, expr, pos + 2 + expr_width(expr));
    assert(assignment_at(toks, pos + 1) == Ok::<(ExprView, int), DiagnosticView>(
        (expr, pos + stmt_width(s, chained)),
    ));
    assert(name_stmt_at(toks, pos, s->Assign_name) == Ok::<(StmtNode, int), DiagnosticView>(
        (s, pos + stmt_width(s, chained)),
    ));
}

/// An assignment to a field is read back.
proof fn lemma_assign_field(toks: Seq<TokenView>, pos: int, s: StmtNode, chained: bool)
    requires
        0 <= pos,
        writes_stmt(toks, pos, s, chained),
        s is AssignField,
    ensures
        is_stmt_read(toks, pos, s, chained),
{
    let expr = s->AssignField_expr;
    let end = pos + stmt_width(s, chained);
    lemma_value(toks, pos + 4, expr, pos + 4 + expr_width(expr));
    assert(assignment_at(toks, pos + 3) == Ok::<(ExprView, int), DiagnosticView>((expr, end)));
    assert(member_stmt_at(toks, pos + 2, s->AssignField_receiver, s->AssignField_span) == Ok::<
        (StmtNode, int),
        DiagnosticView,
    >((s, end)));
    assert(name_stmt_at(toks, pos, s->AssignField_receiver) == Ok::<
        (StmtNode, int),
        DiagnosticView,
    >((s, end)));
}

/// An index and an assignment are read back.
proof fn lemma_indexed(toks: Seq<TokenView>, pos: int, index: ExprView, expr: ExprView)
    requires
        0 <= pos,
        writes_indexed(toks, pos, index, expr),
    ensures
        index_assignment_at(toks, pos) == Ok::<((ExprView, ExprView), int), DiagnosticView>(
            ((index, expr), pos + 4 + expr_width(index) + expr_width(expr)),
        ),
        is_ahead(toks, pos, pos + 4 + expr_width(index) + expr_width(expr)),
{
    let close = pos + 1 + expr_width(index);
    lemma_value(toks, pos + 1, index, close);
    lemma_value(toks, close + 2, expr, close + 2 + expr_width(expr));
}

/// Arguments up to the semicolon are read back.
proof fn lemma_call_args(toks: Seq<TokenView>, pos: int, args: Seq<ExprView>)
    requires
        0 < pos,
        writes_call(toks, pos, args),
    ensures
        forall|close: Seq<char>, end: Seq<char>| #[trigger]
            call_stmt_at(toks, pos, close, end) == Ok::<(Seq<ExprView>, int), DiagnosticView>(
                (args, pos + exprs_width(args, 0) + 2),
            ),
        is_ahead(toks, pos, pos + exprs_width(args, 0) + 2),
{
    law_written_arguments_are_read_back(toks, pos, args);
    assert forall|close: Seq<char>, end: Seq<char>| #[trigger]
        call_stmt_at(toks, pos, close, end) == Ok::<(Seq<ExprView>, int), DiagnosticView>(
            (args, pos + exprs_width(args, 0) + 2),
        ) by {
        assert(call_args_at(toks, pos, close) == Ok::<(Seq<ExprView>, int), DiagnosticView>(
            (args, pos + exprs_width(args, 0) + 1),
        ));
    }
}

/// An indexed assignment is read back.
proof fn lemma_assign_index(toks: Seq<TokenView>, pos: int, s: StmtNode, chained: bool)
    requires
        0 <= pos,
        writes_stmt(toks, pos, s, chained),
        s is AssignIndex,
    ensures
        is_stmt_read(toks, pos, s, chained),
{
    lemma_indexed(toks, pos + 1, s->AssignIndex_index, s->AssignIndex_expr);
    assert(name_stmt_at(toks, pos, s->AssignIndex_name) == Ok::<(StmtNode, int), DiagnosticView>(
        (s, pos + stmt_width(s, chained)),
    ));
}

/// An indexed assignment to a field is read back.
proof fn lemma_assign_list(toks: Seq<TokenView>, pos: int, s: StmtNode, chained: bool)
    requires
        0 <= pos,
        writes_stmt(toks, pos, s, chained),
        s is AssignStructListIndex,
    ensures
        is_stmt_read(toks, pos, s, chained),
{
    let end = pos + stmt_width(s, chained);
    let receiver = s->AssignStructListIndex_receiver;
    lemma_indexed(
        toks,
        pos + 3,
        s->AssignStructListIndex_index,
        s->AssignStructListIndex_expr,
    );
    assert(member_stmt_at(toks, pos + 2, receiver, s->AssignStructListIndex_span) == Ok::<
        (StmtNode, int),
        DiagnosticView,
    >((s, end)));
    assert(name_stmt_at(toks, pos, receiver) == Ok::<(StmtNode, int), DiagnosticView>((s, end)));
}

/// A call is read back.
proof fn lemma_call_stmt(toks: Seq<TokenView>, pos: int, s: StmtNode, chained: bool)
    requires
        0 <= pos,
        writes_stmt(toks, pos, s, chained),
        s is Call,
    ensures
        is_stmt_read(toks, pos, s, chained),
{
    let end = pos + stmt_width(s, chained);
    lemma_call_args(toks, pos + 2, s->Call_args);
    assert(call_stmt_at(
        toks,
        pos + 2,
        "expected ')' after call"@,
        "expected ';' after call"@,
    ) == Ok::<(Seq<ExprView>, int), DiagnosticView>((s->Call_args, end)));
    assert(name_stmt_at(
        toks,
        pos,
        s->Call_name,
    ) == Ok::<(StmtNode, int), DiagnosticView>((s, end)));
}

/// A call of a method is read back.
proof fn lemma_method_stmt(toks: Seq<TokenView>, pos: int, s: StmtNode, chained: bool)
    requires
        0 <= pos,
        writes_stmt(toks, pos, s, chained),
        s is MethodCall,
    ensures
        is_stmt_read(toks, pos, s, chained),
{
    let end = pos + stmt_width(s, chained);
    let receiver = s->MethodCall_receiver;
    lemma_call_args(toks, pos + 4, s->MethodCall_args);
    assert(call_stmt_at(
        toks,
        pos + 4,
        "expected ')' after method call"@,
        "expected ';' after method call"@,
    ) == Ok::<(Seq<ExprView>, int), DiagnosticView>((s->MethodCall_args, end)));
    assert(member_stmt_at(toks, pos + 2, receiver, s->MethodCall_span) == Ok::<
        (StmtNode, int),
        DiagnosticView,
    >((s, end)));
    assert(name_stmt_at(toks, pos, receiver) == Ok::<(StmtNode, int), DiagnosticView>((s, end)));
}

/// A call of a method of a field is read back.
proof fn lemma_list_method(toks: Seq<TokenView>, pos: int, s: StmtNode, chained: bool)
    requires
        0 <= pos,
        writes_stmt(toks, pos, s, chained),
        s is StructListMethodCall,
    ensures
        is_stmt_read(toks, pos, s, chained),
{
    let end = pos + stmt_width(s, chained);
    let receiver = s->StructListMethodCall_receiver;
    lemma_call_args(toks, pos + 6, s->StructListMethodCall_args);
    assert(call_stmt_at(
        toks,
        pos + 6,
        "expected ')' after method call"@,
        "expected ';' after method call"@,
    ) == Ok::<(Seq<ExprView>, int), DiagnosticView>((s->StructListMethodCall_args, end)));
    assert(member_stmt_at(toks, pos + 2, receiver, s->StructListMethodCall_span) == Ok::<
        (StmtNode, int),
        DiagnosticView,
    >((s, end)));
    assert(name_stmt_at(toks, pos, receiver) == Ok::<(StmtNode, int), DiagnosticView>((s, end)));
}

/// A return is read back.
proof fn lemma_return(toks: Seq<TokenView>, pos: int, s: StmtNode, chained: bool)
    requires
        0 <= pos,
        writes_stmt(toks, pos, s, chained),
        s is Return,
    ensures
        is_stmt_read(toks, pos, s, chained),
{
    if let Some(expr) = s->Return_expr {
        lemma_value(toks, pos + 1, expr, pos + 1 + expr_width(expr));
    }
    assert(return_at(toks, pos) == Ok::<(StmtNode, int), DiagnosticView>(
        (s, pos + stmt_width(s, chained)),
    ));
}

/// A keyword and an expression in parentheses are read back.
proof fn lemma_keyword(toks: Seq<TokenView>, pos: int, keyword: KindView, expr: ExprView)
    requires
        0 <= pos,
        writes_keyword_call(toks, pos, keyword, expr),
    ensures
        forall|open: Seq<char>, close: Seq<char>, end: Seq<char>| #[trigger]
            keyword_call_at(toks, pos, open, close, end) == Ok::<(ExprView, int), DiagnosticView>(
                (expr, pos + 4 + expr_width(expr)),
            ),
        is_ahead(toks, pos, pos + 4 + expr_width(expr)),
{
    lemma_value(toks, pos + 2, expr, pos + 2 + expr_width(expr));
}

/// A statement that starts with `print` is read back.
proof fn lemma_print(toks: Seq<TokenView>, pos: int, s: StmtNode, chained: bool)
    requires
        0 <= pos,
        writes_stmt(toks, pos, s, chained),
        s is Print,
    ensures
        is_stmt_read(toks, pos, s, chained),
{
    lemma_keyword(toks, pos, KindView::Print, s->Print_expr);
    assert(keyword_call_at(
        toks,
        pos,
        "expected '(' after print"@,
        "expected ')' after print"@,
        "expected ';' after print"@,
    ) == Ok::<(ExprView, int), DiagnosticView>((s->Print_expr, pos + stmt_width(s, chained))));
}

/// A statement that starts with `exit` is read back.
proof fn lemma_exit(toks: Seq<TokenView>, pos: int, s: StmtNode, chained: bool)
    requires
        0 <= pos,
        writes_stmt(toks, pos, s, chained),
        s is Exit,
    ensures
        is_stmt_read(toks, pos, s, chained),
{
    lemma_keyword(toks, pos, KindView::Exit, s->Exit_expr);
    assert(keyword_call_at(
        toks,
        pos,
        "expected '(' after exit"@,
        "expected ')' after exit"@,
        "expected ';' after exit"@,
    ) == Ok::<(ExprView, int), DiagnosticView>((s->Exit_expr, pos + stmt_width(s, chained))));
}

/// A statement that starts with `benchloop` is read back.
proof fn lemma_benchloop(toks: Seq<TokenView>, pos: int, s: StmtNode, chained: bool)
    requires
        0 <= pos,
        writes_stmt(toks, pos, s, chained),
        s is BenchLoop,
    ensures
        is_stmt_read(toks, pos, s, chained),
{
    lemma_keyword(toks, pos, KindView::BenchLoop, s->iterations);
    assert(keyword_call_at(
        toks,
        pos,
        "expected '(' after benchloop"@,
        "expected ')' after benchloop"@,
        "expected ';' after benchloop"@,
    ) == Ok::<(ExprView, int), DiagnosticView>((s->iterations, pos + stmt_width(s, chained))));
}

/// A statement that starts with `panic` is read back.
proof fn lemma_panic(toks: Seq<TokenView>, pos: int, s: StmtNode, chained: bool)
    requires
        0 <= pos,
        writes_stmt(toks, pos, s, chained),
        s is Panic,
    ensures
        is_stmt_read(toks, pos, s, chained),
{
    lemma_keyword(toks, pos, KindView::Panic, s->Panic_message);
    assert(keyword_call_at(
        toks,
        pos,
        "expected '(' after panic"@,
        "expected ')' after panic"@,
        "expected ';' after panic"@,
    ) == Ok::<(ExprView, int), DiagnosticView>((s->Panic_message, pos + stmt_width(s, chained))));
}

/// An assertion is read back.
proof fn lemma_assert(toks: Seq<TokenView>, pos: int, s: StmtNode, chained: bool)
    requires
        0 <= pos,
        writes_stmt(toks, pos, s, chained),
        s is Assert,
    ensures
        is_stmt_read(toks, pos, s, chained),
{
    let cond = s->Assert_cond;
    let comma = pos + 2 + expr_width(cond);
    lemma_value(toks, pos + 2, cond, comma);
    if let Some(message) = s->Assert_message {
        lemma_value(toks, comma + 1, message, comma + 1 + expr_width(message));
    }
    assert(assert_at(toks, pos) == Ok::<(StmtNode, int), DiagnosticView>(
        (s, pos + stmt_width(s, chained)),
    ));
}

/// The name of a reduction is read as the reduction.
proof fn lemma_reduction_name(op: ReductionOp)
    ensures
        reduction_op(reduction_name(op)) == Some(op),
{
    reveal_strlit("sum");
    reveal_strlit("min");
    reveal_strlit("max");
    assert("sum"@[0] != "min"@[0]);
    assert("sum"@[0] != "max"@[0]);
    assert("min"@[1] != "max"@[1]);
}

/// A reduction is read back.
proof fn lemma_reduction(toks: Seq<TokenView>, pos: int, reduction: ReductionView)
    requires
        0 <= pos,
        writes_reduction(toks, pos, reduction),
    ensures
        reduction_at(toks, pos) == Ok::<(ReductionView, int), DiagnosticView>(
            (reduction, pos + 6 + expr_width(reduction.expr)),
        ),
        is_ahead(toks, pos, pos + 6 + expr_width(reduction.expr)),
{
    lemma_reduction_name(reduction.op);
    lemma_value(toks, pos + 5, reduction.expr, pos + 5 + expr_width(reduction.expr));
}

/// A variable and a range are read behind a keyword, whatever is said where something is
/// missing.
spec fn is_range(
    toks: Seq<TokenView>,
    pos: int,
    name: Seq<char>,
    start: ExprView,
    end: ExprView,
    at: int,
) -> bool {
    &&& is_ahead(toks, pos, at)
    &&& forall|a: Seq<char>, b: Seq<char>, c: Seq<char>| #[trigger]
        range_at(toks, pos, a, b, c) == Ok::<
            ((Seq<char>, ExprView, ExprView), int),
            DiagnosticView,
        >(((name, start, end), at))
}

/// A variable and a range are read back.
proof fn lemma_range(
    toks: Seq<TokenView>,
    pos: int,
    name: Seq<char>,
    start: ExprView,
    end: ExprView,
)
    requires
        0 <= pos,
        writes_range(toks, pos, name, start, end),
        ends_expr(kind_at(toks, pos + 4 + expr_width(start) + expr_width(end))),
    ensures
        is_range(toks, pos, name, start, end, pos + 4 + expr_width(start) + expr_width(end)),
{
    let dots = pos + 3 + expr_width(start);
    lemma_value(toks, pos + 3, start, dots);
    lemma_value(toks, dots + 1, end, dots + 1 + expr_width(end));
}

/// What is written of statements in braces.
proof fn lemma_body_parts(toks: Seq<TokenView>, pos: int, list: Seq<StmtNode>, chained: bool)
    requires
        writes_body(toks, pos, list, chained),
    ensures
        stands(toks, pos, KindView::LBrace),
        kind_at(toks, pos) == KindView::LBrace,
        writes_stmts(toks, pos + 1, list, 0, chained),
        stands(toks, pos + 1 + stmts_width(list, 0, chained), KindView::RBrace),
{
}

/// One more statement of a list is read.
proof fn lemma_one_more(
    toks: Seq<TokenView>,
    pos: int,
    s: StmtNode,
    end: int,
    before: Seq<StmtNode>,
)
    requires
        stmt_at(toks, pos) == Ok::<(StmtNode, int), DiagnosticView>((s, end)),
        is_ahead(toks, pos, end),
        starts_stmt(kind_at(toks, pos)),
    ensures
        stmt_list(toks, pos, before) == stmt_list(toks, end, before.push(s)),
        block_list(toks, pos, before) == block_list(toks, end, before.push(s)),
{
}

/// A list of statements ends at a brace.
proof fn lemma_no_more(toks: Seq<TokenView>, pos: int, before: Seq<StmtNode>)
    requires
        stands(toks, pos, KindView::RBrace),
    ensures
        stmt_list(toks, pos, before) == Ok::<(Seq<StmtNode>, int), DiagnosticView>((before, pos)),
        block_list(toks, pos, before) == Ok::<(Seq<StmtNode>, int), DiagnosticView>((before, pos)),
{
}

/// What is written of the first of some statements.
proof fn lemma_first(
    toks: Seq<TokenView>,
    pos: int,
    list: Seq<StmtNode>,
    from: int,
    chained: bool,
)
    requires
        0 <= from < list.len(),
        writes_stmts(toks, pos, list, from, chained),
    ensures
        writes_stmt(toks, pos, list[from], chained),
        writes_stmts(toks, pos + stmt_width(list[from], chained), list, from + 1, chained),
        stmts_width(list, from, chained) == stmt_width(list[from], chained) + stmts_width(
            list,
            from + 1,
            chained,
        ),
{
}

/// Statements one behind another are read back, up to a brace.
proof fn lemma_stmts(
    toks: Seq<TokenView>,
    pos: int,
    list: Seq<StmtNode>,
    from: int,
    before: Seq<StmtNode>,
    chained: bool,
)
    requires
        0 <= pos,
        0 <= from <= list.len(),
        before == list.take(from),
        writes_stmts(toks, pos, list, from, chained),
        stands(toks, pos + stmts_width(list, from, chained), KindView::RBrace),
    ensures
        stmt_list(toks, pos, before) == Ok::<(Seq<StmtNode>, int), DiagnosticView>(
            (list, pos + stmts_width(list, from, chained)),
        ),
        block_list(toks, pos, before) == Ok::<(Seq<StmtNode>, int), DiagnosticView>(
            (list, pos + stmts_width(list, from, chained)),
        ),
        stmts_width(list, from, chained) >= 0,
        kind_at(toks, pos) != KindView::Else,
    decreases list, list.len() - from,
{
    if from < list.len() {
        let end = pos + stmt_width(list[from], chained);
        lemma_first(toks, pos, list, from, chained);
        lemma_stmt_ends(toks, pos, list[from], chained);
        lemma_stmts(toks, end, list, from + 1, list.take(from + 1), chained);
        lemma_stmt(toks, pos, list[from], chained);
        assert(before.push(list[from]) =~= list.take(from + 1));
        lemma_one_more(toks, pos, list[from], end, before);
    } else {
        assert(before =~= list);
        lemma_no_more(toks, pos, before);
    }
}

/// Statements in braces are read back.
proof fn lemma_body(toks: Seq<TokenView>, from: int, pos: int, list: Seq<StmtNode>, chained: bool)
    requires
        0 <= from < pos,
        writes_body(toks, pos, list, chained),
    ensures
        is_body(toks, from, pos, list, pos + 2 + stmts_width(list, 0, chained)),
    decreases list, list.len() + 1,
{
    let end = pos + 2 + stmts_width(list, 0, chained);
    lemma_body_parts(toks, pos, list, chained);
    assert(list.take(0) =~= Seq::empty());
    lemma_stmts(toks, pos + 1, list, 0, Seq::empty(), chained);
    lemma_read_body(toks, from, pos, list, end);
}

/// Statements in braces are read between two positions, whatever is said where a brace
/// is missing.
spec fn is_body(
    toks: Seq<TokenView>,
    from: int,
    pos: int,
    list: Seq<StmtNode>,
    end: int,
) -> bool {
    &&& is_ahead(toks, pos, end)
    &&& forall|open: Seq<char>, close: Seq<char>| #[trigger]
        body_after(toks, from, pos, open, close) == Ok::<(Seq<StmtNode>, int), DiagnosticView>(
            (list, end),
        )
}

/// Statements up to a brace, and the braces round them.
proof fn lemma_read_body(
    toks: Seq<TokenView>,
    from: int,
    pos: int,
    list: Seq<StmtNode>,
    end: int,
)
    requires
        0 <= from < pos,
        pos + 1 < end,
        stands(toks, pos, KindView::LBrace),
        stmt_list(toks, pos + 1, Seq::empty()) == Ok::<(Seq<StmtNode>, int), DiagnosticView>(
            (list, end - 1),
        ),
        stands(toks, end - 1, KindView::RBrace),
    ensures
        is_body(toks, from, pos, list, end),
{
    assert(stmts_after(toks, pos, pos + 1) == stmt_list(toks, pos + 1, Seq::empty()));
    assert forall|open: Seq<char>, close: Seq<char>| #[trigger]
        body_after(toks, from, pos, open, close) == Ok::<(Seq<StmtNode>, int), DiagnosticView>(
            (list, end),
        ) by {
        assert(body_after(toks, from, pos, open, close) == body_at(toks, pos, open, close));
    }
}

/// A block is read.
proof fn read_block(toks: Seq<TokenView>, pos: int, stmts: Seq<StmtNode>, end: int)
    requires
        0 <= pos,
        stands(toks, pos, KindView::LBrace),
        pos + 1 < end,
        block_list(
            toks,
            pos + 1,
            Seq::empty(),
        ) == Ok::<(Seq<StmtNode>, int), DiagnosticView>((stmts, end - 1)),
        stands(toks, end - 1, KindView::RBrace),
    ensures
        stmt_at(toks, pos) == Ok::<(StmtNode, int), DiagnosticView>(
            (StmtNode::Block { stmts, span: span_at(toks, pos) }, end),
        ),
{
    assert(block_after(toks, pos, pos + 1) == block_list(toks, pos + 1, Seq::empty()));
    assert(block_at(toks, pos) == stmt_at(toks, pos));
}

/// A loop with a condition is read.
proof fn read_while(
    toks: Seq<TokenView>,
    pos: int,
    cond: ExprView,
    at: int,
    body: Seq<StmtNode>,
    end: int,
)
    requires
        0 <= pos,
        stands(toks, pos, KindView::While),
        is_value(toks, pos + 1, cond, at),
        is_body(toks, pos, at, body, end),
    ensures
        stmt_at(toks, pos) == Ok::<(StmtNode, int), DiagnosticView>(
            (StmtNode::While { cond, body, span: span_at(toks, pos) }, end),
        ),
{
    assert(body_after(
        toks,
        pos,
        at,
        "expected '{' after while condition"@,
        "expected '}' after while body"@,
    ) == Ok::<(Seq<StmtNode>, int), DiagnosticView>((body, end)));
    assert(while_at(toks, pos) == stmt_at(toks, pos));
}

/// A loop without a condition is read.
proof fn read_loop(toks: Seq<TokenView>, pos: int, body: Seq<StmtNode>, end: int)
    requires
        0 <= pos,
        stands(toks, pos, KindView::Loop),
        is_body(toks, pos, pos + 1, body, end),
    ensures
        stmt_at(toks, pos) == Ok::<(StmtNode, int), DiagnosticView>(
            (StmtNode::Loop { body, span: span_at(toks, pos) }, end),
        ),
{
    assert(body_after(
        toks,
        pos,
        pos + 1,
        "expected '{' after loop"@,
        "expected '}' after loop body"@,
    ) == Ok::<(Seq<StmtNode>, int), DiagnosticView>((body, end)));
    assert(loop_at(toks, pos) == stmt_at(toks, pos));
}

/// A loop over a range is read.
proof fn read_for(
    toks: Seq<TokenView>,
    pos: int,
    name: Seq<char>,
    first: ExprView,
    last: ExprView,
    at: int,
    body: Seq<StmtNode>,
    end: int,
)
    requires
        0 <= pos,
        stands(toks, pos, KindView::For),
        is_range(toks, pos, name, first, last, at),
        is_body(toks, pos, at, body, end),
    ensures
        stmt_at(toks, pos) == Ok::<(StmtNode, int), DiagnosticView>(
            (StmtNode::For { name, start: first, end: last, body, span: span_at(toks, pos) }, end),
        ),
{
    assert(range_at(
        toks,
        pos,
        "expected loop variable name after for"@,
        "expected 'in' after loop variable"@,
        "expected '..' in for range"@,
    ) == Ok::<((Seq<char>, ExprView, ExprView), int), DiagnosticView>(((name, first, last), at)));
    assert(body_after(
        toks,
        pos,
        at,
        "expected '{' after for range"@,
        "expected '}' after for body"@,
    ) == Ok::<(Seq<StmtNode>, int), DiagnosticView>((body, end)));
    assert(for_at(toks, pos) == stmt_at(toks, pos));
}

/// A parallel loop with a reduction is read.
proof fn read_parfor_reduction(
    toks: Seq<TokenView>,
    pos: int,
    name: Seq<char>,
    first: ExprView,
    last: ExprView,
    at: int,
    reduction: ReductionView,
    end: int,
)
    requires
        0 <= pos,
        stands(toks, pos, KindView::ParFor),
        is_range(toks, pos, name, first, last, at),
        stands(toks, at, KindView::Ident("reduce"@)),
        reduction_at(toks, at) == Ok::<(ReductionView, int), DiagnosticView>((reduction, end - 1)),
        stands(toks, end - 1, KindView::Semicolon),
    ensures
        stmt_at(toks, pos) == Ok::<(StmtNode, int), DiagnosticView>(
            (StmtNode::ParFor {
                name,
                start: first,
                end: last,
                body: Seq::empty(),
                reduction: Some(reduction),
                span: span_at(toks, pos),
            }, end),
        ),
{
    assert(range_at(
        toks,
        pos,
        "expected loop variable name after parfor"@,
        "expected 'in' after parfor variable"@,
        "expected '..' in parfor range"@,
    ) == Ok::<((Seq<char>, ExprView, ExprView), int), DiagnosticView>(((name, first, last), at)));
    assert(past_semicolon(toks, end - 1) == end);
    assert(parfor_at(toks, pos) == stmt_at(toks, pos));
}

/// A parallel loop is read.
proof fn read_parfor(
    toks: Seq<TokenView>,
    pos: int,
    name: Seq<char>,
    first: ExprView,
    last: ExprView,
    at: int,
    body: Seq<StmtNode>,
    end: int,
)
    requires
        0 <= pos,
        stands(toks, pos, KindView::ParFor),
        is_range(toks, pos, name, first, last, at),
        stands(toks, at, KindView::LBrace),
        is_body(toks, pos, at, body, end - 1),
        stands(toks, end - 1, KindView::Semicolon),
    ensures
        stmt_at(toks, pos) == Ok::<(StmtNode, int), DiagnosticView>(
            (StmtNode::ParFor {
                name,
                start: first,
                end: last,
                body,
                reduction: None,
                span: span_at(toks, pos),
            }, end),
        ),
{
    assert(range_at(
        toks,
        pos,
        "expected loop variable name after parfor"@,
        "expected 'in' after parfor variable"@,
        "expected '..' in parfor range"@,
    ) == Ok::<((Seq<char>, ExprView, ExprView), int), DiagnosticView>(((name, first, last), at)));
    assert(body_after(
        toks,
        pos,
        at,
        "expected '{' after parfor range"@,
        "expected '}' after parfor body"@,
    ) == Ok::<(Seq<StmtNode>, int), DiagnosticView>((body, end - 1)));
    assert(past_semicolon(toks, end - 1) == end);
    assert(parfor_at(toks, pos) == stmt_at(toks, pos));
}

/// A loop over elements is read.
proof fn read_foreach(
    toks: Seq<TokenView>,
    pos: int,
    name: Seq<char>,
    iterable: ExprView,
    at: int,
    body: Seq<StmtNode>,
    end: int,
)
    requires
        0 <= pos,
        stands(toks, pos, KindView::Foreach),
        names(toks, pos + 1, name),
        stands(toks, pos + 2, KindView::In),
        is_value(toks, pos + 3, iterable, at),
        is_body(toks, pos, at, body, end),
    ensures
        stmt_at(toks, pos) == Ok::<(StmtNode, int), DiagnosticView>(
            (StmtNode::ForEach { name, iterable, body, span: span_at(toks, pos) }, end),
        ),
{
    assert(body_after(
        toks,
        pos,
        at,
        "expected '{' after foreach iterable"@,
        "expected '}' after foreach body"@,
    ) == Ok::<(Seq<StmtNode>, int), DiagnosticView>((body, end)));
    assert(foreach_at(toks, pos) == stmt_at(toks, pos));
}

/// A conditional is read.
proof fn read_if(
    toks: Seq<TokenView>,
    pos: int,
    cond: ExprView,
    at: int,
    first: Seq<StmtNode>,
    after: int,
    branch: Option<Seq<StmtNode>>,
    end: int,
)
    requires
        0 <= pos,
        stands(toks, pos, KindView::If),
        is_value(toks, pos + 1, cond, at),
        is_body(toks, pos, at, first, after),
        else_after(
            toks,
            pos,
            after,
        ) == Ok::<(Option<Seq<StmtNode>>, int), DiagnosticView>((branch, end)),
    ensures
        stmt_at(toks, pos) == Ok::<(StmtNode, int), DiagnosticView>(
            (StmtNode::If {
                cond,
                then_branch: first,
                else_branch: branch,
                span: span_at(toks, pos),
            }, end),
        ),
{
    assert(body_after(
        toks,
        pos,
        at,
        "expected '{' after if condition"@,
        "expected '}' after if block"@,
    ) == Ok::<(Seq<StmtNode>, int), DiagnosticView>((first, after)));
    assert(if_at(toks, pos) == stmt_at(toks, pos));
}

/// What stands behind `else` is read back: statements in braces, or a conditional.
proof fn lemma_else(
    toks: Seq<TokenView>,
    pos: int,
    after: int,
    branch: Seq<StmtNode>,
    chained: bool,
)
    requires
        0 <= pos,
        is_ahead(toks, pos, after),
        stands(toks, after, KindView::Else),
        if is_chained(branch, chained) {
            &&& writes_stmt(toks, after + 1, branch[0], chained)
            &&& kind_at(toks, after + 1 + stmt_width(branch[0], chained)) != KindView::Else
        } else {
            writes_body(toks, after + 1, branch, chained)
        },
    ensures
        ({
            let end = if is_chained(branch, chained) {
                after + 1 + stmt_width(branch[0], chained)
            } else {
                after + 3 + stmts_width(branch, 0, chained)
            };
            &&& else_after(toks, pos, after) == Ok::<
                (Option<Seq<StmtNode>>, int),
                DiagnosticView,
            >((Some(branch), end))
            &&& is_ahead(toks, after, end)
        }),
    decreases branch, branch.len() + 2,
{
    if is_chained(branch, chained) {
        lemma_stmt(toks, after + 1, branch[0], chained);
        assert(kind_at(toks, after + 1) == KindView::If);
        assert(stmt_at(toks, after + 1) == if_at(toks, after + 1));
        assert(if_after(toks, after, after + 1) == if_at(toks, after + 1));
        assert(seq![branch[0]] =~= branch);
    } else {
        lemma_body(toks, after, after + 1, branch, chained);
        lemma_body_parts(toks, after + 1, branch, chained);
        assert(body_after(
            toks,
            after,
            after + 1,
            "expected '{' after else"@,
            "expected '}' after else block"@,
        ) == Ok::<(Seq<StmtNode>, int), DiagnosticView>(
            (branch, after + 3 + stmts_width(branch, 0, chained)),
        ));
    }
}

/// A statement that is written starts as statements do, at a position of the tokens,
/// and has tokens.
proof fn lemma_stmt_ends(toks: Seq<TokenView>, pos: int, s: StmtNode, chained: bool)
    requires
        0 <= pos,
        writes_stmt(toks, pos, s, chained),
    ensures
        starts_stmt(kind_at(toks, pos)),
        stmt_width(s, chained) > 0,
    decreases s, 0int,
{
    match s {
        StmtNode::Let { mutable, ty, expr, .. } => {
            let sign = let_sign(pos, mutable, ty);
            lemma_value(toks, sign + 1, expr, sign + 1 + expr_width(expr));
            if let Some(ty) = ty {
                law_written_types_are_read_back(toks, let_name(pos, mutable) + 2, ty);
            }
        },
        StmtNode::Assign { expr, .. } => {
            lemma_value(toks, pos + 2, expr, pos + 2 + expr_width(expr));
        },
        StmtNode::AssignField { expr, .. } => {
            lemma_value(toks, pos + 4, expr, pos + 4 + expr_width(expr));
        },
        StmtNode::AssignIndex { index, expr, .. } => {
            lemma_indexed(toks, pos + 1, index, expr);
        },
        StmtNode::AssignStructListIndex { index, expr, .. } => {
            lemma_indexed(toks, pos + 3, index, expr);
        },
        StmtNode::Call { args, .. } => {
            lemma_call_args(toks, pos + 2, args);
        },
        StmtNode::MethodCall { args, .. } => {
            lemma_call_args(toks, pos + 4, args);
        },
        StmtNode::StructListMethodCall { args, .. } => {
            lemma_call_args(toks, pos + 6, args);
        },
        StmtNode::Return { expr, .. } => {
            if let Some(expr) = expr {
                lemma_value(toks, pos + 1, expr, pos + 1 + expr_width(expr));
            }
        },
        StmtNode::Print { expr, .. } => {
            lemma_keyword(toks, pos, KindView::Print, expr);
        },
        StmtNode::Exit { expr, .. } => {
            lemma_keyword(toks, pos, KindView::Exit, expr);
        },
        StmtNode::BenchLoop { iterations, .. } => {
            lemma_keyword(toks, pos, KindView::BenchLoop, iterations);
        },
        StmtNode::Panic { message, .. } => {
            lemma_keyword(toks, pos, KindView::Panic, message);
        },
        StmtNode::Assert { cond, message, .. } => {
            let comma = pos + 2 + expr_width(cond);
            lemma_value(toks, pos + 2, cond, comma);
            if let Some(message) = message {
                lemma_value(toks, comma + 1, message, comma + 1 + expr_width(message));
            }
        },
        StmtNode::Block { stmts, .. } => {
            lemma_body_parts(toks, pos, stmts, chained);
            lemma_stmts_end(toks, pos + 1, stmts, 0, chained);
        },
        StmtNode::While { cond, body, .. } => {
            let at = pos + 1 + expr_width(cond);
            lemma_body_parts(toks, at, body, chained);
            lemma_value(toks, pos + 1, cond, at);
            lemma_stmts_end(toks, at + 1, body, 0, chained);
        },
        StmtNode::Loop { body, .. } => {
            lemma_body_parts(toks, pos + 1, body, chained);
            lemma_stmts_end(toks, pos + 2, body, 0, chained);
        },
        StmtNode::For { name, start, end, body, .. } => {
            let at = pos + 4 + expr_width(start) + expr_width(end);
            lemma_body_parts(toks, at, body, chained);
            lemma_range(toks, pos, name, start, end);
            lemma_stmts_end(toks, at + 1, body, 0, chained);
        },
        StmtNode::ParFor { name, start, end, body, reduction, .. } => {
            let at = pos + 4 + expr_width(start) + expr_width(end);
            match reduction {
                Some(reduction) => {
                    lemma_range(toks, pos, name, start, end);
                    lemma_reduction(toks, at, reduction);
                },
                None => {
                    lemma_body_parts(toks, at, body, chained);
                    lemma_range(toks, pos, name, start, end);
                    lemma_stmts_end(toks, at + 1, body, 0, chained);
                },
            }
        },
        StmtNode::ForEach { iterable, body, .. } => {
            let at = pos + 3 + expr_width(iterable);
            lemma_body_parts(toks, at, body, chained);
            lemma_value(toks, pos + 3, iterable, at);
            lemma_stmts_end(toks, at + 1, body, 0, chained);
        },
        StmtNode::If { cond, then_branch, else_branch, .. } => {
            let at = pos + 1 + expr_width(cond);
            lemma_body_parts(toks, at, then_branch, chained);
            lemma_value(toks, pos + 1, cond, at);
            lemma_stmts_end(toks, at + 1, then_branch, 0, chained);
            if let Some(branch) = else_branch {
                let after = at + 2 + stmts_width(then_branch, 0, chained);
                if is_chained(branch, chained) {
                    lemma_stmt_ends(toks, after + 1, branch[0], chained);
                } else {
                    lemma_body_parts(toks, after + 1, branch, chained);
                    lemma_stmts_end(toks, after + 2, branch, 0, chained);
                }
            }
        },
        _ => {},
    }
}

/// Statements have no less than no tokens.
proof fn lemma_stmts_end(
    toks: Seq<TokenView>,
    pos: int,
    list: Seq<StmtNode>,
    from: int,
    chained: bool,
)
    requires
        0 <= pos,
        0 <= from,
        writes_stmts(toks, pos, list, from, chained),
    ensures
        stmts_width(list, from, chained) >= 0,
    decreases list, list.len() - from,
{
    if from < list.len() {
        lemma_first(toks, pos, list, from, chained);
        lemma_stmt_ends(toks, pos, list[from], chained);
        lemma_stmts_end(
            toks,
            pos + stmt_width(list[from], chained),
            list,
            from + 1,
            chained,
        );
    }
}

/// A statement of this kind is read back.
proof fn lemma_block_stmt(toks: Seq<TokenView>, pos: int, s: StmtNode, chained: bool)
    requires
        0 <= pos,
        writes_stmt(toks, pos, s, chained),
        s is Block,
        kind_at(toks, pos + stmt_width(s, chained)) != KindView::Else,
    ensures
        is_stmt_read(toks, pos, s, chained),
    decreases s, 0int,
{
    let stmts = s->stmts;
    let end = pos + stmt_width(s, chained);
    assert(end == pos + 2 + stmts_width(stmts, 0, chained));
    lemma_body_parts(toks, pos, stmts, chained);
    assert(stmts.take(0) =~= Seq::empty());
    lemma_stmts(toks, pos + 1, stmts, 0, Seq::empty(), chained);
    read_block(toks, pos, stmts, end);
}

/// A statement of this kind is read back.
proof fn lemma_while_stmt(toks: Seq<TokenView>, pos: int, s: StmtNode, chained: bool)
    requires
        0 <= pos,
        writes_stmt(toks, pos, s, chained),
        s is While,
        kind_at(toks, pos + stmt_width(s, chained)) != KindView::Else,
    ensures
        is_stmt_read(toks, pos, s, chained),
    decreases s, 0int,
{
    let at = pos + 1 + expr_width(s->While_cond);
    let end = pos + stmt_width(s, chained);
    assert(end == at + 2 + stmts_width(s->While_body, 0, chained));
    lemma_body_parts(toks, at, s->While_body, chained);
    lemma_value(toks, pos + 1, s->While_cond, at);
    lemma_body(toks, pos, at, s->While_body, chained);
    read_while(toks, pos, s->While_cond, at, s->While_body, end);
}

/// A statement of this kind is read back.
proof fn lemma_loop_stmt(toks: Seq<TokenView>, pos: int, s: StmtNode, chained: bool)
    requires
        0 <= pos,
        writes_stmt(toks, pos, s, chained),
        s is Loop,
        kind_at(toks, pos + stmt_width(s, chained)) != KindView::Else,
    ensures
        is_stmt_read(toks, pos, s, chained),
    decreases s, 0int,
{
    let end = pos + stmt_width(s, chained);
    assert(end == pos + 3 + stmts_width(s->Loop_body, 0, chained));
    lemma_body(toks, pos, pos + 1, s->Loop_body, chained);
    read_loop(toks, pos, s->Loop_body, end);
}

/// A statement of this kind is read back.
proof fn lemma_for_stmt(toks: Seq<TokenView>, pos: int, s: StmtNode, chained: bool)
    requires
        0 <= pos,
        writes_stmt(toks, pos, s, chained),
        s is For,
        kind_at(toks, pos + stmt_width(s, chained)) != KindView::Else,
    ensures
        is_stmt_read(toks, pos, s, chained),
    decreases s, 0int,
{
    let at = pos + 4 + expr_width(s->For_start) + expr_width(s->For_end);
    let end = pos + stmt_width(s, chained);
    assert(end == at + 2 + stmts_width(s->For_body, 0, chained));
    lemma_body_parts(toks, at, s->For_body, chained);
    lemma_range(toks, pos, s->For_name, s->For_start, s->For_end);
    lemma_body(toks, pos, at, s->For_body, chained);
    read_for(toks, pos, s->For_name, s->For_start, s->For_end, at, s->For_body, end);
}

/// A statement of this kind is read back.
proof fn lemma_parfor_stmt(toks: Seq<TokenView>, pos: int, s: StmtNode, chained: bool)
    requires
        0 <= pos,
        writes_stmt(toks, pos, s, chained),
        s is ParFor,
        kind_at(toks, pos + stmt_width(s, chained)) != KindView::Else,
    ensures
        is_stmt_read(toks, pos, s, chained),
    decreases s, 0int,
{
    let (first, last) = (s->ParFor_start, s->ParFor_end);
    let at = pos + 4 + expr_width(first) + expr_width(last);
    let end = pos + stmt_width(s, chained);
    match s->reduction {
        Some(reduction) => {
            assert(end == at + 7 + expr_width(reduction.expr));
            lemma_range(toks, pos, s->ParFor_name, first, last);
            lemma_reduction(toks, at, reduction);
            read_parfor_reduction(toks, pos, s->ParFor_name, first, last, at, reduction, end);
        },
        None => {
            assert(end == at + 3 + stmts_width(s->ParFor_body, 0, chained));
            lemma_body_parts(toks, at, s->ParFor_body, chained);
            lemma_range(toks, pos, s->ParFor_name, first, last);
            lemma_body(toks, pos, at, s->ParFor_body, chained);
            read_parfor(toks, pos, s->ParFor_name, first, last, at, s->ParFor_body, end);
        },
    }
}

/// A statement of this kind is read back.
proof fn lemma_foreach_stmt(toks: Seq<TokenView>, pos: int, s: StmtNode, chained: bool)
    requires
        0 <= pos,
        writes_stmt(toks, pos, s, chained),
        s is ForEach,
        kind_at(toks, pos + stmt_width(s, chained)) != KindView::Else,
    ensures
        is_stmt_read(toks, pos, s, chained),
    decreases s, 0int,
{
    let at = pos + 3 + expr_width(s->iterable);
    let end = pos + stmt_width(s, chained);
    assert(end == at + 2 + stmts_width(s->ForEach_body, 0, chained));
    lemma_body_parts(toks, at, s->ForEach_body, chained);
    lemma_value(toks, pos + 3, s->iterable, at);
    lemma_body(toks, pos, at, s->ForEach_body, chained);
    read_foreach(toks, pos, s->ForEach_name, s->iterable, at, s->ForEach_body, end);
}

/// What is written of a conditional.
proof fn lemma_if_parts(toks: Seq<TokenView>, pos: int, s: StmtNode, chained: bool)
    requires
        writes_stmt(toks, pos, s, chained),
        s is If,
    ensures
        ({
            let at = pos + 1 + expr_width(s->If_cond);
            let after = at + 2 + stmts_width(s->then_branch, 0, chained);
            let end = pos + stmt_width(s, chained);
            &&& stands(toks, pos, KindView::If)
            &&& s->If_span == span_at(toks, pos)
            &&& writes_expr(toks, pos + 1, s->If_cond)
            &&& writes_body(toks, at, s->then_branch, chained)
            &&& match s->else_branch {
                Some(branch) => {
                    &&& stands(toks, after, KindView::Else)
                    &&& is_chained(branch, chained) ==> writes_stmt(
                        toks,
                        after + 1,
                        branch[0],
                        chained,
                    ) && end == after + 1 + stmt_width(branch[0], chained)
                    &&& !is_chained(branch, chained) ==> writes_body(
                        toks,
                        after + 1,
                        branch,
                        chained,
                    ) && end == after + 3 + stmts_width(branch, 0, chained)
                },
                None => end == after,
            }
        }),
{
}

/// A statement of this kind is read back.
#[verifier::rlimit(60)]
proof fn lemma_if_stmt(toks: Seq<TokenView>, pos: int, s: StmtNode, chained: bool)
    requires
        0 <= pos,
        writes_stmt(toks, pos, s, chained),
        s is If,
        kind_at(toks, pos + stmt_width(s, chained)) != KindView::Else,
    ensures
        is_stmt_read(toks, pos, s, chained),
    decreases s, 0int,
{
    let cond = s->If_cond;
    let first = s->then_branch;
    let at = pos + 1 + expr_width(cond);
    let after = at + 2 + stmts_width(first, 0, chained);
    let end = pos + stmt_width(s, chained);
    lemma_if_parts(toks, pos, s, chained);
    lemma_body_parts(toks, at, first, chained);
    lemma_value(toks, pos + 1, cond, at);
    lemma_body(toks, pos, at, first, chained);
    match s->else_branch {
        Some(branch) => {
            lemma_else(toks, pos, after, branch, chained);
            assert(else_after(toks, pos, after) == Ok::<
                (Option<Seq<StmtNode>>, int),
                DiagnosticView,
            >((Some(branch), end)));
            read_if(toks, pos, cond, at, first, after, Some(branch), end);
        },
        None => {
            assert(end == after);
            read_if(toks, pos, cond, at, first, after, None, end);
        },
    }
}

/// A statement that is written is read back, where no `else` stands behind it.
proof fn lemma_stmt(toks: Seq<TokenView>, pos: int, s: StmtNode, chained: bool)
    requires
        0 <= pos,
        writes_stmt(toks, pos, s, chained),
        kind_at(toks, pos + stmt_width(s, chained)) != KindView::Else,
    ensures
        is_stmt_read(toks, pos, s, chained),
    decreases s, 1int,
{
    match s {
        StmtNode::Let { .. } => {
            lemma_let(toks, pos, s, chained);
        },
        StmtNode::Assign { .. } => {
            lemma_assign(toks, pos, s, chained);
        },
        StmtNode::AssignField { .. } => {
            lemma_assign_field(toks, pos, s, chained);
        },
        StmtNode::AssignIndex { .. } => {
            lemma_assign_index(toks, pos, s, chained);
        },
        StmtNode::AssignStructListIndex { .. } => {
            lemma_assign_list(toks, pos, s, chained);
        },
        StmtNode::Call { .. } => {
            lemma_call_stmt(toks, pos, s, chained);
        },
        StmtNode::MethodCall { .. } => {
            lemma_method_stmt(toks, pos, s, chained);
        },
        StmtNode::StructListMethodCall { .. } => {
            lemma_list_method(toks, pos, s, chained);
        },
        StmtNode::Return { .. } => {
            lemma_return(toks, pos, s, chained);
        },
        StmtNode::Print { .. } => {
            lemma_print(toks, pos, s, chained);
        },
        StmtNode::Exit { .. } => {
            lemma_exit(toks, pos, s, chained);
        },
        StmtNode::BenchLoop { .. } => {
            lemma_benchloop(toks, pos, s, chained);
        },
        StmtNode::Panic { .. } => {
            lemma_panic(toks, pos, s, chained);
        },
        StmtNode::Assert { .. } => {
            lemma_assert(toks, pos, s, chained);
        },
        StmtNode::Break { .. } | StmtNode::Continue { .. } => {},
        StmtNode::Block { .. } => {
            lemma_block_stmt(toks, pos, s, chained);
        },
        StmtNode::While { .. } => {
            lemma_while_stmt(toks, pos, s, chained);
        },
        StmtNode::Loop { .. } => {
            lemma_loop_stmt(toks, pos, s, chained);
        },
        StmtNode::For { .. } => {
            lemma_for_stmt(toks, pos, s, chained);
        },
        StmtNode::ParFor { .. } => {
            lemma_parfor_stmt(toks, pos, s, chained);
        },
        StmtNode::ForEach { .. } => {
            lemma_foreach_stmt(toks, pos, s, chained);
        },
        StmtNode::If { .. } => {
            lemma_if_stmt(toks, pos, s, chained);
        },
    }
}

/// A statement that is written is read back as it was: each condition, branch, body,
/// bound and argument stands in its place, and nothing that is written is missing. No
/// `else` may stand behind it.
pub proof fn law_written_statements_are_read_back(
    toks: Seq<TokenView>,
    pos: int,
    s: StmtNode,
    chained: bool,
)
    requires
        0 <= pos,
        writes_stmt(toks, pos, s, chained),
        kind_at(toks, pos + stmt_width(s, chained)) != KindView::Else,
    ensures
        stmt_at(toks, pos) == Ok::<(StmtNode, int), DiagnosticView>(
            (s, pos + stmt_width(s, chained)),
        ),
{
    lemma_stmt(toks, pos, s, chained);
}

/// Statements in braces that are written are read back as they were, all of them and
/// in their order.
pub proof fn law_written_bodies_are_read_back(
    toks: Seq<TokenView>,
    pos: int,
    list: Seq<StmtNode>,
    chained: bool,
)
    requires
        0 < pos,
        writes_body(toks, pos, list, chained),
    ensures
        forall|open: Seq<char>, close: Seq<char>| #[trigger]
            body_at(toks, pos, open, close) == Ok::<(Seq<StmtNode>, int), DiagnosticView>(
                (list, pos + 2 + stmts_width(list, 0, chained)),
            ),
        is_ahead(toks, pos, pos + 2 + stmts_width(list, 0, chained)),
{
    lemma_body(toks, 0, pos, list, chained);
    assert forall|open: Seq<char>, close: Seq<char>| #[trigger]
        body_at(toks, pos, open, close) == Ok::<(Seq<StmtNode>, int), DiagnosticView>(
            (list, pos + 2 + stmts_width(list, 0, chained)),
        ) by {
        assert(body_after(toks, 0, pos, open, close) == body_at(toks, pos, open, close));
    }
}

/// Behind `else` a conditional that is read as a statement is the whole of the branch.
pub proof fn law_conditionals_behind_else_are_kept(
    toks: Seq<TokenView>,
    pos: int,
    cond: ExprView,
    at: int,
    first: Seq<StmtNode>,
    after: int,
    nested: StmtNode,
    end: int,
)
    requires
        0 <= pos,
        stands(toks, pos, KindView::If),
        expr_at(toks, pos + 1) == Ok::<(ExprView, int), DiagnosticView>((cond, at)),
        is_ahead(toks, pos, at),
        is_ahead(toks, pos, after),
        forall|open: Seq<char>, close: Seq<char>| #[trigger]
            body_at(toks, at, open, close) == Ok::<(Seq<StmtNode>, int), DiagnosticView>(
                (first, after),
            ),
        stands(toks, after, KindView::Else),
        stands(toks, after + 1, KindView::If),
        stmt_at(toks, after + 1) == Ok::<(StmtNode, int), DiagnosticView>((nested, end)),
    ensures
        stmt_at(toks, pos) == Ok::<(StmtNode, int), DiagnosticView>(
            (
                StmtNode::If {
                    cond,
                    then_branch: first,
                    else_branch: Some(seq![nested]),
                    span: span_at(toks, pos),
                },
                end,
            ),
        ),
{
    assert(body_after(
        toks,
        pos,
        at,
        "expected '{' after if condition"@,
        "expected '}' after if block"@,
    ) == body_at(
        toks,
        at,
        "expected '{' after if condition"@,
        "expected '}' after if block"@,
    ));
    assert(if_after(toks, after, after + 1) == if_at(toks, after + 1));
    assert(else_after(toks, pos, after) == Ok::<(Option<Seq<StmtNode>>, int), DiagnosticView>(
        (Some(seq![nested]), end),
    ));
}

} // verus!
