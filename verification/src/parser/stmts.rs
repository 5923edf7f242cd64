//! Statements.

use crate::ast::{
    exprs_view, stmts_node_view, Expr, ExprView, ParForReduction, ReductionOp, ReductionView, Span,
    Stmt, StmtNode,
};
use crate::diagnostic::{message_at, Diagnostic, DiagnosticView};
use crate::parser::cursor::{
    error_at, expect_at, ident_at, ident_text_at, is_ahead, is_text, kind_at, span_at, stuck, Parse,
    Parser,
};
use crate::parser::exprs::{call_args_at, expr_at};
use crate::parser::types::type_at;
use crate::token::{KindView, TokenKind, TokenView};
use vstd::prelude::*;
use vstd::string::StringExecFns;

verus! {

/// The name of an associated function: its owner and its own name.
pub open spec fn mangled(owner: Seq<char>, member: Seq<char>) -> Seq<char> {
    owner + "__"@ + member
}

/// The name of an associated function.
pub fn mangle(owner: &String, member: &String) -> (name: String)
    ensures
        name@ == mangled(owner@, member@),
{
    let mut name = owner.clone();
    name.append("__");
    name.append(member.as_str());
    name
}

/// A statement that is a keyword and a semicolon.
pub open spec fn bare_at(
    toks: Seq<TokenView>,
    pos: int,
    node: StmtNode,
    message: Seq<char>,
) -> Parse<StmtNode> {
    match expect_at(toks, pos + 1, KindView::Semicolon, message) {
        Ok((_, end)) => Ok((node, end)),
        Err(error) => Err(error),
    }
}

/// An expression in parentheses behind a keyword, and a semicolon.
pub open spec fn keyword_call_at(
    toks: Seq<TokenView>,
    pos: int,
    open_message: Seq<char>,
    close_message: Seq<char>,
    end_message: Seq<char>,
) -> Parse<ExprView> {
    match expect_at(toks, pos + 1, KindView::LParen, open_message) {
        Ok((_, p1)) => match expr_at(toks, p1) {
            Ok((expr, p2)) => match expect_at(toks, p2, KindView::RParen, close_message) {
                Ok((_, p3)) => match expect_at(toks, p3, KindView::Semicolon, end_message) {
                    Ok((_, p4)) => Ok((expr, p4)),
                    Err(error) => Err(error),
                },
                Err(error) => Err(error),
            },
            Err(error) => Err(error),
        },
        Err(error) => Err(error),
    }
}

/// A return, with or without a value.
pub open spec fn return_at(toks: Seq<TokenView>, pos: int) -> Parse<StmtNode> {
    let span = span_at(toks, pos);
    if kind_at(toks, pos + 1) == KindView::Semicolon {
        Ok((StmtNode::Return { expr: None, span }, pos + 2))
    } else {
        match expr_at(toks, pos + 1) {
            Ok(
                (expr, p1),
            ) => match expect_at(toks, p1, KindView::Semicolon, "expected ';' after return"@) {
                Ok((_, p2)) => Ok((StmtNode::Return { expr: Some(expr), span }, p2)),
                Err(error) => Err(error),
            },
            Err(error) => Err(error),
        }
    }
}

/// A declaration of a variable behind its name: with or without a type.
pub open spec fn let_rest_at(
    toks: Seq<TokenView>,
    pos: int,
    name: Seq<char>,
    mutable: bool,
    span: Span,
) -> Parse<StmtNode> {
    if kind_at(toks, pos) == KindView::Colon {
        match type_at(toks, pos + 1) {
            Ok(
                (ty, p1),
            ) => match expect_at(toks, p1, KindView::Equal, "expected '=' after identifier"@) {
                Ok((_, p2)) => match expr_at(toks, p2) {
                    Ok(
                        (expr, p3),
                    ) => match expect_at(toks, p3, KindView::Semicolon, "expected ';' after let"@) {
                        Ok(
                            (_, p4),
                        ) => Ok((StmtNode::Let { name, mutable, ty: Some(ty), expr, span }, p4)),
                        Err(error) => Err(error),
                    },
                    Err(error) => Err(error),
                },
                Err(error) => Err(error),
            },
            Err(error) => Err(error),
        }
    } else {
        match expect_at(toks, pos, KindView::Equal, "expected '=' after identifier"@) {
            Ok((_, p1)) => match expr_at(toks, p1) {
                Ok(
                    (expr, p2),
                ) => match expect_at(toks, p2, KindView::Semicolon, "expected ';' after let"@) {
                    Ok((_, p3)) => Ok((StmtNode::Let { name, mutable, ty: None, expr, span }, p3)),
                    Err(error) => Err(error),
                },
                Err(error) => Err(error),
            },
            Err(error) => Err(error),
        }
    }
}

/// A declaration of a variable.
pub open spec fn let_at(toks: Seq<TokenView>, pos: int) -> Parse<StmtNode> {
    let mutable = kind_at(toks, pos + 1) == KindView::Mut;
    let start = if mutable {
        pos + 2
    } else {
        pos + 1
    };
    match ident_at(toks, start, "expected identifier after let"@) {
        Ok((name, end)) => let_rest_at(toks, end, name, mutable, span_at(toks, pos)),
        Err(error) => Err(error),
    }
}

/// An assertion, with or without a message.
pub open spec fn assert_at(toks: Seq<TokenView>, pos: int) -> Parse<StmtNode> {
    let span = span_at(toks, pos);
    match expect_at(toks, pos + 1, KindView::LParen, "expected '(' after assert"@) {
        Ok((_, p1)) => match expr_at(toks, p1) {
            Ok((cond, p2)) => if kind_at(toks, p2) == KindView::Comma {
                match expr_at(toks, p2 + 1) {
                    Ok(
                        (message, p3),
                    ) => match expect_at(toks, p3, KindView::RParen, "expected ')' after assert"@) {
                        Ok((_, p4)) => match expect_at(
                            toks,
                            p4,
                            KindView::Semicolon,
                            "expected ';' after assert"@,
                        ) {
                            Ok(
                                (_, p5),
                            ) => Ok((StmtNode::Assert { cond, message: Some(message), span }, p5)),
                            Err(error) => Err(error),
                        },
                        Err(error) => Err(error),
                    },
                    Err(error) => Err(error),
                }
            } else {
                match expect_at(toks, p2, KindView::RParen, "expected ')' after assert"@) {
                    Ok((_, p3)) => match expect_at(
                        toks,
                        p3,
                        KindView::Semicolon,
                        "expected ';' after assert"@,
                    ) {
                        Ok((_, p4)) => Ok((StmtNode::Assert { cond, message: None, span }, p4)),
                        Err(error) => Err(error),
                    },
                    Err(error) => Err(error),
                }
            },
            Err(error) => Err(error),
        },
        Err(error) => Err(error),
    }
}

/// An index in brackets, and an assignment behind it.
pub open spec fn index_assignment_at(toks: Seq<TokenView>, pos: int) -> Parse<
    (ExprView, ExprView),
> {
    match expr_at(toks, pos + 1) {
        Ok(
            (index, p1),
        ) => match expect_at(toks, p1, KindView::RBracket, "expected ']' after index"@) {
            Ok(
                (_, p2),
            ) => match expect_at(toks, p2, KindView::Equal, "expected '=' after indexed target"@) {
                Ok((_, p3)) => match expr_at(toks, p3) {
                    Ok((expr, p4)) => match expect_at(
                        toks,
                        p4,
                        KindView::Semicolon,
                        "expected ';' after assignment"@,
                    ) {
                        Ok((_, p5)) => Ok(((index, expr), p5)),
                        Err(error) => Err(error),
                    },
                    Err(error) => Err(error),
                },
                Err(error) => Err(error),
            },
            Err(error) => Err(error),
        },
        Err(error) => Err(error),
    }
}

/// An assignment from its sign on.
pub open spec fn assignment_at(toks: Seq<TokenView>, pos: int) -> Parse<ExprView> {
    match expr_at(toks, pos + 1) {
        Ok(
            (expr, p1),
        ) => match expect_at(toks, p1, KindView::Semicolon, "expected ';' after assignment"@) {
            Ok((_, p2)) => Ok((expr, p2)),
            Err(error) => Err(error),
        },
        Err(error) => Err(error),
    }
}

/// Arguments behind their parenthesis, up to the semicolon.
pub open spec fn call_stmt_at(
    toks: Seq<TokenView>,
    pos: int,
    close_message: Seq<char>,
    end_message: Seq<char>,
) -> Parse<Seq<ExprView>> {
    match call_args_at(toks, pos, close_message) {
        Ok((args, p1)) => match expect_at(toks, p1, KindView::Semicolon, end_message) {
            Ok((_, p2)) => Ok((args, p2)),
            Err(error) => Err(error),
        },
        Err(error) => Err(error),
    }
}

/// A statement about a member of a variable, from behind the dot on: an indexed
/// assignment, an assignment, a method of the member, or a method.
pub open spec fn member_stmt_at(
    toks: Seq<TokenView>,
    pos: int,
    receiver: Seq<char>,
    span: Span,
) -> Parse<StmtNode> {
    match ident_at(toks, pos, "expected field or method name after '.'"@) {
        Ok((member, end)) => if kind_at(toks, end) == KindView::LBracket {
            match index_assignment_at(toks, end) {
                Ok(((index, expr), end)) => Ok(
                    (
                        StmtNode::AssignStructListIndex {
                            receiver,
                            field: member,
                            index,
                            expr,
                            span,
                        },
                        end,
                    ),
                ),
                Err(error) => Err(error),
            }
        } else if kind_at(toks, end) == KindView::Equal {
            match assignment_at(toks, end) {
                Ok((expr, end)) => Ok(
                    (StmtNode::AssignField { receiver, field: member, expr, span }, end),
                ),
                Err(error) => Err(error),
            }
        } else if kind_at(toks, end) == KindView::Dot {
            match ident_at(toks, end + 1, "expected method name after struct field '.'"@) {
                Ok((name, p1)) => match expect_at(
                    toks,
                    p1,
                    KindView::LParen,
                    "expected '(' after method name"@,
                ) {
                    Ok((_, p2)) => match call_stmt_at(
                    toks,
                    p2,
                    "expected ')' after method call"@,
                    "expected ';' after method call"@,
                ) {
                        Ok((args, p3)) => Ok(
                            (
                                StmtNode::StructListMethodCall {
                                    receiver,
                                    field: member,
                                    name,
                                    args,
                                    span,
                                },
                                p3,
                            ),
                        ),
                        Err(error) => Err(error),
                    },
                    Err(error) => Err(error),
                },
                Err(error) => Err(error),
            }
        } else {
            match expect_at(toks, end, KindView::LParen, "expected '(' after method name"@) {
                Ok((_, p1)) => match call_stmt_at(
                    toks,
                    p1,
                    "expected ')' after method call"@,
                    "expected ';' after method call"@,
                ) {
                    Ok(
                        (args, p2),
                    ) => Ok((StmtNode::MethodCall { receiver, name: member, args, span }, p2)),
                    Err(error) => Err(error),
                },
                Err(error) => Err(error),
            }
        },
        Err(error) => Err(error),
    }
}

/// A statement that starts with a name: a call of an associated function, an
/// indexed assignment, one about a member, an assignment or a call.
pub open spec fn name_stmt_at(toks: Seq<TokenView>, pos: int, name: Seq<char>) -> Parse<StmtNode> {
    let span = span_at(toks, pos);
    match kind_at(toks, pos + 1) {
        KindView::ColonColon => match ident_at(
            toks,
            pos + 2,
            "expected associated function after '::'"@,
        ) {
            Ok((member, p1)) => match expect_at(
                toks,
                p1,
                KindView::LParen,
                "expected '(' after associated function"@,
            ) {
                Ok((_, p2)) => match call_stmt_at(
                    toks,
                    p2,
                    "expected ')' after associated call"@,
                    "expected ';' after associated call"@,
                ) {
                    Ok(
                        (args, p3),
                    ) => Ok((StmtNode::Call { name: mangled(name, member), args, span }, p3)),
                    Err(error) => Err(error),
                },
                Err(error) => Err(error),
            },
            Err(error) => Err(error),
        },
        KindView::LBracket => match index_assignment_at(toks, pos + 1) {
            Ok(
                ((index, expr), end),
            ) => Ok((StmtNode::AssignIndex { name, index, expr, span }, end)),
            Err(error) => Err(error),
        },
        KindView::Dot => member_stmt_at(toks, pos + 2, name, span),
        KindView::Equal => match assignment_at(toks, pos + 1) {
            Ok((expr, end)) => Ok((StmtNode::Assign { name, expr, span }, end)),
            Err(error) => Err(error),
        },
        KindView::LParen => match call_stmt_at(
            toks,
            pos + 2,
            "expected ')' after call"@,
            "expected ';' after call"@,
        ) {
            Ok((args, end)) => Ok((StmtNode::Call { name, args, span }, end)),
            Err(error) => Err(error),
        },
        _ => Err(message_at("expected assignment or call"@, span.line, span.column)),
    }
}

/// How a reduction combines its values.
pub open spec fn reduction_op(name: Seq<char>) -> Option<ReductionOp> {
    if name == "sum"@ {
        Some(ReductionOp::Sum)
    } else if name == "min"@ {
        Some(ReductionOp::Min)
    } else if name == "max"@ {
        Some(ReductionOp::Max)
    } else {
        None
    }
}

/// The reduction of a parallel loop. A semicolon may stand behind its
/// expression.
pub open spec fn reduction_at(toks: Seq<TokenView>, pos: int) -> Parse<ReductionView> {
    let span = span_at(toks, pos);
    match ident_at(toks, pos + 1, "expected reduction op: sum|min|max"@) {
        Ok((op_name, after)) => match reduction_op(op_name) {
            Some(
                op,
            ) => match ident_text_at(toks, after, "into"@, "expected 'into' after reduction op"@) {
                Ok((_, p1)) => match ident_at(toks, p1, "expected reduction target variable"@) {
                    Ok((target, p2)) => match expect_at(
                        toks,
                        p2,
                        KindView::LBrace,
                        "expected '{' before reduction expression"@,
                    ) {
                        Ok((_, p3)) => match expr_at(toks, p3) {
                            Ok((expr, p4)) => {
                                let close = if kind_at(toks, p4) == KindView::Semicolon {
                                    p4 + 1
                                } else {
                                    p4
                                };
                                match expect_at(
                                    toks,
                                    close,
                                    KindView::RBrace,
                                    "expected '}' after reduction expression"@,
                                ) {
                                    Ok((_, end)) => Ok(
                                        (ReductionView { op, target, expr, span }, end),
                                    ),
                                    Err(error) => Err(error),
                                }
                            },
                            Err(error) => Err(error),
                        },
                        Err(error) => Err(error),
                    },
                    Err(error) => Err(error),
                },
                Err(error) => Err(error),
            },
            None => Err(
                error_at(toks, after, "unknown reduction op (expected sum|min|max)"@),
            ),
        },
        Err(error) => Err(error),
    }
}

/// The variable and the range of a loop.
pub open spec fn range_at(
    toks: Seq<TokenView>,
    pos: int,
    name_message: Seq<char>,
    in_message: Seq<char>,
    range_message: Seq<char>,
) -> Parse<(Seq<char>, ExprView, ExprView)> {
    match ident_at(toks, pos + 1, name_message) {
        Ok((name, p1)) => match expect_at(toks, p1, KindView::In, in_message) {
            Ok((_, p2)) => match expr_at(toks, p2) {
                Ok((start, p3)) => match expect_at(toks, p3, KindView::DotDot, range_message) {
                    Ok((_, p4)) => match expr_at(toks, p4) {
                        Ok((end, p5)) => Ok(((name, start, end), p5)),
                        Err(error) => Err(error),
                    },
                    Err(error) => Err(error),
                },
                Err(error) => Err(error),
            },
            Err(error) => Err(error),
        },
        Err(error) => Err(error),
    }
}

/// A position behind a semicolon, if one stands there.
pub open spec fn past_semicolon(toks: Seq<TokenView>, pos: int) -> int {
    if kind_at(toks, pos) == KindView::Semicolon {
        pos + 1
    } else {
        pos
    }
}

/// Statements up to a closing brace, added to those before them.
pub open spec fn stmt_list(
    toks: Seq<TokenView>,
    pos: int,
    before: Seq<StmtNode>,
) -> Parse<Seq<StmtNode>>
    decreases toks.len() - pos, 3int,
{
    if kind_at(toks, pos) == KindView::RBrace {
        Ok((before, pos))
    } else {
        match stmt_at(toks, pos) {
            Ok((stmt, end)) => if is_ahead(toks, pos, end) {
                stmt_list(toks, end, before.push(stmt))
            } else {
                stuck(toks, pos)
            },
            Err(error) => Err(error),
        }
    }
}

/// Statements in braces.
pub open spec fn body_at(
    toks: Seq<TokenView>,
    pos: int,
    open_message: Seq<char>,
    close_message: Seq<char>,
) -> Parse<Seq<StmtNode>>
    decreases toks.len() - pos, 1int,
{
    match expect_at(toks, pos, KindView::LBrace, open_message) {
        Ok((_, p1)) => match stmts_after(toks, pos, p1) {
            Ok((body, p2)) => match expect_at(toks, p2, KindView::RBrace, close_message) {
                Ok((_, p3)) => Ok((body, p3)),
                Err(error) => Err(error),
            },
            Err(error) => Err(error),
        },
        Err(error) => Err(error),
    }
}

/// Statements up to a closing brace, from a position behind another on.
pub open spec fn stmts_after(toks: Seq<TokenView>, from: int, pos: int) -> Parse<Seq<StmtNode>>
    decreases toks.len() - from, 0int,
{
    if is_ahead(toks, from, pos) {
        stmt_list(toks, pos, Seq::empty())
    } else {
        stuck(toks, from)
    }
}

/// Statements in braces, from a position behind another on.
pub open spec fn body_after(
    toks: Seq<TokenView>,
    from: int,
    pos: int,
    open_message: Seq<char>,
    close_message: Seq<char>,
) -> Parse<Seq<StmtNode>>
    decreases toks.len() - from, 0int,
{
    if is_ahead(toks, from, pos) {
        body_at(toks, pos, open_message, close_message)
    } else {
        stuck(toks, from)
    }
}

/// Statements of a block up to its brace, added to those before them.
pub open spec fn block_list(
    toks: Seq<TokenView>,
    pos: int,
    before: Seq<StmtNode>,
) -> Parse<Seq<StmtNode>>
    decreases toks.len() - pos, 3int,
{
    if kind_at(toks, pos) == KindView::RBrace {
        Ok((before, pos))
    } else if kind_at(toks, pos) == KindView::Eof {
        Err(error_at(toks, pos, "unterminated block"@))
    } else {
        match stmt_at(toks, pos) {
            Ok((stmt, end)) => if is_ahead(toks, pos, end) {
                block_list(toks, end, before.push(stmt))
            } else {
                stuck(toks, pos)
            },
            Err(error) => Err(error),
        }
    }
}

/// Statements of a block behind its brace.
pub open spec fn block_after(toks: Seq<TokenView>, from: int, pos: int) -> Parse<Seq<StmtNode>>
    decreases toks.len() - from, 0int,
{
    if is_ahead(toks, from, pos) {
        block_list(toks, pos, Seq::empty())
    } else {
        stuck(toks, from)
    }
}

/// A block.
pub open spec fn block_at(toks: Seq<TokenView>, pos: int) -> Parse<StmtNode>
    decreases toks.len() - pos, 1int,
{
    match block_after(toks, pos, pos + 1) {
        Ok(
            (stmts, p1),
        ) => match expect_at(toks, p1, KindView::RBrace, "expected '}' after block"@) {
            Ok((_, p2)) => Ok((StmtNode::Block { stmts, span: span_at(toks, pos) }, p2)),
            Err(error) => Err(error),
        },
        Err(error) => Err(error),
    }
}

/// What follows the first branch of a conditional: another conditional, a
/// branch, or nothing.
pub open spec fn else_after(
    toks: Seq<TokenView>,
    from: int,
    pos: int,
) -> Parse<Option<Seq<StmtNode>>>
    decreases toks.len() - from, 0int,
{
    if kind_at(toks, pos) != KindView::Else {
        Ok((None, pos))
    } else if !is_ahead(toks, from, pos) {
        stuck(toks, from)
    } else if kind_at(toks, pos + 1) == KindView::If {
        match if_after(toks, pos, pos + 1) {
            Ok((nested, end)) => Ok((Some(seq![nested]), end)),
            Err(error) => Err(error),
        }
    } else {
        match body_after(
            toks,
            pos,
            pos + 1,
            "expected '{' after else"@,
            "expected '}' after else block"@,
        ) {
            Ok((branch, end)) => Ok((Some(branch), end)),
            Err(error) => Err(error),
        }
    }
}

/// A conditional.
pub open spec fn if_at(toks: Seq<TokenView>, pos: int) -> Parse<StmtNode>
    decreases toks.len() - pos, 1int,
{
    let span = span_at(toks, pos);
    match expr_at(toks, pos + 1) {
        Ok((cond, p1)) => match body_after(
            toks,
            pos,
            p1,
            "expected '{' after if condition"@,
            "expected '}' after if block"@,
        ) {
            Ok((then_branch, p2)) => match else_after(toks, pos, p2) {
                Ok(
                    (else_branch, p3),
                ) => Ok((StmtNode::If { cond, then_branch, else_branch, span }, p3)),
                Err(error) => Err(error),
            },
            Err(error) => Err(error),
        },
        Err(error) => Err(error),
    }
}

/// A conditional from a position behind another on.
pub open spec fn if_after(toks: Seq<TokenView>, from: int, pos: int) -> Parse<StmtNode>
    decreases toks.len() - from, 0int,
{
    if is_ahead(toks, from, pos) {
        if_at(toks, pos)
    } else {
        stuck(toks, from)
    }
}

/// A loop with a condition.
pub open spec fn while_at(toks: Seq<TokenView>, pos: int) -> Parse<StmtNode>
    decreases toks.len() - pos, 1int,
{
    match expr_at(toks, pos + 1) {
        Ok((cond, p1)) => match body_after(
            toks,
            pos,
            p1,
            "expected '{' after while condition"@,
            "expected '}' after while body"@,
        ) {
            Ok((body, p2)) => Ok((StmtNode::While { cond, body, span: span_at(toks, pos) }, p2)),
            Err(error) => Err(error),
        },
        Err(error) => Err(error),
    }
}

/// A loop without a condition.
pub open spec fn loop_at(toks: Seq<TokenView>, pos: int) -> Parse<StmtNode>
    decreases toks.len() - pos, 1int,
{
    match body_after(
            toks,
            pos,
            pos + 1,
            "expected '{' after loop"@,
            "expected '}' after loop body"@,
        ) {
        Ok((body, p1)) => Ok((StmtNode::Loop { body, span: span_at(toks, pos) }, p1)),
        Err(error) => Err(error),
    }
}

/// A loop over a range.
pub open spec fn for_at(toks: Seq<TokenView>, pos: int) -> Parse<StmtNode>
    decreases toks.len() - pos, 1int,
{
    let span = span_at(toks, pos);
    match range_at(
        toks,
        pos,
        "expected loop variable name after for"@,
        "expected 'in' after loop variable"@,
        "expected '..' in for range"@,
    ) {
        Ok(((name, start, end), p1)) => match body_after(
            toks,
            pos,
            p1,
            "expected '{' after for range"@,
            "expected '}' after for body"@,
        ) {
            Ok((body, p2)) => Ok((StmtNode::For { name, start, end, body, span }, p2)),
            Err(error) => Err(error),
        },
        Err(error) => Err(error),
    }
}

/// A parallel loop over a range: with a reduction or a body. A semicolon may
/// stand behind it.
pub open spec fn parfor_at(toks: Seq<TokenView>, pos: int) -> Parse<StmtNode>
    decreases toks.len() - pos, 1int,
{
    let span = span_at(toks, pos);
    match range_at(
        toks,
        pos,
        "expected loop variable name after parfor"@,
        "expected 'in' after parfor variable"@,
        "expected '..' in parfor range"@,
    ) {
        Ok(((name, start, end), after)) => if kind_at(toks, after) == KindView::Ident("reduce"@) {
            match reduction_at(toks, after) {
                Ok((reduction, p1)) => Ok(
                    (
                        StmtNode::ParFor {
                            name,
                            start,
                            end,
                            body: Seq::empty(),
                            reduction: Some(reduction),
                            span,
                        },
                        past_semicolon(toks, p1),
                    ),
                ),
                Err(error) => Err(error),
            }
        } else {
            match body_after(
                toks,
                pos,
                after,
                "expected '{' after parfor range"@,
                "expected '}' after parfor body"@,
            ) {
                Ok((body, p1)) => Ok(
                    (
                        StmtNode::ParFor { name, start, end, body, reduction: None, span },
                        past_semicolon(toks, p1),
                    ),
                ),
                Err(error) => Err(error),
            }
        },
        Err(error) => Err(error),
    }
}

/// A loop over the elements of a collection.
pub open spec fn foreach_at(toks: Seq<TokenView>, pos: int) -> Parse<StmtNode>
    decreases toks.len() - pos, 1int,
{
    let span = span_at(toks, pos);
    match ident_at(toks, pos + 1, "expected loop variable name after foreach"@) {
        Ok(
            (name, p1),
        ) => match expect_at(toks, p1, KindView::In, "expected 'in' after foreach variable"@) {
            Ok((_, p2)) => match expr_at(toks, p2) {
                Ok((iterable, p3)) => match body_after(
            toks,
            pos,
            p3,
            "expected '{' after foreach iterable"@,
            "expected '}' after foreach body"@,
        ) {
                    Ok((body, p4)) => Ok((StmtNode::ForEach { name, iterable, body, span }, p4)),
                    Err(error) => Err(error),
                },
                Err(error) => Err(error),
            },
            Err(error) => Err(error),
        },
        Err(error) => Err(error),
    }
}

/// A statement from a position on.
pub open spec fn stmt_at(toks: Seq<TokenView>, pos: int) -> Parse<StmtNode>
    decreases toks.len() - pos, 2int,
{
    let span = span_at(toks, pos);
    match kind_at(toks, pos) {
        KindView::LBrace => block_at(toks, pos),
        KindView::If => if_at(toks, pos),
        KindView::While => while_at(toks, pos),
        KindView::Loop => loop_at(toks, pos),
        KindView::For => for_at(toks, pos),
        KindView::ParFor => parfor_at(toks, pos),
        KindView::Foreach => foreach_at(toks, pos),
        KindView::Break => bare_at(
            toks,
            pos,
            StmtNode::Break { span },
            "expected ';' after break"@,
        ),
        KindView::Continue => bare_at(
            toks,
            pos,
            StmtNode::Continue { span },
            "expected ';' after continue"@,
        ),
        KindView::Return => return_at(toks, pos),
        KindView::Let => let_at(toks, pos),
        KindView::Print => match keyword_call_at(
            toks,
            pos,
            "expected '(' after print"@,
            "expected ')' after print"@,
            "expected ';' after print"@,
        ) {
            Ok((expr, end)) => Ok((StmtNode::Print { expr, span }, end)),
            Err(error) => Err(error),
        },
        KindView::Exit => match keyword_call_at(
            toks,
            pos,
            "expected '(' after exit"@,
            "expected ')' after exit"@,
            "expected ';' after exit"@,
        ) {
            Ok((expr, end)) => Ok((StmtNode::Exit { expr, span }, end)),
            Err(error) => Err(error),
        },
        KindView::BenchLoop => match keyword_call_at(
            toks,
            pos,
            "expected '(' after benchloop"@,
            "expected ')' after benchloop"@,
            "expected ';' after benchloop"@,
        ) {
            Ok((expr, end)) => Ok((StmtNode::BenchLoop { iterations: expr, span }, end)),
            Err(error) => Err(error),
        },
        KindView::Panic => match keyword_call_at(
            toks,
            pos,
            "expected '(' after panic"@,
            "expected ')' after panic"@,
            "expected ';' after panic"@,
        ) {
            Ok((expr, end)) => Ok((StmtNode::Panic { message: expr, span }, end)),
            Err(error) => Err(error),
        },
        KindView::Assert => assert_at(toks, pos),
        KindView::Ident(name) => name_stmt_at(toks, pos, name),
        _ => Err(error_at(toks, pos, "expected statement"@)),
    }
}

impl<'a> Parser<'a> {
    /// Parses a return.
    fn parse_return(&mut self) -> (result: Result<Stmt, Diagnostic>)
        requires
            old(self).well_formed(),
            kind_at(old(self).toks(), old(self).pos as int) == KindView::Return,
        ensures
            match result {
                Ok(stmt) => final(self).follows(old(self))
                    && return_at(old(self).toks(), old(self).pos as int) == Ok::<
                    (StmtNode, int),
                    DiagnosticView,
                >((stmt@, final(self).pos as int)),
                Err(error) => return_at(
                    old(self).toks(),
                    old(self).pos as int,
                ) == Err::<(StmtNode, int), DiagnosticView>(error@),
            },
    {
        let span = self.advance_with_span();
        let expr = if self.matches(TokenKind::Semicolon) {
            None
        } else {
            Some(self.parse_expr()?)
        };
        self.expect(TokenKind::Semicolon, "expected ';' after return")?;
        Ok(Stmt::Return { expr, span })
    }

    /// Parses a declaration of a variable.
    fn parse_let(&mut self) -> (result: Result<Stmt, Diagnostic>)
        requires
            old(self).well_formed(),
            kind_at(old(self).toks(), old(self).pos as int) == KindView::Let,
        ensures
            match result {
                Ok(stmt) => final(self).follows(old(self))
                    && let_at(old(self).toks(), old(self).pos as int) == Ok::<
                    (StmtNode, int),
                    DiagnosticView,
                >((stmt@, final(self).pos as int)),
                Err(error) => let_at(
                    old(self).toks(),
                    old(self).pos as int,
                ) == Err::<(StmtNode, int), DiagnosticView>(error@),
            },
    {
        let span = self.advance_with_span();
        let mutable = self.matches(TokenKind::Mut);
        if mutable {
            self.advance();
        }
        let name = self.expect_ident("expected identifier after let")?;
        let ty = if self.matches(TokenKind::Colon) {
            self.advance();
            Some(self.parse_type()?)
        } else {
            None
        };
        self.expect(TokenKind::Equal, "expected '=' after identifier")?;
        let expr = self.parse_expr()?;
        self.expect(TokenKind::Semicolon, "expected ';' after let")?;
        Ok(Stmt::Let { name, mutable, ty, expr, span })
    }

    /// Parses an expression in parentheses behind a keyword, and a semicolon.
    fn parse_keyword_call(
        &mut self,
        open_message: &str,
        close_message: &str,
        end_message: &str,
    ) -> (result: Result<Expr, Diagnostic>)
        requires
            old(self).well_formed(),
            old(self).pos < old(self).tokens@.len(),
        ensures
            match result {
                Ok(expr) => final(self).follows(old(self)) && keyword_call_at(
                    old(self).toks(), old(self).pos as int,
                    open_message@,
                    close_message@,
                    end_message@,
                ) == Ok::<
                    (ExprView, int),
                    DiagnosticView,
                >((expr@, final(self).pos as int)),
                Err(error) => keyword_call_at(
                    old(self).toks(), old(self).pos as int,
                    open_message@,
                    close_message@,
                    end_message@,
                ) == Err::<(ExprView, int), DiagnosticView>(error@),
            },
    {
        self.advance();
        self.expect(TokenKind::LParen, open_message)?;
        let expr = self.parse_expr()?;
        self.expect(TokenKind::RParen, close_message)?;
        self.expect(TokenKind::Semicolon, end_message)?;
        Ok(expr)
    }

    /// Parses an assertion.
    fn parse_assert(&mut self) -> (result: Result<Stmt, Diagnostic>)
        requires
            old(self).well_formed(),
            kind_at(old(self).toks(), old(self).pos as int) == KindView::Assert,
        ensures
            match result {
                Ok(stmt) => final(self).follows(old(self))
                    && assert_at(old(self).toks(), old(self).pos as int) == Ok::<
                    (StmtNode, int),
                    DiagnosticView,
                >((stmt@, final(self).pos as int)),
                Err(error) => assert_at(
                    old(self).toks(),
                    old(self).pos as int,
                ) == Err::<(StmtNode, int), DiagnosticView>(error@),
            },
    {
        let span = self.advance_with_span();
        self.expect(TokenKind::LParen, "expected '(' after assert")?;
        let cond = self.parse_expr()?;
        let message = if self.matches(TokenKind::Comma) {
            self.advance();
            Some(self.parse_expr()?)
        } else {
            None
        };
        self.expect(TokenKind::RParen, "expected ')' after assert")?;
        self.expect(TokenKind::Semicolon, "expected ';' after assert")?;
        Ok(Stmt::Assert { cond, message, span })
    }

    /// Parses a panic.
    fn parse_panic(&mut self) -> (result: Result<Stmt, Diagnostic>)
        requires
            old(self).well_formed(),
            kind_at(old(self).toks(), old(self).pos as int) == KindView::Panic,
        ensures
            match result {
                Ok(stmt) => final(self).follows(old(self))
                    && stmt_at(old(self).toks(), old(self).pos as int) == Ok::<
                    (StmtNode, int),
                    DiagnosticView,
                >((stmt@, final(self).pos as int)),
                Err(error) => stmt_at(
                    old(self).toks(),
                    old(self).pos as int,
                ) == Err::<(StmtNode, int), DiagnosticView>(error@),
            },
    {
        let span = self.peek_span();
        let message = self.parse_keyword_call(
            "expected '(' after panic",
            "expected ')' after panic",
            "expected ';' after panic",
        )?;
        Ok(Stmt::Panic { message, span })
    }

    /// Parses an index in brackets and an assignment behind it.
    fn parse_index_assignment(&mut self) -> (result: Result<(Expr, Expr), Diagnostic>)
        requires
            old(self).well_formed(),
            kind_at(old(self).toks(), old(self).pos as int) == KindView::LBracket,
        ensures
            match result {
                Ok(pair) => final(self).follows(old(self))
                    && index_assignment_at(old(self).toks(), old(self).pos as int) == Ok::<
                    ((ExprView, ExprView), int),
                    DiagnosticView,
                >(((pair.0@, pair.1@), final(self).pos as int)),
                Err(error) => index_assignment_at(
                    old(self).toks(),
                    old(self).pos as int,
                ) == Err::<((ExprView, ExprView), int), DiagnosticView>(error@),
            },
    {
        self.advance();
        let index = self.parse_expr()?;
        self.expect(TokenKind::RBracket, "expected ']' after index")?;
        self.expect(TokenKind::Equal, "expected '=' after indexed target")?;
        let expr = self.parse_expr()?;
        self.expect(TokenKind::Semicolon, "expected ';' after assignment")?;
        Ok((index, expr))
    }

    /// Parses an assignment from its sign on.
    fn parse_assignment(&mut self) -> (result: Result<Expr, Diagnostic>)
        requires
            old(self).well_formed(),
            kind_at(old(self).toks(), old(self).pos as int) == KindView::Equal,
        ensures
            match result {
                Ok(expr) => final(self).follows(old(self))
                    && assignment_at(old(self).toks(), old(self).pos as int) == Ok::<
                    (ExprView, int),
                    DiagnosticView,
                >((expr@, final(self).pos as int)),
                Err(error) => assignment_at(
                    old(self).toks(),
                    old(self).pos as int,
                ) == Err::<(ExprView, int), DiagnosticView>(error@),
            },
    {
        self.advance();
        let expr = self.parse_expr()?;
        self.expect(TokenKind::Semicolon, "expected ';' after assignment")?;
        Ok(expr)
    }

    /// Parses arguments behind their parenthesis, up to the semicolon.
    fn parse_call_stmt(
        &mut self,
        close_message: &str,
        end_message: &str,
    ) -> (result: Result<Vec<Expr>, Diagnostic>)
        requires
            old(self).well_formed(),
        ensures
            match result {
                Ok(args) => final(self).follows(old(self))
                    && call_stmt_at(
                        old(self).toks(),
                        old(self).pos as int,
                        close_message@,
                        end_message@,
                    ) == Ok::<
                    (Seq<ExprView>, int),
                    DiagnosticView,
                >((exprs_view(args@), final(self).pos as int)),
                Err(error) => call_stmt_at(
                    old(self).toks(),
                    old(self).pos as int,
                    close_message@,
                    end_message@,
                ) == Err::<(Seq<ExprView>, int), DiagnosticView>(error@),
            },
    {
        let args = self.parse_call_args(close_message)?;
        self.expect(TokenKind::Semicolon, end_message)?;
        Ok(args)
    }

    /// Parses a statement about a member of a variable, from behind the dot on.
    fn parse_member_stmt(
        &mut self,
        receiver: String,
        span: Span,
    ) -> (result: Result<Stmt, Diagnostic>)
        requires
            old(self).well_formed(),
        ensures
            match result {
                Ok(stmt) => final(self).follows(old(self))
                    && member_stmt_at(old(self).toks(), old(self).pos as int, receiver@, span)
                    == Ok::<
                    (StmtNode, int),
                    DiagnosticView,
                >((stmt@, final(self).pos as int)),
                Err(error) => member_stmt_at(
                    old(self).toks(),
                    old(self).pos as int,
                    receiver@,
                    span,
                ) == Err::<(StmtNode, int), DiagnosticView>(error@),
            },
    {
        let member = self.expect_ident("expected field or method name after '.'")?;
        if self.matches(TokenKind::LBracket) {
            let (index, expr) = self.parse_index_assignment()?;
            return Ok(Stmt::AssignStructListIndex { receiver, field: member, index, expr, span });
        }
        if self.matches(TokenKind::Equal) {
            let expr = self.parse_assignment()?;
            return Ok(Stmt::AssignField { receiver, field: member, expr, span });
        }
        if self.matches(TokenKind::Dot) {
            self.advance();
            let name = self.expect_ident("expected method name after struct field '.'")?;
            self.expect(TokenKind::LParen, "expected '(' after method name")?;
            let args = self.parse_call_stmt(
                "expected ')' after method call",
                "expected ';' after method call",
            )?;
            return Ok(Stmt::StructListMethodCall { receiver, field: member, name, args, span });
        }
        self.expect(TokenKind::LParen, "expected '(' after method name")?;
        let args = self.parse_call_stmt(
            "expected ')' after method call",
            "expected ';' after method call",
        )?;
        Ok(Stmt::MethodCall { receiver, name: member, args, span })
    }

    /// Parses a statement that starts with a name.
    fn parse_name_stmt(&mut self) -> (result: Result<Stmt, Diagnostic>)
        requires
            old(self).well_formed(),
            kind_at(old(self).toks(), old(self).pos as int) is Ident,
        ensures
            match result {
                Ok(stmt) => final(self).follows(old(self))
                    && name_stmt_at(
                        old(self).toks(),
                        old(self).pos as int,
                        kind_at(old(self).toks(), old(self).pos as int)->Ident_0,
                    ) == Ok::<
                    (StmtNode, int),
                    DiagnosticView,
                >((stmt@, final(self).pos as int)),
                Err(error) => name_stmt_at(
                    old(self).toks(),
                    old(self).pos as int,
                    kind_at(old(self).toks(), old(self).pos as int)->Ident_0,
                ) == Err::<(StmtNode, int), DiagnosticView>(error@),
            },
    {
        let span = self.peek_span();
        let name = self.expect_ident("expected identifier")?;
        if self.matches(TokenKind::ColonColon) {
            self.advance();
            let member = self.expect_ident("expected associated function after '::'")?;
            self.expect(TokenKind::LParen, "expected '(' after associated function")?;
            let args = self.parse_call_stmt(
                "expected ')' after associated call",
                "expected ';' after associated call",
            )?;
            return Ok(Stmt::Call { name: mangle(&name, &member), args, span });
        }
        if self.matches(TokenKind::LBracket) {
            let (index, expr) = self.parse_index_assignment()?;
            return Ok(Stmt::AssignIndex { name, index, expr, span });
        }
        if self.matches(TokenKind::Dot) {
            self.advance();
            return self.parse_member_stmt(name, span);
        }
        if self.matches(TokenKind::Equal) {
            let expr = self.parse_assignment()?;
            return Ok(Stmt::Assign { name, expr, span });
        }
        if self.matches(TokenKind::LParen) {
            self.advance();
            let args = self.parse_call_stmt("expected ')' after call", "expected ';' after call")?;
            return Ok(Stmt::Call { name, args, span });
        }
        Err(Diagnostic::new("expected assignment or call", span.line, span.column))
    }

    /// Parses the reduction of a parallel loop.
    fn parse_reduction(&mut self) -> (result: Result<ParForReduction, Diagnostic>)
        requires
            old(self).well_formed(),
            kind_at(old(self).toks(), old(self).pos as int) is Ident,
        ensures
            match result {
                Ok(reduction) => final(self).follows(old(self))
                    && reduction_at(old(self).toks(), old(self).pos as int) == Ok::<
                    (ReductionView, int),
                    DiagnosticView,
                >((reduction@, final(self).pos as int)),
                Err(error) => reduction_at(
                    old(self).toks(),
                    old(self).pos as int,
                ) == Err::<(ReductionView, int), DiagnosticView>(error@),
            },
    {
        let span = self.peek_span();
        self.advance();
        let op_name = self.expect_ident("expected reduction op: sum|min|max")?;
        let op = if is_text(&op_name, "sum") {
            ReductionOp::Sum
        } else if is_text(&op_name, "min") {
            ReductionOp::Min
        } else if is_text(&op_name, "max") {
            ReductionOp::Max
        } else {
            return Err(self.error_here("unknown reduction op (expected sum|min|max)"));
        };
        self.expect_ident_text("into", "expected 'into' after reduction op")?;
        let target = self.expect_ident("expected reduction target variable")?;
        self.expect(TokenKind::LBrace, "expected '{' before reduction expression")?;
        let expr = self.parse_expr()?;
        if self.matches(TokenKind::Semicolon) {
            self.advance();
        }
        self.expect(TokenKind::RBrace, "expected '}' after reduction expression")?;
        Ok(ParForReduction { op, target, expr, span })
    }

    /// Parses the variable and the range of a loop.
    fn parse_range(
        &mut self,
        name_message: &str,
        in_message: &str,
        range_message: &str,
    ) -> (result: Result<(String, Expr, Expr), Diagnostic>)
        requires
            old(self).well_formed(),
            old(self).pos < old(self).tokens@.len(),
        ensures
            match result {
                Ok(range) => final(self).follows(old(self)) && range_at(
                    old(self).toks(), old(self).pos as int,
                    name_message@,
                    in_message@,
                    range_message@,
                ) == Ok::<
                    ((Seq<char>, ExprView, ExprView), int),
                    DiagnosticView,
                >(((range.0@, range.1@, range.2@), final(self).pos as int)),
                Err(error) => range_at(
                    old(self).toks(), old(self).pos as int,
                    name_message@,
                    in_message@,
                    range_message@,
                ) == Err::<((Seq<char>, ExprView, ExprView), int), DiagnosticView>(error@),
            },
    {
        self.advance();
        let name = self.expect_ident(name_message)?;
        self.expect(TokenKind::In, in_message)?;
        let start = self.parse_expr()?;
        self.expect(TokenKind::DotDot, range_message)?;
        let end = self.parse_expr()?;
        Ok((name, start, end))
    }

    /// Parses statements up to a closing brace.
    fn parse_stmts(&mut self) -> (result: Result<Vec<Stmt>, Diagnostic>)
        requires
            old(self).well_formed(),
        ensures
            match result {
                Ok(stmts) => final(self).well_formed() && final(self).tokens == old(self).tokens
                    && final(self).pos >= old(self).pos
                    && stmt_list(old(self).toks(), old(self).pos as int, Seq::empty()) == Ok::<
                    (Seq<StmtNode>, int),
                    DiagnosticView,
                >((stmts_node_view(stmts@), final(self).pos as int)),
                Err(
                    error,
                ) => stmt_list(old(self).toks(), old(self).pos as int, Seq::empty()) == Err::<
                    (Seq<StmtNode>, int),
                    DiagnosticView,
                >(error@),
            },
        decreases old(self).tokens@.len() - old(self).pos, 3int,
    {
        let ghost toks = self.toks();
        let ghost goal = stmt_list(toks, self.pos as int, Seq::empty());
        let mut stmts: Vec<Stmt> = Vec::new();
        assert(stmts_node_view(stmts@) =~= Seq::empty());
        while !self.matches(TokenKind::RBrace)
            invariant
                self.well_formed(),
                self.tokens == old(self).tokens,
                toks == self.toks(),
                self.pos >= old(self).pos,
                goal == stmt_list(toks, old(self).pos as int, Seq::empty()),
                goal == stmt_list(toks, self.pos as int, stmts_node_view(stmts@)),
            decreases self.tokens@.len() - self.pos,
        {
            let ghost before = stmts_node_view(stmts@);
            let stmt = self.parse_stmt()?;
            let ghost added = stmt@;
            stmts.push(stmt);
            assert(stmts_node_view(stmts@) =~= before.push(added));
        }
        Ok(stmts)
    }

    /// Parses the statements of a block up to its brace.
    fn parse_block_stmts(&mut self) -> (result: Result<Vec<Stmt>, Diagnostic>)
        requires
            old(self).well_formed(),
        ensures
            match result {
                Ok(stmts) => final(self).well_formed() && final(self).tokens == old(self).tokens
                    && final(self).pos >= old(self).pos
                    && block_list(old(self).toks(), old(self).pos as int, Seq::empty()) == Ok::<
                    (Seq<StmtNode>, int),
                    DiagnosticView,
                >((stmts_node_view(stmts@), final(self).pos as int)),
                Err(
                    error,
                ) => block_list(old(self).toks(), old(self).pos as int, Seq::empty()) == Err::<
                    (Seq<StmtNode>, int),
                    DiagnosticView,
                >(error@),
            },
        decreases old(self).tokens@.len() - old(self).pos, 3int,
    {
        let ghost toks = self.toks();
        let ghost goal = block_list(toks, self.pos as int, Seq::empty());
        let mut stmts: Vec<Stmt> = Vec::new();
        assert(stmts_node_view(stmts@) =~= Seq::empty());
        while !self.matches(TokenKind::RBrace)
            invariant
                self.well_formed(),
                self.tokens == old(self).tokens,
                toks == self.toks(),
                self.pos >= old(self).pos,
                goal == block_list(toks, old(self).pos as int, Seq::empty()),
                goal == block_list(toks, self.pos as int, stmts_node_view(stmts@)),
            decreases self.tokens@.len() - self.pos,
        {
            if self.matches(TokenKind::Eof) {
                return Err(self.error_here("unterminated block"));
            }
            let ghost before = stmts_node_view(stmts@);
            let stmt = self.parse_stmt()?;
            let ghost added = stmt@;
            stmts.push(stmt);
            assert(stmts_node_view(stmts@) =~= before.push(added));
        }
        Ok(stmts)
    }

    /// Parses statements in braces.
    pub fn parse_body(
        &mut self,
        open_message: &str,
        close_message: &str,
    ) -> (result: Result<Vec<Stmt>, Diagnostic>)
        requires
            old(self).well_formed(),
        ensures
            match result {
                Ok(body) => final(self).follows(old(self))
                    && body_at(
                        old(self).toks(),
                        old(self).pos as int,
                        open_message@,
                        close_message@,
                    ) == Ok::<
                    (Seq<StmtNode>, int),
                    DiagnosticView,
                >((stmts_node_view(body@), final(self).pos as int)),
                Err(error) => body_at(
                    old(self).toks(),
                    old(self).pos as int,
                    open_message@,
                    close_message@,
                ) == Err::<(Seq<StmtNode>, int), DiagnosticView>(error@),
            },
        decreases old(self).tokens@.len() - old(self).pos, 1int,
    {
        let ghost toks = self.toks();
        let ghost start = self.pos as int;
        self.expect(TokenKind::LBrace, open_message)?;
        assert(stmts_after(toks, start, self.pos as int) == stmt_list(
            toks,
            self.pos as int,
            Seq::empty(),
        ));
        let body = self.parse_stmts()?;
        self.expect(TokenKind::RBrace, close_message)?;
        Ok(body)
    }

    /// Parses a block.
    fn parse_block(&mut self) -> (result: Result<Stmt, Diagnostic>)
        requires
            old(self).well_formed(),
            kind_at(old(self).toks(), old(self).pos as int) == KindView::LBrace,
        ensures
            match result {
                Ok(stmt) => final(self).follows(old(self))
                    && block_at(old(self).toks(), old(self).pos as int) == Ok::<
                    (StmtNode, int),
                    DiagnosticView,
                >((stmt@, final(self).pos as int)),
                Err(error) => block_at(
                    old(self).toks(),
                    old(self).pos as int,
                ) == Err::<(StmtNode, int), DiagnosticView>(error@),
            },
        decreases old(self).tokens@.len() - old(self).pos, 1int,
    {
        let ghost toks = self.toks();
        let ghost start = self.pos as int;
        let span = self.advance_with_span();
        assert(block_after(toks, start, self.pos as int) == block_list(
            toks,
            self.pos as int,
            Seq::empty(),
        ));
        let stmts = self.parse_block_stmts()?;
        self.expect(TokenKind::RBrace, "expected '}' after block")?;
        Ok(Stmt::Block { stmts, span })
    }

    /// Parses a conditional.
    fn parse_if(&mut self) -> (result: Result<Stmt, Diagnostic>)
        requires
            old(self).well_formed(),
            kind_at(old(self).toks(), old(self).pos as int) == KindView::If,
        ensures
            match result {
                Ok(stmt) => final(self).follows(old(self))
                    && if_at(old(self).toks(), old(self).pos as int) == Ok::<
                    (StmtNode, int),
                    DiagnosticView,
                >((stmt@, final(self).pos as int)),
                Err(error) => if_at(
                    old(self).toks(),
                    old(self).pos as int,
                ) == Err::<(StmtNode, int), DiagnosticView>(error@),
            },
        decreases old(self).tokens@.len() - old(self).pos, 1int,
    {
        let ghost toks = self.toks();
        let ghost start = self.pos as int;
        let span = self.advance_with_span();
        let cond = self.parse_expr()?;
        assert(body_after(
            toks,
            start,
            self.pos as int,
            "expected '{' after if condition"@,
            "expected '}' after if block"@,
        )
            == body_at(
                toks,
                self.pos as int,
                "expected '{' after if condition"@,
                "expected '}' after if block"@,
            ));
        let then_branch = self.parse_body(
            "expected '{' after if condition",
            "expected '}' after if block",
        )?;
        let ghost after = self.pos as int;
        let else_branch = if self.matches(TokenKind::Else) {
            self.advance();
            if self.matches(TokenKind::If) {
                assert(if_after(toks, after, self.pos as int) == if_at(toks, self.pos as int));
                let nested = self.parse_if()?;
                let ghost node = nested@;
                let branch = vec![nested];
                assert(stmts_node_view(branch@) =~= seq![node]);
                assert(else_after(toks, start, after) == Ok::<
                    (Option<Seq<StmtNode>>, int),
                    DiagnosticView,
                >((Some(seq![node]), self.pos as int)));
                Some(branch)
            } else {
                assert(body_after(
                    toks,
                    after,
                    self.pos as int,
                    "expected '{' after else"@,
                    "expected '}' after else block"@,
                ) == body_at(
                    toks,
                    self.pos as int,
                    "expected '{' after else"@,
                    "expected '}' after else block"@,
                ));
                let branch = self.parse_body(
                    "expected '{' after else",
                    "expected '}' after else block",
                )?;
                Some(branch)
            }
        } else {
            None
        };
        Ok(Stmt::If { cond, then_branch, else_branch, span })
    }

    /// Parses a loop with a condition.
    fn parse_while(&mut self) -> (result: Result<Stmt, Diagnostic>)
        requires
            old(self).well_formed(),
            kind_at(old(self).toks(), old(self).pos as int) == KindView::While,
        ensures
            match result {
                Ok(stmt) => final(self).follows(old(self))
                    && while_at(old(self).toks(), old(self).pos as int) == Ok::<
                    (StmtNode, int),
                    DiagnosticView,
                >((stmt@, final(self).pos as int)),
                Err(error) => while_at(
                    old(self).toks(),
                    old(self).pos as int,
                ) == Err::<(StmtNode, int), DiagnosticView>(error@),
            },
        decreases old(self).tokens@.len() - old(self).pos, 1int,
    {
        let ghost toks = self.toks();
        let ghost start = self.pos as int;
        let span = self.advance_with_span();
        let cond = self.parse_expr()?;
        assert(body_after(
            toks,
            start,
            self.pos as int,
            "expected '{' after while condition"@,
            "expected '}' after while body"@,
        )
            == body_at(
                toks,
                self.pos as int,
                "expected '{' after while condition"@,
                "expected '}' after while body"@,
            ));
        let body = self.parse_body(
            "expected '{' after while condition",
            "expected '}' after while body",
        )?;
        Ok(Stmt::While { cond, body, span })
    }

    /// Parses a loop without a condition.
    fn parse_loop(&mut self) -> (result: Result<Stmt, Diagnostic>)
        requires
            old(self).well_formed(),
            kind_at(old(self).toks(), old(self).pos as int) == KindView::Loop,
        ensures
            match result {
                Ok(stmt) => final(self).follows(old(self))
                    && loop_at(old(self).toks(), old(self).pos as int) == Ok::<
                    (StmtNode, int),
                    DiagnosticView,
                >((stmt@, final(self).pos as int)),
                Err(error) => loop_at(
                    old(self).toks(),
                    old(self).pos as int,
                ) == Err::<(StmtNode, int), DiagnosticView>(error@),
            },
        decreases old(self).tokens@.len() - old(self).pos, 1int,
    {
        let ghost toks = self.toks();
        let ghost start = self.pos as int;
        let span = self.advance_with_span();
        assert(body_after(
            toks,
            start,
            self.pos as int,
            "expected '{' after loop"@,
            "expected '}' after loop body"@,
        )
            == body_at(
                toks,
                self.pos as int,
                "expected '{' after loop"@,
                "expected '}' after loop body"@,
            ));
        let body = self.parse_body("expected '{' after loop", "expected '}' after loop body")?;
        Ok(Stmt::Loop { body, span })
    }

    /// Parses a loop over a range.
    fn parse_for(&mut self) -> (result: Result<Stmt, Diagnostic>)
        requires
            old(self).well_formed(),
            kind_at(old(self).toks(), old(self).pos as int) == KindView::For,
        ensures
            match result {
                Ok(stmt) => final(self).follows(old(self))
                    && for_at(old(self).toks(), old(self).pos as int) == Ok::<
                    (StmtNode, int),
                    DiagnosticView,
                >((stmt@, final(self).pos as int)),
                Err(error) => for_at(
                    old(self).toks(),
                    old(self).pos as int,
                ) == Err::<(StmtNode, int), DiagnosticView>(error@),
            },
        decreases old(self).tokens@.len() - old(self).pos, 1int,
    {
        let ghost toks = self.toks();
        let ghost start = self.pos as int;
        let span = self.peek_span();
        let (name, first, end) = self.parse_range(
            "expected loop variable name after for",
            "expected 'in' after loop variable",
            "expected '..' in for range",
        )?;
        assert(body_after(
            toks,
            start,
            self.pos as int,
            "expected '{' after for range"@,
            "expected '}' after for body"@,
        )
            == body_at(
                toks,
                self.pos as int,
                "expected '{' after for range"@,
                "expected '}' after for body"@,
            ));
        let body = self.parse_body("expected '{' after for range", "expected '}' after for body")?;
        Ok(Stmt::For { name, start: first, end, body, span })
    }

    /// Parses a parallel loop.
    fn parse_parfor(&mut self) -> (result: Result<Stmt, Diagnostic>)
        requires
            old(self).well_formed(),
            kind_at(old(self).toks(), old(self).pos as int) == KindView::ParFor,
        ensures
            match result {
                Ok(stmt) => final(self).follows(old(self))
                    && parfor_at(old(self).toks(), old(self).pos as int) == Ok::<
                    (StmtNode, int),
                    DiagnosticView,
                >((stmt@, final(self).pos as int)),
                Err(error) => parfor_at(
                    old(self).toks(),
                    old(self).pos as int,
                ) == Err::<(StmtNode, int), DiagnosticView>(error@),
            },
        decreases old(self).tokens@.len() - old(self).pos, 1int,
    {
        let ghost toks = self.toks();
        let ghost start = self.pos as int;
        let span = self.peek_span();
        let (name, first, end) = self.parse_range(
            "expected loop variable name after parfor",
            "expected 'in' after parfor variable",
            "expected '..' in parfor range",
        )?;
        let mut body: Vec<Stmt> = Vec::new();
        let mut reduction: Option<ParForReduction> = None;
        assert(stmts_node_view(body@) =~= Seq::empty());
        if self.matches_ident_text("reduce") {
            reduction = Some(self.parse_reduction()?);
        } else {
            assert(body_after(
                toks,
                start,
                self.pos as int,
                "expected '{' after parfor range"@,
                "expected '}' after parfor body"@,
            )
                == body_at(
                    toks,
                    self.pos as int,
                    "expected '{' after parfor range"@,
                    "expected '}' after parfor body"@,
                ));
            body = self.parse_body(
                "expected '{' after parfor range",
                "expected '}' after parfor body",
            )?;
        }
        if self.matches(TokenKind::Semicolon) {
            self.advance();
        }
        Ok(Stmt::ParFor { name, start: first, end, body, reduction, span })
    }

    /// Parses a loop over the elements of a collection.
    fn parse_foreach(&mut self) -> (result: Result<Stmt, Diagnostic>)
        requires
            old(self).well_formed(),
            kind_at(old(self).toks(), old(self).pos as int) == KindView::Foreach,
        ensures
            match result {
                Ok(stmt) => final(self).follows(old(self))
                    && foreach_at(old(self).toks(), old(self).pos as int) == Ok::<
                    (StmtNode, int),
                    DiagnosticView,
                >((stmt@, final(self).pos as int)),
                Err(error) => foreach_at(
                    old(self).toks(),
                    old(self).pos as int,
                ) == Err::<(StmtNode, int), DiagnosticView>(error@),
            },
        decreases old(self).tokens@.len() - old(self).pos, 1int,
    {
        let ghost toks = self.toks();
        let ghost start = self.pos as int;
        let span = self.advance_with_span();
        let name = self.expect_ident("expected loop variable name after foreach")?;
        self.expect(TokenKind::In, "expected 'in' after foreach variable")?;
        let iterable = self.parse_expr()?;
        assert(body_after(
            toks,
            start,
            self.pos as int,
            "expected '{' after foreach iterable"@,
            "expected '}' after foreach body"@,
        )
            == body_at(
                toks,
                self.pos as int,
                "expected '{' after foreach iterable"@,
                "expected '}' after foreach body"@,
            ));
        let body = self.parse_body(
            "expected '{' after foreach iterable",
            "expected '}' after foreach body",
        )?;
        Ok(Stmt::ForEach { name, iterable, body, span })
    }

    /// Parses a statement.
    pub fn parse_stmt(&mut self) -> (result: Result<Stmt, Diagnostic>)
        requires
            old(self).well_formed(),
        ensures
            match result {
                Ok(stmt) => final(self).follows(old(self))
                    && stmt_at(old(self).toks(), old(self).pos as int) == Ok::<
                    (StmtNode, int),
                    DiagnosticView,
                >((stmt@, final(self).pos as int)),
                Err(error) => stmt_at(
                    old(self).toks(),
                    old(self).pos as int,
                ) == Err::<(StmtNode, int), DiagnosticView>(error@),
            },
        decreases old(self).tokens@.len() - old(self).pos, 2int,
    {
        if self.matches(TokenKind::LBrace) {
            return self.parse_block();
        }
        if self.matches(TokenKind::If) {
            return self.parse_if();
        }
        if self.matches(TokenKind::While) {
            return self.parse_while();
        }
        if self.matches(TokenKind::Loop) {
            return self.parse_loop();
        }
        if self.matches(TokenKind::For) {
            return self.parse_for();
        }
        if self.matches(TokenKind::ParFor) {
            return self.parse_parfor();
        }
        if self.matches(TokenKind::Foreach) {
            return self.parse_foreach();
        }
        if self.matches(TokenKind::Break) {
            let span = self.advance_with_span();
            self.expect(TokenKind::Semicolon, "expected ';' after break")?;
            return Ok(Stmt::Break { span });
        }
        if self.matches(TokenKind::Continue) {
            let span = self.advance_with_span();
            self.expect(TokenKind::Semicolon, "expected ';' after continue")?;
            return Ok(Stmt::Continue { span });
        }
        if self.matches(TokenKind::Return) {
            return self.parse_return();
        }
        if self.matches(TokenKind::Let) {
            return self.parse_let();
        }
        if self.matches(TokenKind::Print) {
            let span = self.peek_span();
            let expr = self.parse_keyword_call(
                "expected '(' after print",
                "expected ')' after print",
                "expected ';' after print",
            )?;
            return Ok(Stmt::Print { expr, span });
        }
        if self.matches(TokenKind::Exit) {
            let span = self.peek_span();
            let expr = self.parse_keyword_call(
                "expected '(' after exit",
                "expected ')' after exit",
                "expected ';' after exit",
            )?;
            return Ok(Stmt::Exit { expr, span });
        }
        if self.matches(TokenKind::BenchLoop) {
            let span = self.peek_span();
            let iterations = self.parse_keyword_call(
                "expected '(' after benchloop",
                "expected ')' after benchloop",
                "expected ';' after benchloop",
            )?;
            return Ok(Stmt::BenchLoop { iterations, span });
        }
        if self.matches(TokenKind::Assert) {
            return self.parse_assert();
        }
        if self.matches(TokenKind::Panic) {
            return self.parse_panic();
        }
        if self.matches_ident() {
            return self.parse_name_stmt();
        }
        Err(self.error_here("expected statement"))
    }
}

} // verus!
