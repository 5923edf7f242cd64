//! Where nodes of the syntax tree stand, and what kinds of statements are called.

use crate::ast::{Expr, ExprView, MatchPattern, PatternView, Span, Stmt, StmtNode};
use crate::text::{decimal, decimal_text};
use vstd::prelude::*;

verus! {

/// The place of a statement.
pub open spec fn place_of_stmt(node: StmtNode) -> Span {
    match node {
        StmtNode::Let { span, .. } => span,
        StmtNode::Assign { span, .. } => span,
        StmtNode::AssignField { span, .. } => span,
        StmtNode::AssignIndex { span, .. } => span,
        StmtNode::AssignStructListIndex { span, .. } => span,
        StmtNode::Call { span, .. } => span,
        StmtNode::MethodCall { span, .. } => span,
        StmtNode::StructListMethodCall { span, .. } => span,
        StmtNode::Return { span, .. } => span,
        StmtNode::Print { span, .. } => span,
        StmtNode::Exit { span, .. } => span,
        StmtNode::BenchLoop { span, .. } => span,
        StmtNode::Block { span, .. } => span,
        StmtNode::If { span, .. } => span,
        StmtNode::While { span, .. } => span,
        StmtNode::Loop { span, .. } => span,
        StmtNode::For { span, .. } => span,
        StmtNode::ParFor { span, .. } => span,
        StmtNode::ForEach { span, .. } => span,
        StmtNode::Break { span, .. } => span,
        StmtNode::Continue { span, .. } => span,
        StmtNode::Assert { span, .. } => span,
        StmtNode::Panic { span, .. } => span,
    }
}

/// The place of a statement.
pub fn stmt_span(node: &Stmt) -> (place: Span)
    ensures
        place == place_of_stmt(node@),
{
    match node {
        Stmt::Let { span, .. } => *span,
        Stmt::Assign { span, .. } => *span,
        Stmt::AssignField { span, .. } => *span,
        Stmt::AssignIndex { span, .. } => *span,
        Stmt::AssignStructListIndex { span, .. } => *span,
        Stmt::Call { span, .. } => *span,
        Stmt::MethodCall { span, .. } => *span,
        Stmt::StructListMethodCall { span, .. } => *span,
        Stmt::Return { span, .. } => *span,
        Stmt::Print { span, .. } => *span,
        Stmt::Exit { span, .. } => *span,
        Stmt::BenchLoop { span, .. } => *span,
        Stmt::Block { span, .. } => *span,
        Stmt::If { span, .. } => *span,
        Stmt::While { span, .. } => *span,
        Stmt::Loop { span, .. } => *span,
        Stmt::For { span, .. } => *span,
        Stmt::ParFor { span, .. } => *span,
        Stmt::ForEach { span, .. } => *span,
        Stmt::Break { span, .. } => *span,
        Stmt::Continue { span, .. } => *span,
        Stmt::Assert { span, .. } => *span,
        Stmt::Panic { span, .. } => *span,
    }
}

/// The place of an expression.
pub open spec fn place_of_expr(node: ExprView) -> Span {
    match node {
        ExprView::Bool { span, .. } => span,
        ExprView::String { span, .. } => span,
        ExprView::Char { span, .. } => span,
        ExprView::Number { span, .. } => span,
        ExprView::Ident { span, .. } => span,
        ExprView::Call { span, .. } => span,
        ExprView::QualifiedCall { span, .. } => span,
        ExprView::Unary { span, .. } => span,
        ExprView::Binary { span, .. } => span,
        ExprView::FieldAccess { span, .. } => span,
        ExprView::Index { span, .. } => span,
        ExprView::ArrayLit { span, .. } => span,
        ExprView::StructInit { span, .. } => span,
        ExprView::EnumVariant { span, .. } => span,
        ExprView::EnumTupleVariant { span, .. } => span,
        ExprView::EnumStructVariant { span, .. } => span,
        ExprView::DictLit { span, .. } => span,
        ExprView::MethodCall { span, .. } => span,
        ExprView::Match { span, .. } => span,
    }
}

/// The place of an expression.
pub fn expr_span(node: &Expr) -> (place: Span)
    ensures
        place == place_of_expr(node@),
{
    match node {
        Expr::Bool { span, .. } => *span,
        Expr::String { span, .. } => *span,
        Expr::Char { span, .. } => *span,
        Expr::Number { span, .. } => *span,
        Expr::Ident { span, .. } => *span,
        Expr::Call { span, .. } => *span,
        Expr::QualifiedCall { span, .. } => *span,
        Expr::Unary { span, .. } => *span,
        Expr::Binary { span, .. } => *span,
        Expr::FieldAccess { span, .. } => *span,
        Expr::Index { span, .. } => *span,
        Expr::ArrayLit { span, .. } => *span,
        Expr::StructInit { span, .. } => *span,
        Expr::EnumVariant { span, .. } => *span,
        Expr::EnumTupleVariant { span, .. } => *span,
        Expr::EnumStructVariant { span, .. } => *span,
        Expr::DictLit { span, .. } => *span,
        Expr::MethodCall { span, .. } => *span,
        Expr::Match { span, .. } => *span,
    }
}

/// The place of a pattern.
pub open spec fn place_of_pattern(node: PatternView) -> Span {
    match node {
        PatternView::Wildcard { span, .. } => span,
        PatternView::EnumUnit { span, .. } => span,
        PatternView::EnumTuple { span, .. } => span,
        PatternView::EnumNamed { span, .. } => span,
    }
}

/// The place of a pattern.
pub fn pattern_span(node: &MatchPattern) -> (place: Span)
    ensures
        place == place_of_pattern(node@),
{
    match node {
        MatchPattern::Wildcard { span, .. } => *span,
        MatchPattern::EnumUnit { span, .. } => *span,
        MatchPattern::EnumTuple { span, .. } => *span,
        MatchPattern::EnumNamed { span, .. } => *span,
    }
}

/// The kind of a statement as it is called.
pub open spec fn kind_of_stmt(node: StmtNode) -> Seq<char> {
    match node {
        StmtNode::Let { .. } => "let"@,
        StmtNode::Assign { .. } => "assign"@,
        StmtNode::AssignField { .. } => "assign_field"@,
        StmtNode::AssignIndex { .. } => "assign_index"@,
        StmtNode::AssignStructListIndex { .. } => "assign_struct_list_index"@,
        StmtNode::Call { .. } => "call"@,
        StmtNode::MethodCall { .. } => "method_call"@,
        StmtNode::StructListMethodCall { .. } => "struct_list_method_call"@,
        StmtNode::Return { .. } => "return"@,
        StmtNode::Print { .. } => "print"@,
        StmtNode::Exit { .. } => "exit"@,
        StmtNode::BenchLoop { .. } => "benchloop"@,
        StmtNode::Block { .. } => "block"@,
        StmtNode::If { .. } => "if"@,
        StmtNode::While { .. } => "while"@,
        StmtNode::Loop { .. } => "loop"@,
        StmtNode::For { .. } => "for"@,
        StmtNode::ParFor { .. } => "parfor"@,
        StmtNode::ForEach { .. } => "foreach"@,
        StmtNode::Break { .. } => "break"@,
        StmtNode::Continue { .. } => "continue"@,
        StmtNode::Assert { .. } => "assert"@,
        StmtNode::Panic { .. } => "panic"@,
    }
}

/// The kind of a statement as it is called.
pub fn stmt_kind_name(node: &Stmt) -> (name: &'static str)
    ensures
        name@ == kind_of_stmt(node@),
{
    match node {
        Stmt::Let { .. } => "let",
        Stmt::Assign { .. } => "assign",
        Stmt::AssignField { .. } => "assign_field",
        Stmt::AssignIndex { .. } => "assign_index",
        Stmt::AssignStructListIndex { .. } => "assign_struct_list_index",
        Stmt::Call { .. } => "call",
        Stmt::MethodCall { .. } => "method_call",
        Stmt::StructListMethodCall { .. } => "struct_list_method_call",
        Stmt::Return { .. } => "return",
        Stmt::Print { .. } => "print",
        Stmt::Exit { .. } => "exit",
        Stmt::BenchLoop { .. } => "benchloop",
        Stmt::Block { .. } => "block",
        Stmt::If { .. } => "if",
        Stmt::While { .. } => "while",
        Stmt::Loop { .. } => "loop",
        Stmt::For { .. } => "for",
        Stmt::ParFor { .. } => "parfor",
        Stmt::ForEach { .. } => "foreach",
        Stmt::Break { .. } => "break",
        Stmt::Continue { .. } => "continue",
        Stmt::Assert { .. } => "assert",
        Stmt::Panic { .. } => "panic",
    }
}

/// The note that an error gets on its way out of a statement.
pub open spec fn note_on_stmt(node: StmtNode) -> Seq<char> {
    "statement::"@ + kind_of_stmt(node) + " at "@ + decimal(place_of_stmt(node).line as nat) + ":"@
        + decimal(place_of_stmt(node).column as nat)
}

/// The note that an error gets on its way out of a statement.
pub fn statement_note(node: &Stmt) -> (note: String)
    ensures
        note@ == note_on_stmt(node@),
{
    let place = stmt_span(node);
    let mut note = String::from_str("statement::");
    note.append(stmt_kind_name(node));
    note.append(" at ");
    note.append(decimal_text(place.line as u64).as_str());
    note.append(":");
    note.append(decimal_text(place.column as u64).as_str());
    note
}

} // verus!
