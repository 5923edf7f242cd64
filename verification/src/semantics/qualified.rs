//! Calls that are written with an owner: variants of enums, or functions of a
//! type.

use crate::ast::{
    arms_view, entries_view, expr_view, exprs_view, inits_view, reduction_view, stmts_node_view,
    variants_view, ArmView, DictEntry, EntryView, EnumDef, EnumVariantPayloadDef, EnumView, Expr,
    ExprView, InitView, MatchArm, ParForReduction, PayloadView, ReductionView, Span, Stmt, StmtNode,
    StructInitField,
};
use crate::copy::{copy_expr, copy_pattern, copy_stmt, copy_type};
use crate::diagnostic::{message_at_span, type_message, Diagnostic, DiagnosticView};
use crate::parser::stmts::{mangle, mangled};
use crate::semantics::names::{
    enum_names, enums_view, find_enum, find_variant, position_of, variant_names,
};
use crate::text::{decimal, decimal_text};
use vstd::prelude::*;

verus! {

/// What is said of a variant that the enum does not have.
pub open spec fn unknown_variant(owner: Seq<char>, member: Seq<char>) -> Seq<char> {
    "unknown variant '"@ + member + "' for enum '"@ + owner + "'"@
}

/// What is said of arguments for a variant without a payload.
pub open spec fn unit_variant_arguments(owner: Seq<char>, member: Seq<char>, count: nat) -> Seq<
    char,
> {
    "unit variant '"@ + owner + "::"@ + member + "' expects no payload, got "@ + decimal(count)
        + " arguments"@
}

/// What is said of arguments for a variant with named fields.
pub open spec fn named_variant_arguments(owner: Seq<char>, member: Seq<char>) -> Seq<char> {
    "named variant '"@ + owner + "::"@ + member + "' must be constructed with '{ ... }'"@
}

/// An optional expression as a mathematical value.
pub open spec fn optional_expr(node: Option<Expr>) -> Option<ExprView> {
    match node {
        Some(node) => Some(expr_view(node)),
        None => None,
    }
}

/// Optional statements as mathematical values.
pub open spec fn optional_stmts(node: Option<Vec<Stmt>>) -> Option<Seq<StmtNode>> {
    match node {
        Some(node) => Some(stmts_node_view(node@)),
        None => None,
    }
}

/// An optional reduction as a mathematical value.
pub open spec fn optional_reduction(node: Option<ParForReduction>) -> Option<ReductionView> {
    match node {
        Some(node) => Some(reduction_view(node)),
        None => None,
    }
}

/// What a call with an owner is, once its arguments are resolved: a variant of
/// the enum that the owner names, or a call of the function of that type.
pub open spec fn resolved_call(
    owner: Seq<char>,
    member: Seq<char>,
    args: Seq<ExprView>,
    span: Span,
    enums: Seq<EnumView>,
) -> Result<ExprView, DiagnosticView> {
    match position_of(enum_names(enums), owner) {
        None => Ok(ExprView::Call { name: mangled(owner, member), args, span }),
        Some(at) => {
            let variants = enums[at].variants;
            match position_of(variant_names(variants), member) {
                None => Err(message_at_span(unknown_variant(owner, member), span)),
                Some(variant) => match variants[variant].payload {
                    PayloadView::Unit => if args.len() > 0 {
                        Err(
                            type_message(
                                unit_variant_arguments(owner, member, args.len()),
                                span,
                            ),
                        )
                    } else {
                        Ok(ExprView::EnumVariant { enum_name: owner, variant: member, span })
                    },
                    PayloadView::Tuple(_) => Ok(
                        ExprView::EnumTupleVariant {
                            enum_name: owner,
                            variant: member,
                            args,
                            span,
                        },
                    ),
                    PayloadView::Named(_) => Err(
                        type_message(named_variant_arguments(owner, member), span),
                    ),
                },
            }
        },
    }
}

/// What a call with an owner is, once its arguments are resolved.
fn resolve_call(
    owner: &String,
    member: &String,
    args: Vec<Expr>,
    span: Span,
    enums: &Vec<EnumDef>,
) -> (done: Result<Expr, Diagnostic>)
    ensures
        match resolved_call(owner@, member@, exprs_view(args@), span, enums_view(enums@)) {
            Ok(expected) => done matches Ok(new) && new@ == expected,
            Err(error) => done matches Err(found) && found@ == error,
        },
{
    let at: usize = match find_enum(enums, owner) {
        Some(at) => at,
        None => {
            return Ok(Expr::Call { name: mangle(owner, member), args, span });
        },
    };
    assert(enums_view(enums@)[at as int] == enums@[at as int]@);
    let variants = &enums[at].variants;
    let variant: usize = match find_variant(variants, member) {
        Some(variant) => variant,
        None => {
            let mut message = String::from_str("unknown variant '");
            message.append(member.as_str());
            message.append("' for enum '");
            message.append(owner.as_str());
            message.append("'");
            return Err(Diagnostic::at_span(message, span));
        },
    };
    assert(variants_view(variants@)[variant as int] == variants@[variant as int]@);
    match &variants[variant].payload {
        EnumVariantPayloadDef::Unit => {
            if args.len() > 0 {
                let mut message = String::from_str("unit variant '");
                message.append(owner.as_str());
                message.append("::");
                message.append(member.as_str());
                message.append("' expects no payload, got ");
                message.append(decimal_text(args.len() as u64).as_str());
                message.append(" arguments");
                return Err(Diagnostic::type_error(message, span));
            }
            Ok(Expr::EnumVariant { enum_name: owner.clone(), variant: member.clone(), span })
        },
        EnumVariantPayloadDef::Tuple(_) => Ok(
            Expr::EnumTupleVariant {
                enum_name: owner.clone(),
                variant: member.clone(),
                args,
                span,
            },
        ),
        EnumVariantPayloadDef::Named(_) => {
            let mut message = String::from_str("named variant '");
            message.append(owner.as_str());
            message.append("::");
            message.append(member.as_str());
            message.append("' must be constructed with '{ ... }'");
            Err(Diagnostic::type_error(message, span))
        },
    }
}

/// An expression with its calls that name an owner resolved.
pub open spec fn resolved_expr(
    node: ExprView,
    enums: Seq<EnumView>,
) -> Result<ExprView, DiagnosticView>
    decreases node, 0int,
{
    match node {
        ExprView::Call {
            name,
            args,
            span,
        } => match resolved_exprs(args, args.len() as int, enums) {
            Err(error) => Err(error),
            Ok(args) => Ok(ExprView::Call { name, args, span }),
        },
        ExprView::QualifiedCall {
            owner,
            member,
            args,
            span,
        } => match resolved_exprs(args, args.len() as int, enums) {
            Err(error) => Err(error),
            Ok(args) => resolved_call(owner, member, args, span, enums),
        },
        ExprView::Unary { op, expr, span } => match resolved_expr(*expr, enums) {
            Err(error) => Err(error),
            Ok(expr) => Ok(ExprView::Unary { op, expr: Box::new(expr), span }),
        },
        ExprView::Binary { op, left, right, span } => match resolved_expr(*left, enums) {
            Err(error) => Err(error),
            Ok(left) => match resolved_expr(*right, enums) {
                Err(error) => Err(error),
                Ok(right) => Ok(
                    ExprView::Binary { op, left: Box::new(left), right: Box::new(right), span },
                ),
            },
        },
        ExprView::FieldAccess { base, field, span } => match resolved_expr(*base, enums) {
            Err(error) => Err(error),
            Ok(base) => Ok(ExprView::FieldAccess { base: Box::new(base), field, span }),
        },
        ExprView::Index { base, index, span } => match resolved_expr(*base, enums) {
            Err(error) => Err(error),
            Ok(base) => match resolved_expr(*index, enums) {
                Err(error) => Err(error),
                Ok(
                    index,
                ) => Ok(ExprView::Index { base: Box::new(base), index: Box::new(index), span }),
            },
        },
        ExprView::ArrayLit {
            elems,
            span,
        } => match resolved_exprs(elems, elems.len() as int, enums) {
            Err(error) => Err(error),
            Ok(elems) => Ok(ExprView::ArrayLit { elems, span }),
        },
        ExprView::StructInit {
            name,
            fields,
            span,
        } => match resolved_inits(fields, fields.len() as int, enums) {
            Err(error) => Err(error),
            Ok(fields) => Ok(ExprView::StructInit { name, fields, span }),
        },
        ExprView::EnumTupleVariant {
            enum_name,
            variant,
            args,
            span,
        } => match resolved_exprs(args, args.len() as int, enums) {
            Err(error) => Err(error),
            Ok(args) => Ok(ExprView::EnumTupleVariant { enum_name, variant, args, span }),
        },
        ExprView::EnumStructVariant {
            enum_name,
            variant,
            fields,
            span,
        } => match resolved_inits(fields, fields.len() as int, enums) {
            Err(error) => Err(error),
            Ok(fields) => Ok(ExprView::EnumStructVariant { enum_name, variant, fields, span }),
        },
        ExprView::DictLit {
            entries,
            span,
        } => match resolved_entries(entries, entries.len() as int, enums) {
            Err(error) => Err(error),
            Ok(entries) => Ok(ExprView::DictLit { entries, span }),
        },
        ExprView::MethodCall {
            receiver,
            name,
            args,
            span,
        } => match resolved_expr(*receiver, enums) {
            Err(error) => Err(error),
            Ok(receiver) => match resolved_exprs(args, args.len() as int, enums) {
                Err(error) => Err(error),
                Ok(
                    args,
                ) => Ok(ExprView::MethodCall { receiver: Box::new(receiver), name, args, span }),
            },
        },
        ExprView::Match { value, arms, span } => match resolved_expr(*value, enums) {
            Err(error) => Err(error),
            Ok(value) => match resolved_arms(arms, arms.len() as int, enums) {
                Err(error) => Err(error),
                Ok(arms) => Ok(ExprView::Match { value: Box::new(value), arms, span }),
            },
        },
        _ => Ok(node),
    }
}

/// An arm of a match expression with its calls that name an owner resolved.
pub open spec fn resolved_arm(
    node: ArmView,
    enums: Seq<EnumView>,
) -> Result<ArmView, DiagnosticView>
    decreases node, 0int,
{
    let ArmView { pattern, expr, span } = node;
    match resolved_expr(expr, enums) {
        Err(error) => Err(error),
        Ok(expr) => Ok(ArmView { pattern, expr, span }),
    }
}

/// A field of a struct literal with its calls that name an owner resolved.
pub open spec fn resolved_init(
    node: InitView,
    enums: Seq<EnumView>,
) -> Result<InitView, DiagnosticView>
    decreases node, 0int,
{
    let InitView { name, expr, span } = node;
    match resolved_expr(expr, enums) {
        Err(error) => Err(error),
        Ok(expr) => Ok(InitView { name, expr, span }),
    }
}

/// An entry of a dictionary literal with its calls that name an owner resolved.
pub open spec fn resolved_entry(
    node: EntryView,
    enums: Seq<EnumView>,
) -> Result<EntryView, DiagnosticView>
    decreases node, 0int,
{
    let EntryView { key, value, span } = node;
    match resolved_expr(value, enums) {
        Err(error) => Err(error),
        Ok(value) => Ok(EntryView { key, value, span }),
    }
}

/// A statement with its calls that name an owner resolved.
pub open spec fn resolved_stmt(
    node: StmtNode,
    enums: Seq<EnumView>,
) -> Result<StmtNode, DiagnosticView>
    decreases node, 0int,
{
    match node {
        StmtNode::Let { name, mutable, ty, expr, span } => match resolved_expr(expr, enums) {
            Err(error) => Err(error),
            Ok(expr) => Ok(StmtNode::Let { name, mutable, ty, expr, span }),
        },
        StmtNode::Assign { name, expr, span } => match resolved_expr(expr, enums) {
            Err(error) => Err(error),
            Ok(expr) => Ok(StmtNode::Assign { name, expr, span }),
        },
        StmtNode::AssignField { receiver, field, expr, span } => match resolved_expr(expr, enums) {
            Err(error) => Err(error),
            Ok(expr) => Ok(StmtNode::AssignField { receiver, field, expr, span }),
        },
        StmtNode::AssignIndex { name, index, expr, span } => match resolved_expr(index, enums) {
            Err(error) => Err(error),
            Ok(index) => match resolved_expr(expr, enums) {
                Err(error) => Err(error),
                Ok(expr) => Ok(StmtNode::AssignIndex { name, index, expr, span }),
            },
        },
        StmtNode::AssignStructListIndex {
            receiver,
            field,
            index,
            expr,
            span,
        } => match resolved_expr(index, enums) {
            Err(error) => Err(error),
            Ok(index) => match resolved_expr(expr, enums) {
                Err(error) => Err(error),
                Ok(
                    expr,
                ) => Ok(StmtNode::AssignStructListIndex { receiver, field, index, expr, span }),
            },
        },
        StmtNode::Call {
            name,
            args,
            span,
        } => match resolved_exprs(args, args.len() as int, enums) {
            Err(error) => Err(error),
            Ok(args) => Ok(StmtNode::Call { name, args, span }),
        },
        StmtNode::MethodCall {
            receiver,
            name,
            args,
            span,
        } => match resolved_exprs(args, args.len() as int, enums) {
            Err(error) => Err(error),
            Ok(args) => Ok(StmtNode::MethodCall { receiver, name, args, span }),
        },
        StmtNode::StructListMethodCall {
            receiver,
            field,
            name,
            args,
            span,
        } => match resolved_exprs(args, args.len() as int, enums) {
            Err(error) => Err(error),
            Ok(args) => Ok(StmtNode::StructListMethodCall { receiver, field, name, args, span }),
        },
        StmtNode::Return { expr, span } => match resolved_optional_expr(expr, enums) {
            Err(error) => Err(error),
            Ok(expr) => Ok(StmtNode::Return { expr, span }),
        },
        StmtNode::Print { expr, span } => match resolved_expr(expr, enums) {
            Err(error) => Err(error),
            Ok(expr) => Ok(StmtNode::Print { expr, span }),
        },
        StmtNode::Exit { expr, span } => match resolved_expr(expr, enums) {
            Err(error) => Err(error),
            Ok(expr) => Ok(StmtNode::Exit { expr, span }),
        },
        StmtNode::BenchLoop { iterations, span } => match resolved_expr(iterations, enums) {
            Err(error) => Err(error),
            Ok(iterations) => Ok(StmtNode::BenchLoop { iterations, span }),
        },
        StmtNode::Block { stmts, span } => match resolved_stmts(stmts, stmts.len() as int, enums) {
            Err(error) => Err(error),
            Ok(stmts) => Ok(StmtNode::Block { stmts, span }),
        },
        StmtNode::If { cond, then_branch, else_branch, span } => match resolved_expr(cond, enums) {
            Err(error) => Err(error),
            Ok(cond) => match resolved_stmts(then_branch, then_branch.len() as int, enums) {
                Err(error) => Err(error),
                Ok(then_branch) => match resolved_optional_stmts(else_branch, enums) {
                    Err(error) => Err(error),
                    Ok(else_branch) => Ok(StmtNode::If { cond, then_branch, else_branch, span }),
                },
            },
        },
        StmtNode::While { cond, body, span } => match resolved_expr(cond, enums) {
            Err(error) => Err(error),
            Ok(cond) => match resolved_stmts(body, body.len() as int, enums) {
                Err(error) => Err(error),
                Ok(body) => Ok(StmtNode::While { cond, body, span }),
            },
        },
        StmtNode::Loop { body, span } => match resolved_stmts(body, body.len() as int, enums) {
            Err(error) => Err(error),
            Ok(body) => Ok(StmtNode::Loop { body, span }),
        },
        StmtNode::For { name, start, end, body, span } => match resolved_expr(start, enums) {
            Err(error) => Err(error),
            Ok(start) => match resolved_expr(end, enums) {
                Err(error) => Err(error),
                Ok(end) => match resolved_stmts(body, body.len() as int, enums) {
                    Err(error) => Err(error),
                    Ok(body) => Ok(StmtNode::For { name, start, end, body, span }),
                },
            },
        },
        StmtNode::ParFor {
            name,
            start,
            end,
            body,
            reduction,
            span,
        } => match resolved_expr(start, enums) {
            Err(error) => Err(error),
            Ok(start) => match resolved_expr(end, enums) {
                Err(error) => Err(error),
                Ok(end) => match resolved_stmts(body, body.len() as int, enums) {
                    Err(error) => Err(error),
                    Ok(body) => match resolved_optional_reduction(reduction, enums) {
                        Err(error) => Err(error),
                        Ok(
                            reduction,
                        ) => Ok(StmtNode::ParFor { name, start, end, body, reduction, span }),
                    },
                },
            },
        },
        StmtNode::ForEach { name, iterable, body, span } => match resolved_expr(iterable, enums) {
            Err(error) => Err(error),
            Ok(iterable) => match resolved_stmts(body, body.len() as int, enums) {
                Err(error) => Err(error),
                Ok(body) => Ok(StmtNode::ForEach { name, iterable, body, span }),
            },
        },
        StmtNode::Assert { cond, message, span } => match resolved_expr(cond, enums) {
            Err(error) => Err(error),
            Ok(cond) => match resolved_optional_expr(message, enums) {
                Err(error) => Err(error),
                Ok(message) => Ok(StmtNode::Assert { cond, message, span }),
            },
        },
        StmtNode::Panic { message, span } => match resolved_expr(message, enums) {
            Err(error) => Err(error),
            Ok(message) => Ok(StmtNode::Panic { message, span }),
        },
        _ => Ok(node),
    }
}

/// What a parallel loop reduces to with its calls that name an owner resolved.
pub open spec fn resolved_reduction(
    node: ReductionView,
    enums: Seq<EnumView>,
) -> Result<ReductionView, DiagnosticView>
    decreases node, 0int,
{
    let ReductionView { op, target, expr, span } = node;
    match resolved_expr(expr, enums) {
        Err(error) => Err(error),
        Ok(expr) => Ok(ReductionView { op, target, expr, span }),
    }
}

/// The first of a expression list with their calls that name an owner resolved.
pub open spec fn resolved_exprs(
    nodes: Seq<ExprView>,
    count: int,
    enums: Seq<EnumView>,
) -> Result<Seq<ExprView>, DiagnosticView>
    decreases nodes, count,
{
    if count <= 0 || count > nodes.len() {
        Ok(Seq::empty())
    } else {
        match resolved_exprs(nodes, count - 1, enums) {
            Err(error) => Err(error),
            Ok(done) => match resolved_expr(nodes[count - 1], enums) {
                Err(error) => Err(error),
                Ok(node) => Ok(done.push(node)),
            },
        }
    }
}

/// The first of a arm of a match expression list with their calls that name an owner resolved.
pub open spec fn resolved_arms(
    nodes: Seq<ArmView>,
    count: int,
    enums: Seq<EnumView>,
) -> Result<Seq<ArmView>, DiagnosticView>
    decreases nodes, count,
{
    if count <= 0 || count > nodes.len() {
        Ok(Seq::empty())
    } else {
        match resolved_arms(nodes, count - 1, enums) {
            Err(error) => Err(error),
            Ok(done) => match resolved_arm(nodes[count - 1], enums) {
                Err(error) => Err(error),
                Ok(node) => Ok(done.push(node)),
            },
        }
    }
}

/// The first of a field of a struct literal list with their calls that name an owner resolved.
pub open spec fn resolved_inits(
    nodes: Seq<InitView>,
    count: int,
    enums: Seq<EnumView>,
) -> Result<Seq<InitView>, DiagnosticView>
    decreases nodes, count,
{
    if count <= 0 || count > nodes.len() {
        Ok(Seq::empty())
    } else {
        match resolved_inits(nodes, count - 1, enums) {
            Err(error) => Err(error),
            Ok(done) => match resolved_init(nodes[count - 1], enums) {
                Err(error) => Err(error),
                Ok(node) => Ok(done.push(node)),
            },
        }
    }
}

/// The first of a entry of a dictionary literal list with their calls that name an owner resolved.
pub open spec fn resolved_entries(
    nodes: Seq<EntryView>,
    count: int,
    enums: Seq<EnumView>,
) -> Result<Seq<EntryView>, DiagnosticView>
    decreases nodes, count,
{
    if count <= 0 || count > nodes.len() {
        Ok(Seq::empty())
    } else {
        match resolved_entries(nodes, count - 1, enums) {
            Err(error) => Err(error),
            Ok(done) => match resolved_entry(nodes[count - 1], enums) {
                Err(error) => Err(error),
                Ok(node) => Ok(done.push(node)),
            },
        }
    }
}

/// The first of a statement list with their calls that name an owner resolved.
pub open spec fn resolved_stmts(
    nodes: Seq<StmtNode>,
    count: int,
    enums: Seq<EnumView>,
) -> Result<Seq<StmtNode>, DiagnosticView>
    decreases nodes, count,
{
    if count <= 0 || count > nodes.len() {
        Ok(Seq::empty())
    } else {
        match resolved_stmts(nodes, count - 1, enums) {
            Err(error) => Err(error),
            Ok(done) => match resolved_stmt(nodes[count - 1], enums) {
                Err(error) => Err(error),
                Ok(node) => Ok(done.push(node)),
            },
        }
    }
}

/// What may stand there, with its calls that name an owner resolved.
pub open spec fn resolved_optional_expr(
    node: Option<ExprView>,
    enums: Seq<EnumView>,
) -> Result<Option<ExprView>, DiagnosticView>
    decreases node, 0int,
{
    match node {
        None => Ok(None),
        Some(node) => match resolved_expr(node, enums) {
            Err(error) => Err(error),
            Ok(node) => Ok(Some(node)),
        },
    }
}

/// What may stand there, with its calls that name an owner resolved.
fn resolve_qualified_optional_expr(
    node: &Option<Expr>,
    enums: &Vec<EnumDef>,
) -> (done: Result<Option<Expr>, Diagnostic>)
    ensures
        match resolved_optional_expr(optional_expr(*node), enums_view(enums@)) {
            Ok(expected) => done matches Ok(new) && optional_expr(new) == expected,
            Err(error) => done matches Err(found) && found@ == error,
        },
    decreases node,
{
    match node {
        None => Ok(None),
        Some(node) => Ok(Some(resolve_qualified_expr(node, enums)?)),
    }
}

/// What may stand there, with its calls that name an owner resolved.
pub open spec fn resolved_optional_stmts(
    node: Option<Seq<StmtNode>>,
    enums: Seq<EnumView>,
) -> Result<Option<Seq<StmtNode>>, DiagnosticView>
    decreases node, 0int,
{
    match node {
        None => Ok(None),
        Some(node) => match resolved_stmts(node, node.len() as int, enums) {
            Err(error) => Err(error),
            Ok(node) => Ok(Some(node)),
        },
    }
}

/// What may stand there, with its calls that name an owner resolved.
fn resolve_qualified_optional_stmts(
    node: &Option<Vec<Stmt>>,
    enums: &Vec<EnumDef>,
) -> (done: Result<Option<Vec<Stmt>>, Diagnostic>)
    ensures
        match resolved_optional_stmts(optional_stmts(*node), enums_view(enums@)) {
            Ok(expected) => done matches Ok(new) && optional_stmts(new) == expected,
            Err(error) => done matches Err(found) && found@ == error,
        },
    decreases node,
{
    match node {
        None => Ok(None),
        Some(node) => Ok(Some(resolve_qualified_stmts(node, enums)?)),
    }
}

/// What may stand there, with its calls that name an owner resolved.
pub open spec fn resolved_optional_reduction(
    node: Option<ReductionView>,
    enums: Seq<EnumView>,
) -> Result<Option<ReductionView>, DiagnosticView>
    decreases node, 0int,
{
    match node {
        None => Ok(None),
        Some(node) => match resolved_reduction(node, enums) {
            Err(error) => Err(error),
            Ok(node) => Ok(Some(node)),
        },
    }
}

/// What may stand there, with its calls that name an owner resolved.
fn resolve_qualified_optional_reduction(
    node: &Option<ParForReduction>,
    enums: &Vec<EnumDef>,
) -> (done: Result<Option<ParForReduction>, Diagnostic>)
    ensures
        match resolved_optional_reduction(optional_reduction(*node), enums_view(enums@)) {
            Ok(expected) => done matches Ok(new) && optional_reduction(new) == expected,
            Err(error) => done matches Err(found) && found@ == error,
        },
    decreases node,
{
    match node {
        None => Ok(None),
        Some(node) => Ok(Some(resolve_qualified_reduction(node, enums)?)),
    }
}

/// An expression with its calls that name an owner resolved.
pub fn resolve_qualified_expr(node: &Expr, enums: &Vec<EnumDef>) -> (done: Result<Expr, Diagnostic>)
    ensures
        match resolved_expr(node@, enums_view(enums@)) {
            Ok(expected) => done matches Ok(new) && new@ == expected,
            Err(error) => done matches Err(found) && found@ == error,
        },
    decreases node,
{
    match node {
        Expr::Call { name, args, span } => {
            let args = resolve_qualified_exprs(args, enums)?;
            Ok(Expr::Call {
                    name: name.clone(),
                    args,
                    span: *span,
            })
        },
        Expr::QualifiedCall { owner, member, args, span } => {
            let args = resolve_qualified_exprs(args, enums)?;
            resolve_call(owner, member, args, *span, enums)
        },
        Expr::Unary { op, expr, span } => {
            let expr = Box::new(resolve_qualified_expr(expr, enums)?);
            Ok(Expr::Unary {
                    op: *op,
                    expr,
                    span: *span,
            })
        },
        Expr::Binary { op, left, right, span } => {
            let left = Box::new(resolve_qualified_expr(left, enums)?);
            let right = Box::new(resolve_qualified_expr(right, enums)?);
            Ok(Expr::Binary {
                    op: *op,
                    left,
                    right,
                    span: *span,
            })
        },
        Expr::FieldAccess { base, field, span } => {
            let base = Box::new(resolve_qualified_expr(base, enums)?);
            Ok(Expr::FieldAccess {
                    base,
                    field: field.clone(),
                    span: *span,
            })
        },
        Expr::Index { base, index, span } => {
            let base = Box::new(resolve_qualified_expr(base, enums)?);
            let index = Box::new(resolve_qualified_expr(index, enums)?);
            Ok(Expr::Index {
                    base,
                    index,
                    span: *span,
            })
        },
        Expr::ArrayLit { elems, span } => {
            let elems = resolve_qualified_exprs(elems, enums)?;
            Ok(Expr::ArrayLit {
                    elems,
                    span: *span,
            })
        },
        Expr::StructInit { name, fields, span } => {
            let fields = resolve_qualified_inits(fields, enums)?;
            Ok(Expr::StructInit {
                    name: name.clone(),
                    fields,
                    span: *span,
            })
        },
        Expr::EnumTupleVariant { enum_name, variant, args, span } => {
            let args = resolve_qualified_exprs(args, enums)?;
            Ok(Expr::EnumTupleVariant {
                    enum_name: enum_name.clone(),
                    variant: variant.clone(),
                    args,
                    span: *span,
            })
        },
        Expr::EnumStructVariant { enum_name, variant, fields, span } => {
            let fields = resolve_qualified_inits(fields, enums)?;
            Ok(Expr::EnumStructVariant {
                    enum_name: enum_name.clone(),
                    variant: variant.clone(),
                    fields,
                    span: *span,
            })
        },
        Expr::DictLit { entries, span } => {
            let entries = resolve_qualified_entries(entries, enums)?;
            Ok(Expr::DictLit {
                    entries,
                    span: *span,
            })
        },
        Expr::MethodCall { receiver, name, args, span } => {
            let receiver = Box::new(resolve_qualified_expr(receiver, enums)?);
            let args = resolve_qualified_exprs(args, enums)?;
            Ok(Expr::MethodCall {
                    receiver,
                    name: name.clone(),
                    args,
                    span: *span,
            })
        },
        Expr::Match { value, arms, span } => {
            let value = Box::new(resolve_qualified_expr(value, enums)?);
            let arms = resolve_qualified_arms(arms, enums)?;
            Ok(Expr::Match {
                    value,
                    arms,
                    span: *span,
            })
        },
        _ => Ok(copy_expr(node)),
    }
}

/// An arm of a match expression with its calls that name an owner resolved.
pub fn resolve_qualified_arm(
    node: &MatchArm,
    enums: &Vec<EnumDef>,
) -> (done: Result<MatchArm, Diagnostic>)
    ensures
        match resolved_arm(node@, enums_view(enums@)) {
            Ok(expected) => done matches Ok(new) && new@ == expected,
            Err(error) => done matches Err(found) && found@ == error,
        },
    decreases node,
{
    let expr = resolve_qualified_expr(&node.expr, enums)?;
    Ok(MatchArm {
            pattern: copy_pattern(&node.pattern),
            expr,
            span: node.span,
    })
}

/// A field of a struct literal with its calls that name an owner resolved.
pub fn resolve_qualified_init(
    node: &StructInitField,
    enums: &Vec<EnumDef>,
) -> (done: Result<StructInitField, Diagnostic>)
    ensures
        match resolved_init(node@, enums_view(enums@)) {
            Ok(expected) => done matches Ok(new) && new@ == expected,
            Err(error) => done matches Err(found) && found@ == error,
        },
    decreases node,
{
    let expr = resolve_qualified_expr(&node.expr, enums)?;
    Ok(StructInitField {
            name: node.name.clone(),
            expr,
            span: node.span,
    })
}

/// An entry of a dictionary literal with its calls that name an owner resolved.
pub fn resolve_qualified_entry(
    node: &DictEntry,
    enums: &Vec<EnumDef>,
) -> (done: Result<DictEntry, Diagnostic>)
    ensures
        match resolved_entry(node@, enums_view(enums@)) {
            Ok(expected) => done matches Ok(new) && new@ == expected,
            Err(error) => done matches Err(found) && found@ == error,
        },
    decreases node,
{
    let value = resolve_qualified_expr(&node.value, enums)?;
    Ok(DictEntry {
            key: node.key.clone(),
            value,
            span: node.span,
    })
}

/// A statement with its calls that name an owner resolved.
#[verifier::rlimit(60)]
pub fn resolve_qualified_stmt(node: &Stmt, enums: &Vec<EnumDef>) -> (done: Result<Stmt, Diagnostic>)
    ensures
        match resolved_stmt(node@, enums_view(enums@)) {
            Ok(expected) => done matches Ok(new) && new@ == expected,
            Err(error) => done matches Err(found) && found@ == error,
        },
    decreases node,
{
    match node {
        Stmt::Let { name, mutable, ty, expr, span } => {
            let expr = resolve_qualified_expr(expr, enums)?;
            Ok(Stmt::Let {
                    name: name.clone(),
                    mutable: *mutable,
                    ty: match ty {
                        Some(node) => Some(copy_type(node)),
                        None => None,
                    },
                    expr,
                    span: *span,
            })
        },
        Stmt::Assign { name, expr, span } => {
            let expr = resolve_qualified_expr(expr, enums)?;
            Ok(Stmt::Assign {
                    name: name.clone(),
                    expr,
                    span: *span,
            })
        },
        Stmt::AssignField { receiver, field, expr, span } => {
            let expr = resolve_qualified_expr(expr, enums)?;
            Ok(Stmt::AssignField {
                    receiver: receiver.clone(),
                    field: field.clone(),
                    expr,
                    span: *span,
            })
        },
        Stmt::AssignIndex { name, index, expr, span } => {
            let index = resolve_qualified_expr(index, enums)?;
            let expr = resolve_qualified_expr(expr, enums)?;
            Ok(Stmt::AssignIndex {
                    name: name.clone(),
                    index,
                    expr,
                    span: *span,
            })
        },
        Stmt::AssignStructListIndex { receiver, field, index, expr, span } => {
            let index = resolve_qualified_expr(index, enums)?;
            let expr = resolve_qualified_expr(expr, enums)?;
            Ok(Stmt::AssignStructListIndex {
                    receiver: receiver.clone(),
                    field: field.clone(),
                    index,
                    expr,
                    span: *span,
            })
        },
        Stmt::Call { name, args, span } => {
            let args = resolve_qualified_exprs(args, enums)?;
            Ok(Stmt::Call {
                    name: name.clone(),
                    args,
                    span: *span,
            })
        },
        Stmt::MethodCall { receiver, name, args, span } => {
            let args = resolve_qualified_exprs(args, enums)?;
            Ok(Stmt::MethodCall {
                    receiver: receiver.clone(),
                    name: name.clone(),
                    args,
                    span: *span,
            })
        },
        Stmt::StructListMethodCall { receiver, field, name, args, span } => {
            let args = resolve_qualified_exprs(args, enums)?;
            Ok(Stmt::StructListMethodCall {
                    receiver: receiver.clone(),
                    field: field.clone(),
                    name: name.clone(),
                    args,
                    span: *span,
            })
        },
        Stmt::Return { expr, span } => {
            let expr = resolve_qualified_optional_expr(expr, enums)?;
            Ok(Stmt::Return {
                    expr,
                    span: *span,
            })
        },
        Stmt::Print { expr, span } => {
            let expr = resolve_qualified_expr(expr, enums)?;
            Ok(Stmt::Print {
                    expr,
                    span: *span,
            })
        },
        Stmt::Exit { expr, span } => {
            let expr = resolve_qualified_expr(expr, enums)?;
            Ok(Stmt::Exit {
                    expr,
                    span: *span,
            })
        },
        Stmt::BenchLoop { iterations, span } => {
            let iterations = resolve_qualified_expr(iterations, enums)?;
            Ok(Stmt::BenchLoop {
                    iterations,
                    span: *span,
            })
        },
        Stmt::Block { stmts, span } => {
            let stmts = resolve_qualified_stmts(stmts, enums)?;
            Ok(Stmt::Block {
                    stmts,
                    span: *span,
            })
        },
        Stmt::If { cond, then_branch, else_branch, span } => {
            let cond = resolve_qualified_expr(cond, enums)?;
            let then_branch = resolve_qualified_stmts(then_branch, enums)?;
            let else_branch = resolve_qualified_optional_stmts(else_branch, enums)?;
            Ok(Stmt::If {
                    cond,
                    then_branch,
                    else_branch,
                    span: *span,
            })
        },
        Stmt::While { cond, body, span } => {
            let cond = resolve_qualified_expr(cond, enums)?;
            let body = resolve_qualified_stmts(body, enums)?;
            Ok(Stmt::While {
                    cond,
                    body,
                    span: *span,
            })
        },
        Stmt::Loop { body, span } => {
            let body = resolve_qualified_stmts(body, enums)?;
            Ok(Stmt::Loop {
                    body,
                    span: *span,
            })
        },
        Stmt::For { name, start, end, body, span } => {
            let start = resolve_qualified_expr(start, enums)?;
            let end = resolve_qualified_expr(end, enums)?;
            let body = resolve_qualified_stmts(body, enums)?;
            Ok(Stmt::For {
                    name: name.clone(),
                    start,
                    end,
                    body,
                    span: *span,
            })
        },
        Stmt::ParFor { name, start, end, body, reduction, span } => {
            let start = resolve_qualified_expr(start, enums)?;
            let end = resolve_qualified_expr(end, enums)?;
            let body = resolve_qualified_stmts(body, enums)?;
            let reduction = resolve_qualified_optional_reduction(reduction, enums)?;
            Ok(Stmt::ParFor {
                    name: name.clone(),
                    start,
                    end,
                    body,
                    reduction,
                    span: *span,
            })
        },
        Stmt::ForEach { name, iterable, body, span } => {
            let iterable = resolve_qualified_expr(iterable, enums)?;
            let body = resolve_qualified_stmts(body, enums)?;
            Ok(Stmt::ForEach {
                    name: name.clone(),
                    iterable,
                    body,
                    span: *span,
            })
        },
        Stmt::Assert { cond, message, span } => {
            let cond = resolve_qualified_expr(cond, enums)?;
            let message = resolve_qualified_optional_expr(message, enums)?;
            Ok(Stmt::Assert {
                    cond,
                    message,
                    span: *span,
            })
        },
        Stmt::Panic { message, span } => {
            let message = resolve_qualified_expr(message, enums)?;
            Ok(Stmt::Panic {
                    message,
                    span: *span,
            })
        },
        _ => Ok(copy_stmt(node)),
    }
}

/// What a parallel loop reduces to with its calls that name an owner resolved.
pub fn resolve_qualified_reduction(
    node: &ParForReduction,
    enums: &Vec<EnumDef>,
) -> (done: Result<ParForReduction, Diagnostic>)
    ensures
        match resolved_reduction(node@, enums_view(enums@)) {
            Ok(expected) => done matches Ok(new) && new@ == expected,
            Err(error) => done matches Err(found) && found@ == error,
        },
    decreases node,
{
    let expr = resolve_qualified_expr(&node.expr, enums)?;
    Ok(ParForReduction {
            op: node.op,
            target: node.target.clone(),
            expr,
            span: node.span,
    })
}

/// The first of a expression list with their calls that name an owner resolved.
pub fn resolve_qualified_exprs(
    nodes: &Vec<Expr>,
    enums: &Vec<EnumDef>,
) -> (done: Result<Vec<Expr>, Diagnostic>)
    ensures
        match resolved_exprs(exprs_view(nodes@), nodes@.len() as int, enums_view(enums@)) {
            Ok(expected) => done matches Ok(new) && exprs_view(new@) == expected,
            Err(error) => done matches Err(found) && found@ == error,
        },
    decreases nodes,
{
    let ghost all = exprs_view(nodes@);
    let mut new: Vec<Expr> = Vec::with_capacity(nodes.len());
    assert(exprs_view(new@) =~= Seq::empty());
    for i in 0..nodes.len()
        invariant
            all == exprs_view(nodes@),
            resolved_exprs(
                all,
                i as int,
                enums_view(enums@),
            ) == Ok::<Seq<ExprView>, DiagnosticView>(exprs_view(new@)),
    {
        let ghost before = new@;
        proof {
            lemma_resolved_exprs_fails(all, i as int + 1, all.len() as int, enums_view(enums@));
        }
        let node = resolve_qualified_expr(&nodes[i], enums)?;
        new.push(node);
        assert(exprs_view(new@) =~= exprs_view(before).push(node@));
    }
    Ok(new)
}

/// An error among the first stays the error of the whole list.
proof fn lemma_resolved_exprs_fails(nodes: Seq<ExprView>, from: int, to: int, enums: Seq<EnumView>)
    requires
        0 <= from <= to <= nodes.len(),
    ensures
        resolved_exprs(nodes, from, enums) matches Err(
            error,
        ) ==> resolved_exprs(nodes, to, enums) == Err::<Seq<ExprView>, DiagnosticView>(error),
    decreases to,
{
    if from < to {
        lemma_resolved_exprs_fails(nodes, from, to - 1, enums);
    }
}

/// The first of a arm of a match expression list with their calls that name an owner resolved.
pub fn resolve_qualified_arms(
    nodes: &Vec<MatchArm>,
    enums: &Vec<EnumDef>,
) -> (done: Result<Vec<MatchArm>, Diagnostic>)
    ensures
        match resolved_arms(arms_view(nodes@), nodes@.len() as int, enums_view(enums@)) {
            Ok(expected) => done matches Ok(new) && arms_view(new@) == expected,
            Err(error) => done matches Err(found) && found@ == error,
        },
    decreases nodes,
{
    let ghost all = arms_view(nodes@);
    let mut new: Vec<MatchArm> = Vec::with_capacity(nodes.len());
    assert(arms_view(new@) =~= Seq::empty());
    for i in 0..nodes.len()
        invariant
            all == arms_view(nodes@),
            resolved_arms(
                all,
                i as int,
                enums_view(enums@),
            ) == Ok::<Seq<ArmView>, DiagnosticView>(arms_view(new@)),
    {
        let ghost before = new@;
        proof {
            lemma_resolved_arms_fails(all, i as int + 1, all.len() as int, enums_view(enums@));
        }
        let node = resolve_qualified_arm(&nodes[i], enums)?;
        new.push(node);
        assert(arms_view(new@) =~= arms_view(before).push(node@));
    }
    Ok(new)
}

/// An error among the first stays the error of the whole list.
proof fn lemma_resolved_arms_fails(nodes: Seq<ArmView>, from: int, to: int, enums: Seq<EnumView>)
    requires
        0 <= from <= to <= nodes.len(),
    ensures
        resolved_arms(nodes, from, enums) matches Err(
            error,
        ) ==> resolved_arms(nodes, to, enums) == Err::<Seq<ArmView>, DiagnosticView>(error),
    decreases to,
{
    if from < to {
        lemma_resolved_arms_fails(nodes, from, to - 1, enums);
    }
}

/// The first of a field of a struct literal list with their calls that name an owner resolved.
pub fn resolve_qualified_inits(
    nodes: &Vec<StructInitField>,
    enums: &Vec<EnumDef>,
) -> (done: Result<Vec<StructInitField>, Diagnostic>)
    ensures
        match resolved_inits(inits_view(nodes@), nodes@.len() as int, enums_view(enums@)) {
            Ok(expected) => done matches Ok(new) && inits_view(new@) == expected,
            Err(error) => done matches Err(found) && found@ == error,
        },
    decreases nodes,
{
    let ghost all = inits_view(nodes@);
    let mut new: Vec<StructInitField> = Vec::with_capacity(nodes.len());
    assert(inits_view(new@) =~= Seq::empty());
    for i in 0..nodes.len()
        invariant
            all == inits_view(nodes@),
            resolved_inits(
                all,
                i as int,
                enums_view(enums@),
            ) == Ok::<Seq<InitView>, DiagnosticView>(inits_view(new@)),
    {
        let ghost before = new@;
        proof {
            lemma_resolved_inits_fails(all, i as int + 1, all.len() as int, enums_view(enums@));
        }
        let node = resolve_qualified_init(&nodes[i], enums)?;
        new.push(node);
        assert(inits_view(new@) =~= inits_view(before).push(node@));
    }
    Ok(new)
}

/// An error among the first stays the error of the whole list.
proof fn lemma_resolved_inits_fails(nodes: Seq<InitView>, from: int, to: int, enums: Seq<EnumView>)
    requires
        0 <= from <= to <= nodes.len(),
    ensures
        resolved_inits(nodes, from, enums) matches Err(
            error,
        ) ==> resolved_inits(nodes, to, enums) == Err::<Seq<InitView>, DiagnosticView>(error),
    decreases to,
{
    if from < to {
        lemma_resolved_inits_fails(nodes, from, to - 1, enums);
    }
}

/// The first of a entry of a dictionary literal list with their calls that name an owner resolved.
pub fn resolve_qualified_entries(
    nodes: &Vec<DictEntry>,
    enums: &Vec<EnumDef>,
) -> (done: Result<Vec<DictEntry>, Diagnostic>)
    ensures
        match resolved_entries(entries_view(nodes@), nodes@.len() as int, enums_view(enums@)) {
            Ok(expected) => done matches Ok(new) && entries_view(new@) == expected,
            Err(error) => done matches Err(found) && found@ == error,
        },
    decreases nodes,
{
    let ghost all = entries_view(nodes@);
    let mut new: Vec<DictEntry> = Vec::with_capacity(nodes.len());
    assert(entries_view(new@) =~= Seq::empty());
    for i in 0..nodes.len()
        invariant
            all == entries_view(nodes@),
            resolved_entries(
                all,
                i as int,
                enums_view(enums@),
            ) == Ok::<Seq<EntryView>, DiagnosticView>(entries_view(new@)),
    {
        let ghost before = new@;
        proof {
            lemma_resolved_entries_fails(all, i as int + 1, all.len() as int, enums_view(enums@));
        }
        let node = resolve_qualified_entry(&nodes[i], enums)?;
        new.push(node);
        assert(entries_view(new@) =~= entries_view(before).push(node@));
    }
    Ok(new)
}

/// An error among the first stays the error of the whole list.
proof fn lemma_resolved_entries_fails(
    nodes: Seq<EntryView>,
    from: int,
    to: int,
    enums: Seq<EnumView>,
)
    requires
        0 <= from <= to <= nodes.len(),
    ensures
        resolved_entries(nodes, from, enums) matches Err(
            error,
        ) ==> resolved_entries(nodes, to, enums) == Err::<Seq<EntryView>, DiagnosticView>(error),
    decreases to,
{
    if from < to {
        lemma_resolved_entries_fails(nodes, from, to - 1, enums);
    }
}

/// The first of a statement list with their calls that name an owner resolved.
#[verifier::rlimit(60)]
pub fn resolve_qualified_stmts(
    nodes: &Vec<Stmt>,
    enums: &Vec<EnumDef>,
) -> (done: Result<Vec<Stmt>, Diagnostic>)
    ensures
        match resolved_stmts(stmts_node_view(nodes@), nodes@.len() as int, enums_view(enums@)) {
            Ok(expected) => done matches Ok(new) && stmts_node_view(new@) == expected,
            Err(error) => done matches Err(found) && found@ == error,
        },
    decreases nodes,
{
    let ghost all = stmts_node_view(nodes@);
    let mut new: Vec<Stmt> = Vec::with_capacity(nodes.len());
    assert(stmts_node_view(new@) =~= Seq::empty());
    for i in 0..nodes.len()
        invariant
            all == stmts_node_view(nodes@),
            resolved_stmts(
                all,
                i as int,
                enums_view(enums@),
            ) == Ok::<Seq<StmtNode>, DiagnosticView>(stmts_node_view(new@)),
    {
        let ghost before = new@;
        proof {
            lemma_resolved_stmts_fails(all, i as int + 1, all.len() as int, enums_view(enums@));
        }
        let node = resolve_qualified_stmt(&nodes[i], enums)?;
        new.push(node);
        assert(stmts_node_view(new@) =~= stmts_node_view(before).push(node@));
    }
    Ok(new)
}

/// An error among the first stays the error of the whole list.
proof fn lemma_resolved_stmts_fails(nodes: Seq<StmtNode>, from: int, to: int, enums: Seq<EnumView>)
    requires
        0 <= from <= to <= nodes.len(),
    ensures
        resolved_stmts(nodes, from, enums) matches Err(
            error,
        ) ==> resolved_stmts(nodes, to, enums) == Err::<Seq<StmtNode>, DiagnosticView>(error),
    decreases to,
{
    if from < to {
        lemma_resolved_stmts_fails(nodes, from, to - 1, enums);
    }
}


} // verus!
