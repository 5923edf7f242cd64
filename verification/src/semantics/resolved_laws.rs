//! To resolve what is resolved changes nothing.

use crate::ast::{ArmView, EntryView, EnumView, ExprView, InitView, ReductionView, Span, StmtNode};
use crate::diagnostic::DiagnosticView;
use crate::semantics::names::{enum_names, position_of, variant_names};
use crate::semantics::program_laws::{
    all_name_no_owner, arm_names_no_owner, arms_name_no_owner, entries_name_no_owner,
    entry_names_no_owner, init_names_no_owner, inits_name_no_owner, lemma_expr_resolved,
    lemma_resolved_stmts, names_no_owner, stmt_names_no_owner, stmts_name_no_owner,
};
use crate::semantics::qualified::{
    resolved_arm, resolved_arms, resolved_call, resolved_entries, resolved_entry, resolved_expr,
    resolved_exprs, resolved_init, resolved_inits, resolved_reduction, resolved_stmt,
    resolved_stmts,
};
use vstd::prelude::*;

verus! {

/// What holds no call with an owner is resolved as it stands.
proof fn lemma_expr_unchanged(node: ExprView, enums: Seq<EnumView>)
    requires
        names_no_owner(node),
    ensures
        resolved_expr(node, enums) == Ok::<ExprView, DiagnosticView>(node),
    decreases node, 0int,
{
    match node {
        ExprView::Call { args, .. } => {
            lemma_exprs_unchanged(args, args.len() as int, enums);
            assert(args.subrange(0, args.len() as int) =~= args);
        },
        ExprView::QualifiedCall { args, .. } => {
            lemma_exprs_unchanged(args, args.len() as int, enums);
            assert(args.subrange(0, args.len() as int) =~= args);
        },
        ExprView::Unary { expr, .. } => {
            lemma_expr_unchanged(*expr, enums);
        },
        ExprView::Binary { left, right, .. } => {
            lemma_expr_unchanged(*left, enums);
            lemma_expr_unchanged(*right, enums);
        },
        ExprView::FieldAccess { base, .. } => {
            lemma_expr_unchanged(*base, enums);
        },
        ExprView::Index { base, index, .. } => {
            lemma_expr_unchanged(*base, enums);
            lemma_expr_unchanged(*index, enums);
        },
        ExprView::ArrayLit { elems, .. } => {
            lemma_exprs_unchanged(elems, elems.len() as int, enums);
            assert(elems.subrange(0, elems.len() as int) =~= elems);
        },
        ExprView::StructInit { fields, .. } => {
            lemma_inits_unchanged(fields, fields.len() as int, enums);
            assert(fields.subrange(0, fields.len() as int) =~= fields);
        },
        ExprView::EnumTupleVariant { args, .. } => {
            lemma_exprs_unchanged(args, args.len() as int, enums);
            assert(args.subrange(0, args.len() as int) =~= args);
        },
        ExprView::EnumStructVariant { fields, .. } => {
            lemma_inits_unchanged(fields, fields.len() as int, enums);
            assert(fields.subrange(0, fields.len() as int) =~= fields);
        },
        ExprView::DictLit { entries, .. } => {
            lemma_entries_unchanged(entries, entries.len() as int, enums);
            assert(entries.subrange(0, entries.len() as int) =~= entries);
        },
        ExprView::MethodCall { receiver, args, .. } => {
            lemma_expr_unchanged(*receiver, enums);
            lemma_exprs_unchanged(args, args.len() as int, enums);
            assert(args.subrange(0, args.len() as int) =~= args);
        },
        ExprView::Match { value, arms, .. } => {
            lemma_expr_unchanged(*value, enums);
            lemma_arms_unchanged(arms, arms.len() as int, enums);
            assert(arms.subrange(0, arms.len() as int) =~= arms);
        },
        _ => {},
    }
}

/// What holds no call with an owner is resolved as it stands.
#[verifier::rlimit(60)]
proof fn lemma_stmt_unchanged(node: StmtNode, enums: Seq<EnumView>)
    requires
        stmt_names_no_owner(node),
    ensures
        resolved_stmt(node, enums) == Ok::<StmtNode, DiagnosticView>(node),
    decreases node, 0int,
{
    match node {
        StmtNode::Let { expr, .. } => {
            lemma_expr_unchanged(expr, enums);
        },
        StmtNode::Assign { expr, .. } => {
            lemma_expr_unchanged(expr, enums);
        },
        StmtNode::AssignField { expr, .. } => {
            lemma_expr_unchanged(expr, enums);
        },
        StmtNode::AssignIndex { index, expr, .. } => {
            lemma_expr_unchanged(index, enums);
            lemma_expr_unchanged(expr, enums);
        },
        StmtNode::AssignStructListIndex { index, expr, .. } => {
            lemma_expr_unchanged(index, enums);
            lemma_expr_unchanged(expr, enums);
        },
        StmtNode::Call { args, .. } => {
            lemma_exprs_unchanged(args, args.len() as int, enums);
            assert(args.subrange(0, args.len() as int) =~= args);
        },
        StmtNode::MethodCall { args, .. } => {
            lemma_exprs_unchanged(args, args.len() as int, enums);
            assert(args.subrange(0, args.len() as int) =~= args);
        },
        StmtNode::StructListMethodCall { args, .. } => {
            lemma_exprs_unchanged(args, args.len() as int, enums);
            assert(args.subrange(0, args.len() as int) =~= args);
        },
        StmtNode::Return { expr, .. } => {
            if let Some(node) = expr {
                lemma_expr_unchanged(node, enums);
            }
        },
        StmtNode::Print { expr, .. } => {
            lemma_expr_unchanged(expr, enums);
        },
        StmtNode::Exit { expr, .. } => {
            lemma_expr_unchanged(expr, enums);
        },
        StmtNode::BenchLoop { iterations, .. } => {
            lemma_expr_unchanged(iterations, enums);
        },
        StmtNode::Block { stmts, .. } => {
            lemma_stmts_unchanged(stmts, stmts.len() as int, enums);
            assert(stmts.subrange(0, stmts.len() as int) =~= stmts);
        },
        StmtNode::If { cond, then_branch, else_branch, .. } => {
            lemma_expr_unchanged(cond, enums);
            lemma_stmts_unchanged(then_branch, then_branch.len() as int, enums);
            assert(then_branch.subrange(0, then_branch.len() as int) =~= then_branch);
            if let Some(list) = else_branch {
                lemma_stmts_unchanged(list, list.len() as int, enums);
                assert(list.subrange(0, list.len() as int) =~= list);
            }
        },
        StmtNode::While { cond, body, .. } => {
            lemma_expr_unchanged(cond, enums);
            lemma_stmts_unchanged(body, body.len() as int, enums);
            assert(body.subrange(0, body.len() as int) =~= body);
        },
        StmtNode::Loop { body, .. } => {
            lemma_stmts_unchanged(body, body.len() as int, enums);
            assert(body.subrange(0, body.len() as int) =~= body);
        },
        StmtNode::For { start, end, body, .. } => {
            lemma_expr_unchanged(start, enums);
            lemma_expr_unchanged(end, enums);
            lemma_stmts_unchanged(body, body.len() as int, enums);
            assert(body.subrange(0, body.len() as int) =~= body);
        },
        StmtNode::ParFor { start, end, body, reduction, .. } => {
            lemma_expr_unchanged(start, enums);
            lemma_expr_unchanged(end, enums);
            lemma_stmts_unchanged(body, body.len() as int, enums);
            assert(body.subrange(0, body.len() as int) =~= body);
            if let Some(node) = reduction {
                lemma_expr_unchanged(node.expr, enums);
                assert(resolved_reduction(
                    node,
                    enums,
                ) == Ok::<ReductionView, DiagnosticView>(node));
            }
        },
        StmtNode::ForEach { iterable, body, .. } => {
            lemma_expr_unchanged(iterable, enums);
            lemma_stmts_unchanged(body, body.len() as int, enums);
            assert(body.subrange(0, body.len() as int) =~= body);
        },
        StmtNode::Assert { cond, message, .. } => {
            lemma_expr_unchanged(cond, enums);
            if let Some(node) = message {
                lemma_expr_unchanged(node, enums);
            }
        },
        StmtNode::Panic { message, .. } => {
            lemma_expr_unchanged(message, enums);
        },
        _ => {},
    }
}

/// The same of a list.
proof fn lemma_exprs_unchanged(nodes: Seq<ExprView>, count: int, enums: Seq<EnumView>)
    requires
        0 <= count <= nodes.len(),
        all_name_no_owner(nodes),
    ensures
        resolved_exprs(nodes, count, enums) == Ok::<Seq<ExprView>, DiagnosticView>(
            nodes.subrange(0, count),
        ),
    decreases nodes, count,
{
    if count > 0 {
        lemma_exprs_unchanged(nodes, count - 1, enums);
        lemma_expr_unchanged(nodes[count - 1], enums);
        assert(nodes.subrange(0, count - 1).push(nodes[count - 1]) =~= nodes.subrange(0, count));
    } else {
        assert(nodes.subrange(0, 0) =~= Seq::empty());
    }
}

/// The same of a list.
proof fn lemma_stmts_unchanged(nodes: Seq<StmtNode>, count: int, enums: Seq<EnumView>)
    requires
        0 <= count <= nodes.len(),
        stmts_name_no_owner(nodes),
    ensures
        resolved_stmts(nodes, count, enums) == Ok::<Seq<StmtNode>, DiagnosticView>(
            nodes.subrange(0, count),
        ),
    decreases nodes, count,
{
    if count > 0 {
        lemma_stmts_unchanged(nodes, count - 1, enums);
        lemma_stmt_unchanged(nodes[count - 1], enums);
        assert(nodes.subrange(0, count - 1).push(nodes[count - 1]) =~= nodes.subrange(0, count));
    } else {
        assert(nodes.subrange(0, 0) =~= Seq::empty());
    }
}

/// The same of a list.
proof fn lemma_arms_unchanged(nodes: Seq<ArmView>, count: int, enums: Seq<EnumView>)
    requires
        0 <= count <= nodes.len(),
        arms_name_no_owner(nodes),
    ensures
        resolved_arms(nodes, count, enums) == Ok::<Seq<ArmView>, DiagnosticView>(
            nodes.subrange(0, count),
        ),
    decreases nodes, count,
{
    if count > 0 {
        assert(arm_names_no_owner(nodes[count - 1]));
        lemma_arms_unchanged(nodes, count - 1, enums);
        lemma_expr_unchanged(nodes[count - 1].expr, enums);
        assert(resolved_arm(nodes[count - 1], enums) == Ok::<ArmView, DiagnosticView>(
            nodes[count - 1],
        ));
        assert(nodes.subrange(0, count - 1).push(nodes[count - 1]) =~= nodes.subrange(0, count));
    } else {
        assert(nodes.subrange(0, 0) =~= Seq::empty());
    }
}

/// The same of a list.
proof fn lemma_inits_unchanged(nodes: Seq<InitView>, count: int, enums: Seq<EnumView>)
    requires
        0 <= count <= nodes.len(),
        inits_name_no_owner(nodes),
    ensures
        resolved_inits(nodes, count, enums) == Ok::<Seq<InitView>, DiagnosticView>(
            nodes.subrange(0, count),
        ),
    decreases nodes, count,
{
    if count > 0 {
        assert(init_names_no_owner(nodes[count - 1]));
        lemma_inits_unchanged(nodes, count - 1, enums);
        lemma_expr_unchanged(nodes[count - 1].expr, enums);
        assert(resolved_init(nodes[count - 1], enums) == Ok::<InitView, DiagnosticView>(
            nodes[count - 1],
        ));
        assert(nodes.subrange(0, count - 1).push(nodes[count - 1]) =~= nodes.subrange(0, count));
    } else {
        assert(nodes.subrange(0, 0) =~= Seq::empty());
    }
}

/// The same of a list.
proof fn lemma_entries_unchanged(nodes: Seq<EntryView>, count: int, enums: Seq<EnumView>)
    requires
        0 <= count <= nodes.len(),
        entries_name_no_owner(nodes),
    ensures
        resolved_entries(nodes, count, enums) == Ok::<Seq<EntryView>, DiagnosticView>(
            nodes.subrange(0, count),
        ),
    decreases nodes, count,
{
    if count > 0 {
        assert(entry_names_no_owner(nodes[count - 1]));
        lemma_entries_unchanged(nodes, count - 1, enums);
        lemma_expr_unchanged(nodes[count - 1].value, enums);
        assert(resolved_entry(nodes[count - 1], enums) == Ok::<EntryView, DiagnosticView>(
            nodes[count - 1],
        ));
        assert(nodes.subrange(0, count - 1).push(nodes[count - 1]) =~= nodes.subrange(0, count));
    } else {
        assert(nodes.subrange(0, 0) =~= Seq::empty());
    }
}

/// To resolve the calls of statements a second time, whatever enums there are by
/// now, changes nothing.
pub proof fn law_resolution_is_idempotent(
    stmts: Seq<StmtNode>,
    enums: Seq<EnumView>,
    later: Seq<EnumView>,
)
    ensures
        resolved_stmts(stmts, stmts.len() as int, enums) matches Ok(done) ==> resolved_stmts(
            done,
            done.len() as int,
            later,
        ) == Ok::<Seq<StmtNode>, DiagnosticView>(done),
{
    lemma_resolved_stmts(stmts, stmts.len() as int, enums);
    if let Ok(done) = resolved_stmts(stmts, stmts.len() as int, enums) {
        lemma_stmts_unchanged(done, done.len() as int, later);
        assert(done.subrange(0, done.len() as int) =~= done);
    }
}

/// The same of an expression.
pub proof fn law_expression_resolution_is_idempotent(
    node: ExprView,
    enums: Seq<EnumView>,
    later: Seq<EnumView>,
)
    ensures
        resolved_expr(node, enums) matches Ok(done) ==> resolved_expr(done, later) == Ok::<
            ExprView,
            DiagnosticView,
        >(done),
{
    lemma_expr_resolved(node, enums);
    if let Ok(done) = resolved_expr(node, enums) {
        lemma_expr_unchanged(done, later);
    }
}

/// What names no owner stays as it is when calls are resolved: every statement and
/// expression with its parts in their places.
pub proof fn law_what_names_no_owner_stays(
    expr: ExprView,
    stmt: StmtNode,
    body: Seq<StmtNode>,
    enums: Seq<EnumView>,
)
    ensures
        names_no_owner(expr) ==> resolved_expr(expr, enums) == Ok::<ExprView, DiagnosticView>(expr),
        stmt_names_no_owner(stmt) ==> resolved_stmt(stmt, enums) == Ok::<StmtNode, DiagnosticView>(
            stmt,
        ),
        stmts_name_no_owner(body) ==> resolved_stmts(body, body.len() as int, enums) == Ok::<
            Seq<StmtNode>,
            DiagnosticView,
        >(body),
{
    if names_no_owner(expr) {
        lemma_expr_unchanged(expr, enums);
    }
    if stmt_names_no_owner(stmt) {
        lemma_stmt_unchanged(stmt, enums);
    }
    if stmts_name_no_owner(body) {
        lemma_stmts_unchanged(body, body.len() as int, enums);
        assert(body.subrange(0, body.len() as int) =~= body);
    }
}

/// A call with an owner becomes what it names, with its arguments as they are: the variant
/// with a tuple payload of the enum that has the owner's name, and the function of the
/// owner where no enum has it.
pub proof fn law_calls_with_an_owner_become_what_they_name(
    owner: Seq<char>,
    member: Seq<char>,
    args: Seq<ExprView>,
    span: Span,
    enums: Seq<EnumView>,
    at: int,
    variant: int,
)
    ensures
        position_of(enum_names(enums), owner) is None ==> resolved_call(
            owner,
            member,
            args,
            span,
            enums,
        ) == Ok::<ExprView, DiagnosticView>(
            ExprView::Call { name: owner + "__"@ + member, args, span },
        ),
        position_of(enum_names(enums), owner) == Some(at) && position_of(
            variant_names(enums[at].variants),
            member,
        ) == Some(variant) && enums[at].variants[variant].payload is Tuple ==> resolved_call(
            owner,
            member,
            args,
            span,
            enums,
        ) == Ok::<ExprView, DiagnosticView>(
            ExprView::EnumTupleVariant { enum_name: owner, variant: member, args, span },
        ),
        position_of(enum_names(enums), owner) == Some(at) && position_of(
            variant_names(enums[at].variants),
            member,
        ) == Some(variant) && enums[at].variants[variant].payload is Unit && args.len() == 0
            ==> resolved_call(owner, member, args, span, enums) == Ok::<ExprView, DiagnosticView>(
            ExprView::EnumVariant { enum_name: owner, variant: member, span },
        ),
{
}

} // verus!
