//! What putting a type in place of `Self` changes: nothing but that name.

use crate::ast::{
    ArmView, EntryView, ExprView, FunctionView, InitView, PatternView, ReductionView, StmtNode,
    TraitView, TypeView,
};
use crate::semantics::impls::{
    inherent_function, own_params, trait_function, with_inherent_methods, with_trait_methods,
};
use crate::semantics::self_type::{
    own_arms, own_call, own_entries, own_expr, own_exprs, own_inits, own_name, own_pattern,
    own_reduction, own_stmt, own_stmts, own_type, own_types,
};
use vstd::prelude::*;

verus! {

/// A name that is not `Self`.
pub open spec fn is_other_name(name: Seq<char>) -> bool {
    name != "Self"@
}

/// The name of a function that is none of `Self`.
pub open spec fn is_other_call(name: Seq<char>) -> bool {
    !"Self__"@.is_prefix_of(name)
}

/// A type that does not mention `Self`.
pub open spec fn is_free_type(node: TypeView) -> bool
    decreases node, 0int,
{
    match node {
        TypeView::Struct(name) => is_other_name(name),
        TypeView::Applied { args, .. } => is_free_types(args),
        TypeView::Array { elem, .. } | TypeView::List { elem } => is_free_type(*elem),
        TypeView::Dict { key, value } | TypeView::Mapping { key, value } => is_free_type(*key)
            && is_free_type(*value),
        TypeView::Ref { inner, .. } => is_free_type(*inner),
        _ => true,
    }
}

/// A pattern that does not mention `Self`.
pub open spec fn is_free_pattern(node: PatternView) -> bool {
    match node {
        PatternView::EnumUnit { enum_name, .. }
        | PatternView::EnumTuple { enum_name, .. }
        | PatternView::EnumNamed { enum_name, .. } => is_other_name(enum_name),
        PatternView::Wildcard { .. } => true,
    }
}

/// An expression that does not mention `Self`.
pub open spec fn is_free_expr(node: ExprView) -> bool
    decreases node, 0int,
{
    match node {
        ExprView::Call { name, args, .. } => {
            is_other_call(name)
                && is_free_exprs(args)
        },
        ExprView::QualifiedCall { owner, args, .. } => {
            is_other_name(owner)
                && is_free_exprs(args)
        },
        ExprView::Unary { expr, .. } => {
            is_free_expr(*expr)
        },
        ExprView::Binary { left, right, .. } => {
            is_free_expr(*left)
                && is_free_expr(*right)
        },
        ExprView::FieldAccess { base, .. } => {
            is_free_expr(*base)
        },
        ExprView::Index { base, index, .. } => {
            is_free_expr(*base)
                && is_free_expr(*index)
        },
        ExprView::ArrayLit { elems, .. } => {
            is_free_exprs(elems)
        },
        ExprView::StructInit { name, fields, .. } => {
            is_other_name(name)
                && is_free_inits(fields)
        },
        ExprView::EnumVariant { enum_name, .. } => {
            is_other_name(enum_name)
        },
        ExprView::EnumTupleVariant { enum_name, args, .. } => {
            is_other_name(enum_name)
                && is_free_exprs(args)
        },
        ExprView::EnumStructVariant { enum_name, fields, .. } => {
            is_other_name(enum_name)
                && is_free_inits(fields)
        },
        ExprView::DictLit { entries, .. } => {
            is_free_entries(entries)
        },
        ExprView::MethodCall { receiver, args, .. } => {
            is_free_expr(*receiver)
                && is_free_exprs(args)
        },
        ExprView::Match { value, arms, .. } => {
            is_free_expr(*value)
                && is_free_arms(arms)
        },
        _ => true,
    }
}

/// A statement that does not mention `Self`.
pub open spec fn is_free_stmt(node: StmtNode) -> bool
    decreases node, 0int,
{
    match node {
        StmtNode::Let { ty, expr, .. } => {
            (ty matches Some(part) ==> is_free_type(part))
                && is_free_expr(expr)
        },
        StmtNode::Assign { expr, .. } => {
            is_free_expr(expr)
        },
        StmtNode::AssignField { expr, .. } => {
            is_free_expr(expr)
        },
        StmtNode::AssignIndex { index, expr, .. } => {
            is_free_expr(index)
                && is_free_expr(expr)
        },
        StmtNode::AssignStructListIndex { index, expr, .. } => {
            is_free_expr(index)
                && is_free_expr(expr)
        },
        StmtNode::Call { name, args, .. } => {
            is_other_call(name)
                && is_free_exprs(args)
        },
        StmtNode::MethodCall { args, .. } => {
            is_free_exprs(args)
        },
        StmtNode::StructListMethodCall { args, .. } => {
            is_free_exprs(args)
        },
        StmtNode::Return { expr, .. } => {
            (expr matches Some(part) ==> is_free_expr(part))
        },
        StmtNode::Print { expr, .. } => {
            is_free_expr(expr)
        },
        StmtNode::Exit { expr, .. } => {
            is_free_expr(expr)
        },
        StmtNode::BenchLoop { iterations, .. } => {
            is_free_expr(iterations)
        },
        StmtNode::Block { stmts, .. } => {
            is_free_stmts(stmts)
        },
        StmtNode::If { cond, then_branch, else_branch, .. } => {
            is_free_expr(cond)
                && is_free_stmts(then_branch)
                && (else_branch matches Some(list) ==> is_free_stmts(list))
        },
        StmtNode::While { cond, body, .. } => {
            is_free_expr(cond)
                && is_free_stmts(body)
        },
        StmtNode::Loop { body, .. } => {
            is_free_stmts(body)
        },
        StmtNode::For { start, end, body, .. } => {
            is_free_expr(start)
                && is_free_expr(end)
                && is_free_stmts(body)
        },
        StmtNode::ParFor { start, end, body, reduction, .. } => {
            is_free_expr(start)
                && is_free_expr(end)
                && is_free_stmts(body)
                && (reduction matches Some(part) ==> is_free_reduction(part))
        },
        StmtNode::ForEach { iterable, body, .. } => {
            is_free_expr(iterable)
                && is_free_stmts(body)
        },
        StmtNode::Assert { cond, message, .. } => {
            is_free_expr(cond)
                && (message matches Some(part) ==> is_free_expr(part))
        },
        StmtNode::Panic { message, .. } => {
            is_free_expr(message)
        },
        _ => true,
    }
}

/// What a parallel loop reduces to does not mention `Self`.
pub open spec fn is_free_reduction(node: ReductionView) -> bool
    decreases node, 0int,
{
    is_free_expr(node.expr)
}

/// None of the types mentions `Self`.
pub open spec fn is_free_types(nodes: Seq<TypeView>) -> bool
    decreases nodes, 0int,
{
    forall|i: int| 0 <= i < nodes.len() ==> is_free_type(#[trigger] nodes[i])
}

/// None of the expressions mentions `Self`.
pub open spec fn is_free_exprs(nodes: Seq<ExprView>) -> bool
    decreases nodes, 0int,
{
    forall|i: int| 0 <= i < nodes.len() ==> is_free_expr(#[trigger] nodes[i])
}

/// None of the fields of a literal mentions `Self`.
pub open spec fn is_free_inits(nodes: Seq<InitView>) -> bool
    decreases nodes, 0int,
{
    forall|i: int| 0 <= i < nodes.len() ==> is_free_expr((#[trigger] nodes[i]).expr)
}

/// None of the entries of a dictionary mentions `Self`.
pub open spec fn is_free_entries(nodes: Seq<EntryView>) -> bool
    decreases nodes, 0int,
{
    forall|i: int| 0 <= i < nodes.len() ==> is_free_expr((#[trigger] nodes[i]).value)
}

/// None of the arms mentions `Self`.
pub open spec fn is_free_arms(nodes: Seq<ArmView>) -> bool
    decreases nodes, 0int,
{
    forall|i: int| 0 <= i < nodes.len() ==> is_free_pattern((#[trigger] nodes[i]).pattern)
        && is_free_expr(nodes[i].expr)
}

/// None of the statements mentions `Self`.
pub open spec fn is_free_stmts(nodes: Seq<StmtNode>) -> bool
    decreases nodes, 0int,
{
    forall|i: int| 0 <= i < nodes.len() ==> is_free_stmt(#[trigger] nodes[i])
}

/// The name of a type that does not start like a method of `Self`.
pub open spec fn is_type_name(name: Seq<char>) -> bool {
    name != "Self"@ && !"Self__"@.is_prefix_of(name + "__"@)
}

/// What becomes of a name.
proof fn lemma_own_name(name: Seq<char>, for_type: Seq<char>)
    ensures
        for_type == "Self"@ || is_other_name(name) ==> own_name(name, for_type) == name,
        is_type_name(for_type) ==> is_other_name(own_name(name, for_type)),
{
}

/// What becomes of the name of a function.
proof fn lemma_own_call(name: Seq<char>, for_type: Seq<char>)
    ensures
        for_type == "Self"@ || is_other_call(name) ==> own_call(name, for_type) == name,
        is_type_name(for_type) ==> is_other_call(own_call(name, for_type)),
{
    reveal_strlit("Self");
    reveal_strlit("__");
    reveal_strlit("Self__");
    if name.len() >= 6 && name.subrange(0, 6) == "Self__"@ {
        let rest = name.subrange(6, name.len() as int);
        assert("Self"@ + "__"@ =~= "Self__"@);
        assert("Self__"@ + rest =~= name);
        assert forall|i: int| 0 <= i < 6 implies "Self__"@[i] == #[trigger] name[i] by {
            assert(name.subrange(0, 6)[i] == name[i]);
        }
        assert("Self__"@ =~= name.subrange(0, "Self__"@.len() as int));
        let new = own_call(name, for_type);
        let head = for_type + "__"@;
        assert(new =~= head + rest);
        if is_type_name(for_type) && "Self__"@.is_prefix_of(new) {
            if head.len() >= 6 {
                assert(head.subrange(0, 6) =~= new.subrange(0, 6));
            } else {
                lemma_short_name(for_type, rest);
            }
        }
    } else if "Self__"@.is_prefix_of(name) {
        assert(name.subrange(0, 6) =~= "Self__"@);
    }
}

/// A short name and two underscores do not start like a method of `Self`.
proof fn lemma_short_name(name: Seq<char>, rest: Seq<char>)
    requires
        name.len() < 4,
    ensures
        !"Self__"@.is_prefix_of(name + "__"@ + rest),
{
    reveal_strlit("__");
    reveal_strlit("Self__");
    let new = name + "__"@ + rest;
    if "Self__"@.is_prefix_of(new) {
        assert(new.subrange(0, 6)[name.len() as int] == new[name.len() as int]);
        assert(new[name.len() as int] == '_');
        assert("Self__"@[name.len() as int] != '_');
    }
}

/// What becomes of a pattern.
proof fn lemma_own_pattern(node: PatternView, for_type: Seq<char>)
    ensures
        for_type == "Self"@ || is_free_pattern(node) ==> own_pattern(node, for_type) == node,
        is_type_name(for_type) ==> is_free_pattern(own_pattern(node, for_type)),
{
}

/// A type stays as it is.
proof fn lemma_same_type(node: TypeView, for_type: Seq<char>)
    requires
        for_type == "Self"@ || is_free_type(node),
    ensures
        own_type(node, for_type) == node,
    decreases node, 0int,
{
    match node {
        TypeView::Struct(name) => {
            lemma_own_name(name, for_type);
        },
        TypeView::Applied { args, .. } => {
            lemma_same_types(args, for_type);
        },
        TypeView::Array { elem, .. } | TypeView::List { elem } => {
            lemma_same_type(*elem, for_type);
        },
        TypeView::Dict { key, value } | TypeView::Mapping { key, value } => {
            lemma_same_type(*key, for_type);
            lemma_same_type(*value, for_type);
        },
        TypeView::Ref { inner, .. } => {
            lemma_same_type(*inner, for_type);
        },
        _ => {},
    }
}

/// An expression stays as it is.
proof fn lemma_same_expr(node: ExprView, for_type: Seq<char>)
    requires
        for_type == "Self"@ || is_free_expr(node),
    ensures
        own_expr(node, for_type) == node,
    decreases node, 0int,
{
    match node {
        ExprView::Call { name, args, .. } => {
            lemma_own_call(name, for_type);
            lemma_same_exprs(args, for_type);
        },
        ExprView::QualifiedCall { owner, args, .. } => {
            lemma_own_name(owner, for_type);
            lemma_same_exprs(args, for_type);
        },
        ExprView::Unary { expr, .. } => {
            lemma_same_expr(*expr, for_type);
        },
        ExprView::Binary { left, right, .. } => {
            lemma_same_expr(*left, for_type);
            lemma_same_expr(*right, for_type);
        },
        ExprView::FieldAccess { base, .. } => {
            lemma_same_expr(*base, for_type);
        },
        ExprView::Index { base, index, .. } => {
            lemma_same_expr(*base, for_type);
            lemma_same_expr(*index, for_type);
        },
        ExprView::ArrayLit { elems, .. } => {
            lemma_same_exprs(elems, for_type);
        },
        ExprView::StructInit { name, fields, .. } => {
            lemma_own_name(name, for_type);
            lemma_same_inits(fields, for_type);
        },
        ExprView::EnumVariant { enum_name, .. } => {
            lemma_own_name(enum_name, for_type);
        },
        ExprView::EnumTupleVariant { enum_name, args, .. } => {
            lemma_own_name(enum_name, for_type);
            lemma_same_exprs(args, for_type);
        },
        ExprView::EnumStructVariant { enum_name, fields, .. } => {
            lemma_own_name(enum_name, for_type);
            lemma_same_inits(fields, for_type);
        },
        ExprView::DictLit { entries, .. } => {
            lemma_same_entries(entries, for_type);
        },
        ExprView::MethodCall { receiver, args, .. } => {
            lemma_same_expr(*receiver, for_type);
            lemma_same_exprs(args, for_type);
        },
        ExprView::Match { value, arms, .. } => {
            lemma_same_expr(*value, for_type);
            lemma_same_arms(arms, for_type);
        },
        _ => {},
    }
}

/// A statement stays as it is.
proof fn lemma_same_stmt(node: StmtNode, for_type: Seq<char>)
    requires
        for_type == "Self"@ || is_free_stmt(node),
    ensures
        own_stmt(node, for_type) == node,
    decreases node, 0int,
{
    match node {
        StmtNode::Let { ty, expr, .. } => {
            if let Some(part) = ty {
                lemma_same_type(part, for_type);
            }
            lemma_same_expr(expr, for_type);
        },
        StmtNode::Assign { expr, .. } => {
            lemma_same_expr(expr, for_type);
        },
        StmtNode::AssignField { expr, .. } => {
            lemma_same_expr(expr, for_type);
        },
        StmtNode::AssignIndex { index, expr, .. } => {
            lemma_same_expr(index, for_type);
            lemma_same_expr(expr, for_type);
        },
        StmtNode::AssignStructListIndex { index, expr, .. } => {
            lemma_same_expr(index, for_type);
            lemma_same_expr(expr, for_type);
        },
        StmtNode::Call { name, args, .. } => {
            lemma_own_call(name, for_type);
            lemma_same_exprs(args, for_type);
        },
        StmtNode::MethodCall { args, .. } => {
            lemma_same_exprs(args, for_type);
        },
        StmtNode::StructListMethodCall { args, .. } => {
            lemma_same_exprs(args, for_type);
        },
        StmtNode::Return { expr, .. } => {
            if let Some(part) = expr {
                lemma_same_expr(part, for_type);
            }
        },
        StmtNode::Print { expr, .. } => {
            lemma_same_expr(expr, for_type);
        },
        StmtNode::Exit { expr, .. } => {
            lemma_same_expr(expr, for_type);
        },
        StmtNode::BenchLoop { iterations, .. } => {
            lemma_same_expr(iterations, for_type);
        },
        StmtNode::Block { stmts, .. } => {
            lemma_same_stmts(stmts, for_type);
        },
        StmtNode::If { cond, then_branch, else_branch, .. } => {
            lemma_same_expr(cond, for_type);
            lemma_same_stmts(then_branch, for_type);
            if let Some(part) = else_branch {
                lemma_same_stmts(part, for_type);
            }
        },
        StmtNode::While { cond, body, .. } => {
            lemma_same_expr(cond, for_type);
            lemma_same_stmts(body, for_type);
        },
        StmtNode::Loop { body, .. } => {
            lemma_same_stmts(body, for_type);
        },
        StmtNode::For { start, end, body, .. } => {
            lemma_same_expr(start, for_type);
            lemma_same_expr(end, for_type);
            lemma_same_stmts(body, for_type);
        },
        StmtNode::ParFor { start, end, body, reduction, .. } => {
            lemma_same_expr(start, for_type);
            lemma_same_expr(end, for_type);
            lemma_same_stmts(body, for_type);
            if let Some(part) = reduction {
                lemma_same_reduction(part, for_type);
            }
        },
        StmtNode::ForEach { iterable, body, .. } => {
            lemma_same_expr(iterable, for_type);
            lemma_same_stmts(body, for_type);
        },
        StmtNode::Assert { cond, message, .. } => {
            lemma_same_expr(cond, for_type);
            if let Some(part) = message {
                lemma_same_expr(part, for_type);
            }
        },
        StmtNode::Panic { message, .. } => {
            lemma_same_expr(message, for_type);
        },
        _ => {},
    }
}

/// A reduction stays as it is.
proof fn lemma_same_reduction(node: ReductionView, for_type: Seq<char>)
    requires
        for_type == "Self"@ || is_free_reduction(node),
    ensures
        own_reduction(node, for_type) == node,
    decreases node, 0int,
{
    lemma_same_expr(node.expr, for_type);
}

/// Types stay as they are.
proof fn lemma_same_types(nodes: Seq<TypeView>, for_type: Seq<char>)
    requires
        for_type == "Self"@ || is_free_types(nodes),
    ensures
        own_types(nodes, for_type) == nodes,
    decreases nodes, 0int,
{
    assert forall|i: int| 0 <= i < nodes.len() implies own_types(nodes, for_type)[i]
        == nodes[i] by {
        if for_type != "Self"@ {
            assert(is_free_type(nodes[i]));
        }
        lemma_same_type(nodes[i], for_type);
    }
    assert(own_types(nodes, for_type) =~= nodes);
}

/// Expressions stay as they are.
proof fn lemma_same_exprs(nodes: Seq<ExprView>, for_type: Seq<char>)
    requires
        for_type == "Self"@ || is_free_exprs(nodes),
    ensures
        own_exprs(nodes, for_type) == nodes,
    decreases nodes, 0int,
{
    assert forall|i: int| 0 <= i < nodes.len() implies own_exprs(nodes, for_type)[i]
        == nodes[i] by {
        if for_type != "Self"@ {
            assert(is_free_expr(nodes[i]));
        }
        lemma_same_expr(nodes[i], for_type);
    }
    assert(own_exprs(nodes, for_type) =~= nodes);
}

/// Fields of a literal stay as they are.
proof fn lemma_same_inits(nodes: Seq<InitView>, for_type: Seq<char>)
    requires
        for_type == "Self"@ || is_free_inits(nodes),
    ensures
        own_inits(nodes, for_type) == nodes,
    decreases nodes, 0int,
{
    assert forall|i: int| 0 <= i < nodes.len() implies own_inits(nodes, for_type)[i]
        == nodes[i] by {
        if for_type != "Self"@ {
            assert(is_free_expr((nodes[i]).expr));
        }
        lemma_same_expr(nodes[i].expr, for_type);
    }
    assert(own_inits(nodes, for_type) =~= nodes);
}

/// Entries of a dictionary stay as they are.
proof fn lemma_same_entries(nodes: Seq<EntryView>, for_type: Seq<char>)
    requires
        for_type == "Self"@ || is_free_entries(nodes),
    ensures
        own_entries(nodes, for_type) == nodes,
    decreases nodes, 0int,
{
    assert forall|i: int| 0 <= i < nodes.len() implies own_entries(nodes, for_type)[i]
        == nodes[i] by {
        if for_type != "Self"@ {
            assert(is_free_expr((nodes[i]).value));
        }
        lemma_same_expr(nodes[i].value, for_type);
    }
    assert(own_entries(nodes, for_type) =~= nodes);
}

/// Arms stay as they are.
proof fn lemma_same_arms(nodes: Seq<ArmView>, for_type: Seq<char>)
    requires
        for_type == "Self"@ || is_free_arms(nodes),
    ensures
        own_arms(nodes, for_type) == nodes,
    decreases nodes, 0int,
{
    assert forall|i: int| 0 <= i < nodes.len() implies own_arms(nodes, for_type)[i] == nodes[i] by {
        if for_type != "Self"@ {
            assert(is_free_pattern((nodes[i]).pattern) && is_free_expr(nodes[i].expr));
        }
        lemma_own_pattern(nodes[i].pattern, for_type);
        lemma_same_expr(nodes[i].expr, for_type);
    }
    assert(own_arms(nodes, for_type) =~= nodes);
}

/// Statements stay as they are.
proof fn lemma_same_stmts(nodes: Seq<StmtNode>, for_type: Seq<char>)
    requires
        for_type == "Self"@ || is_free_stmts(nodes),
    ensures
        own_stmts(nodes, for_type) == nodes,
    decreases nodes, 0int,
{
    assert forall|i: int| 0 <= i < nodes.len() implies own_stmts(nodes, for_type)[i]
        == nodes[i] by {
        if for_type != "Self"@ {
            assert(is_free_stmt(nodes[i]));
        }
        lemma_same_stmt(nodes[i], for_type);
    }
    assert(own_stmts(nodes, for_type) =~= nodes);
}

/// A type does not mention `Self` then.
proof fn lemma_gone_type(node: TypeView, for_type: Seq<char>)
    requires
        is_type_name(for_type),
    ensures
        is_free_type(own_type(node, for_type)),
    decreases node, 0int,
{
    match node {
        TypeView::Struct(name) => {
            lemma_own_name(name, for_type);
        },
        TypeView::Applied { args, .. } => {
            lemma_gone_types(args, for_type);
        },
        TypeView::Array { elem, .. } | TypeView::List { elem } => {
            lemma_gone_type(*elem, for_type);
        },
        TypeView::Dict { key, value } | TypeView::Mapping { key, value } => {
            lemma_gone_type(*key, for_type);
            lemma_gone_type(*value, for_type);
        },
        TypeView::Ref { inner, .. } => {
            lemma_gone_type(*inner, for_type);
        },
        _ => {},
    }
}

/// An expression does not mention `Self` then.
proof fn lemma_gone_expr(node: ExprView, for_type: Seq<char>)
    requires
        is_type_name(for_type),
    ensures
        is_free_expr(own_expr(node, for_type)),
    decreases node, 0int,
{
    match node {
        ExprView::Call { name, args, .. } => {
            lemma_own_call(name, for_type);
            lemma_gone_exprs(args, for_type);
        },
        ExprView::QualifiedCall { owner, args, .. } => {
            lemma_own_name(owner, for_type);
            lemma_gone_exprs(args, for_type);
        },
        ExprView::Unary { expr, .. } => {
            lemma_gone_expr(*expr, for_type);
        },
        ExprView::Binary { left, right, .. } => {
            lemma_gone_expr(*left, for_type);
            lemma_gone_expr(*right, for_type);
        },
        ExprView::FieldAccess { base, .. } => {
            lemma_gone_expr(*base, for_type);
        },
        ExprView::Index { base, index, .. } => {
            lemma_gone_expr(*base, for_type);
            lemma_gone_expr(*index, for_type);
        },
        ExprView::ArrayLit { elems, .. } => {
            lemma_gone_exprs(elems, for_type);
        },
        ExprView::StructInit { name, fields, .. } => {
            lemma_own_name(name, for_type);
            lemma_gone_inits(fields, for_type);
        },
        ExprView::EnumVariant { enum_name, .. } => {
            lemma_own_name(enum_name, for_type);
        },
        ExprView::EnumTupleVariant { enum_name, args, .. } => {
            lemma_own_name(enum_name, for_type);
            lemma_gone_exprs(args, for_type);
        },
        ExprView::EnumStructVariant { enum_name, fields, .. } => {
            lemma_own_name(enum_name, for_type);
            lemma_gone_inits(fields, for_type);
        },
        ExprView::DictLit { entries, .. } => {
            lemma_gone_entries(entries, for_type);
        },
        ExprView::MethodCall { receiver, args, .. } => {
            lemma_gone_expr(*receiver, for_type);
            lemma_gone_exprs(args, for_type);
        },
        ExprView::Match { value, arms, .. } => {
            lemma_gone_expr(*value, for_type);
            lemma_gone_arms(arms, for_type);
        },
        _ => {},
    }
}

/// A statement does not mention `Self` then.
proof fn lemma_gone_stmt(node: StmtNode, for_type: Seq<char>)
    requires
        is_type_name(for_type),
    ensures
        is_free_stmt(own_stmt(node, for_type)),
    decreases node, 0int,
{
    match node {
        StmtNode::Let { ty, expr, .. } => {
            if let Some(part) = ty {
                lemma_gone_type(part, for_type);
            }
            lemma_gone_expr(expr, for_type);
        },
        StmtNode::Assign { expr, .. } => {
            lemma_gone_expr(expr, for_type);
        },
        StmtNode::AssignField { expr, .. } => {
            lemma_gone_expr(expr, for_type);
        },
        StmtNode::AssignIndex { index, expr, .. } => {
            lemma_gone_expr(index, for_type);
            lemma_gone_expr(expr, for_type);
        },
        StmtNode::AssignStructListIndex { index, expr, .. } => {
            lemma_gone_expr(index, for_type);
            lemma_gone_expr(expr, for_type);
        },
        StmtNode::Call { name, args, .. } => {
            lemma_own_call(name, for_type);
            lemma_gone_exprs(args, for_type);
        },
        StmtNode::MethodCall { args, .. } => {
            lemma_gone_exprs(args, for_type);
        },
        StmtNode::StructListMethodCall { args, .. } => {
            lemma_gone_exprs(args, for_type);
        },
        StmtNode::Return { expr, .. } => {
            if let Some(part) = expr {
                lemma_gone_expr(part, for_type);
            }
        },
        StmtNode::Print { expr, .. } => {
            lemma_gone_expr(expr, for_type);
        },
        StmtNode::Exit { expr, .. } => {
            lemma_gone_expr(expr, for_type);
        },
        StmtNode::BenchLoop { iterations, .. } => {
            lemma_gone_expr(iterations, for_type);
        },
        StmtNode::Block { stmts, .. } => {
            lemma_gone_stmts(stmts, for_type);
        },
        StmtNode::If { cond, then_branch, else_branch, .. } => {
            lemma_gone_expr(cond, for_type);
            lemma_gone_stmts(then_branch, for_type);
            if let Some(part) = else_branch {
                lemma_gone_stmts(part, for_type);
            }
        },
        StmtNode::While { cond, body, .. } => {
            lemma_gone_expr(cond, for_type);
            lemma_gone_stmts(body, for_type);
        },
        StmtNode::Loop { body, .. } => {
            lemma_gone_stmts(body, for_type);
        },
        StmtNode::For { start, end, body, .. } => {
            lemma_gone_expr(start, for_type);
            lemma_gone_expr(end, for_type);
            lemma_gone_stmts(body, for_type);
        },
        StmtNode::ParFor { start, end, body, reduction, .. } => {
            lemma_gone_expr(start, for_type);
            lemma_gone_expr(end, for_type);
            lemma_gone_stmts(body, for_type);
            if let Some(part) = reduction {
                lemma_gone_reduction(part, for_type);
            }
        },
        StmtNode::ForEach { iterable, body, .. } => {
            lemma_gone_expr(iterable, for_type);
            lemma_gone_stmts(body, for_type);
        },
        StmtNode::Assert { cond, message, .. } => {
            lemma_gone_expr(cond, for_type);
            if let Some(part) = message {
                lemma_gone_expr(part, for_type);
            }
        },
        StmtNode::Panic { message, .. } => {
            lemma_gone_expr(message, for_type);
        },
        _ => {},
    }
}

/// A reduction does not mention `Self` then.
proof fn lemma_gone_reduction(node: ReductionView, for_type: Seq<char>)
    requires
        is_type_name(for_type),
    ensures
        is_free_reduction(own_reduction(node, for_type)),
    decreases node, 0int,
{
    lemma_gone_expr(node.expr, for_type);
}

/// Types do not mention `Self` then.
proof fn lemma_gone_types(nodes: Seq<TypeView>, for_type: Seq<char>)
    requires
        is_type_name(for_type),
    ensures
        is_free_types(own_types(nodes, for_type)),
    decreases nodes, 0int,
{
    let new = own_types(nodes, for_type);
    assert forall|i: int| 0 <= i < new.len() implies is_free_type(#[trigger] new[i]) by {
        lemma_gone_type(nodes[i], for_type);
    }
}

/// Expressions do not mention `Self` then.
proof fn lemma_gone_exprs(nodes: Seq<ExprView>, for_type: Seq<char>)
    requires
        is_type_name(for_type),
    ensures
        is_free_exprs(own_exprs(nodes, for_type)),
    decreases nodes, 0int,
{
    let new = own_exprs(nodes, for_type);
    assert forall|i: int| 0 <= i < new.len() implies is_free_expr(#[trigger] new[i]) by {
        lemma_gone_expr(nodes[i], for_type);
    }
}

/// Fields of a literal do not mention `Self` then.
proof fn lemma_gone_inits(nodes: Seq<InitView>, for_type: Seq<char>)
    requires
        is_type_name(for_type),
    ensures
        is_free_inits(own_inits(nodes, for_type)),
    decreases nodes, 0int,
{
    let new = own_inits(nodes, for_type);
    assert forall|i: int| 0 <= i < new.len() implies is_free_expr((#[trigger] new[i]).expr) by {
        lemma_gone_expr(nodes[i].expr, for_type);
    }
}

/// Entries of a dictionary do not mention `Self` then.
proof fn lemma_gone_entries(nodes: Seq<EntryView>, for_type: Seq<char>)
    requires
        is_type_name(for_type),
    ensures
        is_free_entries(own_entries(nodes, for_type)),
    decreases nodes, 0int,
{
    let new = own_entries(nodes, for_type);
    assert forall|i: int| 0 <= i < new.len() implies is_free_expr((#[trigger] new[i]).value) by {
        lemma_gone_expr(nodes[i].value, for_type);
    }
}

/// Arms do not mention `Self` then.
proof fn lemma_gone_arms(nodes: Seq<ArmView>, for_type: Seq<char>)
    requires
        is_type_name(for_type),
    ensures
        is_free_arms(own_arms(nodes, for_type)),
    decreases nodes, 0int,
{
    let new = own_arms(nodes, for_type);
    assert forall|i: int| 0 <= i < new.len() implies is_free_pattern((#[trigger] new[i]).pattern)
        && is_free_expr(new[i].expr) by {
        lemma_own_pattern(nodes[i].pattern, for_type);
        lemma_gone_expr(nodes[i].expr, for_type);
    }
}

/// Statements do not mention `Self` then.
proof fn lemma_gone_stmts(nodes: Seq<StmtNode>, for_type: Seq<char>)
    requires
        is_type_name(for_type),
    ensures
        is_free_stmts(own_stmts(nodes, for_type)),
    decreases nodes, 0int,
{
    let new = own_stmts(nodes, for_type);
    assert forall|i: int| 0 <= i < new.len() implies is_free_stmt(#[trigger] new[i]) by {
        lemma_gone_stmt(nodes[i], for_type);
    }
}

/// To put the name `Self` in place of `Self` changes nothing, in any expression,
/// statement, body or type.
pub proof fn law_self_in_place_of_self_changes_nothing(
    expr: ExprView,
    stmt: StmtNode,
    body: Seq<StmtNode>,
    ty: TypeView,
)
    ensures
        own_expr(expr, "Self"@) == expr,
        own_stmt(stmt, "Self"@) == stmt,
        own_stmts(body, "Self"@) == body,
        own_type(ty, "Self"@) == ty,
{
    lemma_same_expr(expr, "Self"@);
    lemma_same_stmt(stmt, "Self"@);
    lemma_same_stmts(body, "Self"@);
    lemma_same_type(ty, "Self"@);
}

/// What does not mention `Self` stays as it is, whatever type is put in its place.
pub proof fn law_what_does_not_mention_self_stays(
    expr: ExprView,
    stmt: StmtNode,
    body: Seq<StmtNode>,
    ty: TypeView,
    for_type: Seq<char>,
)
    ensures
        is_free_expr(expr) ==> own_expr(expr, for_type) == expr,
        is_free_stmt(stmt) ==> own_stmt(stmt, for_type) == stmt,
        is_free_stmts(body) ==> own_stmts(body, for_type) == body,
        is_free_type(ty) ==> own_type(ty, for_type) == ty,
{
    if is_free_expr(expr) {
        lemma_same_expr(expr, for_type);
    }
    if is_free_stmt(stmt) {
        lemma_same_stmt(stmt, for_type);
    }
    if is_free_stmts(body) {
        lemma_same_stmts(body, for_type);
    }
    if is_free_type(ty) {
        lemma_same_type(ty, for_type);
    }
}

/// Once a type is put in place of `Self`, nothing mentions `Self`, and to put another
/// in its place changes nothing more.
pub proof fn law_self_is_put_in_everywhere(
    expr: ExprView,
    stmt: StmtNode,
    body: Seq<StmtNode>,
    ty: TypeView,
    for_type: Seq<char>,
    other: Seq<char>,
)
    requires
        is_type_name(for_type),
    ensures
        is_free_expr(own_expr(expr, for_type)),
        is_free_stmt(own_stmt(stmt, for_type)),
        is_free_stmts(own_stmts(body, for_type)),
        is_free_type(own_type(ty, for_type)),
        own_expr(own_expr(expr, for_type), other) == own_expr(expr, for_type),
        own_stmt(own_stmt(stmt, for_type), other) == own_stmt(stmt, for_type),
        own_stmts(own_stmts(body, for_type), other) == own_stmts(body, for_type),
        own_type(own_type(ty, for_type), other) == own_type(ty, for_type),
{
    lemma_gone_expr(expr, for_type);
    lemma_gone_stmt(stmt, for_type);
    lemma_gone_stmts(body, for_type);
    lemma_gone_type(ty, for_type);
    law_what_does_not_mention_self_stays(
        own_expr(expr, for_type),
        own_stmt(stmt, for_type),
        own_stmts(body, for_type),
        own_type(ty, for_type),
        other,
    );
}

/// The function of a method has the parameters, the type and the statements of the
/// method, in their order, where these do not mention `Self` or are those of `Self`
/// itself.
pub proof fn law_the_function_of_a_method_is_the_method(
    method: FunctionView,
    for_type: Seq<char>,
)
    requires
        for_type == "Self"@ || is_free_stmts(method.body) && (method.return_type matches Some(ty)
            ==> is_free_type(ty)) && (forall|i: int|
            0 <= i < method.params.len() ==> is_free_type((#[trigger] method.params[i]).ty)),
    ensures
        inherent_function(method, for_type) == (FunctionView {
            name: for_type + "__"@ + method.name,
            ..method
        }),
        trait_function(method, for_type) == (FunctionView {
            name: for_type + "__"@ + method.name,
            ..method
        }),
{
    lemma_same_stmts(method.body, for_type);
    if let Some(ty) = method.return_type {
        lemma_same_type(ty, for_type);
    }
    assert forall|i: int| 0 <= i < method.params.len() implies own_params(
        method.params,
        for_type,
    )[i] == method.params[i] by {
        if for_type != "Self"@ {
            assert(is_free_type(method.params[i].ty));
        }
        lemma_same_type(method.params[i].ty, for_type);
    }
    assert(own_params(method.params, for_type) =~= method.params);
}

/// The first methods of a type are behind the functions, in their order.
pub proof fn lemma_inherent(
    functions: Seq<FunctionView>,
    for_type: Seq<char>,
    methods: Seq<FunctionView>,
    count: nat,
)
    requires
        count <= methods.len(),
    ensures
        with_inherent_methods(functions, for_type, methods, count) matches Ok(done) ==> done
            == functions + Seq::new(count, |i: int| inherent_function(methods[i], for_type)),
    decreases count,
{
    let added = Seq::new(count, |i: int| inherent_function(methods[i], for_type));
    if count > 0 {
        lemma_inherent(functions, for_type, methods, (count - 1) as nat);
        let before = Seq::new(
            (count - 1) as nat,
            |i: int| inherent_function(methods[i], for_type),
        );
        assert((functions + before).push(inherent_function(methods[count - 1], for_type))
            =~= functions + added);
    } else {
        assert(functions + added =~= functions);
    }
}

/// The first methods of a trait are behind the functions, in their order.
pub proof fn lemma_trait_methods(
    functions: Seq<FunctionView>,
    def: TraitView,
    for_type: Seq<char>,
    methods: Seq<FunctionView>,
    count: nat,
)
    requires
        count <= methods.len(),
    ensures
        with_trait_methods(functions, def, for_type, methods, count) matches Ok(done) ==> done
            == functions + Seq::new(count, |i: int| trait_function(methods[i], for_type)),
    decreases count,
{
    let added = Seq::new(count, |i: int| trait_function(methods[i], for_type));
    if count > 0 {
        lemma_trait_methods(functions, def, for_type, methods, (count - 1) as nat);
        let before = Seq::new((count - 1) as nat, |i: int| trait_function(methods[i], for_type));
        assert((functions + before).push(trait_function(methods[count - 1], for_type))
            =~= functions + added);
    } else {
        assert(functions + added =~= functions);
    }
}

/// A method does not mention `Self`.
pub open spec fn is_free_method(method: FunctionView) -> bool {
    &&& is_free_stmts(method.body)
    &&& method.return_type matches Some(ty) ==> is_free_type(ty)
    &&& forall|i: int|
        0 <= i < method.params.len() ==> is_free_type((#[trigger] method.params[i]).ty)
}

/// Every method of a type or of a trait for it becomes a function behind those that there
/// were, in the order of the methods, under the name of the type and its own. Where it
/// does not mention `Self` it is the method but for its name.
pub proof fn law_every_method_becomes_a_function(
    functions: Seq<FunctionView>,
    def: TraitView,
    for_type: Seq<char>,
    methods: Seq<FunctionView>,
    i: int,
)
    requires
        0 <= i < methods.len(),
    ensures
        with_inherent_methods(functions, for_type, methods, methods.len()) matches Ok(done) ==> {
            let function = done[functions.len() + i];
            &&& done.len() == functions.len() + methods.len()
            &&& done.take(functions.len() as int) == functions
            &&& function.name == for_type + "__"@ + methods[i].name
            &&& is_free_method(methods[i]) ==> function == FunctionView {
                name: function.name,
                ..methods[i]
            }
        },
        with_trait_methods(functions, def, for_type, methods, methods.len()) matches Ok(done) ==> {
            let function = done[functions.len() + i];
            &&& done.len() == functions.len() + methods.len()
            &&& done.take(functions.len() as int) == functions
            &&& function.name == for_type + "__"@ + methods[i].name
            &&& is_free_method(methods[i]) ==> function == FunctionView {
                name: function.name,
                ..methods[i]
            }
        },
{
    lemma_inherent(functions, for_type, methods, methods.len());
    lemma_trait_methods(functions, def, for_type, methods, methods.len());
    if let Ok(done) = with_inherent_methods(functions, for_type, methods, methods.len()) {
        assert(done.take(functions.len() as int) =~= functions);
    }
    if let Ok(done) = with_trait_methods(functions, def, for_type, methods, methods.len()) {
        assert(done.take(functions.len() as int) =~= functions);
    }
    if is_free_method(methods[i]) {
        law_the_function_of_a_method_is_the_method(methods[i], for_type);
    }
}

} // verus!
