//! Functions without effects.

use crate::ast::{
    arms_view, entries_view, exprs_view, functions_view, inits_view, stmts_node_view, ArmView,
    DictEntry, EntryView, Expr, ExprView, Function, FunctionView, InitView, MatchArm, Stmt,
    StmtNode, StructInitField,
};
use crate::parser::cursor::is_text;
use crate::semantics::names::{
    find_function, function_names, is_file_runtime_intrinsic, is_runtime_only, lemma_position_from,
    position_of,
};
use vstd::prelude::*;

verus! {

/// The function of that name is marked as pure.
pub open spec fn marked_pure(
    name: Seq<char>,
    functions: Seq<FunctionView>,
    flags: Seq<bool>,
) -> bool {
    match position_of(function_names(functions), name) {
        Some(at) => at < flags.len() && flags[at],
        None => false,
    }
}

/// The name is that of a routine with effects of its own.
pub open spec fn has_own_effects(name: Seq<char>) -> bool {
    ||| name == "runtime_seed"@
    ||| name == "heap_alloc"@
    ||| name == "heap_free"@
    ||| is_runtime_only(name)
}

/// The expression has no effect, as long as calls of marked functions have none.
pub open spec fn pure_expr(node: ExprView, functions: Seq<FunctionView>, flags: Seq<bool>) -> bool
    decreases node, 0int,
{
    match node {
        ExprView::Call { name, args, .. } => !has_own_effects(name)
            && pure_exprs(args, functions, flags) && marked_pure(name, functions, flags),
        ExprView::QualifiedCall { args, .. } => pure_exprs(args, functions, flags),
        ExprView::Unary { expr, .. } => pure_expr(*expr, functions, flags),
        ExprView::Binary { left, right, .. } => pure_expr(*left, functions, flags)
            && pure_expr(*right, functions, flags),
        ExprView::FieldAccess { base, .. } => pure_expr(*base, functions, flags),
        ExprView::Index { base, index, .. } => pure_expr(*base, functions, flags)
            && pure_expr(*index, functions, flags),
        ExprView::ArrayLit { elems, .. } => pure_exprs(elems, functions, flags),
        ExprView::StructInit { fields, .. } => pure_inits(fields, functions, flags),
        ExprView::EnumTupleVariant { args, .. } => pure_exprs(args, functions, flags),
        ExprView::EnumStructVariant { fields, .. } => pure_inits(fields, functions, flags),
        ExprView::DictLit { entries, .. } => pure_entries(entries, functions, flags),
        ExprView::MethodCall { receiver, .. } => pure_expr(*receiver, functions, flags),
        ExprView::Match { value, arms, .. } => pure_expr(*value, functions, flags)
            && pure_arms(arms, functions, flags),
        _ => true,
    }
}

/// The statement has no effect outside its function, as long as calls of marked
/// functions have none.
pub open spec fn pure_stmt(node: StmtNode, functions: Seq<FunctionView>, flags: Seq<bool>) -> bool
    decreases node, 0int,
{
    match node {
        StmtNode::Let { expr, .. } => pure_expr(expr, functions, flags),
        StmtNode::Assign { expr, .. } => pure_expr(expr, functions, flags),
        StmtNode::AssignField { expr, .. } => pure_expr(expr, functions, flags),
        StmtNode::AssignIndex { index, expr, .. } => pure_expr(index, functions, flags)
            && pure_expr(expr, functions, flags),
        StmtNode::AssignStructListIndex { index, expr, .. } => pure_expr(index, functions, flags)
            && pure_expr(expr, functions, flags),
        StmtNode::Call { name, args, .. } => pure_exprs(args, functions, flags)
            && marked_pure(name, functions, flags),
        StmtNode::MethodCall { .. } => false,
        StmtNode::StructListMethodCall { .. } => false,
        StmtNode::Return { expr, .. } => (match expr {
                Some(node) => pure_expr(node, functions, flags),
                None => true,
        }),
        StmtNode::Print { .. } => false,
        StmtNode::Exit { .. } => false,
        StmtNode::BenchLoop { .. } => false,
        StmtNode::Block { stmts, .. } => pure_stmts(stmts, functions, flags),
        StmtNode::If { cond, then_branch, else_branch, .. } => pure_expr(cond, functions, flags)
            && pure_stmts(then_branch, functions, flags) && (match else_branch {
                Some(list) => pure_stmts(list, functions, flags),
                None => true,
        }),
        StmtNode::While { cond, body, .. } => pure_expr(cond, functions, flags)
            && pure_stmts(body, functions, flags),
        StmtNode::Loop { body, .. } => pure_stmts(body, functions, flags),
        StmtNode::For { start, end, body, .. } => pure_expr(start, functions, flags)
            && pure_expr(end, functions, flags) && pure_stmts(body, functions, flags),
        StmtNode::ParFor { start, end, body, .. } => pure_expr(start, functions, flags)
            && pure_expr(end, functions, flags) && pure_stmts(body, functions, flags),
        StmtNode::ForEach { iterable, body, .. } => pure_expr(iterable, functions, flags)
            && pure_stmts(body, functions, flags),
        StmtNode::Assert { .. } => false,
        StmtNode::Panic { .. } => false,
        _ => true,
    }
}

/// The expression of an arm of a match expression has no effect.
pub open spec fn pure_arm(node: ArmView, functions: Seq<FunctionView>, flags: Seq<bool>) -> bool
    decreases node, 0int,
{
    pure_expr(node.expr, functions, flags)
}

/// The expression of a field of a struct literal has no effect.
pub open spec fn pure_init(node: InitView, functions: Seq<FunctionView>, flags: Seq<bool>) -> bool
    decreases node, 0int,
{
    pure_expr(node.expr, functions, flags)
}

/// The expression of an entry of a dictionary literal has no effect.
pub open spec fn pure_entry(node: EntryView, functions: Seq<FunctionView>, flags: Seq<bool>) -> bool
    decreases node, 0int,
{
    pure_expr(node.value, functions, flags)
}

/// None of the expressions has an effect.
pub open spec fn pure_exprs(
    nodes: Seq<ExprView>,
    functions: Seq<FunctionView>,
    flags: Seq<bool>,
) -> bool
    decreases nodes, 0int,
{
    forall|i: int| 0 <= i < nodes.len() ==> pure_expr(#[trigger] nodes[i], functions, flags)
}

/// None of the statements has an effect outside its function.
pub open spec fn pure_stmts(
    nodes: Seq<StmtNode>,
    functions: Seq<FunctionView>,
    flags: Seq<bool>,
) -> bool
    decreases nodes, 0int,
{
    forall|i: int| 0 <= i < nodes.len() ==> pure_stmt(#[trigger] nodes[i], functions, flags)
}

/// None of the arms has an effect.
pub open spec fn pure_arms(
    nodes: Seq<ArmView>,
    functions: Seq<FunctionView>,
    flags: Seq<bool>,
) -> bool
    decreases nodes, 0int,
{
    forall|i: int| 0 <= i < nodes.len() ==> pure_arm(#[trigger] nodes[i], functions, flags)
}

/// None of the fields has an effect.
pub open spec fn pure_inits(
    nodes: Seq<InitView>,
    functions: Seq<FunctionView>,
    flags: Seq<bool>,
) -> bool
    decreases nodes, 0int,
{
    forall|i: int| 0 <= i < nodes.len() ==> pure_init(#[trigger] nodes[i], functions, flags)
}

/// None of the entries has an effect.
pub open spec fn pure_entries(
    nodes: Seq<EntryView>,
    functions: Seq<FunctionView>,
    flags: Seq<bool>,
) -> bool
    decreases nodes, 0int,
{
    forall|i: int| 0 <= i < nodes.len() ==> pure_entry(#[trigger] nodes[i], functions, flags)
}

/// Whether the name is that of a routine with effects of its own.
fn has_effects_of_its_own(name: &String) -> (found: bool)
    ensures
        found == has_own_effects(name@),
{
    is_text(name, "runtime_seed") || is_text(name, "heap_alloc") || is_text(name, "heap_free")
    || is_file_runtime_intrinsic(name)
}

/// Whether the function of that name is marked as pure.
pub fn analyze_function_purity(
    name: &String,
    functions: &Vec<Function>,
    flags: &Vec<bool>,
) -> (pure: bool)
    ensures
        pure == marked_pure(name@, functions_view(functions@), flags@),
{
    match find_function(functions, name) {
        Some(at) => at < flags.len() && flags[at],
        None => false,
    }
}

/// Whether the expression has no effect, as long as calls of marked functions have none.
pub fn analyze_expr_purity(
    node: &Expr,
    functions: &Vec<Function>,
    flags: &Vec<bool>,
) -> (pure: bool)
    ensures
        pure == pure_expr(node@, functions_view(functions@), flags@),
    decreases node,
{
    match node {
        Expr::Call { name, args, .. } => !has_effects_of_its_own(name)
            && analyze_exprs_purity(args, functions, flags)
            && analyze_function_purity(name, functions, flags),
        Expr::QualifiedCall { args, .. } => analyze_exprs_purity(args, functions, flags),
        Expr::Unary { expr, .. } => analyze_expr_purity(expr, functions, flags),
        Expr::Binary { left, right, .. } => analyze_expr_purity(left, functions, flags)
            && analyze_expr_purity(right, functions, flags),
        Expr::FieldAccess { base, .. } => analyze_expr_purity(base, functions, flags),
        Expr::Index { base, index, .. } => analyze_expr_purity(base, functions, flags)
            && analyze_expr_purity(index, functions, flags),
        Expr::ArrayLit { elems, .. } => analyze_exprs_purity(elems, functions, flags),
        Expr::StructInit { fields, .. } => analyze_inits_purity(fields, functions, flags),
        Expr::EnumTupleVariant { args, .. } => analyze_exprs_purity(args, functions, flags),
        Expr::EnumStructVariant { fields, .. } => analyze_inits_purity(fields, functions, flags),
        Expr::DictLit { entries, .. } => analyze_entries_purity(entries, functions, flags),
        Expr::MethodCall { receiver, .. } => analyze_expr_purity(receiver, functions, flags),
        Expr::Match { value, arms, .. } => analyze_expr_purity(value, functions, flags)
            && analyze_arms_purity(arms, functions, flags),
        _ => true,
    }
}

/// Whether the statement has no effect outside its function, as long as calls of marked
/// functions have none.
pub fn analyze_stmt_purity(
    node: &Stmt,
    functions: &Vec<Function>,
    flags: &Vec<bool>,
) -> (pure: bool)
    ensures
        pure == pure_stmt(node@, functions_view(functions@), flags@),
    decreases node,
{
    match node {
        Stmt::Let { expr, .. } => analyze_expr_purity(expr, functions, flags),
        Stmt::Assign { expr, .. } => analyze_expr_purity(expr, functions, flags),
        Stmt::AssignField { expr, .. } => analyze_expr_purity(expr, functions, flags),
        Stmt::AssignIndex { index, expr, .. } => analyze_expr_purity(index, functions, flags)
            && analyze_expr_purity(expr, functions, flags),
        Stmt::AssignStructListIndex { index, expr, .. } => analyze_expr_purity(
            index,
            functions,
            flags,
        ) && analyze_expr_purity(expr, functions, flags),
        Stmt::Call { name, args, .. } => analyze_exprs_purity(args, functions, flags)
            && analyze_function_purity(name, functions, flags),
        Stmt::MethodCall { .. } => false,
        Stmt::StructListMethodCall { .. } => false,
        Stmt::Return { expr, .. } => (match expr {
                Some(node) => analyze_expr_purity(node, functions, flags),
                None => true,
        }),
        Stmt::Print { .. } => false,
        Stmt::Exit { .. } => false,
        Stmt::BenchLoop { .. } => false,
        Stmt::Block { stmts, .. } => analyze_stmts_purity(stmts, functions, flags),
        Stmt::If { cond, then_branch, else_branch, .. } => analyze_expr_purity(
            cond,
            functions,
            flags,
        ) && analyze_stmts_purity(then_branch, functions, flags) && (match else_branch {
                Some(list) => analyze_stmts_purity(list, functions, flags),
                None => true,
        }),
        Stmt::While { cond, body, .. } => analyze_expr_purity(cond, functions, flags)
            && analyze_stmts_purity(body, functions, flags),
        Stmt::Loop { body, .. } => analyze_stmts_purity(body, functions, flags),
        Stmt::For { start, end, body, .. } => analyze_expr_purity(start, functions, flags)
            && analyze_expr_purity(end, functions, flags)
            && analyze_stmts_purity(body, functions, flags),
        Stmt::ParFor { start, end, body, .. } => analyze_expr_purity(start, functions, flags)
            && analyze_expr_purity(end, functions, flags)
            && analyze_stmts_purity(body, functions, flags),
        Stmt::ForEach { iterable, body, .. } => analyze_expr_purity(iterable, functions, flags)
            && analyze_stmts_purity(body, functions, flags),
        Stmt::Assert { .. } => false,
        Stmt::Panic { .. } => false,
        _ => true,
    }
}

/// Whether the expression of an arm of a match expression has no effect.
fn analyze_arm_purity(node: &MatchArm, functions: &Vec<Function>, flags: &Vec<bool>) -> (pure: bool)
    ensures
        pure == pure_arm(node@, functions_view(functions@), flags@),
    decreases node,
{
    analyze_expr_purity(&node.expr, functions, flags)
}

/// Whether the expression of a field of a struct literal has no effect.
fn analyze_init_purity(
    node: &StructInitField,
    functions: &Vec<Function>,
    flags: &Vec<bool>,
) -> (pure: bool)
    ensures
        pure == pure_init(node@, functions_view(functions@), flags@),
    decreases node,
{
    analyze_expr_purity(&node.expr, functions, flags)
}

/// Whether the expression of an entry of a dictionary literal has no effect.
fn analyze_entry_purity(
    node: &DictEntry,
    functions: &Vec<Function>,
    flags: &Vec<bool>,
) -> (pure: bool)
    ensures
        pure == pure_entry(node@, functions_view(functions@), flags@),
    decreases node,
{
    analyze_expr_purity(&node.value, functions, flags)
}

/// Whether none of the expressions has an effect.
fn analyze_exprs_purity(
    nodes: &Vec<Expr>,
    functions: &Vec<Function>,
    flags: &Vec<bool>,
) -> (pure: bool)
    ensures
        pure == pure_exprs(exprs_view(nodes@), functions_view(functions@), flags@),
    decreases nodes,
{
    for i in 0..nodes.len()
        invariant
            forall|j: int| 0 <= j < i
                ==> pure_expr((#[trigger] nodes@[j])@, functions_view(functions@), flags@),
    {
        if !analyze_expr_purity(&nodes[i], functions, flags) {
            assert(exprs_view(nodes@)[i as int] == nodes@[i as int]@);
            return false;
        }
    }
    assert forall|j: int| 0 <= j < nodes@.len() implies pure_expr(
        #[trigger] exprs_view(nodes@)[j],
        functions_view(functions@),
        flags@,
    ) by {
        assert(exprs_view(nodes@)[j] == nodes@[j]@);
    }
    true
}

/// Whether none of the statements has an effect outside its function.
fn analyze_stmts_purity(
    nodes: &Vec<Stmt>,
    functions: &Vec<Function>,
    flags: &Vec<bool>,
) -> (pure: bool)
    ensures
        pure == pure_stmts(stmts_node_view(nodes@), functions_view(functions@), flags@),
    decreases nodes,
{
    for i in 0..nodes.len()
        invariant
            forall|j: int| 0 <= j < i
                ==> pure_stmt((#[trigger] nodes@[j])@, functions_view(functions@), flags@),
    {
        if !analyze_stmt_purity(&nodes[i], functions, flags) {
            assert(stmts_node_view(nodes@)[i as int] == nodes@[i as int]@);
            return false;
        }
    }
    assert forall|j: int| 0 <= j < nodes@.len() implies pure_stmt(
        #[trigger] stmts_node_view(nodes@)[j],
        functions_view(functions@),
        flags@,
    ) by {
        assert(stmts_node_view(nodes@)[j] == nodes@[j]@);
    }
    true
}

/// Whether none of the arms has an effect.
fn analyze_arms_purity(
    nodes: &Vec<MatchArm>,
    functions: &Vec<Function>,
    flags: &Vec<bool>,
) -> (pure: bool)
    ensures
        pure == pure_arms(arms_view(nodes@), functions_view(functions@), flags@),
    decreases nodes,
{
    for i in 0..nodes.len()
        invariant
            forall|j: int| 0 <= j < i
                ==> pure_arm((#[trigger] nodes@[j])@, functions_view(functions@), flags@),
    {
        if !analyze_arm_purity(&nodes[i], functions, flags) {
            assert(arms_view(nodes@)[i as int] == nodes@[i as int]@);
            return false;
        }
    }
    assert forall|j: int| 0 <= j < nodes@.len() implies pure_arm(
        #[trigger] arms_view(nodes@)[j],
        functions_view(functions@),
        flags@,
    ) by {
        assert(arms_view(nodes@)[j] == nodes@[j]@);
    }
    true
}

/// Whether none of the fields has an effect.
fn analyze_inits_purity(
    nodes: &Vec<StructInitField>,
    functions: &Vec<Function>,
    flags: &Vec<bool>,
) -> (pure: bool)
    ensures
        pure == pure_inits(inits_view(nodes@), functions_view(functions@), flags@),
    decreases nodes,
{
    for i in 0..nodes.len()
        invariant
            forall|j: int| 0 <= j < i
                ==> pure_init((#[trigger] nodes@[j])@, functions_view(functions@), flags@),
    {
        if !analyze_init_purity(&nodes[i], functions, flags) {
            assert(inits_view(nodes@)[i as int] == nodes@[i as int]@);
            return false;
        }
    }
    assert forall|j: int| 0 <= j < nodes@.len() implies pure_init(
        #[trigger] inits_view(nodes@)[j],
        functions_view(functions@),
        flags@,
    ) by {
        assert(inits_view(nodes@)[j] == nodes@[j]@);
    }
    true
}

/// Whether none of the entries has an effect.
fn analyze_entries_purity(
    nodes: &Vec<DictEntry>,
    functions: &Vec<Function>,
    flags: &Vec<bool>,
) -> (pure: bool)
    ensures
        pure == pure_entries(entries_view(nodes@), functions_view(functions@), flags@),
    decreases nodes,
{
    for i in 0..nodes.len()
        invariant
            forall|j: int| 0 <= j < i
                ==> pure_entry((#[trigger] nodes@[j])@, functions_view(functions@), flags@),
    {
        if !analyze_entry_purity(&nodes[i], functions, flags) {
            assert(entries_view(nodes@)[i as int] == nodes@[i as int]@);
            return false;
        }
    }
    assert forall|j: int| 0 <= j < nodes@.len() implies pure_entry(
        #[trigger] entries_view(nodes@)[j],
        functions_view(functions@),
        flags@,
    ) by {
        assert(entries_view(nodes@)[j] == nodes@[j]@);
    }
    true
}


/// The marks after a round: a function is marked if its body has no effect as
/// long as calls of the functions marked before have none.
pub open spec fn marked_once(functions: Seq<FunctionView>, flags: Seq<bool>) -> Seq<bool> {
    Seq::new(functions.len(), |i: int| pure_stmts(functions[i].body, functions, flags))
}

/// The marks after some rounds, where at first no function is marked.
pub open spec fn marked_after(functions: Seq<FunctionView>, rounds: nat) -> Seq<bool>
    decreases rounds,
{
    if rounds == 0 {
        Seq::new(functions.len(), |i: int| false)
    } else {
        marked_once(functions, marked_after(functions, (rounds - 1) as nat))
    }
}

/// Which functions have no effect outside themselves. A function that calls
/// itself, directly or through others, counts as one that has.
pub open spec fn purity(functions: Seq<FunctionView>) -> Seq<bool> {
    marked_after(functions, functions.len())
}

/// Every mark of the first stands in the second.
pub open spec fn marks_within(first: Seq<bool>, second: Seq<bool>) -> bool {
    first.len() == second.len() && forall|i: int| 0 <= i < first.len()
        && #[trigger] first[i] ==> second[i]
}

/// Whether two lists of marks are the same.
fn same_marks(a: &Vec<bool>, b: &Vec<bool>) -> (same: bool)
    ensures
        same == (a@ == b@),
{
    if a.len() != b.len() {
        return false;
    }
    for i in 0..a.len()
        invariant
            a@.len() == b@.len(),
            forall|j: int| 0 <= j < i ==> a@[j] == b@[j],
    {
        if a[i] != b[i] {
            return false;
        }
    }
    assert(a@ =~= b@);
    true
}

/// The marks after a round.
fn mark_pure_functions(functions: &Vec<Function>, flags: &Vec<bool>) -> (marked: Vec<bool>)
    ensures
        marked@ == marked_once(functions_view(functions@), flags@),
{
    let ghost all = functions_view(functions@);
    let mut marked: Vec<bool> = Vec::with_capacity(functions.len());
    for i in 0..functions.len()
        invariant
            all == functions_view(functions@),
            marked@.len() == i,
            forall|j: int|
                0 <= j < i ==> #[trigger] marked@[j] == pure_stmts(all[j].body, all, flags@),
    {
        assert(all[i as int] == functions@[i as int]@);
        marked.push(analyze_stmts_purity(&functions[i].body, functions, flags));
    }
    assert(marked@ =~= marked_once(all, flags@));
    marked
}

/// Which functions have no effect outside themselves.
pub fn analyze_pure_functions(functions: &Vec<Function>) -> (flags: Vec<bool>)
    ensures
        flags@ == purity(functions_view(functions@)),
{
    let ghost all = functions_view(functions@);
    let mut flags: Vec<bool> = Vec::with_capacity(functions.len());
    for i in 0..functions.len()
        invariant
            flags@.len() == i,
            forall|j: int| 0 <= j < i ==> !(#[trigger] flags@[j]),
    {
        flags.push(false);
    }
    assert(flags@ =~= marked_after(all, 0));
    for round in 0..functions.len()
        invariant
            all == functions_view(functions@),
            flags@ == marked_after(all, round as nat),
    {
        let next = mark_pure_functions(functions, &flags);
        if same_marks(&next, &flags) {
            proof {
                lemma_stays(all, round as nat, all.len());
            }
            return flags;
        }
        flags = next;
    }
    flags
}

/// Marks that a round does not change stay as they are.
proof fn lemma_stays(functions: Seq<FunctionView>, from: nat, to: nat)
    requires
        from <= to,
        marked_once(functions, marked_after(functions, from)) == marked_after(functions, from),
    ensures
        marked_after(functions, to) == marked_after(functions, from),
    decreases to,
{
    if from < to {
        lemma_stays(functions, from, (to - 1) as nat);
    }
}

/// With more functions marked, no expression gains an effect.
proof fn lemma_pure_expr_monotone(
    node: ExprView,
    functions: Seq<FunctionView>,
    first: Seq<bool>,
    second: Seq<bool>,
)
    requires
        marks_within(first, second),
        pure_expr(node, functions, first),
    ensures
        pure_expr(node, functions, second),
    decreases node,
{
    match node {
        ExprView::Call { name, args, .. } => {
            lemma_position_from(function_names(functions), name, 0);
            lemma_pure_exprs_monotone(args, functions, first, second);
        },
        ExprView::QualifiedCall { args, .. } => {
            lemma_pure_exprs_monotone(args, functions, first, second);
        },
        ExprView::Unary { expr, .. } => {
            lemma_pure_expr_monotone(*expr, functions, first, second);
        },
        ExprView::Binary { left, right, .. } => {
            lemma_pure_expr_monotone(*left, functions, first, second);
            lemma_pure_expr_monotone(*right, functions, first, second);
        },
        ExprView::FieldAccess { base, .. } => {
            lemma_pure_expr_monotone(*base, functions, first, second);
        },
        ExprView::Index { base, index, .. } => {
            lemma_pure_expr_monotone(*base, functions, first, second);
            lemma_pure_expr_monotone(*index, functions, first, second);
        },
        ExprView::ArrayLit { elems, .. } => {
            lemma_pure_exprs_monotone(elems, functions, first, second);
        },
        ExprView::StructInit { fields, .. } => {
            lemma_pure_inits_monotone(fields, functions, first, second);
        },
        ExprView::EnumTupleVariant { args, .. } => {
            lemma_pure_exprs_monotone(args, functions, first, second);
        },
        ExprView::EnumStructVariant { fields, .. } => {
            lemma_pure_inits_monotone(fields, functions, first, second);
        },
        ExprView::DictLit { entries, .. } => {
            lemma_pure_entries_monotone(entries, functions, first, second);
        },
        ExprView::MethodCall { receiver, .. } => {
            lemma_pure_expr_monotone(*receiver, functions, first, second);
        },
        ExprView::Match { value, arms, .. } => {
            lemma_pure_expr_monotone(*value, functions, first, second);
            lemma_pure_arms_monotone(arms, functions, first, second);
        },
        _ => {},
    }
}

/// With more functions marked, no statement gains an effect.
proof fn lemma_pure_stmt_monotone(
    node: StmtNode,
    functions: Seq<FunctionView>,
    first: Seq<bool>,
    second: Seq<bool>,
)
    requires
        marks_within(first, second),
        pure_stmt(node, functions, first),
    ensures
        pure_stmt(node, functions, second),
    decreases node,
{
    match node {
        StmtNode::Let { expr, .. } => {
            lemma_pure_expr_monotone(expr, functions, first, second);
        },
        StmtNode::Assign { expr, .. } => {
            lemma_pure_expr_monotone(expr, functions, first, second);
        },
        StmtNode::AssignField { expr, .. } => {
            lemma_pure_expr_monotone(expr, functions, first, second);
        },
        StmtNode::AssignIndex { index, expr, .. } => {
            lemma_pure_expr_monotone(index, functions, first, second);
            lemma_pure_expr_monotone(expr, functions, first, second);
        },
        StmtNode::AssignStructListIndex { index, expr, .. } => {
            lemma_pure_expr_monotone(index, functions, first, second);
            lemma_pure_expr_monotone(expr, functions, first, second);
        },
        StmtNode::Call { name, args, .. } => {
            lemma_position_from(function_names(functions), name, 0);
            lemma_pure_exprs_monotone(args, functions, first, second);
        },
        StmtNode::Return { expr, .. } => {
            if let Some(node) = expr {
                lemma_pure_expr_monotone(node, functions, first, second);
            }
        },
        StmtNode::Block { stmts, .. } => {
            lemma_pure_stmts_monotone(stmts, functions, first, second);
        },
        StmtNode::If { cond, then_branch, else_branch, .. } => {
            lemma_pure_expr_monotone(cond, functions, first, second);
            lemma_pure_stmts_monotone(then_branch, functions, first, second);
            if let Some(list) = else_branch {
                lemma_pure_stmts_monotone(list, functions, first, second);
            }
        },
        StmtNode::While { cond, body, .. } => {
            lemma_pure_expr_monotone(cond, functions, first, second);
            lemma_pure_stmts_monotone(body, functions, first, second);
        },
        StmtNode::Loop { body, .. } => {
            lemma_pure_stmts_monotone(body, functions, first, second);
        },
        StmtNode::For { start, end, body, .. } => {
            lemma_pure_expr_monotone(start, functions, first, second);
            lemma_pure_expr_monotone(end, functions, first, second);
            lemma_pure_stmts_monotone(body, functions, first, second);
        },
        StmtNode::ParFor { start, end, body, .. } => {
            lemma_pure_expr_monotone(start, functions, first, second);
            lemma_pure_expr_monotone(end, functions, first, second);
            lemma_pure_stmts_monotone(body, functions, first, second);
        },
        StmtNode::ForEach { iterable, body, .. } => {
            lemma_pure_expr_monotone(iterable, functions, first, second);
            lemma_pure_stmts_monotone(body, functions, first, second);
        },
        _ => {},
    }
}

/// The same of a list.
proof fn lemma_pure_exprs_monotone(
    nodes: Seq<ExprView>,
    functions: Seq<FunctionView>,
    first: Seq<bool>,
    second: Seq<bool>,
)
    requires
        marks_within(first, second),
        pure_exprs(nodes, functions, first),
    ensures
        pure_exprs(nodes, functions, second),
    decreases nodes,
{
    assert forall|i: int| 0 <= i < nodes.len() implies pure_expr(
        #[trigger] nodes[i],
        functions,
        second,
    ) by {
        assert(pure_expr(nodes[i], functions, first));
        lemma_pure_expr_monotone(nodes[i], functions, first, second);
    }
}

/// The same of a list.
proof fn lemma_pure_stmts_monotone(
    nodes: Seq<StmtNode>,
    functions: Seq<FunctionView>,
    first: Seq<bool>,
    second: Seq<bool>,
)
    requires
        marks_within(first, second),
        pure_stmts(nodes, functions, first),
    ensures
        pure_stmts(nodes, functions, second),
    decreases nodes,
{
    assert forall|i: int| 0 <= i < nodes.len() implies pure_stmt(
        #[trigger] nodes[i],
        functions,
        second,
    ) by {
        assert(pure_stmt(nodes[i], functions, first));
        lemma_pure_stmt_monotone(nodes[i], functions, first, second);
    }
}

/// The same of a list.
proof fn lemma_pure_arms_monotone(
    nodes: Seq<ArmView>,
    functions: Seq<FunctionView>,
    first: Seq<bool>,
    second: Seq<bool>,
)
    requires
        marks_within(first, second),
        pure_arms(nodes, functions, first),
    ensures
        pure_arms(nodes, functions, second),
    decreases nodes,
{
    assert forall|i: int| 0 <= i < nodes.len() implies pure_arm(
        #[trigger] nodes[i],
        functions,
        second,
    ) by {
        assert(pure_arm(nodes[i], functions, first));
        lemma_pure_expr_monotone(nodes[i].expr, functions, first, second);
    }
}

/// The same of a list.
proof fn lemma_pure_inits_monotone(
    nodes: Seq<InitView>,
    functions: Seq<FunctionView>,
    first: Seq<bool>,
    second: Seq<bool>,
)
    requires
        marks_within(first, second),
        pure_inits(nodes, functions, first),
    ensures
        pure_inits(nodes, functions, second),
    decreases nodes,
{
    assert forall|i: int| 0 <= i < nodes.len() implies pure_init(
        #[trigger] nodes[i],
        functions,
        second,
    ) by {
        assert(pure_init(nodes[i], functions, first));
        lemma_pure_expr_monotone(nodes[i].expr, functions, first, second);
    }
}

/// The same of a list.
proof fn lemma_pure_entries_monotone(
    nodes: Seq<EntryView>,
    functions: Seq<FunctionView>,
    first: Seq<bool>,
    second: Seq<bool>,
)
    requires
        marks_within(first, second),
        pure_entries(nodes, functions, first),
    ensures
        pure_entries(nodes, functions, second),
    decreases nodes,
{
    assert forall|i: int| 0 <= i < nodes.len() implies pure_entry(
        #[trigger] nodes[i],
        functions,
        second,
    ) by {
        assert(pure_entry(nodes[i], functions, first));
        lemma_pure_expr_monotone(nodes[i].value, functions, first, second);
    }
}

/// With more functions marked before a round, none fewer are marked after it.
proof fn lemma_round_monotone(functions: Seq<FunctionView>, first: Seq<bool>, second: Seq<bool>)
    requires
        marks_within(first, second),
    ensures
        marks_within(marked_once(functions, first), marked_once(functions, second)),
{
    assert forall|i: int|
        0 <= i < functions.len() && #[trigger] marked_once(functions, first)[i] implies marked_once(
        functions,
        second,
    )[i] by {
        lemma_pure_stmts_monotone(functions[i].body, functions, first, second);
    }
}

/// No round takes a mark away.
proof fn lemma_marks_grow(functions: Seq<FunctionView>, rounds: nat)
    ensures
        marks_within(marked_after(functions, rounds), marked_after(functions, rounds + 1)),
    decreases rounds,
{
    if rounds > 0 {
        lemma_marks_grow(functions, (rounds - 1) as nat);
        lemma_round_monotone(
            functions,
            marked_after(functions, (rounds - 1) as nat),
            marked_after(functions, rounds),
        );
    }
}

/// The number of marks.
spec fn mark_count(flags: Seq<bool>) -> nat
    decreases flags.len(),
{
    if flags.len() == 0 {
        0
    } else {
        mark_count(flags.drop_last()) + if flags.last() {
            1nat
        } else {
            0nat
        }
    }
}

/// There are no more marks than places, and a further mark raises their number.
proof fn lemma_mark_count(first: Seq<bool>, second: Seq<bool>)
    requires
        marks_within(first, second),
    ensures
        mark_count(first) <= mark_count(second) <= second.len(),
        first != second ==> mark_count(first) < mark_count(second),
    decreases first.len(),
{
    if first.len() > 0 {
        assert forall|i: int| 0 <= i < first.len() - 1
            && #[trigger] first.drop_last()[i] implies second.drop_last()[i] by {
            assert(first[i]);
        }
        lemma_mark_count(first.drop_last(), second.drop_last());
        assert(first.last() ==> second.last()) by {
            assert(first[first.len() - 1] ==> second[first.len() - 1]);
        }
        if first.drop_last() == second.drop_last() && first.last() == second.last() {
            assert(first =~= first.drop_last().push(first.last()));
            assert(second =~= second.drop_last().push(second.last()));
        }
    } else {
        assert(first =~= second);
    }
}

/// Unless the marks have settled, each round adds one.
proof fn lemma_settles(functions: Seq<FunctionView>, rounds: nat)
    ensures
        marked_once(functions, marked_after(functions, rounds)) == marked_after(functions, rounds)
            || mark_count(marked_after(functions, rounds)) >= rounds,
    decreases rounds,
{
    if rounds > 0 {
        let before = (rounds - 1) as nat;
        lemma_settles(functions, before);
        lemma_marks_grow(functions, before);
        lemma_mark_count(marked_after(functions, before), marked_after(functions, rounds));
    }
}

/// The marks agree with the bodies: a function is pure exactly if its body has
/// no effect as long as calls of pure functions have none.
pub proof fn law_purity_agrees_with_bodies(functions: Seq<FunctionView>)
    ensures
        marked_once(functions, purity(functions)) == purity(functions),
{
    let rounds = functions.len();
    lemma_settles(functions, rounds);
    lemma_marks_grow(functions, rounds);
    lemma_mark_count(marked_after(functions, rounds), marked_after(functions, rounds + 1));
}

/// No marks that agree with the bodies are fewer: nothing is pure without need.
pub proof fn law_purity_is_least(functions: Seq<FunctionView>, flags: Seq<bool>)
    requires
        marked_once(functions, flags) == flags,
    ensures
        marks_within(purity(functions), flags),
{
    lemma_within(functions, flags, functions.len());
}

/// After any number of rounds the marks lie within any that agree with the
/// bodies.
proof fn lemma_within(functions: Seq<FunctionView>, flags: Seq<bool>, rounds: nat)
    requires
        marked_once(functions, flags) == flags,
    ensures
        marks_within(marked_after(functions, rounds), flags),
    decreases rounds,
{
    if rounds == 0 {
        assert(marked_once(functions, flags).len() == functions.len());
    } else {
        lemma_within(functions, flags, (rounds - 1) as nat);
        lemma_round_monotone(functions, marked_after(functions, (rounds - 1) as nat), flags);
    }
}

/// A pure function does not call itself, directly or through others: its body
/// has no effect even where it is not counted as pure, nor any function that
/// needs it to be.
pub proof fn law_pure_functions_do_not_recurse(
    functions: Seq<FunctionView>,
    at: int,
) -> (rounds: nat)
    requires
        0 <= at < functions.len(),
        purity(functions)[at],
    ensures
        rounds < functions.len(),
        !marked_after(functions, rounds)[at],
        pure_stmts(functions[at].body, functions, marked_after(functions, rounds)),
{
    lemma_first_mark(functions, at, functions.len())
}

/// The round that marks a function.
proof fn lemma_first_mark(functions: Seq<FunctionView>, at: int, to: nat) -> (rounds: nat)
    requires
        0 <= at < functions.len(),
        marked_after(functions, to)[at],
    ensures
        rounds < to,
        !marked_after(functions, rounds)[at],
        pure_stmts(functions[at].body, functions, marked_after(functions, rounds)),
    decreases to,
{
    let before = (to - 1) as nat;
    if marked_after(functions, before)[at] {
        lemma_first_mark(functions, at, before)
    } else {
        before
    }
}

} // verus!
