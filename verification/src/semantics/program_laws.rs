//! What the index of a program promises.

use crate::ast::{
    ArmView, EntryView, EnumView, ExprView, Function, FunctionView, InherentImplView, InitView,
    ItemView, ReductionView, Span, StmtNode, StructView, SyntaxView, TraitImplView, TraitView,
    TypeView,
};
use crate::diagnostic::DiagnosticView;
use crate::semantics::collect::{builtin_enums, declared_by, problem_from};
use crate::semantics::impls::{
    inherent_function, trait_function, with_inherent_impls, with_inherent_methods, with_trait_impls,
    with_trait_methods,
};
use crate::semantics::index::IndexView;
use crate::semantics::known::{type_problem, types_problem};
use crate::semantics::layouts::layouts_of;
use crate::semantics::names::{
    enum_names, function_names, is_listed, lemma_is_listed, position_of, struct_names, trait_names,
};
use crate::semantics::program::{
    indexed, plain_index, resolved_functions, signature_types_problem, struct_types_problem,
    with_methods,
};
use crate::semantics::purity::law_purity_agrees_with_bodies;
use crate::semantics::qualified::{
    resolved_arm, resolved_arms, resolved_entries, resolved_entry, resolved_expr, resolved_exprs,
    resolved_init, resolved_inits, resolved_stmt, resolved_stmts,
};
use vstd::prelude::*;

verus! {

/// A new name leaves no name twice.
proof fn lemma_push_distinct(names: Seq<Seq<char>>, name: Seq<char>)
    requires
        names.no_duplicates(),
        !is_listed(names, name),
    ensures
        names.push(name).no_duplicates(),
{
    lemma_is_listed(names, name);
    let longer = names.push(name);
    assert forall|i: int, j: int| 0 <= i < j < longer.len() implies #[trigger] longer[i]
        != #[trigger] longer[j] by {
        if j == names.len() {
            assert(names.contains(names[i]));
        }
    }
}

/// Within each list no name stands twice.
pub open spec fn has_distinct_names(index: IndexView) -> bool {
    &&& function_names(index.functions).no_duplicates()
    &&& struct_names(index.structs).no_duplicates()
    &&& enum_names(index.enums).no_duplicates()
    &&& trait_names(index.traits).no_duplicates()
}

/// What the first items declare has distinct names.
proof fn lemma_declared_distinct(items: Seq<ItemView>, count: nat)
    ensures
        declared_by(items, count) matches Ok(declared) ==> has_distinct_names(
            plain_index(declared),
        ),
    decreases count,
{
    if count == 0 || count > items.len() {
        reveal_strlit("Option");
        reveal_strlit("Result");
        let names = enum_names(builtin_enums());
        assert(names[0] == "Option"@);
        assert(names[1] == "Result"@);
        assert("Option"@.len() == 6 && "Result"@.len() == 6);
        assert("Option"@[0] == 'O');
        assert("Result"@[0] == 'R');
    } else {
        lemma_declared_distinct(items, (count - 1) as nat);
        if let Ok(before) = declared_by(items, (count - 1) as nat) {
            match items[count - 1] {
                ItemView::Function(def) => {
                    if !is_listed(function_names(before.functions), def.name) {
                        lemma_push_distinct(function_names(before.functions), def.name);
                        assert(function_names(before.functions.push(def)) =~= function_names(
                            before.functions,
                        ).push(def.name));
                    }
                },
                ItemView::Struct(def) => {
                    if !is_listed(struct_names(before.structs), def.name) {
                        lemma_push_distinct(struct_names(before.structs), def.name);
                        assert(struct_names(before.structs.push(def)) =~= struct_names(
                            before.structs,
                        ).push(def.name));
                    }
                },
                ItemView::Enum(def) => {
                    if !is_listed(enum_names(before.enums), def.name) {
                        lemma_push_distinct(enum_names(before.enums), def.name);
                        assert(enum_names(before.enums.push(def)) =~= enum_names(
                            before.enums,
                        ).push(def.name));
                    }
                },
                ItemView::Trait(def) => {
                    if !is_listed(trait_names(before.traits), def.name) {
                        lemma_push_distinct(trait_names(before.traits), def.name);
                        assert(trait_names(before.traits.push(def)) =~= trait_names(
                            before.traits,
                        ).push(def.name));
                    }
                },
                _ => {},
            }
        }
    }
}

/// The methods of a type bring no name a second time.
proof fn lemma_inherent_methods_distinct(
    functions: Seq<FunctionView>,
    for_type: Seq<char>,
    methods: Seq<FunctionView>,
    count: nat,
)
    requires
        function_names(functions).no_duplicates(),
    ensures
        with_inherent_methods(functions, for_type, methods, count) matches Ok(done)
            ==> function_names(done).no_duplicates(),
    decreases count,
{
    if 0 < count <= methods.len() {
        let before = (count - 1) as nat;
        lemma_inherent_methods_distinct(functions, for_type, methods, before);
        if let Ok(done) = with_inherent_methods(functions, for_type, methods, before) {
            let new = inherent_function(methods[before as int], for_type);
            if !is_listed(function_names(done), new.name) {
                lemma_push_distinct(function_names(done), new.name);
                assert(function_names(done.push(new)) =~= function_names(done).push(new.name));
            }
        }
    }
}

/// The methods of types bring no name a second time.
proof fn lemma_inherent_impls_distinct(
    functions: Seq<FunctionView>,
    structs: Seq<StructView>,
    impls: Seq<InherentImplView>,
    count: nat,
)
    requires
        function_names(functions).no_duplicates(),
    ensures
        with_inherent_impls(functions, structs, impls, count) matches Ok(done) ==> function_names(
            done,
        ).no_duplicates(),
    decreases count,
{
    if 0 < count <= impls.len() {
        let before = (count - 1) as nat;
        lemma_inherent_impls_distinct(functions, structs, impls, before);
        if let Ok(done) = with_inherent_impls(functions, structs, impls, before) {
            let def = impls[before as int];
            lemma_inherent_methods_distinct(done, def.for_type, def.methods, def.methods.len());
        }
    }
}

/// The methods of a trait bring no name a second time.
proof fn lemma_trait_methods_distinct(
    functions: Seq<FunctionView>,
    def: TraitView,
    for_type: Seq<char>,
    methods: Seq<FunctionView>,
    count: nat,
)
    requires
        function_names(functions).no_duplicates(),
    ensures
        with_trait_methods(functions, def, for_type, methods, count) matches Ok(done)
            ==> function_names(done).no_duplicates(),
    decreases count,
{
    if 0 < count <= methods.len() {
        let before = (count - 1) as nat;
        lemma_trait_methods_distinct(functions, def, for_type, methods, before);
        if let Ok(done) = with_trait_methods(functions, def, for_type, methods, before) {
            let new = trait_function(methods[before as int], for_type);
            if !is_listed(function_names(done), new.name) {
                lemma_push_distinct(function_names(done), new.name);
                assert(function_names(done.push(new)) =~= function_names(done).push(new.name));
            }
        }
    }
}

/// The methods of traits bring no name a second time.
proof fn lemma_trait_impls_distinct(
    functions: Seq<FunctionView>,
    structs: Seq<StructView>,
    traits: Seq<TraitView>,
    impls: Seq<TraitImplView>,
    count: nat,
)
    requires
        function_names(functions).no_duplicates(),
    ensures
        with_trait_impls(functions, structs, traits, impls, count) matches Ok(done)
            ==> function_names(done).no_duplicates(),
    decreases count,
{
    if 0 < count <= impls.len() {
        let before = (count - 1) as nat;
        lemma_trait_impls_distinct(functions, structs, traits, impls, before);
        if let Ok(done) = with_trait_impls(functions, structs, traits, impls, before) {
            let def = impls[before as int];
            if let Some(at) = position_of(trait_names(traits), def.trait_name) {
                lemma_trait_methods_distinct(
                    done,
                    traits[at],
                    def.for_type,
                    def.methods,
                    def.methods.len(),
                );
            }
        }
    }
}

/// The expression holds no call with an owner.
pub open spec fn names_no_owner(node: ExprView) -> bool
    decreases node,
{
    match node {
        ExprView::Call { args, .. } => all_name_no_owner(args),
        ExprView::QualifiedCall { .. } => false,
        ExprView::Unary { expr, .. } => names_no_owner(*expr),
        ExprView::Binary { left, right, .. } => names_no_owner(*left) && names_no_owner(*right),
        ExprView::FieldAccess { base, .. } => names_no_owner(*base),
        ExprView::Index { base, index, .. } => names_no_owner(*base) && names_no_owner(*index),
        ExprView::ArrayLit { elems, .. } => all_name_no_owner(elems),
        ExprView::StructInit { fields, .. } => inits_name_no_owner(fields),
        ExprView::EnumTupleVariant { args, .. } => all_name_no_owner(args),
        ExprView::EnumStructVariant { fields, .. } => inits_name_no_owner(fields),
        ExprView::DictLit { entries, .. } => entries_name_no_owner(entries),
        ExprView::MethodCall { receiver, args, .. } => names_no_owner(*receiver)
            && all_name_no_owner(args),
        ExprView::Match { value, arms, .. } => names_no_owner(*value) && arms_name_no_owner(arms),
        _ => true,
    }
}

/// The statement holds no call with an owner.
pub open spec fn stmt_names_no_owner(node: StmtNode) -> bool
    decreases node,
{
    match node {
        StmtNode::Let { expr, .. } => names_no_owner(expr),
        StmtNode::Assign { expr, .. } => names_no_owner(expr),
        StmtNode::AssignField { expr, .. } => names_no_owner(expr),
        StmtNode::AssignIndex { index, expr, .. } => names_no_owner(index) && names_no_owner(expr),
        StmtNode::AssignStructListIndex { index, expr, .. } => names_no_owner(index)
            && names_no_owner(expr),
        StmtNode::Call { args, .. } => all_name_no_owner(args),
        StmtNode::MethodCall { args, .. } => all_name_no_owner(args),
        StmtNode::StructListMethodCall { args, .. } => all_name_no_owner(args),
        StmtNode::Return { expr, .. } => (match expr {
                Some(node) => names_no_owner(node),
                None => true,
        }),
        StmtNode::Print { expr, .. } => names_no_owner(expr),
        StmtNode::Exit { expr, .. } => names_no_owner(expr),
        StmtNode::BenchLoop { iterations, .. } => names_no_owner(iterations),
        StmtNode::Block { stmts, .. } => stmts_name_no_owner(stmts),
        StmtNode::If { cond, then_branch, else_branch, .. } => names_no_owner(cond)
            && stmts_name_no_owner(then_branch) && (match else_branch {
                Some(list) => stmts_name_no_owner(list),
                None => true,
        }),
        StmtNode::While { cond, body, .. } => names_no_owner(cond) && stmts_name_no_owner(body),
        StmtNode::Loop { body, .. } => stmts_name_no_owner(body),
        StmtNode::For { start, end, body, .. } => names_no_owner(start) && names_no_owner(end)
            && stmts_name_no_owner(body),
        StmtNode::ParFor { start, end, body, reduction, .. } => names_no_owner(start)
            && names_no_owner(end) && stmts_name_no_owner(body) && (match reduction {
                Some(node) => reduction_names_no_owner(node),
                None => true,
        }),
        StmtNode::ForEach { iterable, body, .. } => names_no_owner(iterable)
            && stmts_name_no_owner(body),
        StmtNode::Assert { cond, message, .. } => names_no_owner(cond) && (match message {
                Some(node) => names_no_owner(node),
                None => true,
        }),
        StmtNode::Panic { message, .. } => names_no_owner(message),
        _ => true,
    }
}

/// Its expression holds no call with an owner.
pub open spec fn arm_names_no_owner(node: ArmView) -> bool
    decreases node,
{
    names_no_owner(node.expr)
}

/// Its expression holds no call with an owner.
pub open spec fn init_names_no_owner(node: InitView) -> bool
    decreases node,
{
    names_no_owner(node.expr)
}

/// Its expression holds no call with an owner.
pub open spec fn entry_names_no_owner(node: EntryView) -> bool
    decreases node,
{
    names_no_owner(node.value)
}

/// Its expression holds no call with an owner.
pub open spec fn reduction_names_no_owner(node: ReductionView) -> bool
    decreases node,
{
    names_no_owner(node.expr)
}

/// None of them holds a call with an owner.
pub open spec fn all_name_no_owner(nodes: Seq<ExprView>) -> bool
    decreases nodes,
{
    forall|i: int| 0 <= i < nodes.len() ==> names_no_owner(#[trigger] nodes[i])
}

/// None of them holds a call with an owner.
pub open spec fn stmts_name_no_owner(nodes: Seq<StmtNode>) -> bool
    decreases nodes,
{
    forall|i: int| 0 <= i < nodes.len() ==> stmt_names_no_owner(#[trigger] nodes[i])
}

/// None of them holds a call with an owner.
pub open spec fn arms_name_no_owner(nodes: Seq<ArmView>) -> bool
    decreases nodes,
{
    forall|i: int| 0 <= i < nodes.len() ==> arm_names_no_owner(#[trigger] nodes[i])
}

/// None of them holds a call with an owner.
pub open spec fn inits_name_no_owner(nodes: Seq<InitView>) -> bool
    decreases nodes,
{
    forall|i: int| 0 <= i < nodes.len() ==> init_names_no_owner(#[trigger] nodes[i])
}

/// None of them holds a call with an owner.
pub open spec fn entries_name_no_owner(nodes: Seq<EntryView>) -> bool
    decreases nodes,
{
    forall|i: int| 0 <= i < nodes.len() ==> entry_names_no_owner(#[trigger] nodes[i])
}

/// What is resolved holds no call with an owner.
pub proof fn lemma_expr_resolved(node: ExprView, enums: Seq<EnumView>)
    ensures
        resolved_expr(node, enums) matches Ok(new) ==> names_no_owner(new),
    decreases node, 0int,
{
    match node {
        ExprView::Call { args, .. } => {
            lemma_resolved_exprs(args, args.len() as int, enums);
        },
        ExprView::QualifiedCall { args, .. } => {
            lemma_resolved_exprs(args, args.len() as int, enums);
        },
        ExprView::Unary { expr, .. } => {
            lemma_expr_resolved(*expr, enums);
        },
        ExprView::Binary { left, right, .. } => {
            lemma_expr_resolved(*left, enums);
            lemma_expr_resolved(*right, enums);
        },
        ExprView::FieldAccess { base, .. } => {
            lemma_expr_resolved(*base, enums);
        },
        ExprView::Index { base, index, .. } => {
            lemma_expr_resolved(*base, enums);
            lemma_expr_resolved(*index, enums);
        },
        ExprView::ArrayLit { elems, .. } => {
            lemma_resolved_exprs(elems, elems.len() as int, enums);
        },
        ExprView::StructInit { fields, .. } => {
            lemma_resolved_inits(fields, fields.len() as int, enums);
        },
        ExprView::EnumTupleVariant { args, .. } => {
            lemma_resolved_exprs(args, args.len() as int, enums);
        },
        ExprView::EnumStructVariant { fields, .. } => {
            lemma_resolved_inits(fields, fields.len() as int, enums);
        },
        ExprView::DictLit { entries, .. } => {
            lemma_resolved_entries(entries, entries.len() as int, enums);
        },
        ExprView::MethodCall { receiver, args, .. } => {
            lemma_expr_resolved(*receiver, enums);
            lemma_resolved_exprs(args, args.len() as int, enums);
        },
        ExprView::Match { value, arms, .. } => {
            lemma_expr_resolved(*value, enums);
            lemma_resolved_arms(arms, arms.len() as int, enums);
        },
        _ => {},
    }
}

/// What is resolved holds no call with an owner.
#[verifier::rlimit(60)]
proof fn lemma_stmt_resolved(node: StmtNode, enums: Seq<EnumView>)
    ensures
        resolved_stmt(node, enums) matches Ok(new) ==> stmt_names_no_owner(new),
    decreases node, 0int,
{
    match node {
        StmtNode::Let { expr, .. } => {
            lemma_expr_resolved(expr, enums);
        },
        StmtNode::Assign { expr, .. } => {
            lemma_expr_resolved(expr, enums);
        },
        StmtNode::AssignField { expr, .. } => {
            lemma_expr_resolved(expr, enums);
        },
        StmtNode::AssignIndex { index, expr, .. } => {
            lemma_expr_resolved(index, enums);
            lemma_expr_resolved(expr, enums);
        },
        StmtNode::AssignStructListIndex { index, expr, .. } => {
            lemma_expr_resolved(index, enums);
            lemma_expr_resolved(expr, enums);
        },
        StmtNode::Call { args, .. } => {
            lemma_resolved_exprs(args, args.len() as int, enums);
        },
        StmtNode::MethodCall { args, .. } => {
            lemma_resolved_exprs(args, args.len() as int, enums);
        },
        StmtNode::StructListMethodCall { args, .. } => {
            lemma_resolved_exprs(args, args.len() as int, enums);
        },
        StmtNode::Return { expr, .. } => {
            if let Some(node) = expr {
                lemma_expr_resolved(node, enums);
            }
        },
        StmtNode::Print { expr, .. } => {
            lemma_expr_resolved(expr, enums);
        },
        StmtNode::Exit { expr, .. } => {
            lemma_expr_resolved(expr, enums);
        },
        StmtNode::BenchLoop { iterations, .. } => {
            lemma_expr_resolved(iterations, enums);
        },
        StmtNode::Block { stmts, .. } => {
            lemma_resolved_stmts(stmts, stmts.len() as int, enums);
        },
        StmtNode::If { cond, then_branch, else_branch, .. } => {
            lemma_expr_resolved(cond, enums);
            lemma_resolved_stmts(then_branch, then_branch.len() as int, enums);
            if let Some(list) = else_branch {
                lemma_resolved_stmts(list, list.len() as int, enums);
            }
        },
        StmtNode::While { cond, body, .. } => {
            lemma_expr_resolved(cond, enums);
            lemma_resolved_stmts(body, body.len() as int, enums);
        },
        StmtNode::Loop { body, .. } => {
            lemma_resolved_stmts(body, body.len() as int, enums);
        },
        StmtNode::For { start, end, body, .. } => {
            lemma_expr_resolved(start, enums);
            lemma_expr_resolved(end, enums);
            lemma_resolved_stmts(body, body.len() as int, enums);
        },
        StmtNode::ParFor { start, end, body, reduction, .. } => {
            lemma_expr_resolved(start, enums);
            lemma_expr_resolved(end, enums);
            lemma_resolved_stmts(body, body.len() as int, enums);
            if let Some(node) = reduction {
                lemma_expr_resolved(node.expr, enums);
            }
        },
        StmtNode::ForEach { iterable, body, .. } => {
            lemma_expr_resolved(iterable, enums);
            lemma_resolved_stmts(body, body.len() as int, enums);
        },
        StmtNode::Assert { cond, message, .. } => {
            lemma_expr_resolved(cond, enums);
            if let Some(node) = message {
                lemma_expr_resolved(node, enums);
            }
        },
        StmtNode::Panic { message, .. } => {
            lemma_expr_resolved(message, enums);
        },
        _ => {},
    }
}

/// The same of a list.
proof fn lemma_resolved_exprs(nodes: Seq<ExprView>, count: int, enums: Seq<EnumView>)
    requires
        count <= nodes.len(),
    ensures
        resolved_exprs(nodes, count, enums) matches Ok(new) ==> all_name_no_owner(new),
    decreases nodes, count,
{
    if count > 0 {
        lemma_resolved_exprs(nodes, count - 1, enums);
        lemma_expr_resolved(nodes[count - 1], enums);
    }
}

/// The same of a list.
pub proof fn lemma_resolved_stmts(nodes: Seq<StmtNode>, count: int, enums: Seq<EnumView>)
    requires
        count <= nodes.len(),
    ensures
        resolved_stmts(nodes, count, enums) matches Ok(new) ==> stmts_name_no_owner(new),
    decreases nodes, count,
{
    if count > 0 {
        lemma_resolved_stmts(nodes, count - 1, enums);
        lemma_stmt_resolved(nodes[count - 1], enums);
    }
}

/// The same of a list.
proof fn lemma_resolved_arms(nodes: Seq<ArmView>, count: int, enums: Seq<EnumView>)
    requires
        count <= nodes.len(),
    ensures
        resolved_arms(nodes, count, enums) matches Ok(new) ==> arms_name_no_owner(new),
    decreases nodes, count,
{
    if count > 0 {
        lemma_resolved_arms(nodes, count - 1, enums);
        lemma_expr_resolved(nodes[count - 1].expr, enums);
        assert(resolved_arm(nodes[count - 1], enums) matches Ok(new) ==> arm_names_no_owner(new));
    }
}

/// The same of a list.
proof fn lemma_resolved_inits(nodes: Seq<InitView>, count: int, enums: Seq<EnumView>)
    requires
        count <= nodes.len(),
    ensures
        resolved_inits(nodes, count, enums) matches Ok(new) ==> inits_name_no_owner(new),
    decreases nodes, count,
{
    if count > 0 {
        lemma_resolved_inits(nodes, count - 1, enums);
        lemma_expr_resolved(nodes[count - 1].expr, enums);
        assert(resolved_init(nodes[count - 1], enums) matches Ok(new) ==> init_names_no_owner(new));
    }
}

/// The same of a list.
proof fn lemma_resolved_entries(nodes: Seq<EntryView>, count: int, enums: Seq<EnumView>)
    requires
        count <= nodes.len(),
    ensures
        resolved_entries(nodes, count, enums) matches Ok(new) ==> entries_name_no_owner(new),
    decreases nodes, count,
{
    if count > 0 {
        lemma_resolved_entries(nodes, count - 1, enums);
        lemma_expr_resolved(nodes[count - 1].value, enums);
        assert(resolved_entry(
            nodes[count - 1],
            enums,
        ) matches Ok(new) ==> entry_names_no_owner(new));
    }
}


/// To resolve bodies keeps the names of functions, and leaves no call with an
/// owner in them.
proof fn lemma_resolved_functions(functions: Seq<FunctionView>, count: nat, enums: Seq<EnumView>)
    requires
        count <= functions.len(),
    ensures
        resolved_functions(functions, count, enums) matches Ok(done) ==> function_names(done)
            == function_names(functions).subrange(0, count as int) && (forall|i: int|
            0 <= i < done.len() ==> stmts_name_no_owner((#[trigger] done[i]).body)) && (forall|
            i: int,
        |
            0 <= i < done.len() ==> (#[trigger] done[i]).params == functions[i].params
                && done[i].return_type == functions[i].return_type && done[i].span
                == functions[i].span),
    decreases count,
{
    if count == 0 {
        if let Ok(done) = resolved_functions(functions, count, enums) {
            assert(function_names(done) =~= function_names(functions).subrange(0, 0));
        }
    } else {
        let before = (count - 1) as nat;
        lemma_resolved_functions(functions, before, enums);
        let function = functions[before as int];
        lemma_resolved_stmts(function.body, function.body.len() as int, enums);
        if let Ok(done) = resolved_functions(functions, count, enums) {
            let earlier = resolved_functions(functions, before, enums)->Ok_0;
            assert(done.drop_last() =~= earlier);
            assert(function_names(earlier).len() == earlier.len());
            assert forall|i: int| 0 <= i < done.len() implies #[trigger] function_names(done)[i]
                == functions[i].name by {
                if i < earlier.len() {
                    assert(done[i] == earlier[i]);
                    assert(function_names(earlier)[i] == function_names(functions)[i]);
                }
            }
            assert(function_names(done) =~= function_names(functions).subrange(0, count as int));
        }
    }
}

/// In the index of a program no two functions have the same name, nor two
/// structs, two enums or two traits, and there is one flag of purity for each
/// function.
pub proof fn law_names_are_distinct(program: SyntaxView)
    ensures
        indexed(program) matches Ok(index) ==> has_distinct_names(index)
            && index.pure_functions.len() == index.functions.len(),
{
    lemma_declared_distinct(program.items, program.items.len());
    if let Ok(index) = indexed(program) {
        let declared = declared_by(program.items, program.items.len())->Ok_0;
        lemma_inherent_impls_distinct(
            declared.functions,
            declared.structs,
            declared.inherent_impls,
            declared.inherent_impls.len(),
        );
        let own = with_inherent_impls(
            declared.functions,
            declared.structs,
            declared.inherent_impls,
            declared.inherent_impls.len(),
        )->Ok_0;
        lemma_trait_impls_distinct(
            own,
            declared.structs,
            declared.traits,
            declared.trait_impls,
            declared.trait_impls.len(),
        );
        let all = with_trait_impls(
            own,
            declared.structs,
            declared.traits,
            declared.trait_impls,
            declared.trait_impls.len(),
        )->Ok_0;
        lemma_resolved_functions(all, all.len(), declared.enums);
        assert(function_names(all).subrange(0, all.len() as int) =~= function_names(all));
        assert(index.functions.len() == function_names(index.functions).len());
        law_purity_agrees_with_bodies(index.functions);
    }
}

/// In the index of a program no function holds a call with an owner: each is a
/// variant of an enum or a call by one name.
pub proof fn law_calls_are_resolved(program: SyntaxView)
    ensures
        indexed(program) matches Ok(index) ==> forall|i: int|
            0 <= i < index.functions.len() ==> stmts_name_no_owner(
                (#[trigger] index.functions[i]).body,
            ),
{
    if let Ok(index) = indexed(program) {
        let declared = declared_by(program.items, program.items.len())->Ok_0;
        let layouts = layouts_of(declared.structs)->Ok_0;
        let laid = IndexView { struct_layouts: layouts, ..plain_index(declared) };
        let all = with_methods(declared, laid)->Ok_0;
        lemma_resolved_functions(all.functions, all.functions.len(), all.enums);
    }
}

/// Whether a type is known depends on the declared structs and enums alone.
proof fn lemma_type_problem_same(ty: TypeView, a: IndexView, b: IndexView, span: Span)
    requires
        a.structs == b.structs,
        a.enums == b.enums,
    ensures
        type_problem(ty, a, span) == type_problem(ty, b, span),
    decreases ty, 0int,
{
    match ty {
        TypeView::Applied { name, args } => {
            lemma_types_problem_same(args, args.len() as int, a, b, span);
        },
        TypeView::Dict { key, value } | TypeView::Mapping { key, value } => {
            lemma_type_problem_same(*key, a, b, span);
            lemma_type_problem_same(*value, a, b, span);
        },
        TypeView::Array { elem, .. } | TypeView::List { elem } => {
            lemma_type_problem_same(*elem, a, b, span);
        },
        TypeView::Ref { inner, .. } => {
            lemma_type_problem_same(*inner, a, b, span);
        },
        _ => {},
    }
}

/// The same of a list of types.
proof fn lemma_types_problem_same(
    types: Seq<TypeView>,
    count: int,
    a: IndexView,
    b: IndexView,
    span: Span,
)
    requires
        count <= types.len(),
        a.structs == b.structs,
        a.enums == b.enums,
    ensures
        types_problem(types, count, a, span) == types_problem(types, count, b, span),
    decreases types, count,
{
    if count > 0 {
        lemma_types_problem_same(types, count - 1, a, b, span);
        lemma_type_problem_same(types[count - 1], a, b, span);
    }
}

/// Where a list has no problem, none of its members has one.
proof fn lemma_no_problem(problems: Seq<Option<DiagnosticView>>, from: int, at: int)
    requires
        problem_from(problems, from) is None,
        0 <= from <= at < problems.len(),
    ensures
        problems[at] is None,
    decreases problems.len() - from,
{
    if from < at {
        lemma_no_problem(problems, from + 1, at);
    }
}

/// In the index of a program every type that a parameter or a field has is
/// known, and every type that a function gives back.
pub proof fn law_types_are_known(program: SyntaxView)
    ensures
        indexed(program) matches Ok(index) ==> (forall|i: int, j: int|
            0 <= i < index.functions.len() && 0 <= j < index.functions[i].params.len()
                ==> type_problem(
                (#[trigger] index.functions[i].params[j]).ty,
                index,
                index.functions[i].params[j].span,
            ) is None) && (forall|i: int|
            0 <= i < index.functions.len() ==> ((
            #[trigger] index.functions[i]).return_type matches Some(ty) ==> type_problem(
                ty,
                index,
                index.functions[i].span,
            ) is None)) && (forall|i: int, j: int|
            0 <= i < index.structs.len() && 0 <= j < index.structs[i].fields.len() ==> type_problem(
                (#[trigger] index.structs[i].fields[j]).ty,
                index,
                index.structs[i].fields[j].span,
            ) is None),
{
    if let Ok(index) = indexed(program) {
        let declared = declared_by(program.items, program.items.len())->Ok_0;
        let layouts = layouts_of(declared.structs)->Ok_0;
        let laid = IndexView { struct_layouts: layouts, ..plain_index(declared) };
        let all = with_methods(declared, laid)->Ok_0;
        lemma_resolved_functions(all.functions, all.functions.len(), all.enums);
        assert(index.functions.len() == function_names(index.functions).len());
        assert(index.functions.len() == all.functions.len());
        let signatures = Seq::new(
            all.functions.len(),
            |i: int| signature_types_problem(all.functions[i], all),
        );
        assert forall|i: int| 0 <= i < index.functions.len() implies signature_types_problem(
            #[trigger] index.functions[i],
            all,
        ) is None by {
            lemma_no_problem(signatures, 0, i);
            assert(signatures[i] == signature_types_problem(all.functions[i], all));
            let ours = index.functions[i];
            let theirs = all.functions[i];
            assert(Seq::new(
                ours.params.len(),
                |j: int| type_problem(ours.params[j].ty, all, ours.params[j].span),
            ) =~= Seq::new(
                theirs.params.len(),
                |j: int| type_problem(theirs.params[j].ty, all, theirs.params[j].span),
            ));
        }
        assert forall|i: int, j: int|
            0 <= i < index.functions.len() && 0 <= j
                < index.functions[i].params.len() implies type_problem(
            (#[trigger] index.functions[i].params[j]).ty,
            index,
            index.functions[i].params[j].span,
        ) is None by {
            let function = index.functions[i];
            assert(signature_types_problem(function, all) is None);
            let params = Seq::new(
                function.params.len(),
                |j: int| type_problem(function.params[j].ty, all, function.params[j].span),
            );
            lemma_no_problem(params, 0, j);
            lemma_type_problem_same(
                function.params[j].ty,
                all,
                index,
                function.params[j].span,
            );
        }
        assert forall|i: int| 0 <= i < index.functions.len() implies ((
        #[trigger] index.functions[i]).return_type matches Some(ty) ==> type_problem(
            ty,
            index,
            index.functions[i].span,
        ) is None) by {
            if let Some(ty) = index.functions[i].return_type {
                assert(signature_types_problem(index.functions[i], all) is None);
                lemma_type_problem_same(ty, all, index, index.functions[i].span);
            }
        }
        let structs = Seq::new(
            all.structs.len(),
            |i: int| struct_types_problem(all.structs[i], all),
        );
        assert forall|i: int, j: int|
            0 <= i < index.structs.len() && 0 <= j
                < index.structs[i].fields.len() implies type_problem(
            (#[trigger] index.structs[i].fields[j]).ty,
            index,
            index.structs[i].fields[j].span,
        ) is None by {
            let def = index.structs[i];
            lemma_no_problem(structs, 0, i);
            assert(structs[i] == struct_types_problem(def, all));
            let fields = Seq::new(
                def.fields.len(),
                |j: int| type_problem(def.fields[j].ty, all, def.fields[j].span),
            );
            lemma_no_problem(fields, 0, j);
            lemma_type_problem_same(def.fields[j].ty, all, index, def.fields[j].span);
        }
    }
}

} // verus!
