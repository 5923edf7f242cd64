//! The name `Self` in the methods of a type.

use crate::ast::{
    arms_view, entries_view, exprs_view, inits_view, stmts_node_view, types_view, ArmView,
    DictEntry, EntryView, Expr, ExprView, InitView, MatchArm, MatchPattern, ParForReduction,
    PatternView, ReductionView, Stmt, StmtNode, StructInitField, TypeName, TypeView,
};
use crate::copy::{
    copy_expr, copy_named_patterns, copy_optional_texts, copy_pattern, copy_stmt, copy_type,
};
use crate::parser::cursor::is_text;
use vstd::prelude::*;
use vstd::string::StringExecFns;

verus! {

/// The name that stands for itself, or the type's where it is `Self`.
pub open spec fn own_name(name: Seq<char>, for_type: Seq<char>) -> Seq<char> {
    if name == "Self"@ {
        for_type
    } else {
        name
    }
}

/// The name of a method call, where `Self__` stands for the type and two
/// underscores.
pub open spec fn own_call(name: Seq<char>, for_type: Seq<char>) -> Seq<char> {
    if name.len() >= 6 && name.subrange(0, 6) == "Self__"@ {
        for_type + "__"@ + name.subrange(6, name.len() as int)
    } else {
        name
    }
}

/// A name, with the type's in place of `Self`.
fn substitute_self_name(name: &String, for_type: &String) -> (new: String)
    ensures
        new@ == own_name(name@, for_type@),
{
    if is_text(name, "Self") {
        for_type.clone()
    } else {
        name.clone()
    }
}

/// The name of a method call, with the type's in place of `Self`.
fn substitute_self_call(name: &String, for_type: &String) -> (new: String)
    ensures
        new@ == own_call(name@, for_type@),
{
    let text = name.as_str();
    let count: usize = text.unicode_len();
    if count >= 6 {
        let start = String::from_str(text.substring_char(0, 6));
        if is_text(&start, "Self__") {
            let mut new = String::from_str(for_type.as_str());
            new.append("__");
            new.append(text.substring_char(6, count));
            return new;
        }
    }
    name.clone()
}

/// The type that is meant by a type as it is written in a method of another type.
pub open spec fn own_type(node: TypeView, for_type: Seq<char>) -> TypeView
    decreases node, 0int,
{
    match node {
        TypeView::Struct(name) => TypeView::Struct(own_name(name, for_type)),
        TypeView::Applied { name, args } => TypeView::Applied {
            name,
            args: own_types(args, for_type),
        },
        TypeView::Array { elem, len } => TypeView::Array {
            elem: Box::new(own_type(*elem, for_type)),
            len,
        },
        TypeView::Dict { key, value } => TypeView::Dict {
            key: Box::new(own_type(*key, for_type)),
            value: Box::new(own_type(*value, for_type)),
        },
        TypeView::List { elem } => TypeView::List {
            elem: Box::new(own_type(*elem, for_type)),
        },
        TypeView::Mapping { key, value } => TypeView::Mapping {
            key: Box::new(own_type(*key, for_type)),
            value: Box::new(own_type(*value, for_type)),
        },
        TypeView::Ref { mutable, inner } => TypeView::Ref {
            mutable,
            inner: Box::new(own_type(*inner, for_type)),
        },
        _ => node,
    }
}

/// The types that are meant by those in a method of another type.
pub open spec fn own_types(nodes: Seq<TypeView>, for_type: Seq<char>) -> Seq<TypeView>
    decreases nodes, 0int,
{
    Seq::new(
        nodes.len(),
        |i: int|
        if 0 <= i < nodes.len() {
            own_type(nodes[i], for_type)
        } else {
            arbitrary()
        },
    )
}

/// The type that is meant by a type as it is written in a method of another type.
pub fn substitute_self_type(node: &TypeName, for_type: &String) -> (new: TypeName)
    ensures
        new@ == own_type(node@, for_type@),
    decreases node,
{
    match node {
        TypeName::Struct(name) => TypeName::Struct(substitute_self_name(name, for_type)),
        TypeName::Applied { name, args } => TypeName::Applied {
            name: name.clone(),
            args: substitute_self_types(args, for_type),
        },
        TypeName::Array { elem, len } => TypeName::Array {
            elem: Box::new(substitute_self_type(elem, for_type)),
            len: *len,
        },
        TypeName::Dict { key, value } => TypeName::Dict {
            key: Box::new(substitute_self_type(key, for_type)),
            value: Box::new(substitute_self_type(value, for_type)),
        },
        TypeName::List { elem } => TypeName::List {
            elem: Box::new(substitute_self_type(elem, for_type)),
        },
        TypeName::Mapping { key, value } => TypeName::Mapping {
            key: Box::new(substitute_self_type(key, for_type)),
            value: Box::new(substitute_self_type(value, for_type)),
        },
        TypeName::Ref { mutable, inner } => TypeName::Ref {
            mutable: *mutable,
            inner: Box::new(substitute_self_type(inner, for_type)),
        },
        _ => copy_type(node),
    }
}

/// The types that are meant by those in a method of another type.
pub fn substitute_self_types(nodes: &Vec<TypeName>, for_type: &String) -> (new: Vec<TypeName>)
    ensures
        types_view(new@) == own_types(types_view(nodes@), for_type@),
    decreases nodes,
{
    let mut new: Vec<TypeName> = Vec::with_capacity(nodes.len());
    for i in 0..nodes.len()
        invariant
            new@.len() == i,
            forall|j: int| 0 <= j < i ==> (#[trigger] new@[j])@ == own_type(nodes@[j]@, for_type@),
    {
        new.push(substitute_self_type(&nodes[i], for_type));
    }
    assert(types_view(new@) =~= own_types(types_view(nodes@), for_type@));
    new
}

/// A pattern of a match arm with the type's name in place of `Self`.
pub open spec fn own_pattern(node: PatternView, for_type: Seq<char>) -> PatternView
    decreases node, 0int,
{
    match node {
        PatternView::EnumUnit { enum_name, variant, span } => PatternView::EnumUnit {
            enum_name: own_name(enum_name, for_type),
            variant,
            span,
        },
        PatternView::EnumTuple { enum_name, variant, bindings, span } => PatternView::EnumTuple {
            enum_name: own_name(enum_name, for_type),
            variant,
            bindings,
            span,
        },
        PatternView::EnumNamed { enum_name, variant, fields, span } => PatternView::EnumNamed {
            enum_name: own_name(enum_name, for_type),
            variant,
            fields,
            span,
        },
        _ => node,
    }
}

/// An expression with the type's name in place of `Self`.
pub open spec fn own_expr(node: ExprView, for_type: Seq<char>) -> ExprView
    decreases node, 0int,
{
    match node {
        ExprView::Call { name, args, span } => ExprView::Call {
            name: own_call(name, for_type),
            args: own_exprs(args, for_type),
            span,
        },
        ExprView::QualifiedCall { owner, member, args, span } => ExprView::QualifiedCall {
            owner: own_name(owner, for_type),
            member,
            args: own_exprs(args, for_type),
            span,
        },
        ExprView::Unary { op, expr, span } => ExprView::Unary {
            op,
            expr: Box::new(own_expr(*expr, for_type)),
            span,
        },
        ExprView::Binary { op, left, right, span } => ExprView::Binary {
            op,
            left: Box::new(own_expr(*left, for_type)),
            right: Box::new(own_expr(*right, for_type)),
            span,
        },
        ExprView::FieldAccess { base, field, span } => ExprView::FieldAccess {
            base: Box::new(own_expr(*base, for_type)),
            field,
            span,
        },
        ExprView::Index { base, index, span } => ExprView::Index {
            base: Box::new(own_expr(*base, for_type)),
            index: Box::new(own_expr(*index, for_type)),
            span,
        },
        ExprView::ArrayLit { elems, span } => ExprView::ArrayLit {
            elems: own_exprs(elems, for_type),
            span,
        },
        ExprView::StructInit { name, fields, span } => ExprView::StructInit {
            name: own_name(name, for_type),
            fields: own_inits(fields, for_type),
            span,
        },
        ExprView::EnumVariant { enum_name, variant, span } => ExprView::EnumVariant {
            enum_name: own_name(enum_name, for_type),
            variant,
            span,
        },
        ExprView::EnumTupleVariant {
            enum_name,
            variant,
            args,
            span,
        } => ExprView::EnumTupleVariant {
            enum_name: own_name(enum_name, for_type),
            variant,
            args: own_exprs(args, for_type),
            span,
        },
        ExprView::EnumStructVariant {
            enum_name,
            variant,
            fields,
            span,
        } => ExprView::EnumStructVariant {
            enum_name: own_name(enum_name, for_type),
            variant,
            fields: own_inits(fields, for_type),
            span,
        },
        ExprView::DictLit { entries, span } => ExprView::DictLit {
            entries: own_entries(entries, for_type),
            span,
        },
        ExprView::MethodCall { receiver, name, args, span } => ExprView::MethodCall {
            receiver: Box::new(own_expr(*receiver, for_type)),
            name,
            args: own_exprs(args, for_type),
            span,
        },
        ExprView::Match { value, arms, span } => ExprView::Match {
            value: Box::new(own_expr(*value, for_type)),
            arms: own_arms(arms, for_type),
            span,
        },
        _ => node,
    }
}

/// An arm of a match expression with the type's name in place of `Self`.
pub open spec fn own_arm(node: ArmView, for_type: Seq<char>) -> ArmView
    decreases node, 0int,
{
    let ArmView { pattern, expr, span } = node;
    ArmView {
        pattern: own_pattern(pattern, for_type),
        expr: own_expr(expr, for_type),
        span,
    }
}

/// A field of a struct literal with the type's name in place of `Self`.
pub open spec fn own_init(node: InitView, for_type: Seq<char>) -> InitView
    decreases node, 0int,
{
    let InitView { name, expr, span } = node;
    InitView {
        name,
        expr: own_expr(expr, for_type),
        span,
    }
}

/// An entry of a dictionary literal with the type's name in place of `Self`.
pub open spec fn own_entry(node: EntryView, for_type: Seq<char>) -> EntryView
    decreases node, 0int,
{
    let EntryView { key, value, span } = node;
    EntryView {
        key,
        value: own_expr(value, for_type),
        span,
    }
}

/// A statement with the type's name in place of `Self`.
pub open spec fn own_stmt(node: StmtNode, for_type: Seq<char>) -> StmtNode
    decreases node, 0int,
{
    match node {
        StmtNode::Let { name, mutable, ty, expr, span } => StmtNode::Let {
            name,
            mutable,
            ty: match ty {
                Some(node) => Some(own_type(node, for_type)),
                None => None,
            },
            expr: own_expr(expr, for_type),
            span,
        },
        StmtNode::Assign { name, expr, span } => StmtNode::Assign {
            name,
            expr: own_expr(expr, for_type),
            span,
        },
        StmtNode::AssignField { receiver, field, expr, span } => StmtNode::AssignField {
            receiver,
            field,
            expr: own_expr(expr, for_type),
            span,
        },
        StmtNode::AssignIndex { name, index, expr, span } => StmtNode::AssignIndex {
            name,
            index: own_expr(index, for_type),
            expr: own_expr(expr, for_type),
            span,
        },
        StmtNode::AssignStructListIndex {
            receiver,
            field,
            index,
            expr,
            span,
        } => StmtNode::AssignStructListIndex {
            receiver,
            field,
            index: own_expr(index, for_type),
            expr: own_expr(expr, for_type),
            span,
        },
        StmtNode::Call { name, args, span } => StmtNode::Call {
            name: own_call(name, for_type),
            args: own_exprs(args, for_type),
            span,
        },
        StmtNode::MethodCall { receiver, name, args, span } => StmtNode::MethodCall {
            receiver,
            name,
            args: own_exprs(args, for_type),
            span,
        },
        StmtNode::StructListMethodCall {
            receiver,
            field,
            name,
            args,
            span,
        } => StmtNode::StructListMethodCall {
            receiver,
            field,
            name,
            args: own_exprs(args, for_type),
            span,
        },
        StmtNode::Return { expr, span } => StmtNode::Return {
            expr: match expr {
                Some(node) => Some(own_expr(node, for_type)),
                None => None,
            },
            span,
        },
        StmtNode::Print { expr, span } => StmtNode::Print {
            expr: own_expr(expr, for_type),
            span,
        },
        StmtNode::Exit { expr, span } => StmtNode::Exit {
            expr: own_expr(expr, for_type),
            span,
        },
        StmtNode::BenchLoop { iterations, span } => StmtNode::BenchLoop {
            iterations: own_expr(iterations, for_type),
            span,
        },
        StmtNode::Block { stmts, span } => StmtNode::Block {
            stmts: own_stmts(stmts, for_type),
            span,
        },
        StmtNode::If { cond, then_branch, else_branch, span } => StmtNode::If {
            cond: own_expr(cond, for_type),
            then_branch: own_stmts(then_branch, for_type),
            else_branch: match else_branch {
                Some(list) => Some(own_stmts(list, for_type)),
                None => None,
            },
            span,
        },
        StmtNode::While { cond, body, span } => StmtNode::While {
            cond: own_expr(cond, for_type),
            body: own_stmts(body, for_type),
            span,
        },
        StmtNode::Loop { body, span } => StmtNode::Loop {
            body: own_stmts(body, for_type),
            span,
        },
        StmtNode::For { name, start, end, body, span } => StmtNode::For {
            name,
            start: own_expr(start, for_type),
            end: own_expr(end, for_type),
            body: own_stmts(body, for_type),
            span,
        },
        StmtNode::ParFor { name, start, end, body, reduction, span } => StmtNode::ParFor {
            name,
            start: own_expr(start, for_type),
            end: own_expr(end, for_type),
            body: own_stmts(body, for_type),
            reduction: match reduction {
                Some(node) => Some(own_reduction(node, for_type)),
                None => None,
            },
            span,
        },
        StmtNode::ForEach { name, iterable, body, span } => StmtNode::ForEach {
            name,
            iterable: own_expr(iterable, for_type),
            body: own_stmts(body, for_type),
            span,
        },
        StmtNode::Assert { cond, message, span } => StmtNode::Assert {
            cond: own_expr(cond, for_type),
            message: match message {
                Some(node) => Some(own_expr(node, for_type)),
                None => None,
            },
            span,
        },
        StmtNode::Panic { message, span } => StmtNode::Panic {
            message: own_expr(message, for_type),
            span,
        },
        _ => node,
    }
}

/// What a parallel loop reduces to with the type's name in place of `Self`.
pub open spec fn own_reduction(node: ReductionView, for_type: Seq<char>) -> ReductionView
    decreases node, 0int,
{
    let ReductionView { op, target, expr, span } = node;
    ReductionView {
        op,
        target,
        expr: own_expr(expr, for_type),
        span,
    }
}

/// A expression list with the type's name in place of `Self`.
pub open spec fn own_exprs(nodes: Seq<ExprView>, for_type: Seq<char>) -> Seq<ExprView>
    decreases nodes, 0int,
{
    Seq::new(
        nodes.len(),
        |i: int|
        if 0 <= i < nodes.len() {
            own_expr(nodes[i], for_type)
        } else {
            arbitrary()
        },
    )
}

/// A arm of a match expression list with the type's name in place of `Self`.
pub open spec fn own_arms(nodes: Seq<ArmView>, for_type: Seq<char>) -> Seq<ArmView>
    decreases nodes, 0int,
{
    Seq::new(
        nodes.len(),
        |i: int|
        if 0 <= i < nodes.len() {
            own_arm(nodes[i], for_type)
        } else {
            arbitrary()
        },
    )
}

/// A field of a struct literal list with the type's name in place of `Self`.
pub open spec fn own_inits(nodes: Seq<InitView>, for_type: Seq<char>) -> Seq<InitView>
    decreases nodes, 0int,
{
    Seq::new(
        nodes.len(),
        |i: int|
        if 0 <= i < nodes.len() {
            own_init(nodes[i], for_type)
        } else {
            arbitrary()
        },
    )
}

/// A entry of a dictionary literal list with the type's name in place of `Self`.
pub open spec fn own_entries(nodes: Seq<EntryView>, for_type: Seq<char>) -> Seq<EntryView>
    decreases nodes, 0int,
{
    Seq::new(
        nodes.len(),
        |i: int|
        if 0 <= i < nodes.len() {
            own_entry(nodes[i], for_type)
        } else {
            arbitrary()
        },
    )
}

/// A statement list with the type's name in place of `Self`.
pub open spec fn own_stmts(nodes: Seq<StmtNode>, for_type: Seq<char>) -> Seq<StmtNode>
    decreases nodes, 0int,
{
    Seq::new(
        nodes.len(),
        |i: int|
        if 0 <= i < nodes.len() {
            own_stmt(nodes[i], for_type)
        } else {
            arbitrary()
        },
    )
}

/// A pattern of a match arm with the type's name in place of `Self`.
pub fn substitute_self_pattern(node: &MatchPattern, for_type: &String) -> (new: MatchPattern)
    ensures
        new@ == own_pattern(node@, for_type@),
    decreases node,
{
    match node {
        MatchPattern::EnumUnit { enum_name, variant, span } => MatchPattern::EnumUnit {
            enum_name: substitute_self_name(enum_name, for_type),
            variant: variant.clone(),
            span: *span,
        },
        MatchPattern::EnumTuple { enum_name, variant, bindings, span } => MatchPattern::EnumTuple {
            enum_name: substitute_self_name(enum_name, for_type),
            variant: variant.clone(),
            bindings: copy_optional_texts(bindings),
            span: *span,
        },
        MatchPattern::EnumNamed { enum_name, variant, fields, span } => MatchPattern::EnumNamed {
            enum_name: substitute_self_name(enum_name, for_type),
            variant: variant.clone(),
            fields: copy_named_patterns(fields),
            span: *span,
        },
        _ => copy_pattern(node),
    }
}

/// An expression with the type's name in place of `Self`.
pub fn substitute_self_expr(node: &Expr, for_type: &String) -> (new: Expr)
    ensures
        new@ == own_expr(node@, for_type@),
    decreases node,
{
    match node {
        Expr::Call { name, args, span } => Expr::Call {
            name: substitute_self_call(name, for_type),
            args: substitute_self_exprs(args, for_type),
            span: *span,
        },
        Expr::QualifiedCall { owner, member, args, span } => Expr::QualifiedCall {
            owner: substitute_self_name(owner, for_type),
            member: member.clone(),
            args: substitute_self_exprs(args, for_type),
            span: *span,
        },
        Expr::Unary { op, expr, span } => Expr::Unary {
            op: *op,
            expr: Box::new(substitute_self_expr(expr, for_type)),
            span: *span,
        },
        Expr::Binary { op, left, right, span } => Expr::Binary {
            op: *op,
            left: Box::new(substitute_self_expr(left, for_type)),
            right: Box::new(substitute_self_expr(right, for_type)),
            span: *span,
        },
        Expr::FieldAccess { base, field, span } => Expr::FieldAccess {
            base: Box::new(substitute_self_expr(base, for_type)),
            field: field.clone(),
            span: *span,
        },
        Expr::Index { base, index, span } => Expr::Index {
            base: Box::new(substitute_self_expr(base, for_type)),
            index: Box::new(substitute_self_expr(index, for_type)),
            span: *span,
        },
        Expr::ArrayLit { elems, span } => Expr::ArrayLit {
            elems: substitute_self_exprs(elems, for_type),
            span: *span,
        },
        Expr::StructInit { name, fields, span } => Expr::StructInit {
            name: substitute_self_name(name, for_type),
            fields: substitute_self_inits(fields, for_type),
            span: *span,
        },
        Expr::EnumVariant { enum_name, variant, span } => Expr::EnumVariant {
            enum_name: substitute_self_name(enum_name, for_type),
            variant: variant.clone(),
            span: *span,
        },
        Expr::EnumTupleVariant { enum_name, variant, args, span } => Expr::EnumTupleVariant {
            enum_name: substitute_self_name(enum_name, for_type),
            variant: variant.clone(),
            args: substitute_self_exprs(args, for_type),
            span: *span,
        },
        Expr::EnumStructVariant { enum_name, variant, fields, span } => Expr::EnumStructVariant {
            enum_name: substitute_self_name(enum_name, for_type),
            variant: variant.clone(),
            fields: substitute_self_inits(fields, for_type),
            span: *span,
        },
        Expr::DictLit { entries, span } => Expr::DictLit {
            entries: substitute_self_entries(entries, for_type),
            span: *span,
        },
        Expr::MethodCall { receiver, name, args, span } => Expr::MethodCall {
            receiver: Box::new(substitute_self_expr(receiver, for_type)),
            name: name.clone(),
            args: substitute_self_exprs(args, for_type),
            span: *span,
        },
        Expr::Match { value, arms, span } => Expr::Match {
            value: Box::new(substitute_self_expr(value, for_type)),
            arms: substitute_self_arms(arms, for_type),
            span: *span,
        },
        _ => copy_expr(node),
    }
}

/// An arm of a match expression with the type's name in place of `Self`.
pub fn substitute_self_arm(node: &MatchArm, for_type: &String) -> (new: MatchArm)
    ensures
        new@ == own_arm(node@, for_type@),
    decreases node,
{
    MatchArm {
        pattern: substitute_self_pattern(&node.pattern, for_type),
        expr: substitute_self_expr(&node.expr, for_type),
        span: node.span,
    }
}

/// A field of a struct literal with the type's name in place of `Self`.
pub fn substitute_self_init(node: &StructInitField, for_type: &String) -> (new: StructInitField)
    ensures
        new@ == own_init(node@, for_type@),
    decreases node,
{
    StructInitField {
        name: node.name.clone(),
        expr: substitute_self_expr(&node.expr, for_type),
        span: node.span,
    }
}

/// An entry of a dictionary literal with the type's name in place of `Self`.
pub fn substitute_self_entry(node: &DictEntry, for_type: &String) -> (new: DictEntry)
    ensures
        new@ == own_entry(node@, for_type@),
    decreases node,
{
    DictEntry {
        key: node.key.clone(),
        value: substitute_self_expr(&node.value, for_type),
        span: node.span,
    }
}

/// A statement with the type's name in place of `Self`.
pub fn substitute_self_stmt(node: &Stmt, for_type: &String) -> (new: Stmt)
    ensures
        new@ == own_stmt(node@, for_type@),
    decreases node,
{
    match node {
        Stmt::Let { name, mutable, ty, expr, span } => Stmt::Let {
            name: name.clone(),
            mutable: *mutable,
            ty: match ty {
                Some(node) => Some(substitute_self_type(node, for_type)),
                None => None,
            },
            expr: substitute_self_expr(expr, for_type),
            span: *span,
        },
        Stmt::Assign { name, expr, span } => Stmt::Assign {
            name: name.clone(),
            expr: substitute_self_expr(expr, for_type),
            span: *span,
        },
        Stmt::AssignField { receiver, field, expr, span } => Stmt::AssignField {
            receiver: receiver.clone(),
            field: field.clone(),
            expr: substitute_self_expr(expr, for_type),
            span: *span,
        },
        Stmt::AssignIndex { name, index, expr, span } => Stmt::AssignIndex {
            name: name.clone(),
            index: substitute_self_expr(index, for_type),
            expr: substitute_self_expr(expr, for_type),
            span: *span,
        },
        Stmt::AssignStructListIndex {
            receiver,
            field,
            index,
            expr,
            span,
        } => Stmt::AssignStructListIndex {
            receiver: receiver.clone(),
            field: field.clone(),
            index: substitute_self_expr(index, for_type),
            expr: substitute_self_expr(expr, for_type),
            span: *span,
        },
        Stmt::Call { name, args, span } => Stmt::Call {
            name: substitute_self_call(name, for_type),
            args: substitute_self_exprs(args, for_type),
            span: *span,
        },
        Stmt::MethodCall { receiver, name, args, span } => Stmt::MethodCall {
            receiver: receiver.clone(),
            name: name.clone(),
            args: substitute_self_exprs(args, for_type),
            span: *span,
        },
        Stmt::StructListMethodCall {
            receiver,
            field,
            name,
            args,
            span,
        } => Stmt::StructListMethodCall {
            receiver: receiver.clone(),
            field: field.clone(),
            name: name.clone(),
            args: substitute_self_exprs(args, for_type),
            span: *span,
        },
        Stmt::Return { expr, span } => Stmt::Return {
            expr: match expr {
                Some(node) => Some(substitute_self_expr(node, for_type)),
                None => None,
            },
            span: *span,
        },
        Stmt::Print { expr, span } => Stmt::Print {
            expr: substitute_self_expr(expr, for_type),
            span: *span,
        },
        Stmt::Exit { expr, span } => Stmt::Exit {
            expr: substitute_self_expr(expr, for_type),
            span: *span,
        },
        Stmt::BenchLoop { iterations, span } => Stmt::BenchLoop {
            iterations: substitute_self_expr(iterations, for_type),
            span: *span,
        },
        Stmt::Block { stmts, span } => Stmt::Block {
            stmts: substitute_self_stmts(stmts, for_type),
            span: *span,
        },
        Stmt::If { cond, then_branch, else_branch, span } => Stmt::If {
            cond: substitute_self_expr(cond, for_type),
            then_branch: substitute_self_stmts(then_branch, for_type),
            else_branch: match else_branch {
                Some(list) => Some(substitute_self_stmts(list, for_type)),
                None => None,
            },
            span: *span,
        },
        Stmt::While { cond, body, span } => Stmt::While {
            cond: substitute_self_expr(cond, for_type),
            body: substitute_self_stmts(body, for_type),
            span: *span,
        },
        Stmt::Loop { body, span } => Stmt::Loop {
            body: substitute_self_stmts(body, for_type),
            span: *span,
        },
        Stmt::For { name, start, end, body, span } => Stmt::For {
            name: name.clone(),
            start: substitute_self_expr(start, for_type),
            end: substitute_self_expr(end, for_type),
            body: substitute_self_stmts(body, for_type),
            span: *span,
        },
        Stmt::ParFor { name, start, end, body, reduction, span } => Stmt::ParFor {
            name: name.clone(),
            start: substitute_self_expr(start, for_type),
            end: substitute_self_expr(end, for_type),
            body: substitute_self_stmts(body, for_type),
            reduction: match reduction {
                Some(node) => Some(substitute_self_reduction(node, for_type)),
                None => None,
            },
            span: *span,
        },
        Stmt::ForEach { name, iterable, body, span } => Stmt::ForEach {
            name: name.clone(),
            iterable: substitute_self_expr(iterable, for_type),
            body: substitute_self_stmts(body, for_type),
            span: *span,
        },
        Stmt::Assert { cond, message, span } => Stmt::Assert {
            cond: substitute_self_expr(cond, for_type),
            message: match message {
                Some(node) => Some(substitute_self_expr(node, for_type)),
                None => None,
            },
            span: *span,
        },
        Stmt::Panic { message, span } => Stmt::Panic {
            message: substitute_self_expr(message, for_type),
            span: *span,
        },
        _ => copy_stmt(node),
    }
}

/// What a parallel loop reduces to with the type's name in place of `Self`.
pub fn substitute_self_reduction(
    node: &ParForReduction,
    for_type: &String,
) -> (new: ParForReduction)
    ensures
        new@ == own_reduction(node@, for_type@),
    decreases node,
{
    ParForReduction {
        op: node.op,
        target: node.target.clone(),
        expr: substitute_self_expr(&node.expr, for_type),
        span: node.span,
    }
}

/// A expression list with the type's name in place of `Self`.
pub fn substitute_self_exprs(nodes: &Vec<Expr>, for_type: &String) -> (new: Vec<Expr>)
    ensures
        exprs_view(new@) == own_exprs(exprs_view(nodes@), for_type@),
    decreases nodes,
{
    let mut new: Vec<Expr> = Vec::with_capacity(nodes.len());
    for i in 0..nodes.len()
        invariant
            new@.len() == i,
            forall|j: int| 0 <= j < i ==> (#[trigger] new@[j])@ == own_expr(nodes@[j]@, for_type@),
    {
        new.push(substitute_self_expr(&nodes[i], for_type));
    }
    assert(exprs_view(new@) =~= own_exprs(exprs_view(nodes@), for_type@));
    new
}

/// A arm of a match expression list with the type's name in place of `Self`.
pub fn substitute_self_arms(nodes: &Vec<MatchArm>, for_type: &String) -> (new: Vec<MatchArm>)
    ensures
        arms_view(new@) == own_arms(arms_view(nodes@), for_type@),
    decreases nodes,
{
    let mut new: Vec<MatchArm> = Vec::with_capacity(nodes.len());
    for i in 0..nodes.len()
        invariant
            new@.len() == i,
            forall|j: int| 0 <= j < i ==> (#[trigger] new@[j])@ == own_arm(nodes@[j]@, for_type@),
    {
        new.push(substitute_self_arm(&nodes[i], for_type));
    }
    assert(arms_view(new@) =~= own_arms(arms_view(nodes@), for_type@));
    new
}

/// A field of a struct literal list with the type's name in place of `Self`.
pub fn substitute_self_inits(
    nodes: &Vec<StructInitField>,
    for_type: &String,
) -> (new: Vec<StructInitField>)
    ensures
        inits_view(new@) == own_inits(inits_view(nodes@), for_type@),
    decreases nodes,
{
    let mut new: Vec<StructInitField> = Vec::with_capacity(nodes.len());
    for i in 0..nodes.len()
        invariant
            new@.len() == i,
            forall|j: int| 0 <= j < i ==> (#[trigger] new@[j])@ == own_init(nodes@[j]@, for_type@),
    {
        new.push(substitute_self_init(&nodes[i], for_type));
    }
    assert(inits_view(new@) =~= own_inits(inits_view(nodes@), for_type@));
    new
}

/// A entry of a dictionary literal list with the type's name in place of `Self`.
pub fn substitute_self_entries(nodes: &Vec<DictEntry>, for_type: &String) -> (new: Vec<DictEntry>)
    ensures
        entries_view(new@) == own_entries(entries_view(nodes@), for_type@),
    decreases nodes,
{
    let mut new: Vec<DictEntry> = Vec::with_capacity(nodes.len());
    for i in 0..nodes.len()
        invariant
            new@.len() == i,
            forall|j: int| 0 <= j < i ==> (#[trigger] new@[j])@ == own_entry(nodes@[j]@, for_type@),
    {
        new.push(substitute_self_entry(&nodes[i], for_type));
    }
    assert(entries_view(new@) =~= own_entries(entries_view(nodes@), for_type@));
    new
}

/// A statement list with the type's name in place of `Self`.
pub fn substitute_self_stmts(nodes: &Vec<Stmt>, for_type: &String) -> (new: Vec<Stmt>)
    ensures
        stmts_node_view(new@) == own_stmts(stmts_node_view(nodes@), for_type@),
    decreases nodes,
{
    let mut new: Vec<Stmt> = Vec::with_capacity(nodes.len());
    for i in 0..nodes.len()
        invariant
            new@.len() == i,
            forall|j: int| 0 <= j < i ==> (#[trigger] new@[j])@ == own_stmt(nodes@[j]@, for_type@),
    {
        new.push(substitute_self_stmt(&nodes[i], for_type));
    }
    assert(stmts_node_view(new@) =~= own_stmts(stmts_node_view(nodes@), for_type@));
    new
}


} // verus!
