//! Copies of syntax trees.

use crate::ast::{
    arms_view, entries_view, exprs_view, fields_view, functions_view, inits_view, items_view,
    method_sigs_view, named_patterns_view, optional_text, optional_texts, params_view,
    stmts_node_view, texts_view, tuple_fields_view, types_view, variants_view, DictEntry, EnumDef,
    EnumTupleFieldDef, EnumVariantDef, EnumVariantPayloadDef, Expr, Function, FunctionParam,
    InherentImplDef, Item, MatchArm, MatchNamedFieldPattern, MatchPattern, ModuleDecl,
    ParForReduction, Program, Stmt, StructDef, StructField, StructInitField, TraitDef, TraitImplDef,
    TraitMethodSig, TypeName, UseDecl,
};
use vstd::prelude::*;

verus! {

/// A copy of an optional text.
pub fn copy_optional_text(text: &Option<String>) -> (copy: Option<String>)
    ensures
        optional_text(copy) == optional_text(*text),
{
    match text {
        Some(text) => Some(text.clone()),
        None => None,
    }
}

/// A copy of texts.
pub fn copy_texts(texts: &Vec<String>) -> (copy: Vec<String>)
    ensures
        texts_view(copy@) == texts_view(texts@),
{
    let mut copy: Vec<String> = Vec::with_capacity(texts.len());
    for i in 0..texts.len()
        invariant
            copy@.len() == i,
            forall|j: int| 0 <= j < i ==> (#[trigger] copy@[j])@ == texts@[j]@,
    {
        copy.push(texts[i].clone());
    }
    assert(texts_view(copy@) =~= texts_view(texts@));
    copy
}

/// A copy of optional texts.
pub fn copy_optional_texts(texts: &Vec<Option<String>>) -> (copy: Vec<Option<String>>)
    ensures
        optional_texts(copy@) == optional_texts(texts@),
{
    let mut copy: Vec<Option<String>> = Vec::with_capacity(texts.len());
    for i in 0..texts.len()
        invariant
            copy@.len() == i,
            forall|j: int|
                0 <= j < i ==> optional_text(#[trigger] copy@[j]) == optional_text(texts@[j]),
    {
        copy.push(copy_optional_text(&texts[i]));
    }
    assert(optional_texts(copy@) =~= optional_texts(texts@));
    copy
}

/// A copy of a type as it is written.
pub fn copy_type(node: &TypeName) -> (copy: TypeName)
    ensures
        copy@ == node@,
    decreases node,
{
    match node {
        TypeName::String => TypeName::String,
        TypeName::Path => TypeName::Path,
        TypeName::File => TypeName::File,
        TypeName::Thread => TypeName::Thread,
        TypeName::Byte => TypeName::Byte,
        TypeName::Char => TypeName::Char,
        TypeName::Bool => TypeName::Bool,
        TypeName::Int { signed, bits } => TypeName::Int {
            signed: *signed,
            bits: *bits,
        },
        TypeName::Float { bits } => TypeName::Float {
            bits: *bits,
        },
        TypeName::Struct(name) => TypeName::Struct(name.clone()),
        TypeName::Applied { name, args } => TypeName::Applied {
            name: name.clone(),
            args: copy_types(args),
        },
        TypeName::Array { elem, len } => TypeName::Array {
            elem: Box::new(copy_type(elem)),
            len: *len,
        },
        TypeName::Dict { key, value } => TypeName::Dict {
            key: Box::new(copy_type(key)),
            value: Box::new(copy_type(value)),
        },
        TypeName::List { elem } => TypeName::List {
            elem: Box::new(copy_type(elem)),
        },
        TypeName::Mapping { key, value } => TypeName::Mapping {
            key: Box::new(copy_type(key)),
            value: Box::new(copy_type(value)),
        },
        TypeName::Ref { mutable, inner } => TypeName::Ref {
            mutable: *mutable,
            inner: Box::new(copy_type(inner)),
        },
    }
}

/// A copy of a pattern of a match arm.
pub fn copy_pattern(node: &MatchPattern) -> (copy: MatchPattern)
    ensures
        copy@ == node@,
    decreases node,
{
    match node {
        MatchPattern::Wildcard { span } => MatchPattern::Wildcard {
            span: *span,
        },
        MatchPattern::EnumUnit { enum_name, variant, span } => MatchPattern::EnumUnit {
            enum_name: enum_name.clone(),
            variant: variant.clone(),
            span: *span,
        },
        MatchPattern::EnumTuple { enum_name, variant, bindings, span } => MatchPattern::EnumTuple {
            enum_name: enum_name.clone(),
            variant: variant.clone(),
            bindings: copy_optional_texts(bindings),
            span: *span,
        },
        MatchPattern::EnumNamed { enum_name, variant, fields, span } => MatchPattern::EnumNamed {
            enum_name: enum_name.clone(),
            variant: variant.clone(),
            fields: copy_named_patterns(fields),
            span: *span,
        },
    }
}

/// A copy of an expression.
pub fn copy_expr(node: &Expr) -> (copy: Expr)
    ensures
        copy@ == node@,
    decreases node,
{
    match node {
        Expr::Bool { value, span } => Expr::Bool {
            value: *value,
            span: *span,
        },
        Expr::String { value, span } => Expr::String {
            value: value.clone(),
            span: *span,
        },
        Expr::Char { value, span } => Expr::Char {
            value: *value,
            span: *span,
        },
        Expr::Number { literal, span } => Expr::Number {
            literal: literal.clone(),
            span: *span,
        },
        Expr::Ident { name, span } => Expr::Ident {
            name: name.clone(),
            span: *span,
        },
        Expr::Call { name, args, span } => Expr::Call {
            name: name.clone(),
            args: copy_exprs(args),
            span: *span,
        },
        Expr::QualifiedCall { owner, member, args, span } => Expr::QualifiedCall {
            owner: owner.clone(),
            member: member.clone(),
            args: copy_exprs(args),
            span: *span,
        },
        Expr::Unary { op, expr, span } => Expr::Unary {
            op: *op,
            expr: Box::new(copy_expr(expr)),
            span: *span,
        },
        Expr::Binary { op, left, right, span } => Expr::Binary {
            op: *op,
            left: Box::new(copy_expr(left)),
            right: Box::new(copy_expr(right)),
            span: *span,
        },
        Expr::FieldAccess { base, field, span } => Expr::FieldAccess {
            base: Box::new(copy_expr(base)),
            field: field.clone(),
            span: *span,
        },
        Expr::Index { base, index, span } => Expr::Index {
            base: Box::new(copy_expr(base)),
            index: Box::new(copy_expr(index)),
            span: *span,
        },
        Expr::ArrayLit { elems, span } => Expr::ArrayLit {
            elems: copy_exprs(elems),
            span: *span,
        },
        Expr::StructInit { name, fields, span } => Expr::StructInit {
            name: name.clone(),
            fields: copy_inits(fields),
            span: *span,
        },
        Expr::EnumVariant { enum_name, variant, span } => Expr::EnumVariant {
            enum_name: enum_name.clone(),
            variant: variant.clone(),
            span: *span,
        },
        Expr::EnumTupleVariant { enum_name, variant, args, span } => Expr::EnumTupleVariant {
            enum_name: enum_name.clone(),
            variant: variant.clone(),
            args: copy_exprs(args),
            span: *span,
        },
        Expr::EnumStructVariant { enum_name, variant, fields, span } => Expr::EnumStructVariant {
            enum_name: enum_name.clone(),
            variant: variant.clone(),
            fields: copy_inits(fields),
            span: *span,
        },
        Expr::DictLit { entries, span } => Expr::DictLit {
            entries: copy_entries(entries),
            span: *span,
        },
        Expr::MethodCall { receiver, name, args, span } => Expr::MethodCall {
            receiver: Box::new(copy_expr(receiver)),
            name: name.clone(),
            args: copy_exprs(args),
            span: *span,
        },
        Expr::Match { value, arms, span } => Expr::Match {
            value: Box::new(copy_expr(value)),
            arms: copy_arms(arms),
            span: *span,
        },
    }
}

/// A copy of a statement.
pub fn copy_stmt(node: &Stmt) -> (copy: Stmt)
    ensures
        copy@ == node@,
    decreases node,
{
    match node {
        Stmt::Let { name, mutable, ty, expr, span } => Stmt::Let {
            name: name.clone(),
            mutable: *mutable,
            ty: match ty {
                Some(node) => Some(copy_type(node)),
                None => None,
            },
            expr: copy_expr(expr),
            span: *span,
        },
        Stmt::Assign { name, expr, span } => Stmt::Assign {
            name: name.clone(),
            expr: copy_expr(expr),
            span: *span,
        },
        Stmt::AssignField { receiver, field, expr, span } => Stmt::AssignField {
            receiver: receiver.clone(),
            field: field.clone(),
            expr: copy_expr(expr),
            span: *span,
        },
        Stmt::AssignIndex { name, index, expr, span } => Stmt::AssignIndex {
            name: name.clone(),
            index: copy_expr(index),
            expr: copy_expr(expr),
            span: *span,
        },
        Stmt::AssignStructListIndex {
            receiver,
            field,
            index,
            expr,
            span,
        } => Stmt::AssignStructListIndex {
            receiver: receiver.clone(),
            field: field.clone(),
            index: copy_expr(index),
            expr: copy_expr(expr),
            span: *span,
        },
        Stmt::Call { name, args, span } => Stmt::Call {
            name: name.clone(),
            args: copy_exprs(args),
            span: *span,
        },
        Stmt::MethodCall { receiver, name, args, span } => Stmt::MethodCall {
            receiver: receiver.clone(),
            name: name.clone(),
            args: copy_exprs(args),
            span: *span,
        },
        Stmt::StructListMethodCall {
            receiver,
            field,
            name,
            args,
            span,
        } => Stmt::StructListMethodCall {
            receiver: receiver.clone(),
            field: field.clone(),
            name: name.clone(),
            args: copy_exprs(args),
            span: *span,
        },
        Stmt::Return { expr, span } => Stmt::Return {
            expr: match expr {
                Some(node) => Some(copy_expr(node)),
                None => None,
            },
            span: *span,
        },
        Stmt::Print { expr, span } => Stmt::Print {
            expr: copy_expr(expr),
            span: *span,
        },
        Stmt::Exit { expr, span } => Stmt::Exit {
            expr: copy_expr(expr),
            span: *span,
        },
        Stmt::BenchLoop { iterations, span } => Stmt::BenchLoop {
            iterations: copy_expr(iterations),
            span: *span,
        },
        Stmt::Block { stmts, span } => Stmt::Block {
            stmts: copy_stmts(stmts),
            span: *span,
        },
        Stmt::If { cond, then_branch, else_branch, span } => Stmt::If {
            cond: copy_expr(cond),
            then_branch: copy_stmts(then_branch),
            else_branch: match else_branch {
                Some(list) => Some(copy_stmts(list)),
                None => None,
            },
            span: *span,
        },
        Stmt::While { cond, body, span } => Stmt::While {
            cond: copy_expr(cond),
            body: copy_stmts(body),
            span: *span,
        },
        Stmt::Loop { body, span } => Stmt::Loop {
            body: copy_stmts(body),
            span: *span,
        },
        Stmt::For { name, start, end, body, span } => Stmt::For {
            name: name.clone(),
            start: copy_expr(start),
            end: copy_expr(end),
            body: copy_stmts(body),
            span: *span,
        },
        Stmt::ParFor { name, start, end, body, reduction, span } => Stmt::ParFor {
            name: name.clone(),
            start: copy_expr(start),
            end: copy_expr(end),
            body: copy_stmts(body),
            reduction: match reduction {
                Some(node) => Some(copy_reduction(node)),
                None => None,
            },
            span: *span,
        },
        Stmt::ForEach { name, iterable, body, span } => Stmt::ForEach {
            name: name.clone(),
            iterable: copy_expr(iterable),
            body: copy_stmts(body),
            span: *span,
        },
        Stmt::Break { span } => Stmt::Break {
            span: *span,
        },
        Stmt::Continue { span } => Stmt::Continue {
            span: *span,
        },
        Stmt::Assert { cond, message, span } => Stmt::Assert {
            cond: copy_expr(cond),
            message: match message {
                Some(node) => Some(copy_expr(node)),
                None => None,
            },
            span: *span,
        },
        Stmt::Panic { message, span } => Stmt::Panic {
            message: copy_expr(message),
            span: *span,
        },
    }
}

/// A copy of what a variant of an enum carries.
pub fn copy_payload(node: &EnumVariantPayloadDef) -> (copy: EnumVariantPayloadDef)
    ensures
        copy@ == node@,
    decreases node,
{
    match node {
        EnumVariantPayloadDef::Unit => EnumVariantPayloadDef::Unit,
        EnumVariantPayloadDef::Tuple(
            inner,
        ) => EnumVariantPayloadDef::Tuple(copy_tuple_fields(inner)),
        EnumVariantPayloadDef::Named(inner) => EnumVariantPayloadDef::Named(copy_fields(inner)),
    }
}

/// A copy of an item at the top level of a program.
pub fn copy_item(node: &Item) -> (copy: Item)
    ensures
        copy@ == node@,
    decreases node,
{
    match node {
        Item::Function(inner) => Item::Function(copy_function(inner)),
        Item::Struct(inner) => Item::Struct(copy_struct(inner)),
        Item::Enum(inner) => Item::Enum(copy_enum(inner)),
        Item::Trait(inner) => Item::Trait(copy_trait(inner)),
        Item::Impl(inner) => Item::Impl(copy_trait_impl(inner)),
        Item::InherentImpl(inner) => Item::InherentImpl(copy_inherent_impl(inner)),
        Item::Module(inner) => Item::Module(copy_module(inner)),
        Item::Use(inner) => Item::Use(copy_use(inner)),
    }
}

/// A copy of a field of a named pattern and what it binds.
pub fn copy_named_pattern(node: &MatchNamedFieldPattern) -> (copy: MatchNamedFieldPattern)
    ensures
        copy@ == node@,
    decreases node,
{
    MatchNamedFieldPattern {
        name: node.name.clone(),
        binding: copy_optional_text(&node.binding),
        span: node.span,
    }
}

/// A copy of an arm of a match expression.
pub fn copy_arm(node: &MatchArm) -> (copy: MatchArm)
    ensures
        copy@ == node@,
    decreases node,
{
    MatchArm {
        pattern: copy_pattern(&node.pattern),
        expr: copy_expr(&node.expr),
        span: node.span,
    }
}

/// A copy of a field of a struct literal.
pub fn copy_init(node: &StructInitField) -> (copy: StructInitField)
    ensures
        copy@ == node@,
    decreases node,
{
    StructInitField {
        name: node.name.clone(),
        expr: copy_expr(&node.expr),
        span: node.span,
    }
}

/// A copy of an entry of a dictionary literal.
pub fn copy_entry(node: &DictEntry) -> (copy: DictEntry)
    ensures
        copy@ == node@,
    decreases node,
{
    DictEntry {
        key: node.key.clone(),
        value: copy_expr(&node.value),
        span: node.span,
    }
}

/// A copy of what a parallel loop reduces to.
pub fn copy_reduction(node: &ParForReduction) -> (copy: ParForReduction)
    ensures
        copy@ == node@,
    decreases node,
{
    ParForReduction {
        op: node.op,
        target: node.target.clone(),
        expr: copy_expr(&node.expr),
        span: node.span,
    }
}

/// A copy of a parameter of a function.
pub fn copy_param(node: &FunctionParam) -> (copy: FunctionParam)
    ensures
        copy@ == node@,
    decreases node,
{
    FunctionParam {
        name: node.name.clone(),
        ty: copy_type(&node.ty),
        span: node.span,
    }
}

/// A copy of a function.
pub fn copy_function(node: &Function) -> (copy: Function)
    ensures
        copy@ == node@,
    decreases node,
{
    Function {
        name: node.name.clone(),
        public: node.public,
        params: copy_params(&node.params),
        return_type: match &node.return_type {
            Some(node) => Some(copy_type(node)),
            None => None,
        },
        body: copy_stmts(&node.body),
        span: node.span,
    }
}

/// A copy of a field of a struct, or one that is embedded in it.
pub fn copy_field(node: &StructField) -> (copy: StructField)
    ensures
        copy@ == node@,
    decreases node,
{
    StructField {
        name: node.name.clone(),
        ty: copy_type(&node.ty),
        embedded: node.embedded,
        span: node.span,
    }
}

/// A copy of a struct.
pub fn copy_struct(node: &StructDef) -> (copy: StructDef)
    ensures
        copy@ == node@,
    decreases node,
{
    StructDef {
        name: node.name.clone(),
        public: node.public,
        fields: copy_fields(&node.fields),
        span: node.span,
    }
}

/// A copy of a field of a tuple payload.
pub fn copy_tuple_field(node: &EnumTupleFieldDef) -> (copy: EnumTupleFieldDef)
    ensures
        copy@ == node@,
    decreases node,
{
    EnumTupleFieldDef {
        ty: copy_type(&node.ty),
        span: node.span,
    }
}

/// A copy of a variant of an enum.
pub fn copy_variant(node: &EnumVariantDef) -> (copy: EnumVariantDef)
    ensures
        copy@ == node@,
    decreases node,
{
    EnumVariantDef {
        name: node.name.clone(),
        payload: copy_payload(&node.payload),
        span: node.span,
    }
}

/// A copy of an enum.
pub fn copy_enum(node: &EnumDef) -> (copy: EnumDef)
    ensures
        copy@ == node@,
    decreases node,
{
    EnumDef {
        name: node.name.clone(),
        public: node.public,
        type_params: copy_texts(&node.type_params),
        variants: copy_variants(&node.variants),
        span: node.span,
    }
}

/// A copy of the signature of a trait method.
pub fn copy_method_sig(node: &TraitMethodSig) -> (copy: TraitMethodSig)
    ensures
        copy@ == node@,
    decreases node,
{
    TraitMethodSig {
        name: node.name.clone(),
        params: copy_params(&node.params),
        return_type: match &node.return_type {
            Some(node) => Some(copy_type(node)),
            None => None,
        },
        span: node.span,
    }
}

/// A copy of a trait.
pub fn copy_trait(node: &TraitDef) -> (copy: TraitDef)
    ensures
        copy@ == node@,
    decreases node,
{
    TraitDef {
        name: node.name.clone(),
        public: node.public,
        methods: copy_method_sigs(&node.methods),
        span: node.span,
    }
}

/// A copy of an implementation of a trait for a type.
pub fn copy_trait_impl(node: &TraitImplDef) -> (copy: TraitImplDef)
    ensures
        copy@ == node@,
    decreases node,
{
    TraitImplDef {
        trait_name: node.trait_name.clone(),
        for_type: node.for_type.clone(),
        methods: copy_functions(&node.methods),
        span: node.span,
    }
}

/// A copy of the methods of a type itself.
pub fn copy_inherent_impl(node: &InherentImplDef) -> (copy: InherentImplDef)
    ensures
        copy@ == node@,
    decreases node,
{
    InherentImplDef {
        for_type: node.for_type.clone(),
        methods: copy_functions(&node.methods),
        span: node.span,
    }
}

/// A copy of a module declaration.
pub fn copy_module(node: &ModuleDecl) -> (copy: ModuleDecl)
    ensures
        copy@ == node@,
    decreases node,
{
    ModuleDecl {
        name: node.name.clone(),
        public: node.public,
        span: node.span,
    }
}

/// A copy of an import of one item of a module.
pub fn copy_use(node: &UseDecl) -> (copy: UseDecl)
    ensures
        copy@ == node@,
    decreases node,
{
    UseDecl {
        module: node.module.clone(),
        name: node.name.clone(),
        alias: copy_optional_text(&node.alias),
        public: node.public,
        span: node.span,
    }
}

/// A copy of a program as it is written.
pub fn copy_syntax(node: &Program) -> (copy: Program)
    ensures
        copy@ == node@,
    decreases node,
{
    Program {
        items: copy_items(&node.items),
    }
}

/// A copy of a type as it is written list.
pub fn copy_types(nodes: &Vec<TypeName>) -> (copy: Vec<TypeName>)
    ensures
        types_view(copy@) == types_view(nodes@),
    decreases nodes,
{
    let mut copy: Vec<TypeName> = Vec::with_capacity(nodes.len());
    for i in 0..nodes.len()
        invariant
            copy@.len() == i,
            forall|j: int| 0 <= j < i ==> (#[trigger] copy@[j])@ == nodes@[j]@,
    {
        copy.push(copy_type(&nodes[i]));
    }
    assert(types_view(copy@) =~= types_view(nodes@));
    copy
}

/// A copy of an expression list.
pub fn copy_exprs(nodes: &Vec<Expr>) -> (copy: Vec<Expr>)
    ensures
        exprs_view(copy@) == exprs_view(nodes@),
    decreases nodes,
{
    let mut copy: Vec<Expr> = Vec::with_capacity(nodes.len());
    for i in 0..nodes.len()
        invariant
            copy@.len() == i,
            forall|j: int| 0 <= j < i ==> (#[trigger] copy@[j])@ == nodes@[j]@,
    {
        copy.push(copy_expr(&nodes[i]));
    }
    assert(exprs_view(copy@) =~= exprs_view(nodes@));
    copy
}

/// A copy of a statement list.
pub fn copy_stmts(nodes: &Vec<Stmt>) -> (copy: Vec<Stmt>)
    ensures
        stmts_node_view(copy@) == stmts_node_view(nodes@),
    decreases nodes,
{
    let mut copy: Vec<Stmt> = Vec::with_capacity(nodes.len());
    for i in 0..nodes.len()
        invariant
            copy@.len() == i,
            forall|j: int| 0 <= j < i ==> (#[trigger] copy@[j])@ == nodes@[j]@,
    {
        copy.push(copy_stmt(&nodes[i]));
    }
    assert(stmts_node_view(copy@) =~= stmts_node_view(nodes@));
    copy
}

/// A copy of a field of a named pattern and what it binds list.
pub fn copy_named_patterns(
    nodes: &Vec<MatchNamedFieldPattern>,
) -> (copy: Vec<MatchNamedFieldPattern>)
    ensures
        named_patterns_view(copy@) == named_patterns_view(nodes@),
    decreases nodes,
{
    let mut copy: Vec<MatchNamedFieldPattern> = Vec::with_capacity(nodes.len());
    for i in 0..nodes.len()
        invariant
            copy@.len() == i,
            forall|j: int| 0 <= j < i ==> (#[trigger] copy@[j])@ == nodes@[j]@,
    {
        copy.push(copy_named_pattern(&nodes[i]));
    }
    assert(named_patterns_view(copy@) =~= named_patterns_view(nodes@));
    copy
}

/// A copy of an arm of a match expression list.
pub fn copy_arms(nodes: &Vec<MatchArm>) -> (copy: Vec<MatchArm>)
    ensures
        arms_view(copy@) == arms_view(nodes@),
    decreases nodes,
{
    let mut copy: Vec<MatchArm> = Vec::with_capacity(nodes.len());
    for i in 0..nodes.len()
        invariant
            copy@.len() == i,
            forall|j: int| 0 <= j < i ==> (#[trigger] copy@[j])@ == nodes@[j]@,
    {
        copy.push(copy_arm(&nodes[i]));
    }
    assert(arms_view(copy@) =~= arms_view(nodes@));
    copy
}

/// A copy of a field of a struct literal list.
pub fn copy_inits(nodes: &Vec<StructInitField>) -> (copy: Vec<StructInitField>)
    ensures
        inits_view(copy@) == inits_view(nodes@),
    decreases nodes,
{
    let mut copy: Vec<StructInitField> = Vec::with_capacity(nodes.len());
    for i in 0..nodes.len()
        invariant
            copy@.len() == i,
            forall|j: int| 0 <= j < i ==> (#[trigger] copy@[j])@ == nodes@[j]@,
    {
        copy.push(copy_init(&nodes[i]));
    }
    assert(inits_view(copy@) =~= inits_view(nodes@));
    copy
}

/// A copy of an entry of a dictionary literal list.
pub fn copy_entries(nodes: &Vec<DictEntry>) -> (copy: Vec<DictEntry>)
    ensures
        entries_view(copy@) == entries_view(nodes@),
    decreases nodes,
{
    let mut copy: Vec<DictEntry> = Vec::with_capacity(nodes.len());
    for i in 0..nodes.len()
        invariant
            copy@.len() == i,
            forall|j: int| 0 <= j < i ==> (#[trigger] copy@[j])@ == nodes@[j]@,
    {
        copy.push(copy_entry(&nodes[i]));
    }
    assert(entries_view(copy@) =~= entries_view(nodes@));
    copy
}

/// A copy of a parameter of a function list.
pub fn copy_params(nodes: &Vec<FunctionParam>) -> (copy: Vec<FunctionParam>)
    ensures
        params_view(copy@) == params_view(nodes@),
    decreases nodes,
{
    let mut copy: Vec<FunctionParam> = Vec::with_capacity(nodes.len());
    for i in 0..nodes.len()
        invariant
            copy@.len() == i,
            forall|j: int| 0 <= j < i ==> (#[trigger] copy@[j])@ == nodes@[j]@,
    {
        copy.push(copy_param(&nodes[i]));
    }
    assert(params_view(copy@) =~= params_view(nodes@));
    copy
}

/// A copy of a function list.
pub fn copy_functions(nodes: &Vec<Function>) -> (copy: Vec<Function>)
    ensures
        functions_view(copy@) == functions_view(nodes@),
    decreases nodes,
{
    let mut copy: Vec<Function> = Vec::with_capacity(nodes.len());
    for i in 0..nodes.len()
        invariant
            copy@.len() == i,
            forall|j: int| 0 <= j < i ==> (#[trigger] copy@[j])@ == nodes@[j]@,
    {
        copy.push(copy_function(&nodes[i]));
    }
    assert(functions_view(copy@) =~= functions_view(nodes@));
    copy
}

/// A copy of a field of a struct, or one that is embedded in it list.
pub fn copy_fields(nodes: &Vec<StructField>) -> (copy: Vec<StructField>)
    ensures
        fields_view(copy@) == fields_view(nodes@),
    decreases nodes,
{
    let mut copy: Vec<StructField> = Vec::with_capacity(nodes.len());
    for i in 0..nodes.len()
        invariant
            copy@.len() == i,
            forall|j: int| 0 <= j < i ==> (#[trigger] copy@[j])@ == nodes@[j]@,
    {
        copy.push(copy_field(&nodes[i]));
    }
    assert(fields_view(copy@) =~= fields_view(nodes@));
    copy
}

/// A copy of a field of a tuple payload list.
pub fn copy_tuple_fields(nodes: &Vec<EnumTupleFieldDef>) -> (copy: Vec<EnumTupleFieldDef>)
    ensures
        tuple_fields_view(copy@) == tuple_fields_view(nodes@),
    decreases nodes,
{
    let mut copy: Vec<EnumTupleFieldDef> = Vec::with_capacity(nodes.len());
    for i in 0..nodes.len()
        invariant
            copy@.len() == i,
            forall|j: int| 0 <= j < i ==> (#[trigger] copy@[j])@ == nodes@[j]@,
    {
        copy.push(copy_tuple_field(&nodes[i]));
    }
    assert(tuple_fields_view(copy@) =~= tuple_fields_view(nodes@));
    copy
}

/// A copy of a variant of an enum list.
pub fn copy_variants(nodes: &Vec<EnumVariantDef>) -> (copy: Vec<EnumVariantDef>)
    ensures
        variants_view(copy@) == variants_view(nodes@),
    decreases nodes,
{
    let mut copy: Vec<EnumVariantDef> = Vec::with_capacity(nodes.len());
    for i in 0..nodes.len()
        invariant
            copy@.len() == i,
            forall|j: int| 0 <= j < i ==> (#[trigger] copy@[j])@ == nodes@[j]@,
    {
        copy.push(copy_variant(&nodes[i]));
    }
    assert(variants_view(copy@) =~= variants_view(nodes@));
    copy
}

/// A copy of the signature of a trait method list.
pub fn copy_method_sigs(nodes: &Vec<TraitMethodSig>) -> (copy: Vec<TraitMethodSig>)
    ensures
        method_sigs_view(copy@) == method_sigs_view(nodes@),
    decreases nodes,
{
    let mut copy: Vec<TraitMethodSig> = Vec::with_capacity(nodes.len());
    for i in 0..nodes.len()
        invariant
            copy@.len() == i,
            forall|j: int| 0 <= j < i ==> (#[trigger] copy@[j])@ == nodes@[j]@,
    {
        copy.push(copy_method_sig(&nodes[i]));
    }
    assert(method_sigs_view(copy@) =~= method_sigs_view(nodes@));
    copy
}

/// A copy of an item at the top level of a program list.
pub fn copy_items(nodes: &Vec<Item>) -> (copy: Vec<Item>)
    ensures
        items_view(copy@) == items_view(nodes@),
    decreases nodes,
{
    let mut copy: Vec<Item> = Vec::with_capacity(nodes.len());
    for i in 0..nodes.len()
        invariant
            copy@.len() == i,
            forall|j: int| 0 <= j < i ==> (#[trigger] copy@[j])@ == nodes@[j]@,
    {
        copy.push(copy_item(&nodes[i]));
    }
    assert(items_view(copy@) =~= items_view(nodes@));
    copy
}

impl Clone for TypeName {
    fn clone(&self) -> (copy: Self)
        ensures
            copy@ == self@,
    {
        copy_type(self)
    }
}

impl Clone for MatchPattern {
    fn clone(&self) -> (copy: Self)
        ensures
            copy@ == self@,
    {
        copy_pattern(self)
    }
}

impl Clone for Expr {
    fn clone(&self) -> (copy: Self)
        ensures
            copy@ == self@,
    {
        copy_expr(self)
    }
}

impl Clone for Stmt {
    fn clone(&self) -> (copy: Self)
        ensures
            copy@ == self@,
    {
        copy_stmt(self)
    }
}

impl Clone for EnumVariantPayloadDef {
    fn clone(&self) -> (copy: Self)
        ensures
            copy@ == self@,
    {
        copy_payload(self)
    }
}

impl Clone for Item {
    fn clone(&self) -> (copy: Self)
        ensures
            copy@ == self@,
    {
        copy_item(self)
    }
}

impl Clone for MatchNamedFieldPattern {
    fn clone(&self) -> (copy: Self)
        ensures
            copy@ == self@,
    {
        copy_named_pattern(self)
    }
}

impl Clone for MatchArm {
    fn clone(&self) -> (copy: Self)
        ensures
            copy@ == self@,
    {
        copy_arm(self)
    }
}

impl Clone for StructInitField {
    fn clone(&self) -> (copy: Self)
        ensures
            copy@ == self@,
    {
        copy_init(self)
    }
}

impl Clone for DictEntry {
    fn clone(&self) -> (copy: Self)
        ensures
            copy@ == self@,
    {
        copy_entry(self)
    }
}

impl Clone for ParForReduction {
    fn clone(&self) -> (copy: Self)
        ensures
            copy@ == self@,
    {
        copy_reduction(self)
    }
}

impl Clone for FunctionParam {
    fn clone(&self) -> (copy: Self)
        ensures
            copy@ == self@,
    {
        copy_param(self)
    }
}

impl Clone for Function {
    fn clone(&self) -> (copy: Self)
        ensures
            copy@ == self@,
    {
        copy_function(self)
    }
}

impl Clone for StructField {
    fn clone(&self) -> (copy: Self)
        ensures
            copy@ == self@,
    {
        copy_field(self)
    }
}

impl Clone for StructDef {
    fn clone(&self) -> (copy: Self)
        ensures
            copy@ == self@,
    {
        copy_struct(self)
    }
}

impl Clone for EnumTupleFieldDef {
    fn clone(&self) -> (copy: Self)
        ensures
            copy@ == self@,
    {
        copy_tuple_field(self)
    }
}

impl Clone for EnumVariantDef {
    fn clone(&self) -> (copy: Self)
        ensures
            copy@ == self@,
    {
        copy_variant(self)
    }
}

impl Clone for EnumDef {
    fn clone(&self) -> (copy: Self)
        ensures
            copy@ == self@,
    {
        copy_enum(self)
    }
}

impl Clone for TraitMethodSig {
    fn clone(&self) -> (copy: Self)
        ensures
            copy@ == self@,
    {
        copy_method_sig(self)
    }
}

impl Clone for TraitDef {
    fn clone(&self) -> (copy: Self)
        ensures
            copy@ == self@,
    {
        copy_trait(self)
    }
}

impl Clone for TraitImplDef {
    fn clone(&self) -> (copy: Self)
        ensures
            copy@ == self@,
    {
        copy_trait_impl(self)
    }
}

impl Clone for InherentImplDef {
    fn clone(&self) -> (copy: Self)
        ensures
            copy@ == self@,
    {
        copy_inherent_impl(self)
    }
}

impl Clone for ModuleDecl {
    fn clone(&self) -> (copy: Self)
        ensures
            copy@ == self@,
    {
        copy_module(self)
    }
}

impl Clone for UseDecl {
    fn clone(&self) -> (copy: Self)
        ensures
            copy@ == self@,
    {
        copy_use(self)
    }
}

impl Clone for Program {
    fn clone(&self) -> (copy: Self)
        ensures
            copy@ == self@,
    {
        copy_syntax(self)
    }
}

} // verus!
