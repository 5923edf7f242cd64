//! The syntax tree that the parser builds, and its mathematical mirror.

use vstd::prelude::*;

verus! {

/// A place in a source.
#[derive(Debug, Clone, Copy, PartialEq, Eq, Structural)]
pub struct Span {
    pub line: usize,
    pub column: usize,
    pub source_id: usize,
}

impl Span {
    /// A place in the first source.
    pub fn new(line: usize, column: usize) -> (span: Self)
        ensures
            span == (Span { line, column, source_id: 0 }),
    {
        Span { line, column, source_id: 0 }
    }

    /// A place in a source.
    pub fn in_source(line: usize, column: usize, source_id: usize) -> (span: Self)
        ensures
            span == (Span { line, column, source_id }),
    {
        Span { line, column, source_id }
    }
}

/// Operators on one operand.
#[derive(Debug, Clone, Copy, PartialEq, Eq, Structural)]
pub enum UnaryOp {
    Plus,
    Neg,
    Not,
    Ref,
    RefMut,
}

/// Operators on two operands.
#[derive(Debug, Clone, Copy, PartialEq, Eq, Structural)]
pub enum BinaryOp {
    Or,
    And,
    Eq,
    Ne,
    Lt,
    Le,
    Gt,
    Ge,
    BitOr,
    BitXor,
    BitAnd,
    Shl,
    Shr,
    Add,
    Sub,
    Mul,
    Div,
    Mod,
}

/// How the values of a parallel loop are combined.
#[derive(Debug, Clone, Copy, PartialEq, Eq, Structural)]
pub enum ReductionOp {
    Sum,
    Min,
    Max,
}

/// A type as it is written.
#[derive(Debug, PartialEq, Eq)]
pub enum TypeName {
    String,
    Path,
    File,
    Thread,
    Byte,
    Char,
    Bool,
    Int { signed: bool, bits: u16 },
    Float { bits: u16 },
    Struct(String),
    Applied { name: String, args: Vec<TypeName> },
    Array { elem: Box<TypeName>, len: u64 },
    Dict { key: Box<TypeName>, value: Box<TypeName> },
    List { elem: Box<TypeName> },
    Mapping { key: Box<TypeName>, value: Box<TypeName> },
    Ref { mutable: bool, inner: Box<TypeName> },
}

/// A type as it is written as a mathematical value.
#[verifier::ext_equal]
pub enum TypeView {
    String,
    Path,
    File,
    Thread,
    Byte,
    Char,
    Bool,
    Int { signed: bool, bits: u16 },
    Float { bits: u16 },
    Struct(Seq<char>),
    Applied { name: Seq<char>, args: Seq<TypeView> },
    Array { elem: Box<TypeView>, len: u64 },
    Dict { key: Box<TypeView>, value: Box<TypeView> },
    List { elem: Box<TypeView> },
    Mapping { key: Box<TypeView>, value: Box<TypeView> },
    Ref { mutable: bool, inner: Box<TypeView> },
}

/// A pattern of a match arm.
#[derive(Debug, PartialEq, Eq)]
pub enum MatchPattern {
    Wildcard { span: Span },
    EnumUnit { enum_name: String, variant: String, span: Span },
    EnumTuple { enum_name: String, variant: String, bindings: Vec<Option<String>>, span: Span },
    EnumNamed {
        enum_name: String,
        variant: String,
        fields: Vec<MatchNamedFieldPattern>,
        span: Span,
    },
}

/// A pattern of a match arm as a mathematical value.
#[verifier::ext_equal]
pub enum PatternView {
    Wildcard { span: Span },
    EnumUnit { enum_name: Seq<char>, variant: Seq<char>, span: Span },
    EnumTuple {
        enum_name: Seq<char>,
        variant: Seq<char>,
        bindings: Seq<Option<Seq<char>>>,
        span: Span,
    },
    EnumNamed {
        enum_name: Seq<char>,
        variant: Seq<char>,
        fields: Seq<NamedPatternView>,
        span: Span,
    },
}

/// An expression.
#[derive(Debug, PartialEq, Eq)]
#[allow(inconsistent_fields)]
pub enum Expr {
    Bool { value: bool, span: Span },
    String { value: String, span: Span },
    Char { value: char, span: Span },
    Number { literal: String, span: Span },
    Ident { name: String, span: Span },
    Call { name: String, args: Vec<Expr>, span: Span },
    QualifiedCall { owner: String, member: String, args: Vec<Expr>, span: Span },
    Unary { op: UnaryOp, expr: Box<Expr>, span: Span },
    Binary { op: BinaryOp, left: Box<Expr>, right: Box<Expr>, span: Span },
    FieldAccess { base: Box<Expr>, field: String, span: Span },
    Index { base: Box<Expr>, index: Box<Expr>, span: Span },
    ArrayLit { elems: Vec<Expr>, span: Span },
    StructInit { name: String, fields: Vec<StructInitField>, span: Span },
    EnumVariant { enum_name: String, variant: String, span: Span },
    EnumTupleVariant { enum_name: String, variant: String, args: Vec<Expr>, span: Span },
    EnumStructVariant {
        enum_name: String,
        variant: String,
        fields: Vec<StructInitField>,
        span: Span,
    },
    DictLit { entries: Vec<DictEntry>, span: Span },
    MethodCall { receiver: Box<Expr>, name: String, args: Vec<Expr>, span: Span },
    Match { value: Box<Expr>, arms: Vec<MatchArm>, span: Span },
}

/// An expression as a mathematical value.
#[verifier::ext_equal]
#[allow(inconsistent_fields)]
pub enum ExprView {
    Bool { value: bool, span: Span },
    String { value: Seq<char>, span: Span },
    Char { value: char, span: Span },
    Number { literal: Seq<char>, span: Span },
    Ident { name: Seq<char>, span: Span },
    Call { name: Seq<char>, args: Seq<ExprView>, span: Span },
    QualifiedCall { owner: Seq<char>, member: Seq<char>, args: Seq<ExprView>, span: Span },
    Unary { op: UnaryOp, expr: Box<ExprView>, span: Span },
    Binary { op: BinaryOp, left: Box<ExprView>, right: Box<ExprView>, span: Span },
    FieldAccess { base: Box<ExprView>, field: Seq<char>, span: Span },
    Index { base: Box<ExprView>, index: Box<ExprView>, span: Span },
    ArrayLit { elems: Seq<ExprView>, span: Span },
    StructInit { name: Seq<char>, fields: Seq<InitView>, span: Span },
    EnumVariant { enum_name: Seq<char>, variant: Seq<char>, span: Span },
    EnumTupleVariant { enum_name: Seq<char>, variant: Seq<char>, args: Seq<ExprView>, span: Span },
    EnumStructVariant {
        enum_name: Seq<char>,
        variant: Seq<char>,
        fields: Seq<InitView>,
        span: Span,
    },
    DictLit { entries: Seq<EntryView>, span: Span },
    MethodCall { receiver: Box<ExprView>, name: Seq<char>, args: Seq<ExprView>, span: Span },
    Match { value: Box<ExprView>, arms: Seq<ArmView>, span: Span },
}

/// A statement.
#[derive(Debug, PartialEq, Eq)]
#[allow(inconsistent_fields)]
pub enum Stmt {
    Let { name: String, mutable: bool, ty: Option<TypeName>, expr: Expr, span: Span },
    Assign { name: String, expr: Expr, span: Span },
    AssignField { receiver: String, field: String, expr: Expr, span: Span },
    AssignIndex { name: String, index: Expr, expr: Expr, span: Span },
    AssignStructListIndex { receiver: String, field: String, index: Expr, expr: Expr, span: Span },
    Call { name: String, args: Vec<Expr>, span: Span },
    MethodCall { receiver: String, name: String, args: Vec<Expr>, span: Span },
    StructListMethodCall {
        receiver: String,
        field: String,
        name: String,
        args: Vec<Expr>,
        span: Span,
    },
    Return { expr: Option<Expr>, span: Span },
    Print { expr: Expr, span: Span },
    Exit { expr: Expr, span: Span },
    BenchLoop { iterations: Expr, span: Span },
    Block { stmts: Vec<Stmt>, span: Span },
    If { cond: Expr, then_branch: Vec<Stmt>, else_branch: Option<Vec<Stmt>>, span: Span },
    While { cond: Expr, body: Vec<Stmt>, span: Span },
    Loop { body: Vec<Stmt>, span: Span },
    For { name: String, start: Expr, end: Expr, body: Vec<Stmt>, span: Span },
    ParFor {
        name: String,
        start: Expr,
        end: Expr,
        body: Vec<Stmt>,
        reduction: Option<ParForReduction>,
        span: Span,
    },
    ForEach { name: String, iterable: Expr, body: Vec<Stmt>, span: Span },
    Break { span: Span },
    Continue { span: Span },
    Assert { cond: Expr, message: Option<Expr>, span: Span },
    Panic { message: Expr, span: Span },
}

/// A statement as a mathematical value.
#[verifier::ext_equal]
#[allow(inconsistent_fields)]
pub enum StmtNode {
    Let { name: Seq<char>, mutable: bool, ty: Option<TypeView>, expr: ExprView, span: Span },
    Assign { name: Seq<char>, expr: ExprView, span: Span },
    AssignField { receiver: Seq<char>, field: Seq<char>, expr: ExprView, span: Span },
    AssignIndex { name: Seq<char>, index: ExprView, expr: ExprView, span: Span },
    AssignStructListIndex {
        receiver: Seq<char>,
        field: Seq<char>,
        index: ExprView,
        expr: ExprView,
        span: Span,
    },
    Call { name: Seq<char>, args: Seq<ExprView>, span: Span },
    MethodCall { receiver: Seq<char>, name: Seq<char>, args: Seq<ExprView>, span: Span },
    StructListMethodCall {
        receiver: Seq<char>,
        field: Seq<char>,
        name: Seq<char>,
        args: Seq<ExprView>,
        span: Span,
    },
    Return { expr: Option<ExprView>, span: Span },
    Print { expr: ExprView, span: Span },
    Exit { expr: ExprView, span: Span },
    BenchLoop { iterations: ExprView, span: Span },
    Block { stmts: Seq<StmtNode>, span: Span },
    If {
        cond: ExprView,
        then_branch: Seq<StmtNode>,
        else_branch: Option<Seq<StmtNode>>,
        span: Span,
    },
    While { cond: ExprView, body: Seq<StmtNode>, span: Span },
    Loop { body: Seq<StmtNode>, span: Span },
    For { name: Seq<char>, start: ExprView, end: ExprView, body: Seq<StmtNode>, span: Span },
    ParFor {
        name: Seq<char>,
        start: ExprView,
        end: ExprView,
        body: Seq<StmtNode>,
        reduction: Option<ReductionView>,
        span: Span,
    },
    ForEach { name: Seq<char>, iterable: ExprView, body: Seq<StmtNode>, span: Span },
    Break { span: Span },
    Continue { span: Span },
    Assert { cond: ExprView, message: Option<ExprView>, span: Span },
    Panic { message: ExprView, span: Span },
}

/// What a variant of an enum carries.
#[derive(Debug, PartialEq, Eq)]
pub enum EnumVariantPayloadDef {
    Unit,
    Tuple(Vec<EnumTupleFieldDef>),
    Named(Vec<StructField>),
}

/// What a variant of an enum carries as a mathematical value.
#[verifier::ext_equal]
pub enum PayloadView {
    Unit,
    Tuple(Seq<TupleFieldView>),
    Named(Seq<FieldView>),
}

/// An item at the top level of a program.
#[derive(Debug, PartialEq, Eq)]
pub enum Item {
    Function(Function),
    Struct(StructDef),
    Enum(EnumDef),
    Trait(TraitDef),
    Impl(TraitImplDef),
    InherentImpl(InherentImplDef),
    Module(ModuleDecl),
    Use(UseDecl),
}

/// An item at the top level of a program as a mathematical value.
#[verifier::ext_equal]
pub enum ItemView {
    Function(FunctionView),
    Struct(StructView),
    Enum(EnumView),
    Trait(TraitView),
    Impl(TraitImplView),
    InherentImpl(InherentImplView),
    Module(ModuleView),
    Use(UseView),
}

/// A field of a named pattern and what it binds.
#[derive(Debug, PartialEq, Eq)]
pub struct MatchNamedFieldPattern {
    pub name: String,
    pub binding: Option<String>,
    pub span: Span,
}

/// A field of a named pattern and what it binds as a mathematical value.
#[verifier::ext_equal]
pub struct NamedPatternView {
    pub name: Seq<char>,
    pub binding: Option<Seq<char>>,
    pub span: Span,
}

/// An arm of a match expression.
#[derive(Debug, PartialEq, Eq)]
pub struct MatchArm {
    pub pattern: MatchPattern,
    pub expr: Expr,
    pub span: Span,
}

/// An arm of a match expression as a mathematical value.
#[verifier::ext_equal]
pub struct ArmView {
    pub pattern: PatternView,
    pub expr: ExprView,
    pub span: Span,
}

/// A field of a struct literal.
#[derive(Debug, PartialEq, Eq)]
pub struct StructInitField {
    pub name: String,
    pub expr: Expr,
    pub span: Span,
}

/// A field of a struct literal as a mathematical value.
#[verifier::ext_equal]
pub struct InitView {
    pub name: Seq<char>,
    pub expr: ExprView,
    pub span: Span,
}

/// An entry of a dictionary literal.
#[derive(Debug, PartialEq, Eq)]
pub struct DictEntry {
    pub key: String,
    pub value: Expr,
    pub span: Span,
}

/// An entry of a dictionary literal as a mathematical value.
#[verifier::ext_equal]
pub struct EntryView {
    pub key: Seq<char>,
    pub value: ExprView,
    pub span: Span,
}

/// What a parallel loop reduces to.
#[derive(Debug, PartialEq, Eq)]
pub struct ParForReduction {
    pub op: ReductionOp,
    pub target: String,
    pub expr: Expr,
    pub span: Span,
}

/// What a parallel loop reduces to as a mathematical value.
#[verifier::ext_equal]
pub struct ReductionView {
    pub op: ReductionOp,
    pub target: Seq<char>,
    pub expr: ExprView,
    pub span: Span,
}

/// A parameter of a function.
#[derive(Debug, PartialEq, Eq)]
pub struct FunctionParam {
    pub name: String,
    pub ty: TypeName,
    pub span: Span,
}

/// A parameter of a function as a mathematical value.
#[verifier::ext_equal]
pub struct ParamView {
    pub name: Seq<char>,
    pub ty: TypeView,
    pub span: Span,
}

/// A function.
#[derive(Debug, PartialEq, Eq)]
pub struct Function {
    pub name: String,
    pub public: bool,
    pub params: Vec<FunctionParam>,
    pub return_type: Option<TypeName>,
    pub body: Vec<Stmt>,
    pub span: Span,
}

/// A function as a mathematical value.
#[verifier::ext_equal]
pub struct FunctionView {
    pub name: Seq<char>,
    pub public: bool,
    pub params: Seq<ParamView>,
    pub return_type: Option<TypeView>,
    pub body: Seq<StmtNode>,
    pub span: Span,
}

/// A field of a struct, or one that is embedded in it.
#[derive(Debug, PartialEq, Eq)]
pub struct StructField {
    pub name: String,
    pub ty: TypeName,
    pub embedded: bool,
    pub span: Span,
}

/// A field of a struct, or one that is embedded in it as a mathematical value.
#[verifier::ext_equal]
pub struct FieldView {
    pub name: Seq<char>,
    pub ty: TypeView,
    pub embedded: bool,
    pub span: Span,
}

/// A struct.
#[derive(Debug, PartialEq, Eq)]
pub struct StructDef {
    pub name: String,
    pub public: bool,
    pub fields: Vec<StructField>,
    pub span: Span,
}

/// A struct as a mathematical value.
#[verifier::ext_equal]
pub struct StructView {
    pub name: Seq<char>,
    pub public: bool,
    pub fields: Seq<FieldView>,
    pub span: Span,
}

/// A field of a tuple payload.
#[derive(Debug, PartialEq, Eq)]
pub struct EnumTupleFieldDef {
    pub ty: TypeName,
    pub span: Span,
}

/// A field of a tuple payload as a mathematical value.
#[verifier::ext_equal]
pub struct TupleFieldView {
    pub ty: TypeView,
    pub span: Span,
}

/// A variant of an enum.
#[derive(Debug, PartialEq, Eq)]
pub struct EnumVariantDef {
    pub name: String,
    pub payload: EnumVariantPayloadDef,
    pub span: Span,
}

/// A variant of an enum as a mathematical value.
#[verifier::ext_equal]
pub struct VariantView {
    pub name: Seq<char>,
    pub payload: PayloadView,
    pub span: Span,
}

/// An enum.
#[derive(Debug, PartialEq, Eq)]
pub struct EnumDef {
    pub name: String,
    pub public: bool,
    pub type_params: Vec<String>,
    pub variants: Vec<EnumVariantDef>,
    pub span: Span,
}

/// An enum as a mathematical value.
#[verifier::ext_equal]
pub struct EnumView {
    pub name: Seq<char>,
    pub public: bool,
    pub type_params: Seq<Seq<char>>,
    pub variants: Seq<VariantView>,
    pub span: Span,
}

/// The signature of a trait method.
#[derive(Debug, PartialEq, Eq)]
pub struct TraitMethodSig {
    pub name: String,
    pub params: Vec<FunctionParam>,
    pub return_type: Option<TypeName>,
    pub span: Span,
}

/// The signature of a trait method as a mathematical value.
#[verifier::ext_equal]
pub struct MethodSigView {
    pub name: Seq<char>,
    pub params: Seq<ParamView>,
    pub return_type: Option<TypeView>,
    pub span: Span,
}

/// A trait.
#[derive(Debug, PartialEq, Eq)]
pub struct TraitDef {
    pub name: String,
    pub public: bool,
    pub methods: Vec<TraitMethodSig>,
    pub span: Span,
}

/// A trait as a mathematical value.
#[verifier::ext_equal]
pub struct TraitView {
    pub name: Seq<char>,
    pub public: bool,
    pub methods: Seq<MethodSigView>,
    pub span: Span,
}

/// An implementation of a trait for a type.
#[derive(Debug, PartialEq, Eq)]
pub struct TraitImplDef {
    pub trait_name: String,
    pub for_type: String,
    pub methods: Vec<Function>,
    pub span: Span,
}

/// An implementation of a trait for a type as a mathematical value.
#[verifier::ext_equal]
pub struct TraitImplView {
    pub trait_name: Seq<char>,
    pub for_type: Seq<char>,
    pub methods: Seq<FunctionView>,
    pub span: Span,
}

/// The methods of a type itself.
#[derive(Debug, PartialEq, Eq)]
pub struct InherentImplDef {
    pub for_type: String,
    pub methods: Vec<Function>,
    pub span: Span,
}

/// The methods of a type itself as a mathematical value.
#[verifier::ext_equal]
pub struct InherentImplView {
    pub for_type: Seq<char>,
    pub methods: Seq<FunctionView>,
    pub span: Span,
}

/// A module declaration.
#[derive(Debug, PartialEq, Eq)]
pub struct ModuleDecl {
    pub name: String,
    pub public: bool,
    pub span: Span,
}

/// A module declaration as a mathematical value.
#[verifier::ext_equal]
pub struct ModuleView {
    pub name: Seq<char>,
    pub public: bool,
    pub span: Span,
}

/// An import of one item of a module.
#[derive(Debug, PartialEq, Eq)]
pub struct UseDecl {
    pub module: String,
    pub name: String,
    pub alias: Option<String>,
    pub public: bool,
    pub span: Span,
}

/// An import of one item of a module as a mathematical value.
#[verifier::ext_equal]
pub struct UseView {
    pub module: Seq<char>,
    pub name: Seq<char>,
    pub alias: Option<Seq<char>>,
    pub public: bool,
    pub span: Span,
}

/// A program as it is written.
#[derive(Debug, PartialEq, Eq)]
pub struct Program {
    pub items: Vec<Item>,
}

/// A program as it is written as a mathematical value.
#[verifier::ext_equal]
pub struct SyntaxView {
    pub items: Seq<ItemView>,
}

/// Texts as mathematical values.
pub open spec fn texts_view(texts: Seq<String>) -> Seq<Seq<char>> {
    Seq::new(texts.len(), |i: int| texts[i]@)
}

/// An optional text as a mathematical value.
pub open spec fn optional_text(text: Option<String>) -> Option<Seq<char>> {
    match text {
        Some(text) => Some(text@),
        None => None,
    }
}

/// Optional texts as mathematical values.
pub open spec fn optional_texts(texts: Seq<Option<String>>) -> Seq<Option<Seq<char>>> {
    Seq::new(texts.len(), |i: int| optional_text(texts[i]))
}

/// A type as it is written as a mathematical value.
pub open spec fn type_view(node: TypeName) -> TypeView
    decreases node,
{
    match node {
        TypeName::String => TypeView::String,
        TypeName::Path => TypeView::Path,
        TypeName::File => TypeView::File,
        TypeName::Thread => TypeView::Thread,
        TypeName::Byte => TypeView::Byte,
        TypeName::Char => TypeView::Char,
        TypeName::Bool => TypeView::Bool,
        TypeName::Int { signed, bits } => TypeView::Int {
            signed,
            bits,
        },
        TypeName::Float { bits } => TypeView::Float {
            bits,
        },
        TypeName::Struct(name) => TypeView::Struct(name@),
        TypeName::Applied { name, args } => TypeView::Applied {
            name: name@,
            args: types_view(args@),
        },
        TypeName::Array { elem, len } => TypeView::Array {
            elem: Box::new(type_view(*elem)),
            len,
        },
        TypeName::Dict { key, value } => TypeView::Dict {
            key: Box::new(type_view(*key)),
            value: Box::new(type_view(*value)),
        },
        TypeName::List { elem } => TypeView::List {
            elem: Box::new(type_view(*elem)),
        },
        TypeName::Mapping { key, value } => TypeView::Mapping {
            key: Box::new(type_view(*key)),
            value: Box::new(type_view(*value)),
        },
        TypeName::Ref { mutable, inner } => TypeView::Ref {
            mutable,
            inner: Box::new(type_view(*inner)),
        },
    }
}

/// A pattern of a match arm as a mathematical value.
pub open spec fn pattern_view(node: MatchPattern) -> PatternView
    decreases node,
{
    match node {
        MatchPattern::Wildcard { span } => PatternView::Wildcard {
            span,
        },
        MatchPattern::EnumUnit { enum_name, variant, span } => PatternView::EnumUnit {
            enum_name: enum_name@,
            variant: variant@,
            span,
        },
        MatchPattern::EnumTuple { enum_name, variant, bindings, span } => PatternView::EnumTuple {
            enum_name: enum_name@,
            variant: variant@,
            bindings: optional_texts(bindings@),
            span,
        },
        MatchPattern::EnumNamed { enum_name, variant, fields, span } => PatternView::EnumNamed {
            enum_name: enum_name@,
            variant: variant@,
            fields: named_patterns_view(fields@),
            span,
        },
    }
}

/// An expression as a mathematical value.
pub open spec fn expr_view(node: Expr) -> ExprView
    decreases node,
{
    match node {
        Expr::Bool { value, span } => ExprView::Bool {
            value,
            span,
        },
        Expr::String { value, span } => ExprView::String {
            value: value@,
            span,
        },
        Expr::Char { value, span } => ExprView::Char {
            value,
            span,
        },
        Expr::Number { literal, span } => ExprView::Number {
            literal: literal@,
            span,
        },
        Expr::Ident { name, span } => ExprView::Ident {
            name: name@,
            span,
        },
        Expr::Call { name, args, span } => ExprView::Call {
            name: name@,
            args: exprs_view(args@),
            span,
        },
        Expr::QualifiedCall { owner, member, args, span } => ExprView::QualifiedCall {
            owner: owner@,
            member: member@,
            args: exprs_view(args@),
            span,
        },
        Expr::Unary { op, expr, span } => ExprView::Unary {
            op,
            expr: Box::new(expr_view(*expr)),
            span,
        },
        Expr::Binary { op, left, right, span } => ExprView::Binary {
            op,
            left: Box::new(expr_view(*left)),
            right: Box::new(expr_view(*right)),
            span,
        },
        Expr::FieldAccess { base, field, span } => ExprView::FieldAccess {
            base: Box::new(expr_view(*base)),
            field: field@,
            span,
        },
        Expr::Index { base, index, span } => ExprView::Index {
            base: Box::new(expr_view(*base)),
            index: Box::new(expr_view(*index)),
            span,
        },
        Expr::ArrayLit { elems, span } => ExprView::ArrayLit {
            elems: exprs_view(elems@),
            span,
        },
        Expr::StructInit { name, fields, span } => ExprView::StructInit {
            name: name@,
            fields: inits_view(fields@),
            span,
        },
        Expr::EnumVariant { enum_name, variant, span } => ExprView::EnumVariant {
            enum_name: enum_name@,
            variant: variant@,
            span,
        },
        Expr::EnumTupleVariant { enum_name, variant, args, span } => ExprView::EnumTupleVariant {
            enum_name: enum_name@,
            variant: variant@,
            args: exprs_view(args@),
            span,
        },
        Expr::EnumStructVariant {
            enum_name,
            variant,
            fields,
            span,
        } => ExprView::EnumStructVariant {
            enum_name: enum_name@,
            variant: variant@,
            fields: inits_view(fields@),
            span,
        },
        Expr::DictLit { entries, span } => ExprView::DictLit {
            entries: entries_view(entries@),
            span,
        },
        Expr::MethodCall { receiver, name, args, span } => ExprView::MethodCall {
            receiver: Box::new(expr_view(*receiver)),
            name: name@,
            args: exprs_view(args@),
            span,
        },
        Expr::Match { value, arms, span } => ExprView::Match {
            value: Box::new(expr_view(*value)),
            arms: arms_view(arms@),
            span,
        },
    }
}

/// A statement as a mathematical value.
pub open spec fn stmt_view(node: Stmt) -> StmtNode
    decreases node,
{
    match node {
        Stmt::Let { name, mutable, ty, expr, span } => StmtNode::Let {
            name: name@,
            mutable,
            ty: match ty {
                Some(node) => Some(type_view(node)),
                None => None,
            },
            expr: expr_view(expr),
            span,
        },
        Stmt::Assign { name, expr, span } => StmtNode::Assign {
            name: name@,
            expr: expr_view(expr),
            span,
        },
        Stmt::AssignField { receiver, field, expr, span } => StmtNode::AssignField {
            receiver: receiver@,
            field: field@,
            expr: expr_view(expr),
            span,
        },
        Stmt::AssignIndex { name, index, expr, span } => StmtNode::AssignIndex {
            name: name@,
            index: expr_view(index),
            expr: expr_view(expr),
            span,
        },
        Stmt::AssignStructListIndex {
            receiver,
            field,
            index,
            expr,
            span,
        } => StmtNode::AssignStructListIndex {
            receiver: receiver@,
            field: field@,
            index: expr_view(index),
            expr: expr_view(expr),
            span,
        },
        Stmt::Call { name, args, span } => StmtNode::Call {
            name: name@,
            args: exprs_view(args@),
            span,
        },
        Stmt::MethodCall { receiver, name, args, span } => StmtNode::MethodCall {
            receiver: receiver@,
            name: name@,
            args: exprs_view(args@),
            span,
        },
        Stmt::StructListMethodCall {
            receiver,
            field,
            name,
            args,
            span,
        } => StmtNode::StructListMethodCall {
            receiver: receiver@,
            field: field@,
            name: name@,
            args: exprs_view(args@),
            span,
        },
        Stmt::Return { expr, span } => StmtNode::Return {
            expr: match expr {
                Some(node) => Some(expr_view(node)),
                None => None,
            },
            span,
        },
        Stmt::Print { expr, span } => StmtNode::Print {
            expr: expr_view(expr),
            span,
        },
        Stmt::Exit { expr, span } => StmtNode::Exit {
            expr: expr_view(expr),
            span,
        },
        Stmt::BenchLoop { iterations, span } => StmtNode::BenchLoop {
            iterations: expr_view(iterations),
            span,
        },
        Stmt::Block { stmts, span } => StmtNode::Block {
            stmts: stmts_node_view(stmts@),
            span,
        },
        Stmt::If { cond, then_branch, else_branch, span } => StmtNode::If {
            cond: expr_view(cond),
            then_branch: stmts_node_view(then_branch@),
            else_branch: match else_branch {
                Some(list) => Some(stmts_node_view(list@)),
                None => None,
            },
            span,
        },
        Stmt::While { cond, body, span } => StmtNode::While {
            cond: expr_view(cond),
            body: stmts_node_view(body@),
            span,
        },
        Stmt::Loop { body, span } => StmtNode::Loop {
            body: stmts_node_view(body@),
            span,
        },
        Stmt::For { name, start, end, body, span } => StmtNode::For {
            name: name@,
            start: expr_view(start),
            end: expr_view(end),
            body: stmts_node_view(body@),
            span,
        },
        Stmt::ParFor { name, start, end, body, reduction, span } => StmtNode::ParFor {
            name: name@,
            start: expr_view(start),
            end: expr_view(end),
            body: stmts_node_view(body@),
            reduction: match reduction {
                Some(node) => Some(reduction_view(node)),
                None => None,
            },
            span,
        },
        Stmt::ForEach { name, iterable, body, span } => StmtNode::ForEach {
            name: name@,
            iterable: expr_view(iterable),
            body: stmts_node_view(body@),
            span,
        },
        Stmt::Break { span } => StmtNode::Break {
            span,
        },
        Stmt::Continue { span } => StmtNode::Continue {
            span,
        },
        Stmt::Assert { cond, message, span } => StmtNode::Assert {
            cond: expr_view(cond),
            message: match message {
                Some(node) => Some(expr_view(node)),
                None => None,
            },
            span,
        },
        Stmt::Panic { message, span } => StmtNode::Panic {
            message: expr_view(message),
            span,
        },
    }
}

/// What a variant of an enum carries as a mathematical value.
pub open spec fn payload_view(node: EnumVariantPayloadDef) -> PayloadView
    decreases node,
{
    match node {
        EnumVariantPayloadDef::Unit => PayloadView::Unit,
        EnumVariantPayloadDef::Tuple(inner) => PayloadView::Tuple(tuple_fields_view(inner@)),
        EnumVariantPayloadDef::Named(inner) => PayloadView::Named(fields_view(inner@)),
    }
}

/// An item at the top level of a program as a mathematical value.
pub open spec fn item_view(node: Item) -> ItemView
    decreases node,
{
    match node {
        Item::Function(inner) => ItemView::Function(function_view(inner)),
        Item::Struct(inner) => ItemView::Struct(struct_view(inner)),
        Item::Enum(inner) => ItemView::Enum(enum_view(inner)),
        Item::Trait(inner) => ItemView::Trait(trait_view(inner)),
        Item::Impl(inner) => ItemView::Impl(trait_impl_view(inner)),
        Item::InherentImpl(inner) => ItemView::InherentImpl(inherent_impl_view(inner)),
        Item::Module(inner) => ItemView::Module(module_view(inner)),
        Item::Use(inner) => ItemView::Use(use_view(inner)),
    }
}

/// A field of a named pattern and what it binds as a mathematical value.
pub open spec fn named_pattern_view(node: MatchNamedFieldPattern) -> NamedPatternView
    decreases node,
{
    NamedPatternView {
        name: node.name@,
        binding: optional_text(node.binding),
        span: node.span,
    }
}

/// An arm of a match expression as a mathematical value.
pub open spec fn arm_view(node: MatchArm) -> ArmView
    decreases node,
{
    ArmView {
        pattern: pattern_view(node.pattern),
        expr: expr_view(node.expr),
        span: node.span,
    }
}

/// A field of a struct literal as a mathematical value.
pub open spec fn init_view(node: StructInitField) -> InitView
    decreases node,
{
    InitView {
        name: node.name@,
        expr: expr_view(node.expr),
        span: node.span,
    }
}

/// An entry of a dictionary literal as a mathematical value.
pub open spec fn entry_view(node: DictEntry) -> EntryView
    decreases node,
{
    EntryView {
        key: node.key@,
        value: expr_view(node.value),
        span: node.span,
    }
}

/// What a parallel loop reduces to as a mathematical value.
pub open spec fn reduction_view(node: ParForReduction) -> ReductionView
    decreases node,
{
    ReductionView {
        op: node.op,
        target: node.target@,
        expr: expr_view(node.expr),
        span: node.span,
    }
}

/// A parameter of a function as a mathematical value.
pub open spec fn param_view(node: FunctionParam) -> ParamView
    decreases node,
{
    ParamView {
        name: node.name@,
        ty: type_view(node.ty),
        span: node.span,
    }
}

/// A function as a mathematical value.
pub open spec fn function_view(node: Function) -> FunctionView
    decreases node,
{
    FunctionView {
        name: node.name@,
        public: node.public,
        params: params_view(node.params@),
        return_type: match node.return_type {
            Some(node) => Some(type_view(node)),
            None => None,
        },
        body: stmts_node_view(node.body@),
        span: node.span,
    }
}

/// A field of a struct, or one that is embedded in it as a mathematical value.
pub open spec fn field_view(node: StructField) -> FieldView
    decreases node,
{
    FieldView {
        name: node.name@,
        ty: type_view(node.ty),
        embedded: node.embedded,
        span: node.span,
    }
}

/// A struct as a mathematical value.
pub open spec fn struct_view(node: StructDef) -> StructView
    decreases node,
{
    StructView {
        name: node.name@,
        public: node.public,
        fields: fields_view(node.fields@),
        span: node.span,
    }
}

/// A field of a tuple payload as a mathematical value.
pub open spec fn tuple_field_view(node: EnumTupleFieldDef) -> TupleFieldView
    decreases node,
{
    TupleFieldView {
        ty: type_view(node.ty),
        span: node.span,
    }
}

/// A variant of an enum as a mathematical value.
pub open spec fn variant_view(node: EnumVariantDef) -> VariantView
    decreases node,
{
    VariantView {
        name: node.name@,
        payload: payload_view(node.payload),
        span: node.span,
    }
}

/// An enum as a mathematical value.
pub open spec fn enum_view(node: EnumDef) -> EnumView
    decreases node,
{
    EnumView {
        name: node.name@,
        public: node.public,
        type_params: texts_view(node.type_params@),
        variants: variants_view(node.variants@),
        span: node.span,
    }
}

/// The signature of a trait method as a mathematical value.
pub open spec fn method_sig_view(node: TraitMethodSig) -> MethodSigView
    decreases node,
{
    MethodSigView {
        name: node.name@,
        params: params_view(node.params@),
        return_type: match node.return_type {
            Some(node) => Some(type_view(node)),
            None => None,
        },
        span: node.span,
    }
}

/// A trait as a mathematical value.
pub open spec fn trait_view(node: TraitDef) -> TraitView
    decreases node,
{
    TraitView {
        name: node.name@,
        public: node.public,
        methods: method_sigs_view(node.methods@),
        span: node.span,
    }
}

/// An implementation of a trait for a type as a mathematical value.
pub open spec fn trait_impl_view(node: TraitImplDef) -> TraitImplView
    decreases node,
{
    TraitImplView {
        trait_name: node.trait_name@,
        for_type: node.for_type@,
        methods: functions_view(node.methods@),
        span: node.span,
    }
}

/// The methods of a type itself as a mathematical value.
pub open spec fn inherent_impl_view(node: InherentImplDef) -> InherentImplView
    decreases node,
{
    InherentImplView {
        for_type: node.for_type@,
        methods: functions_view(node.methods@),
        span: node.span,
    }
}

/// A module declaration as a mathematical value.
pub open spec fn module_view(node: ModuleDecl) -> ModuleView
    decreases node,
{
    ModuleView {
        name: node.name@,
        public: node.public,
        span: node.span,
    }
}

/// An import of one item of a module as a mathematical value.
pub open spec fn use_view(node: UseDecl) -> UseView
    decreases node,
{
    UseView {
        module: node.module@,
        name: node.name@,
        alias: optional_text(node.alias),
        public: node.public,
        span: node.span,
    }
}

/// A program as it is written as a mathematical value.
pub open spec fn syntax_view(node: Program) -> SyntaxView
    decreases node,
{
    SyntaxView {
        items: items_view(node.items@),
    }
}

/// A type as it is written list as a mathematical value.
pub open spec fn types_view(nodes: Seq<TypeName>) -> Seq<TypeView>
    decreases nodes,
{
    Seq::new(
        nodes.len(),
        |i: int|
            if 0 <= i < nodes.len() {
                type_view(nodes[i])
            } else {
                arbitrary()
            },
    )
}

/// An expression list as a mathematical value.
pub open spec fn exprs_view(nodes: Seq<Expr>) -> Seq<ExprView>
    decreases nodes,
{
    Seq::new(
        nodes.len(),
        |i: int|
            if 0 <= i < nodes.len() {
                expr_view(nodes[i])
            } else {
                arbitrary()
            },
    )
}

/// A statement list as a mathematical value.
pub open spec fn stmts_node_view(nodes: Seq<Stmt>) -> Seq<StmtNode>
    decreases nodes,
{
    Seq::new(
        nodes.len(),
        |i: int|
            if 0 <= i < nodes.len() {
                stmt_view(nodes[i])
            } else {
                arbitrary()
            },
    )
}

/// A field of a named pattern and what it binds list as a mathematical value.
pub open spec fn named_patterns_view(nodes: Seq<MatchNamedFieldPattern>) -> Seq<NamedPatternView>
    decreases nodes,
{
    Seq::new(
        nodes.len(),
        |i: int|
            if 0 <= i < nodes.len() {
                named_pattern_view(nodes[i])
            } else {
                arbitrary()
            },
    )
}

/// An arm of a match expression list as a mathematical value.
pub open spec fn arms_view(nodes: Seq<MatchArm>) -> Seq<ArmView>
    decreases nodes,
{
    Seq::new(
        nodes.len(),
        |i: int|
            if 0 <= i < nodes.len() {
                arm_view(nodes[i])
            } else {
                arbitrary()
            },
    )
}

/// A field of a struct literal list as a mathematical value.
pub open spec fn inits_view(nodes: Seq<StructInitField>) -> Seq<InitView>
    decreases nodes,
{
    Seq::new(
        nodes.len(),
        |i: int|
            if 0 <= i < nodes.len() {
                init_view(nodes[i])
            } else {
                arbitrary()
            },
    )
}

/// An entry of a dictionary literal list as a mathematical value.
pub open spec fn entries_view(nodes: Seq<DictEntry>) -> Seq<EntryView>
    decreases nodes,
{
    Seq::new(
        nodes.len(),
        |i: int|
            if 0 <= i < nodes.len() {
                entry_view(nodes[i])
            } else {
                arbitrary()
            },
    )
}

/// A parameter of a function list as a mathematical value.
pub open spec fn params_view(nodes: Seq<FunctionParam>) -> Seq<ParamView>
    decreases nodes,
{
    Seq::new(
        nodes.len(),
        |i: int|
            if 0 <= i < nodes.len() {
                param_view(nodes[i])
            } else {
                arbitrary()
            },
    )
}

/// A function list as a mathematical value.
pub open spec fn functions_view(nodes: Seq<Function>) -> Seq<FunctionView>
    decreases nodes,
{
    Seq::new(
        nodes.len(),
        |i: int|
            if 0 <= i < nodes.len() {
                function_view(nodes[i])
            } else {
                arbitrary()
            },
    )
}

/// A field of a struct, or one that is embedded in it list as a mathematical value.
pub open spec fn fields_view(nodes: Seq<StructField>) -> Seq<FieldView>
    decreases nodes,
{
    Seq::new(
        nodes.len(),
        |i: int|
            if 0 <= i < nodes.len() {
                field_view(nodes[i])
            } else {
                arbitrary()
            },
    )
}

/// A field of a tuple payload list as a mathematical value.
pub open spec fn tuple_fields_view(nodes: Seq<EnumTupleFieldDef>) -> Seq<TupleFieldView>
    decreases nodes,
{
    Seq::new(
        nodes.len(),
        |i: int|
            if 0 <= i < nodes.len() {
                tuple_field_view(nodes[i])
            } else {
                arbitrary()
            },
    )
}

/// A variant of an enum list as a mathematical value.
pub open spec fn variants_view(nodes: Seq<EnumVariantDef>) -> Seq<VariantView>
    decreases nodes,
{
    Seq::new(
        nodes.len(),
        |i: int|
            if 0 <= i < nodes.len() {
                variant_view(nodes[i])
            } else {
                arbitrary()
            },
    )
}

/// The signature of a trait method list as a mathematical value.
pub open spec fn method_sigs_view(nodes: Seq<TraitMethodSig>) -> Seq<MethodSigView>
    decreases nodes,
{
    Seq::new(
        nodes.len(),
        |i: int|
            if 0 <= i < nodes.len() {
                method_sig_view(nodes[i])
            } else {
                arbitrary()
            },
    )
}

/// An item at the top level of a program list as a mathematical value.
pub open spec fn items_view(nodes: Seq<Item>) -> Seq<ItemView>
    decreases nodes,
{
    Seq::new(
        nodes.len(),
        |i: int|
            if 0 <= i < nodes.len() {
                item_view(nodes[i])
            } else {
                arbitrary()
            },
    )
}

impl View for TypeName {
    type V = TypeView;

    open spec fn view(&self) -> TypeView {
        type_view(*self)
    }
}

impl View for MatchPattern {
    type V = PatternView;

    open spec fn view(&self) -> PatternView {
        pattern_view(*self)
    }
}

impl View for Expr {
    type V = ExprView;

    open spec fn view(&self) -> ExprView {
        expr_view(*self)
    }
}

impl View for Stmt {
    type V = StmtNode;

    open spec fn view(&self) -> StmtNode {
        stmt_view(*self)
    }
}

impl View for EnumVariantPayloadDef {
    type V = PayloadView;

    open spec fn view(&self) -> PayloadView {
        payload_view(*self)
    }
}

impl View for Item {
    type V = ItemView;

    open spec fn view(&self) -> ItemView {
        item_view(*self)
    }
}

impl View for MatchNamedFieldPattern {
    type V = NamedPatternView;

    open spec fn view(&self) -> NamedPatternView {
        named_pattern_view(*self)
    }
}

impl View for MatchArm {
    type V = ArmView;

    open spec fn view(&self) -> ArmView {
        arm_view(*self)
    }
}

impl View for StructInitField {
    type V = InitView;

    open spec fn view(&self) -> InitView {
        init_view(*self)
    }
}

impl View for DictEntry {
    type V = EntryView;

    open spec fn view(&self) -> EntryView {
        entry_view(*self)
    }
}

impl View for ParForReduction {
    type V = ReductionView;

    open spec fn view(&self) -> ReductionView {
        reduction_view(*self)
    }
}

impl View for FunctionParam {
    type V = ParamView;

    open spec fn view(&self) -> ParamView {
        param_view(*self)
    }
}

impl View for Function {
    type V = FunctionView;

    open spec fn view(&self) -> FunctionView {
        function_view(*self)
    }
}

impl View for StructField {
    type V = FieldView;

    open spec fn view(&self) -> FieldView {
        field_view(*self)
    }
}

impl View for StructDef {
    type V = StructView;

    open spec fn view(&self) -> StructView {
        struct_view(*self)
    }
}

impl View for EnumTupleFieldDef {
    type V = TupleFieldView;

    open spec fn view(&self) -> TupleFieldView {
        tuple_field_view(*self)
    }
}

impl View for EnumVariantDef {
    type V = VariantView;

    open spec fn view(&self) -> VariantView {
        variant_view(*self)
    }
}

impl View for EnumDef {
    type V = EnumView;

    open spec fn view(&self) -> EnumView {
        enum_view(*self)
    }
}

impl View for TraitMethodSig {
    type V = MethodSigView;

    open spec fn view(&self) -> MethodSigView {
        method_sig_view(*self)
    }
}

impl View for TraitDef {
    type V = TraitView;

    open spec fn view(&self) -> TraitView {
        trait_view(*self)
    }
}

impl View for TraitImplDef {
    type V = TraitImplView;

    open spec fn view(&self) -> TraitImplView {
        trait_impl_view(*self)
    }
}

impl View for InherentImplDef {
    type V = InherentImplView;

    open spec fn view(&self) -> InherentImplView {
        inherent_impl_view(*self)
    }
}

impl View for ModuleDecl {
    type V = ModuleView;

    open spec fn view(&self) -> ModuleView {
        module_view(*self)
    }
}

impl View for UseDecl {
    type V = UseView;

    open spec fn view(&self) -> UseView {
        use_view(*self)
    }
}

impl View for Program {
    type V = SyntaxView;

    open spec fn view(&self) -> SyntaxView {
        syntax_view(*self)
    }
}

} // verus!
