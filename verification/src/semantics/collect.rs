//! What a program declares, item by item.

use crate::ast::{
    fields_view, functions_view, items_view, texts_view, variants_view, EnumDef, EnumTupleFieldDef,
    EnumVariantDef, EnumVariantPayloadDef, EnumView, FieldView, Function, FunctionView,
    InherentImplDef, InherentImplView, Item, ItemView, PayloadView, Span, StructDef, StructField,
    StructView, TraitDef, TraitImplDef, TraitImplView, TraitView, TupleFieldView, TypeName,
    TypeView, VariantView,
};
use crate::copy::{
    copy_enum, copy_function, copy_inherent_impl, copy_struct, copy_trait, copy_trait_impl,
};
use crate::diagnostic::{message_at_span, Diagnostic, DiagnosticView};
use crate::parser::cursor::is_text;
use crate::semantics::impls::{inherent_impls_view, method_names, trait_impls_view};
use crate::semantics::known::outcome_is;
use crate::semantics::names::{
    enum_names, enums_view, field_names, find_enum, find_function, find_struct, find_text,
    find_trait, function_names, is_listed, struct_names, structs_view, trait_names, traits_view,
    variant_names,
};
use vstd::prelude::*;

verus! {

/// The first problem from a position on.
pub open spec fn problem_from(problems: Seq<Option<DiagnosticView>>, from: int) -> Option<
    DiagnosticView,
>
    decreases problems.len() - from,
{
    if from < 0 || from >= problems.len() {
        None
    } else if problems[from] is Some {
        problems[from]
    } else {
        problem_from(problems, from + 1)
    }
}

/// The first problem of a list.
pub open spec fn first_problem(problems: Seq<Option<DiagnosticView>>) -> Option<DiagnosticView> {
    problem_from(problems, 0)
}

/// The place of the enums that every program has.
pub open spec fn no_place() -> Span {
    Span { line: 0, column: 0, source_id: 0 }
}

/// A variant that carries one value of a type parameter.
pub open spec fn carrier(name: Seq<char>, param: Seq<char>) -> VariantView {
    VariantView {
        name,
        payload: PayloadView::Tuple(
            seq![TupleFieldView { ty: TypeView::Struct(param), span: no_place() }],
        ),
        span: no_place(),
    }
}

/// The enums that every program has: `Option` and `Result`.
pub open spec fn builtin_enums() -> Seq<EnumView> {
    seq![
        EnumView {
            name: "Option"@,
            public: true,
            type_params: seq!["T"@],
            variants: seq![
                VariantView { name: "None"@, payload: PayloadView::Unit, span: no_place() },
                carrier("Some"@, "T"@),
            ],
            span: no_place(),
        },
        EnumView {
            name: "Result"@,
            public: true,
            type_params: seq!["T"@, "E"@],
            variants: seq![carrier("Ok"@, "T"@), carrier("Err"@, "E"@)],
            span: no_place(),
        },
    ]
}

/// A variant that carries one value of a type parameter.
fn carrier_variant(name: &str, param: &str) -> (variant: EnumVariantDef)
    ensures
        variant@ == carrier(name@, param@),
{
    let span = Span::new(0, 0);
    let mut fields: Vec<EnumTupleFieldDef> = Vec::new();
    fields.push(EnumTupleFieldDef { ty: TypeName::Struct(String::from_str(param)), span });
    let variant = EnumVariantDef {
        name: String::from_str(name),
        payload: EnumVariantPayloadDef::Tuple(fields),
        span,
    };
    assert(crate::ast::tuple_fields_view(fields@) =~= seq![
        TupleFieldView { ty: TypeView::Struct(param@), span: no_place() },
    ]);
    variant
}

/// The enums that every program has.
pub fn builtin_generic_enums() -> (enums: Vec<EnumDef>)
    ensures
        enums_view(enums@) == builtin_enums(),
{
    let span = Span::new(0, 0);
    let mut option_params: Vec<String> = Vec::new();
    option_params.push(String::from_str("T"));
    assert(texts_view(option_params@) =~= seq!["T"@]);
    let mut option_variants: Vec<EnumVariantDef> = Vec::new();
    option_variants.push(
        EnumVariantDef {
            name: String::from_str("None"),
            payload: EnumVariantPayloadDef::Unit,
            span,
        },
    );
    option_variants.push(carrier_variant("Some", "T"));
    assert(variants_view(option_variants@) =~= seq![
        VariantView { name: "None"@, payload: PayloadView::Unit, span: no_place() },
        carrier("Some"@, "T"@),
    ]);
    let mut result_params: Vec<String> = Vec::new();
    result_params.push(String::from_str("T"));
    result_params.push(String::from_str("E"));
    assert(texts_view(result_params@) =~= seq!["T"@, "E"@]);
    let mut result_variants: Vec<EnumVariantDef> = Vec::new();
    result_variants.push(carrier_variant("Ok", "T"));
    result_variants.push(carrier_variant("Err", "E"));
    assert(variants_view(result_variants@) =~= seq![carrier("Ok"@, "T"@), carrier("Err"@, "E"@)]);
    let mut enums: Vec<EnumDef> = Vec::new();
    enums.push(
        EnumDef {
            name: String::from_str("Option"),
            public: true,
            type_params: option_params,
            variants: option_variants,
            span,
        },
    );
    enums.push(
        EnumDef {
            name: String::from_str("Result"),
            public: true,
            type_params: result_params,
            variants: result_variants,
            span,
        },
    );
    assert(enums_view(enums@) =~= builtin_enums());
    enums
}

/// What is said of something that is declared a second time.
pub open spec fn redefinition(kind: Seq<char>, name: Seq<char>) -> Seq<char> {
    "redefinition of "@ + kind + " '"@ + name + "'"@
}

/// What is said of an enum without variants.
pub open spec fn no_variants(name: Seq<char>) -> Seq<char> {
    "enum '"@ + name + "' must have at least one variant"@
}

/// What is said of a type parameter that stands twice.
pub open spec fn duplicate_parameter(param: Seq<char>, name: Seq<char>) -> Seq<char> {
    "duplicate generic parameter '"@ + param + "' in enum '"@ + name + "'"@
}

/// What is said of a variant that stands twice.
pub open spec fn duplicate_variant(variant: Seq<char>, name: Seq<char>) -> Seq<char> {
    "duplicate variant '"@ + variant + "' in enum '"@ + name + "'"@
}

/// What is said of a tuple payload without fields.
pub open spec fn empty_tuple(name: Seq<char>, variant: Seq<char>) -> Seq<char> {
    "tuple variant '"@ + name + "::"@ + variant
        + "' must contain at least one field; remove '()' for a unit variant"@
}

/// What is said of a named payload without fields.
pub open spec fn empty_named(name: Seq<char>, variant: Seq<char>) -> Seq<char> {
    "named variant '"@ + name + "::"@ + variant + "' must contain at least one field"@
}

/// What is said of a field of a payload that stands twice.
pub open spec fn duplicate_payload_field(
    field: Seq<char>,
    name: Seq<char>,
    variant: Seq<char>,
) -> Seq<char> {
    "duplicate payload field '"@ + field + "' in variant '"@ + name + "::"@ + variant + "'"@
}

/// What is said of a method of a trait that stands twice.
pub open spec fn duplicate_method(method: Seq<char>, name: Seq<char>) -> Seq<char> {
    "duplicate trait method '"@ + method + "' in trait '"@ + name + "'"@
}

/// The name stands among those before the position.
pub open spec fn stands_before(names: Seq<Seq<char>>, at: int) -> bool {
    is_listed(names.subrange(0, at), names[at])
}

/// What is wrong with a type parameter of an enum.
pub open spec fn parameter_flaw(def: EnumView, at: int) -> Option<DiagnosticView> {
    if def.type_params[at] == "_"@ {
        Some(message_at_span("'_' cannot be used as a generic type parameter"@, def.span))
    } else if stands_before(def.type_params, at) {
        Some(message_at_span(duplicate_parameter(def.type_params[at], def.name), def.span))
    } else {
        None
    }
}

/// What is wrong with a field of a named payload.
pub open spec fn payload_field_flaw(
    name: Seq<char>,
    variant: Seq<char>,
    fields: Seq<FieldView>,
    at: int,
) -> Option<DiagnosticView> {
    if stands_before(field_names(fields), at) {
        Some(
            message_at_span(
                duplicate_payload_field(fields[at].name, name, variant),
                fields[at].span,
            ),
        )
    } else {
        None
    }
}

/// What is wrong with the payload of a variant.
pub open spec fn payload_flaw(name: Seq<char>, variant: VariantView) -> Option<DiagnosticView> {
    match variant.payload {
        PayloadView::Unit => None,
        PayloadView::Tuple(fields) => if fields.len() == 0 {
            Some(message_at_span(empty_tuple(name, variant.name), variant.span))
        } else {
            None
        },
        PayloadView::Named(fields) => if fields.len() == 0 {
            Some(message_at_span(empty_named(name, variant.name), variant.span))
        } else {
            first_problem(
                Seq::new(
                    fields.len(),
                    |i: int| payload_field_flaw(name, variant.name, fields, i),
                ),
            )
        },
    }
}

/// What is wrong with a variant of an enum.
pub open spec fn variant_flaw(def: EnumView, at: int) -> Option<DiagnosticView> {
    if stands_before(variant_names(def.variants), at) {
        Some(
            message_at_span(
                duplicate_variant(def.variants[at].name, def.name),
                def.variants[at].span,
            ),
        )
    } else {
        payload_flaw(def.name, def.variants[at])
    }
}

/// What is wrong with an enum.
pub open spec fn enum_flaw(def: EnumView) -> Option<DiagnosticView> {
    if def.variants.len() == 0 {
        Some(message_at_span(no_variants(def.name), def.span))
    } else {
        match first_problem(Seq::new(def.type_params.len(), |i: int| parameter_flaw(def, i))) {
            Some(problem) => Some(problem),
            None => first_problem(Seq::new(def.variants.len(), |i: int| variant_flaw(def, i))),
        }
    }
}

/// What is wrong with a method of a trait.
pub open spec fn method_flaw(def: TraitView, at: int) -> Option<DiagnosticView> {
    if stands_before(method_names(def.methods), at) {
        Some(
            message_at_span(
                duplicate_method(def.methods[at].name, def.name),
                def.methods[at].span,
            ),
        )
    } else {
        None
    }
}

/// What is wrong with a trait.
pub open spec fn trait_flaw(def: TraitView) -> Option<DiagnosticView> {
    first_problem(Seq::new(def.methods.len(), |i: int| method_flaw(def, i)))
}

/// Checks the type parameters of an enum.
fn check_parameters(def: &EnumDef) -> (outcome: Result<(), Diagnostic>)
    ensures
        outcome_is(
            outcome,
            first_problem(Seq::new(def@.type_params.len(), |i: int| parameter_flaw(def@, i))),
        ),
{
    let ghost problems = Seq::new(def@.type_params.len(), |i: int| parameter_flaw(def@, i));
    let params = &def.type_params;
    let mut seen: Vec<String> = Vec::with_capacity(params.len());
    assert(texts_view(seen@) =~= def@.type_params.subrange(0, 0));
    for i in 0..params.len()
        invariant
            *params == def.type_params,
            problems == Seq::new(def@.type_params.len(), |i: int| parameter_flaw(def@, i)),
            texts_view(seen@) == def@.type_params.subrange(0, i as int),
            first_problem(problems) == problem_from(problems, i as int),
    {
        let ghost all = def@.type_params;
        assert(all[i as int] == params@[i as int]@);
        assert(problems[i as int] == parameter_flaw(def@, i as int));
        if is_text(&params[i], "_") {
            return Err(
                Diagnostic::at_span(
                    String::from_str("'_' cannot be used as a generic type parameter"),
                    def.span,
                ),
            );
        }
        if find_text(&seen, &params[i]).is_some() {
            let mut message = String::from_str("duplicate generic parameter '");
            message.append(params[i].as_str());
            message.append("' in enum '");
            message.append(def.name.as_str());
            message.append("'");
            return Err(Diagnostic::at_span(message, def.span));
        }
        seen.push(params[i].clone());
        assert(texts_view(seen@) =~= all.subrange(0, i + 1));
    }
    Ok(())
}

/// Checks the fields of a named payload.
fn check_payload_fields(name: &String, variant: &String, fields: &Vec<StructField>) -> (outcome:
    Result<(), Diagnostic>)
    ensures
        outcome_is(
            outcome,
            first_problem(
                Seq::new(
                    fields@.len(),
                    |i: int| payload_field_flaw(name@, variant@, fields_view(fields@), i),
                ),
            ),
        ),
{
    let ghost all = fields_view(fields@);
    let ghost problems = Seq::new(
        fields@.len(),
        |i: int| payload_field_flaw(name@, variant@, all, i),
    );
    let mut seen: Vec<String> = Vec::with_capacity(fields.len());
    assert(texts_view(seen@) =~= field_names(all).subrange(0, 0));
    for i in 0..fields.len()
        invariant
            all == fields_view(fields@),
            problems == Seq::new(
                fields@.len(),
                |i: int| payload_field_flaw(name@, variant@, all, i),
            ),
            texts_view(seen@) == field_names(all).subrange(0, i as int),
            first_problem(problems) == problem_from(problems, i as int),
    {
        assert(all[i as int] == fields@[i as int]@);
        assert(problems[i as int] == payload_field_flaw(name@, variant@, all, i as int));
        if find_text(&seen, &fields[i].name).is_some() {
            let mut message = String::from_str("duplicate payload field '");
            message.append(fields[i].name.as_str());
            message.append("' in variant '");
            message.append(name.as_str());
            message.append("::");
            message.append(variant.as_str());
            message.append("'");
            return Err(Diagnostic::at_span(message, fields[i].span));
        }
        seen.push(fields[i].name.clone());
        assert(texts_view(seen@) =~= field_names(all).subrange(0, i + 1));
    }
    Ok(())
}

/// Checks the payload of a variant.
fn check_payload(name: &String, variant: &EnumVariantDef) -> (outcome: Result<(), Diagnostic>)
    ensures
        outcome_is(outcome, payload_flaw(name@, variant@)),
{
    match &variant.payload {
        EnumVariantPayloadDef::Unit => Ok(()),
        EnumVariantPayloadDef::Tuple(fields) => {
            assert(crate::ast::tuple_fields_view(fields@).len() == fields@.len());
            if fields.len() == 0 {
                let mut message = String::from_str("tuple variant '");
                message.append(name.as_str());
                message.append("::");
                message.append(variant.name.as_str());
                message.append(
                    "' must contain at least one field; remove '()' for a unit variant",
                );
                return Err(Diagnostic::at_span(message, variant.span));
            }
            Ok(())
        },
        EnumVariantPayloadDef::Named(fields) => {
            assert(fields_view(fields@).len() == fields@.len());
            if fields.len() == 0 {
                let mut message = String::from_str("named variant '");
                message.append(name.as_str());
                message.append("::");
                message.append(variant.name.as_str());
                message.append("' must contain at least one field");
                return Err(Diagnostic::at_span(message, variant.span));
            }
            check_payload_fields(name, &variant.name, fields)
        },
    }
}

/// Checks the variants of an enum.
fn check_variants(def: &EnumDef) -> (outcome: Result<(), Diagnostic>)
    ensures
        outcome_is(
            outcome,
            first_problem(Seq::new(def@.variants.len(), |i: int| variant_flaw(def@, i))),
        ),
{
    let ghost problems = Seq::new(def@.variants.len(), |i: int| variant_flaw(def@, i));
    let ghost names = variant_names(def@.variants);
    let variants = &def.variants;
    let mut seen: Vec<String> = Vec::with_capacity(variants.len());
    assert(texts_view(seen@) =~= names.subrange(0, 0));
    for i in 0..variants.len()
        invariant
            *variants == def.variants,
            names == variant_names(def@.variants),
            problems == Seq::new(def@.variants.len(), |i: int| variant_flaw(def@, i)),
            texts_view(seen@) == names.subrange(0, i as int),
            first_problem(problems) == problem_from(problems, i as int),
    {
        assert(def@.variants[i as int] == variants@[i as int]@);
        assert(problems[i as int] == variant_flaw(def@, i as int));
        let variant = &variants[i];
        if find_text(&seen, &variant.name).is_some() {
            let mut message = String::from_str("duplicate variant '");
            message.append(variant.name.as_str());
            message.append("' in enum '");
            message.append(def.name.as_str());
            message.append("'");
            return Err(Diagnostic::at_span(message, variant.span));
        }
        seen.push(variant.name.clone());
        assert(texts_view(seen@) =~= names.subrange(0, i + 1));
        check_payload(&def.name, variant)?;
    }
    Ok(())
}

/// Checks an enum.
fn check_enum(def: &EnumDef) -> (outcome: Result<(), Diagnostic>)
    ensures
        outcome_is(outcome, enum_flaw(def@)),
{
    assert(def@.variants.len() == def.variants@.len());
    if def.variants.len() == 0 {
        let mut message = String::from_str("enum '");
        message.append(def.name.as_str());
        message.append("' must have at least one variant");
        return Err(Diagnostic::at_span(message, def.span));
    }
    check_parameters(def)?;
    check_variants(def)
}

/// Checks a trait.
fn check_trait(def: &TraitDef) -> (outcome: Result<(), Diagnostic>)
    ensures
        outcome_is(outcome, trait_flaw(def@)),
{
    let ghost problems = Seq::new(def@.methods.len(), |i: int| method_flaw(def@, i));
    let ghost names = method_names(def@.methods);
    let methods = &def.methods;
    let mut seen: Vec<String> = Vec::with_capacity(methods.len());
    assert(texts_view(seen@) =~= names.subrange(0, 0));
    for i in 0..methods.len()
        invariant
            *methods == def.methods,
            names == method_names(def@.methods),
            problems == Seq::new(def@.methods.len(), |i: int| method_flaw(def@, i)),
            texts_view(seen@) == names.subrange(0, i as int),
            first_problem(problems) == problem_from(problems, i as int),
    {
        assert(def@.methods[i as int] == methods@[i as int]@);
        assert(problems[i as int] == method_flaw(def@, i as int));
        if find_text(&seen, &methods[i].name).is_some() {
            let mut message = String::from_str("duplicate trait method '");
            message.append(methods[i].name.as_str());
            message.append("' in trait '");
            message.append(def.name.as_str());
            message.append("'");
            return Err(Diagnostic::at_span(message, methods[i].span));
        }
        seen.push(methods[i].name.clone());
        assert(texts_view(seen@) =~= names.subrange(0, i + 1));
    }
    Ok(())
}

/// What a program declares.
#[derive(Debug, PartialEq, Eq)]
pub struct Declared {
    pub functions: Vec<Function>,
    pub structs: Vec<StructDef>,
    pub enums: Vec<EnumDef>,
    pub traits: Vec<TraitDef>,
    pub trait_impls: Vec<TraitImplDef>,
    pub inherent_impls: Vec<InherentImplDef>,
}

/// What a program declares as a mathematical value.
#[verifier::ext_equal]
pub struct DeclaredView {
    pub functions: Seq<FunctionView>,
    pub structs: Seq<StructView>,
    pub enums: Seq<EnumView>,
    pub traits: Seq<TraitView>,
    pub trait_impls: Seq<TraitImplView>,
    pub inherent_impls: Seq<InherentImplView>,
}

impl View for Declared {
    type V = DeclaredView;

    open spec fn view(&self) -> DeclaredView {
        DeclaredView {
            functions: functions_view(self.functions@),
            structs: structs_view(self.structs@),
            enums: enums_view(self.enums@),
            traits: traits_view(self.traits@),
            trait_impls: trait_impls_view(self.trait_impls@),
            inherent_impls: inherent_impls_view(self.inherent_impls@),
        }
    }
}

/// What is declared before the first item.
pub open spec fn nothing_declared() -> DeclaredView {
    DeclaredView {
        functions: Seq::empty(),
        structs: Seq::empty(),
        enums: builtin_enums(),
        traits: Seq::empty(),
        trait_impls: Seq::empty(),
        inherent_impls: Seq::empty(),
    }
}

/// What is declared with one more item.
pub open spec fn declared_with(declared: DeclaredView, item: ItemView) -> Result<
    DeclaredView,
    DiagnosticView,
> {
    match item {
        ItemView::Function(def) => if is_listed(function_names(declared.functions), def.name) {
            Err(message_at_span(redefinition("function"@, def.name), def.span))
        } else {
            Ok(DeclaredView { functions: declared.functions.push(def), ..declared })
        },
        ItemView::Struct(def) => if is_listed(struct_names(declared.structs), def.name) {
            Err(message_at_span(redefinition("struct"@, def.name), def.span))
        } else {
            Ok(DeclaredView { structs: declared.structs.push(def), ..declared })
        },
        ItemView::Enum(def) => if is_listed(enum_names(declared.enums), def.name) {
            Err(message_at_span(redefinition("enum"@, def.name), def.span))
        } else {
            match enum_flaw(def) {
                Some(problem) => Err(problem),
                None => Ok(DeclaredView { enums: declared.enums.push(def), ..declared }),
            }
        },
        ItemView::Trait(def) => if is_listed(trait_names(declared.traits), def.name) {
            Err(message_at_span(redefinition("trait"@, def.name), def.span))
        } else {
            match trait_flaw(def) {
                Some(problem) => Err(problem),
                None => Ok(DeclaredView { traits: declared.traits.push(def), ..declared }),
            }
        },
        ItemView::Impl(def) => Ok(
            DeclaredView { trait_impls: declared.trait_impls.push(def), ..declared },
        ),
        ItemView::InherentImpl(def) => Ok(
            DeclaredView { inherent_impls: declared.inherent_impls.push(def), ..declared },
        ),
        _ => Ok(declared),
    }
}

/// What the first items declare.
pub open spec fn declared_by(items: Seq<ItemView>, count: nat) -> Result<
    DeclaredView,
    DiagnosticView,
>
    decreases count,
{
    if count == 0 || count > items.len() {
        Ok(nothing_declared())
    } else {
        match declared_by(items, (count - 1) as nat) {
            Err(error) => Err(error),
            Ok(declared) => declared_with(declared, items[count - 1]),
        }
    }
}

/// What is said of something that is declared a second time.
fn redefined(kind: &str, name: &String, span: Span) -> (diagnostic: Diagnostic)
    ensures
        diagnostic@ == message_at_span(redefinition(kind@, name@), span),
{
    let mut message = String::from_str("redefinition of ");
    message.append(kind);
    message.append(" '");
    message.append(name.as_str());
    message.append("'");
    Diagnostic::at_span(message, span)
}

impl Declared {
    /// Adds what one more item declares.
    fn declare(&mut self, item: &Item) -> (outcome: Result<(), Diagnostic>)
        ensures
            match declared_with(old(self)@, item@) {
                Ok(declared) => outcome is Ok && final(self)@ == declared,
                Err(error) => (outcome matches Err(found) && found@ == error) && final(self)@
                    == old(self)@,
            },
    {
        let ghost before = self@;
        match item {
            Item::Function(def) => {
                if find_function(&self.functions, &def.name).is_some() {
                    return Err(redefined("function", &def.name, def.span));
                }
                self.functions.push(copy_function(def));
                assert(functions_view(self.functions@) =~= before.functions.push(def@));
            },
            Item::Struct(def) => {
                if find_struct(&self.structs, &def.name).is_some() {
                    return Err(redefined("struct", &def.name, def.span));
                }
                self.structs.push(copy_struct(def));
                assert(structs_view(self.structs@) =~= before.structs.push(def@));
            },
            Item::Enum(def) => {
                if find_enum(&self.enums, &def.name).is_some() {
                    return Err(redefined("enum", &def.name, def.span));
                }
                check_enum(def)?;
                self.enums.push(copy_enum(def));
                assert(enums_view(self.enums@) =~= before.enums.push(def@));
            },
            Item::Trait(def) => {
                if find_trait(&self.traits, &def.name).is_some() {
                    return Err(redefined("trait", &def.name, def.span));
                }
                check_trait(def)?;
                self.traits.push(copy_trait(def));
                assert(traits_view(self.traits@) =~= before.traits.push(def@));
            },
            Item::Impl(def) => {
                self.trait_impls.push(copy_trait_impl(def));
                assert(trait_impls_view(self.trait_impls@) =~= before.trait_impls.push(def@));
            },
            Item::InherentImpl(def) => {
                self.inherent_impls.push(copy_inherent_impl(def));
                assert(inherent_impls_view(self.inherent_impls@) =~= before.inherent_impls.push(
                    def@,
                ));
            },
            _ => {},
        }
        Ok(())
    }
}

/// What items declare.
pub fn collect_items(items: &Vec<Item>) -> (outcome: Result<Declared, Diagnostic>)
    ensures
        match declared_by(items_view(items@), items@.len()) {
            Ok(declared) => outcome matches Ok(found) && found@ == declared,
            Err(error) => outcome matches Err(found) && found@ == error,
        },
{
    let ghost all = items_view(items@);
    let mut declared = Declared {
        functions: Vec::new(),
        structs: Vec::new(),
        enums: builtin_generic_enums(),
        traits: Vec::new(),
        trait_impls: Vec::new(),
        inherent_impls: Vec::new(),
    };
    assert(declared@ =~= nothing_declared());
    for i in 0..items.len()
        invariant
            all == items_view(items@),
            declared_by(all, i as nat) == Ok::<DeclaredView, DiagnosticView>(declared@),
    {
        assert(all[i as int] == items@[i as int]@);
        proof {
            lemma_declared_by(all, (i + 1) as nat, all.len());
        }
        declared.declare(&items[i])?;
    }
    Ok(declared)
}

/// An error among the first items stays the error of them all.
proof fn lemma_declared_by(items: Seq<ItemView>, from: nat, to: nat)
    requires
        from <= to <= items.len(),
    ensures
        declared_by(items, from) is Err ==> declared_by(items, to) == declared_by(items, from),
    decreases to,
{
    if from < to {
        lemma_declared_by(items, from, (to - 1) as nat);
    }
}

} // verus!
