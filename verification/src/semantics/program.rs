//! The index of a program: what it declares, checked and resolved.

use crate::ast::{
    fields_view, functions_view, stmts_node_view, texts_view, tuple_fields_view, EnumDef,
    EnumTupleFieldDef, EnumVariantDef, EnumVariantPayloadDef, EnumView, Function, FunctionView,
    PayloadView, Program, StructDef, StructField, StructView, SyntaxView, VariantView,
};
use crate::copy::{copy_params, copy_type};
use crate::diagnostic::{Diagnostic, DiagnosticView};
use crate::semantics::collect::{
    collect_items, declared_by, first_problem, problem_from, Declared, DeclaredView,
};
use crate::semantics::impls::{
    monomorphize_inherent_impls, monomorphize_trait_impls, with_inherent_impls, with_trait_impls,
};
use crate::semantics::index::{IndexView, ProgramIndex};
use crate::semantics::known::{
    ensure_enum_payload_type_known, ensure_type_known, outcome_is, payload_problem, type_problem,
};
use crate::semantics::layouts::{layouts_of, resolve_struct_layouts};
use crate::semantics::names::enums_view;
use crate::semantics::purity::{analyze_pure_functions, purity};
use crate::semantics::qualified::{resolve_qualified_stmts, resolved_stmts};
use vstd::prelude::*;

verus! {

/// What is wrong with the types in the payload of a variant.
pub open spec fn variant_types_problem(
    variant: VariantView,
    type_params: Seq<Seq<char>>,
    index: IndexView,
) -> Option<DiagnosticView> {
    match variant.payload {
        PayloadView::Unit => None,
        PayloadView::Tuple(fields) => first_problem(
            Seq::new(
                fields.len(),
                |i: int| payload_problem(fields[i].ty, type_params, index, fields[i].span),
            ),
        ),
        PayloadView::Named(fields) => first_problem(
            Seq::new(
                fields.len(),
                |i: int| payload_problem(fields[i].ty, type_params, index, fields[i].span),
            ),
        ),
    }
}

/// What is wrong with the types in the payloads of an enum.
pub open spec fn enum_types_problem(def: EnumView, index: IndexView) -> Option<DiagnosticView> {
    first_problem(
        Seq::new(
            def.variants.len(),
            |i: int| variant_types_problem(def.variants[i], def.type_params, index),
        ),
    )
}

/// What is wrong with the types in the signature of a function.
pub open spec fn signature_types_problem(function: FunctionView, index: IndexView) -> Option<
    DiagnosticView,
> {
    match first_problem(
        Seq::new(
            function.params.len(),
            |i: int| type_problem(function.params[i].ty, index, function.params[i].span),
        ),
    ) {
        Some(problem) => Some(problem),
        None => match function.return_type {
            Some(ty) => type_problem(ty, index, function.span),
            None => None,
        },
    }
}

/// What is wrong with the types of the fields of a struct.
pub open spec fn struct_types_problem(def: StructView, index: IndexView) -> Option<DiagnosticView> {
    first_problem(
        Seq::new(
            def.fields.len(),
            |i: int| type_problem(def.fields[i].ty, index, def.fields[i].span),
        ),
    )
}

/// What is wrong with the types in the payloads of all enums.
pub open spec fn payloads_of_enums_problem(index: IndexView) -> Option<DiagnosticView> {
    first_problem(Seq::new(index.enums.len(), |i: int| enum_types_problem(index.enums[i], index)))
}

/// What is wrong with the types in the signatures of all functions.
pub open spec fn signatures_problem(index: IndexView) -> Option<DiagnosticView> {
    first_problem(
        Seq::new(
            index.functions.len(),
            |i: int| signature_types_problem(index.functions[i], index),
        ),
    )
}

/// What is wrong with the types of the fields of all structs.
pub open spec fn fields_of_structs_problem(index: IndexView) -> Option<DiagnosticView> {
    first_problem(
        Seq::new(index.structs.len(), |i: int| struct_types_problem(index.structs[i], index)),
    )
}

/// The first functions, with the calls in their bodies resolved.
pub open spec fn resolved_functions(
    functions: Seq<FunctionView>,
    count: nat,
    enums: Seq<EnumView>,
) -> Result<Seq<FunctionView>, DiagnosticView>
    decreases count,
{
    if count == 0 || count > functions.len() {
        Ok(Seq::empty())
    } else {
        match resolved_functions(functions, (count - 1) as nat, enums) {
            Err(error) => Err(error),
            Ok(done) => {
                let function = functions[count - 1];
                match resolved_stmts(function.body, function.body.len() as int, enums) {
                    Err(error) => Err(error),
                    Ok(body) => Ok(done.push(FunctionView { body, ..function })),
                }
            },
        }
    }
}

/// The index of what a program declares, before anything is resolved.
pub open spec fn plain_index(declared: DeclaredView) -> IndexView {
    IndexView {
        functions: declared.functions,
        structs: declared.structs,
        enums: declared.enums,
        traits: declared.traits,
        struct_layouts: Seq::empty(),
        pure_functions: Seq::empty(),
    }
}

/// The index with its methods among the functions.
pub open spec fn with_methods(declared: DeclaredView, index: IndexView) -> Result<
    IndexView,
    DiagnosticView,
> {
    match with_inherent_impls(
        index.functions,
        index.structs,
        declared.inherent_impls,
        declared.inherent_impls.len(),
    ) {
        Err(error) => Err(error),
        Ok(functions) => match with_trait_impls(
            functions,
            index.structs,
            index.traits,
            declared.trait_impls,
            declared.trait_impls.len(),
        ) {
            Err(error) => Err(error),
            Ok(functions) => Ok(IndexView { functions, ..index }),
        },
    }
}

/// The index once every type in it is known and the calls are resolved.
pub open spec fn checked_index(index: IndexView) -> Result<IndexView, DiagnosticView> {
    match signatures_problem(index) {
        Some(problem) => Err(problem),
        None => match fields_of_structs_problem(index) {
            Some(problem) => Err(problem),
            None => match resolved_functions(
                index.functions,
                index.functions.len(),
                index.enums,
            ) {
                Err(error) => Err(error),
                Ok(functions) => Ok(
                    IndexView { functions, pure_functions: purity(functions), ..index },
                ),
            },
        },
    }
}

/// The index of a program.
pub open spec fn indexed(program: SyntaxView) -> Result<IndexView, DiagnosticView> {
    match declared_by(program.items, program.items.len()) {
        Err(error) => Err(error),
        Ok(declared) => {
            let index = plain_index(declared);
            match payloads_of_enums_problem(index) {
                Some(problem) => Err(problem),
                None => match layouts_of(index.structs) {
                    Err(error) => Err(error),
                    Ok(struct_layouts) => match with_methods(
                        declared,
                        IndexView { struct_layouts, ..index },
                    ) {
                        Err(error) => Err(error),
                        Ok(index) => checked_index(index),
                    },
                },
            }
        },
    }
}

/// Checks the types of the fields of a tuple payload.
fn check_tuple_fields(
    fields: &Vec<EnumTupleFieldDef>,
    type_params: &Vec<String>,
    index: &ProgramIndex,
) -> (outcome: Result<(), Diagnostic>)
    ensures
        outcome_is(
            outcome,
            first_problem(
                Seq::new(
                    fields@.len(),
                    |i: int|
                        payload_problem(
                            tuple_fields_view(fields@)[i].ty,
                            texts_view(type_params@),
                            index@,
                            tuple_fields_view(fields@)[i].span,
                        ),
                ),
            ),
        ),
{
    let ghost problems = Seq::new(
        fields@.len(),
        |i: int|
            payload_problem(
                tuple_fields_view(fields@)[i].ty,
                texts_view(type_params@),
                index@,
                tuple_fields_view(fields@)[i].span,
            ),
    );
    for i in 0..fields.len()
        invariant
            problems == Seq::new(
                fields@.len(),
                |i: int|
                    payload_problem(
                        tuple_fields_view(fields@)[i].ty,
                        texts_view(type_params@),
                        index@,
                        tuple_fields_view(fields@)[i].span,
                    ),
            ),
            first_problem(problems) == problem_from(problems, i as int),
    {
        assert(tuple_fields_view(fields@)[i as int] == fields@[i as int]@);
        assert(problems[i as int] == payload_problem(
            fields@[i as int].ty@,
            texts_view(type_params@),
            index@,
            fields@[i as int].span,
        ));
        ensure_enum_payload_type_known(&fields[i].ty, type_params, index, fields[i].span)?;
    }
    Ok(())
}

/// Checks the types of the fields of a named payload.
fn check_named_fields(
    fields: &Vec<StructField>,
    type_params: &Vec<String>,
    index: &ProgramIndex,
) -> (outcome: Result<(), Diagnostic>)
    ensures
        outcome_is(
            outcome,
            first_problem(
                Seq::new(
                    fields@.len(),
                    |i: int|
                        payload_problem(
                            fields_view(fields@)[i].ty,
                            texts_view(type_params@),
                            index@,
                            fields_view(fields@)[i].span,
                        ),
                ),
            ),
        ),
{
    let ghost problems = Seq::new(
        fields@.len(),
        |i: int|
            payload_problem(
                fields_view(fields@)[i].ty,
                texts_view(type_params@),
                index@,
                fields_view(fields@)[i].span,
            ),
    );
    for i in 0..fields.len()
        invariant
            problems == Seq::new(
                fields@.len(),
                |i: int|
                    payload_problem(
                        fields_view(fields@)[i].ty,
                        texts_view(type_params@),
                        index@,
                        fields_view(fields@)[i].span,
                    ),
            ),
            first_problem(problems) == problem_from(problems, i as int),
    {
        assert(fields_view(fields@)[i as int] == fields@[i as int]@);
        assert(problems[i as int] == payload_problem(
            fields@[i as int].ty@,
            texts_view(type_params@),
            index@,
            fields@[i as int].span,
        ));
        ensure_enum_payload_type_known(&fields[i].ty, type_params, index, fields[i].span)?;
    }
    Ok(())
}

/// Checks the types in the payload of a variant.
fn check_variant_types(
    variant: &EnumVariantDef,
    type_params: &Vec<String>,
    index: &ProgramIndex,
) -> (outcome: Result<(), Diagnostic>)
    ensures
        outcome_is(
            outcome,
            variant_types_problem(variant@, texts_view(type_params@), index@),
        ),
{
    match &variant.payload {
        EnumVariantPayloadDef::Unit => Ok(()),
        EnumVariantPayloadDef::Tuple(fields) => {
            assert(tuple_fields_view(fields@).len() == fields@.len());
            check_tuple_fields(fields, type_params, index)
        },
        EnumVariantPayloadDef::Named(fields) => {
            assert(fields_view(fields@).len() == fields@.len());
            check_named_fields(fields, type_params, index)
        },
    }
}

/// Checks the types in the payloads of an enum.
fn check_enum_types(def: &EnumDef, index: &ProgramIndex) -> (outcome: Result<(), Diagnostic>)
    ensures
        outcome_is(outcome, enum_types_problem(def@, index@)),
{
    let variants = &def.variants;
    let ghost problems = Seq::new(
        def@.variants.len(),
        |i: int| variant_types_problem(def@.variants[i], def@.type_params, index@),
    );
    for i in 0..variants.len()
        invariant
            *variants == def.variants,
            problems == Seq::new(
                def@.variants.len(),
                |i: int| variant_types_problem(def@.variants[i], def@.type_params, index@),
            ),
            first_problem(problems) == problem_from(problems, i as int),
    {
        assert(def@.variants[i as int] == variants@[i as int]@);
        assert(problems[i as int] == variant_types_problem(
            variants@[i as int]@,
            def@.type_params,
            index@,
        ));
        check_variant_types(&variants[i], &def.type_params, index)?;
    }
    Ok(())
}

/// Checks the types in the payloads of all enums.
fn check_payloads(index: &ProgramIndex) -> (outcome: Result<(), Diagnostic>)
    ensures
        outcome_is(outcome, payloads_of_enums_problem(index@)),
{
    let enums = &index.enums;
    let ghost problems = Seq::new(
        index@.enums.len(),
        |i: int| enum_types_problem(index@.enums[i], index@),
    );
    for i in 0..enums.len()
        invariant
            *enums == index.enums,
            problems == Seq::new(
                index@.enums.len(),
                |i: int| enum_types_problem(index@.enums[i], index@),
            ),
            first_problem(problems) == problem_from(problems, i as int),
    {
        assert(index@.enums[i as int] == enums@[i as int]@);
        assert(problems[i as int] == enum_types_problem(enums@[i as int]@, index@));
        check_enum_types(&enums[i], index)?;
    }
    Ok(())
}

/// Checks the types in the signature of a function.
fn check_signature_types(function: &Function, index: &ProgramIndex) -> (outcome: Result<
    (),
    Diagnostic,
>)
    ensures
        outcome_is(outcome, signature_types_problem(function@, index@)),
{
    let params = &function.params;
    let ghost problems = Seq::new(
        function@.params.len(),
        |i: int| type_problem(function@.params[i].ty, index@, function@.params[i].span),
    );
    for i in 0..params.len()
        invariant
            *params == function.params,
            problems == Seq::new(
                function@.params.len(),
                |i: int| type_problem(function@.params[i].ty, index@, function@.params[i].span),
            ),
            first_problem(problems) == problem_from(problems, i as int),
    {
        assert(function@.params[i as int] == params@[i as int]@);
        assert(problems[i as int] == type_problem(
            params@[i as int].ty@,
            index@,
            params@[i as int].span,
        ));
        ensure_type_known(&params[i].ty, index, params[i].span)?;
    }
    match &function.return_type {
        Some(ty) => ensure_type_known(ty, index, function.span),
        None => Ok(()),
    }
}

/// Checks the types in the signatures of all functions.
fn check_signatures(index: &ProgramIndex) -> (outcome: Result<(), Diagnostic>)
    ensures
        outcome_is(outcome, signatures_problem(index@)),
{
    let functions = &index.functions;
    let ghost problems = Seq::new(
        index@.functions.len(),
        |i: int| signature_types_problem(index@.functions[i], index@),
    );
    for i in 0..functions.len()
        invariant
            *functions == index.functions,
            problems == Seq::new(
                index@.functions.len(),
                |i: int| signature_types_problem(index@.functions[i], index@),
            ),
            first_problem(problems) == problem_from(problems, i as int),
    {
        assert(index@.functions[i as int] == functions@[i as int]@);
        assert(problems[i as int] == signature_types_problem(functions@[i as int]@, index@));
        check_signature_types(&functions[i], index)?;
    }
    Ok(())
}

/// Checks the types of the fields of a struct.
fn check_struct_types(def: &StructDef, index: &ProgramIndex) -> (outcome: Result<(), Diagnostic>)
    ensures
        outcome_is(outcome, struct_types_problem(def@, index@)),
{
    let fields = &def.fields;
    let ghost problems = Seq::new(
        def@.fields.len(),
        |i: int| type_problem(def@.fields[i].ty, index@, def@.fields[i].span),
    );
    for i in 0..fields.len()
        invariant
            *fields == def.fields,
            problems == Seq::new(
                def@.fields.len(),
                |i: int| type_problem(def@.fields[i].ty, index@, def@.fields[i].span),
            ),
            first_problem(problems) == problem_from(problems, i as int),
    {
        assert(def@.fields[i as int] == fields@[i as int]@);
        assert(problems[i as int] == type_problem(
            fields@[i as int].ty@,
            index@,
            fields@[i as int].span,
        ));
        ensure_type_known(&fields[i].ty, index, fields[i].span)?;
    }
    Ok(())
}

/// Checks the types of the fields of all structs.
fn check_structs(index: &ProgramIndex) -> (outcome: Result<(), Diagnostic>)
    ensures
        outcome_is(outcome, fields_of_structs_problem(index@)),
{
    let structs = &index.structs;
    let ghost problems = Seq::new(
        index@.structs.len(),
        |i: int| struct_types_problem(index@.structs[i], index@),
    );
    for i in 0..structs.len()
        invariant
            *structs == index.structs,
            problems == Seq::new(
                index@.structs.len(),
                |i: int| struct_types_problem(index@.structs[i], index@),
            ),
            first_problem(problems) == problem_from(problems, i as int),
    {
        assert(index@.structs[i as int] == structs@[i as int]@);
        assert(problems[i as int] == struct_types_problem(structs@[i as int]@, index@));
        check_struct_types(&structs[i], index)?;
    }
    Ok(())
}

/// The functions, with the calls in their bodies resolved.
fn resolve_functions(functions: &Vec<Function>, enums: &Vec<EnumDef>) -> (outcome: Result<
    Vec<Function>,
    Diagnostic,
>)
    ensures
        match resolved_functions(functions_view(functions@), functions@.len(), enums_view(enums@)) {
            Ok(expected) => outcome matches Ok(new) && functions_view(new@) == expected,
            Err(error) => outcome matches Err(found) && found@ == error,
        },
{
    let ghost all = functions_view(functions@);
    let ghost known = enums_view(enums@);
    let mut new: Vec<Function> = Vec::with_capacity(functions.len());
    assert(functions_view(new@) =~= Seq::empty());
    for i in 0..functions.len()
        invariant
            all == functions_view(functions@),
            known == enums_view(enums@),
            resolved_functions(all, i as nat, known) == Ok::<Seq<FunctionView>, DiagnosticView>(
                functions_view(new@),
            ),
    {
        let function = &functions[i];
        assert(all[i as int] == function@);
        assert(function@.body.len() == function.body@.len());
        proof {
            lemma_resolved_functions(all, (i + 1) as nat, all.len(), known);
        }
        let body = resolve_qualified_stmts(&function.body, enums)?;
        let ghost before = functions_view(new@);
        let resolved = Function {
            name: function.name.clone(),
            public: function.public,
            params: copy_params(&function.params),
            return_type: match &function.return_type {
                Some(ty) => Some(copy_type(ty)),
                None => None,
            },
            body,
            span: function.span,
        };
        assert(resolved@ == (FunctionView { body: stmts_node_view(body@), ..function@ }));
        new.push(resolved);
        assert(functions_view(new@) =~= before.push(resolved@));
    }
    Ok(new)
}

/// An error among the first functions stays the error of them all.
proof fn lemma_resolved_functions(
    functions: Seq<FunctionView>,
    from: nat,
    to: nat,
    enums: Seq<EnumView>,
)
    requires
        from <= to <= functions.len(),
    ensures
        resolved_functions(functions, from, enums) is Err ==> resolved_functions(
            functions,
            to,
            enums,
        ) == resolved_functions(functions, from, enums),
    decreases to,
{
    if from < to {
        lemma_resolved_functions(functions, from, (to - 1) as nat, enums);
    }
}

/// The index of a program.
pub fn index_program(program: &Program) -> (outcome: Result<ProgramIndex, Diagnostic>)
    ensures
        match indexed(program@) {
            Ok(expected) => outcome matches Ok(index) && index@ == expected,
            Err(error) => outcome matches Err(found) && found@ == error,
        },
{
    assert(program@.items.len() == program.items@.len());
    let declared: Declared = collect_items(&program.items)?;
    let ghost given = declared@;
    let Declared { functions, structs, enums, traits, trait_impls, inherent_impls } = declared;
    let mut index = ProgramIndex {
        functions,
        structs,
        enums,
        traits,
        struct_layouts: Vec::new(),
        pure_functions: Vec::new(),
    };
    assert(index@ =~= plain_index(given));
    check_payloads(&index)?;
    let layouts = resolve_struct_layouts(&index.structs)?;
    index.struct_layouts = layouts;
    let ghost laid = index@;
    let mut own: Vec<Function> = Vec::new();
    std::mem::swap(&mut own, &mut index.functions);
    let functions = monomorphize_inherent_impls(own, &index, &inherent_impls)?;
    let functions = monomorphize_trait_impls(functions, &index, &trait_impls)?;
    index.functions = functions;
    assert(index@ == (IndexView { functions: functions_view(functions@), ..laid }));
    check_signatures(&index)?;
    check_structs(&index)?;
    let functions = resolve_functions(&index.functions, &index.enums)?;
    let flags = analyze_pure_functions(&functions);
    index.functions = functions;
    index.pure_functions = flags;
    Ok(index)
}

} // verus!
