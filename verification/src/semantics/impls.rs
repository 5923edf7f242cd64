//! The methods of types, as functions of the program.

use crate::ast::{
    functions_view, method_sigs_view, params_view, Function, FunctionParam, FunctionView,
    InherentImplDef, InherentImplView, MethodSigView, ParamView, StructView, TraitDef, TraitImplDef,
    TraitImplView, TraitMethodSig, TraitView, TypeName, TypeView,
};
use crate::copy::{copy_params, copy_type};
use crate::diagnostic::{message_at_span, Diagnostic, DiagnosticView};
use crate::display::shown_type;
use crate::parser::stmts::{mangle, mangled};
use crate::semantics::index::ProgramIndex;
use crate::semantics::known::outcome_is;
use crate::semantics::names::{
    find_function, find_struct, find_trait, function_names, is_listed, position_from, position_of,
    struct_names, trait_names,
};
use crate::semantics::self_type::{own_stmts, own_type, substitute_self_stmts, substitute_self_type};
use crate::semantics::types::{optional_type, same_optional_type, same_type};
use crate::text::{decimal, decimal_text};
use vstd::prelude::*;

verus! {

/// The parameters of a method, with the type in place of `Self`.
pub open spec fn own_params(params: Seq<ParamView>, for_type: Seq<char>) -> Seq<ParamView> {
    Seq::new(
        params.len(),
        |i: int| ParamView { ty: own_type(params[i].ty, for_type), ..params[i] },
    )
}

/// The type that a method gives back, with the type in place of `Self`.
pub open spec fn own_return(ty: Option<TypeView>, for_type: Seq<char>) -> Option<TypeView> {
    match ty {
        Some(ty) => Some(own_type(ty, for_type)),
        None => None,
    }
}

/// The function that a method of a type itself becomes.
pub open spec fn inherent_function(method: FunctionView, for_type: Seq<char>) -> FunctionView {
    FunctionView {
        name: mangled(for_type, method.name),
        params: own_params(method.params, for_type),
        return_type: own_return(method.return_type, for_type),
        body: own_stmts(method.body, for_type),
        ..method
    }
}

/// The function that a method of a trait becomes for a type.
pub open spec fn trait_function(method: FunctionView, for_type: Seq<char>) -> FunctionView {
    FunctionView {
        name: mangled(for_type, method.name),
        body: own_stmts(method.body, for_type),
        ..method
    }
}

/// What is said of methods for a type that is not a declared struct.
pub open spec fn unknown_target(kind: Seq<char>, for_type: Seq<char>) -> Seq<char> {
    kind + " impl target '"@ + for_type + "' must be a known struct"@
}

/// What is said of a method that a type has twice.
pub open spec fn method_defined(method: Seq<char>, for_type: Seq<char>) -> Seq<char> {
    "method '"@ + method + "' is already defined for '"@ + for_type + "'"@
}

/// What is said of a trait that is not declared.
pub open spec fn unknown_trait(name: Seq<char>) -> Seq<char> {
    "unknown trait '"@ + name + "'"@
}

/// What is said of a method that its trait does not declare.
pub open spec fn method_not_declared(method: Seq<char>, name: Seq<char>) -> Seq<char> {
    "method '"@ + method + "' is not declared in trait '"@ + name + "'"@
}

/// What is said of a method with the wrong number of parameters.
pub open spec fn parameter_count_mismatch(method: Seq<char>, expected: nat, got: nat) -> Seq<char> {
    "trait method '"@ + method + "' parameter count mismatch: expected "@ + decimal(expected)
        + ", got "@ + decimal(got)
}

/// What is said of a parameter of the wrong type.
pub open spec fn parameter_type_mismatch(
    method: Seq<char>,
    param: Seq<char>,
    expected: TypeView,
    got: TypeView,
) -> Seq<char> {
    "trait method '"@ + method + "' parameter '"@ + param + "' type mismatch: expected "@
        + shown_type(expected) + ", got "@ + shown_type(got)
}

/// A type that a method gives back, as it is shown.
pub open spec fn shown_return(ty: Option<TypeView>) -> Seq<char> {
    match ty {
        Some(ty) => shown_type(ty),
        None => "void"@,
    }
}

/// What is said of a method that gives back the wrong type.
pub open spec fn return_type_mismatch(
    method: Seq<char>,
    expected: Option<TypeView>,
    got: Option<TypeView>,
) -> Seq<char> {
    "trait method '"@ + method + "' return type mismatch: expected "@ + shown_return(expected)
        + ", got "@ + shown_return(got)
}

/// What is said of a function that a method would become and that is there.
pub open spec fn function_exists(name: Seq<char>) -> Seq<char> {
    "monomorphized function '"@ + name + "' already exists"@
}

/// The functions with the first methods of a type behind them.
pub open spec fn with_inherent_methods(
    functions: Seq<FunctionView>,
    for_type: Seq<char>,
    methods: Seq<FunctionView>,
    count: nat,
) -> Result<Seq<FunctionView>, DiagnosticView>
    decreases count,
{
    if count == 0 || count > methods.len() {
        Ok(functions)
    } else {
        match with_inherent_methods(functions, for_type, methods, (count - 1) as nat) {
            Err(error) => Err(error),
            Ok(done) => {
                let method = methods[count - 1];
                if is_listed(function_names(done), mangled(for_type, method.name)) {
                    Err(message_at_span(method_defined(method.name, for_type), method.span))
                } else {
                    Ok(done.push(inherent_function(method, for_type)))
                }
            },
        }
    }
}

/// The functions with the methods of the first of some types behind them.
pub open spec fn with_inherent_impls(
    functions: Seq<FunctionView>,
    structs: Seq<StructView>,
    impls: Seq<InherentImplView>,
    count: nat,
) -> Result<Seq<FunctionView>, DiagnosticView>
    decreases count,
{
    if count == 0 || count > impls.len() {
        Ok(functions)
    } else {
        match with_inherent_impls(functions, structs, impls, (count - 1) as nat) {
            Err(error) => Err(error),
            Ok(done) => {
                let def = impls[count - 1];
                if !is_listed(struct_names(structs), def.for_type) {
                    Err(message_at_span(unknown_target("inherent"@, def.for_type), def.span))
                } else {
                    with_inherent_methods(done, def.for_type, def.methods, def.methods.len())
                }
            },
        }
    }
}

/// What is wrong with the types of the first parameters of a method.
pub open spec fn parameter_problem(
    method: FunctionView,
    expected: Seq<ParamView>,
    for_type: Seq<char>,
    count: nat,
) -> Option<DiagnosticView>
    decreases count,
{
    if count == 0 || count > method.params.len() {
        None
    } else {
        match parameter_problem(method, expected, for_type, (count - 1) as nat) {
            Some(problem) => Some(problem),
            None => {
                let param = method.params[count - 1];
                let ty = own_type(expected[count - 1].ty, for_type);
                if param.ty != ty {
                    Some(
                        message_at_span(
                            parameter_type_mismatch(method.name, param.name, ty, param.ty),
                            param.span,
                        ),
                    )
                } else {
                    None
                }
            },
        }
    }
}

/// What is wrong with a method, held against the signature in its trait.
pub open spec fn signature_problem(
    method: FunctionView,
    sig: MethodSigView,
    for_type: Seq<char>,
) -> Option<DiagnosticView> {
    if method.params.len() != sig.params.len() {
        Some(
            message_at_span(
                parameter_count_mismatch(method.name, sig.params.len(), method.params.len()),
                method.span,
            ),
        )
    } else {
        match parameter_problem(method, sig.params, for_type, method.params.len()) {
            Some(problem) => Some(problem),
            None => {
                let expected = own_return(sig.return_type, for_type);
                if method.return_type != expected {
                    Some(
                        message_at_span(
                            return_type_mismatch(method.name, expected, method.return_type),
                            method.span,
                        ),
                    )
                } else {
                    None
                }
            },
        }
    }
}

/// The names of the methods of a trait.
pub open spec fn method_names(methods: Seq<MethodSigView>) -> Seq<Seq<char>> {
    Seq::new(methods.len(), |i: int| methods[i].name)
}

/// The functions with one method of a trait behind them.
pub open spec fn with_trait_method(
    functions: Seq<FunctionView>,
    def: TraitView,
    for_type: Seq<char>,
    method: FunctionView,
) -> Result<Seq<FunctionView>, DiagnosticView> {
    match position_of(method_names(def.methods), method.name) {
        None => Err(message_at_span(method_not_declared(method.name, def.name), method.span)),
        Some(at) => match signature_problem(method, def.methods[at], for_type) {
            Some(problem) => Err(problem),
            None => {
                let name = mangled(for_type, method.name);
                if is_listed(function_names(functions), name) {
                    Err(message_at_span(function_exists(name), method.span))
                } else {
                    Ok(functions.push(trait_function(method, for_type)))
                }
            },
        },
    }
}

/// The functions with the first methods of a trait behind them.
pub open spec fn with_trait_methods(
    functions: Seq<FunctionView>,
    def: TraitView,
    for_type: Seq<char>,
    methods: Seq<FunctionView>,
    count: nat,
) -> Result<Seq<FunctionView>, DiagnosticView>
    decreases count,
{
    if count == 0 || count > methods.len() {
        Ok(functions)
    } else {
        match with_trait_methods(functions, def, for_type, methods, (count - 1) as nat) {
            Err(error) => Err(error),
            Ok(done) => with_trait_method(done, def, for_type, methods[count - 1]),
        }
    }
}

/// The functions with the methods of the first of some traits behind them.
pub open spec fn with_trait_impls(
    functions: Seq<FunctionView>,
    structs: Seq<StructView>,
    traits: Seq<TraitView>,
    impls: Seq<TraitImplView>,
    count: nat,
) -> Result<Seq<FunctionView>, DiagnosticView>
    decreases count,
{
    if count == 0 || count > impls.len() {
        Ok(functions)
    } else {
        match with_trait_impls(functions, structs, traits, impls, (count - 1) as nat) {
            Err(error) => Err(error),
            Ok(done) => {
                let def = impls[count - 1];
                match position_of(trait_names(traits), def.trait_name) {
                    None => Err(message_at_span(unknown_trait(def.trait_name), def.span)),
                    Some(at) => if !is_listed(struct_names(structs), def.for_type) {
                        Err(message_at_span(unknown_target("trait"@, def.for_type), def.span))
                    } else {
                        with_trait_methods(
                            done,
                            traits[at],
                            def.for_type,
                            def.methods,
                            def.methods.len(),
                        )
                    },
                }
            },
        }
    }
}

/// Implementations of types as mathematical values.
pub open spec fn inherent_impls_view(impls: Seq<InherentImplDef>) -> Seq<InherentImplView> {
    Seq::new(impls.len(), |i: int| impls[i]@)
}

/// Implementations of traits as mathematical values.
pub open spec fn trait_impls_view(impls: Seq<TraitImplDef>) -> Seq<TraitImplView> {
    Seq::new(impls.len(), |i: int| impls[i]@)
}

/// The outcome of adding functions is the one expected.
pub open spec fn added_is(
    outcome: Result<Vec<Function>, Diagnostic>,
    expected: Result<Seq<FunctionView>, DiagnosticView>,
) -> bool {
    match expected {
        Ok(functions) => outcome matches Ok(found) && functions_view(found@) == functions,
        Err(error) => outcome matches Err(found) && found@ == error,
    }
}

/// A copy of the parameters, with the type in place of `Self`.
fn substitute_self_params(params: &Vec<FunctionParam>, for_type: &String) -> (new: Vec<
    FunctionParam,
>)
    ensures
        params_view(new@) == own_params(params_view(params@), for_type@),
{
    let mut new: Vec<FunctionParam> = Vec::with_capacity(params.len());
    for i in 0..params.len()
        invariant
            new@.len() == i,
            forall|j: int|
                0 <= j < i ==> (#[trigger] new@[j])@ == (ParamView {
                    ty: own_type(params@[j].ty@, for_type@),
                    ..params@[j]@
                }),
    {
        new.push(
            FunctionParam {
                name: params[i].name.clone(),
                ty: substitute_self_type(&params[i].ty, for_type),
                span: params[i].span,
            },
        );
    }
    assert(params_view(new@) =~= own_params(params_view(params@), for_type@));
    new
}

/// A copy of an optional type, with the type in place of `Self`.
fn substitute_self_return(ty: &Option<TypeName>, for_type: &String) -> (new: Option<TypeName>)
    ensures
        optional_type(new) == own_return(optional_type(*ty), for_type@),
{
    match ty {
        Some(ty) => Some(substitute_self_type(ty, for_type)),
        None => None,
    }
}

/// Adds the methods of types themselves to the functions.
pub fn monomorphize_inherent_impls(
    functions: Vec<Function>,
    index: &ProgramIndex,
    impls: &Vec<InherentImplDef>,
) -> (outcome: Result<Vec<Function>, Diagnostic>)
    ensures
        added_is(
            outcome,
            with_inherent_impls(
                functions_view(functions@),
                index@.structs,
                inherent_impls_view(impls@),
                impls@.len(),
            ),
        ),
{
    let ghost start = functions_view(functions@);
    let ghost all = inherent_impls_view(impls@);
    let mut done = functions;
    for i in 0..impls.len()
        invariant
            start == functions_view(functions@),
            all == inherent_impls_view(impls@),
            with_inherent_impls(start, index@.structs, all, i as nat) == Ok::<
                Seq<FunctionView>,
                DiagnosticView,
            >(functions_view(done@)),
    {
        let def = &impls[i];
        assert(all[i as int] == def@);
        proof {
            lemma_inherent_impls(start, index@.structs, all, (i + 1) as nat, all.len());
        }
        if find_struct(&index.structs, &def.for_type).is_none() {
            let mut message = String::from_str("inherent");
            message.append(" impl target '");
            message.append(def.for_type.as_str());
            message.append("' must be a known struct");
            return Err(Diagnostic::at_span(message, def.span));
        }
        done = add_inherent_methods(done, &def.for_type, &def.methods)?;
    }
    Ok(done)
}

/// An error among the first stays the error of them all.
proof fn lemma_inherent_impls(
    functions: Seq<FunctionView>,
    structs: Seq<StructView>,
    impls: Seq<InherentImplView>,
    from: nat,
    to: nat,
)
    requires
        from <= to <= impls.len(),
    ensures
        with_inherent_impls(functions, structs, impls, from) is Err ==> with_inherent_impls(
            functions,
            structs,
            impls,
            to,
        ) == with_inherent_impls(functions, structs, impls, from),
    decreases to,
{
    if from < to {
        lemma_inherent_impls(functions, structs, impls, from, (to - 1) as nat);
    }
}

/// Adds the methods of a type to the functions.
fn add_inherent_methods(functions: Vec<Function>, for_type: &String, methods: &Vec<Function>) -> (
    outcome: Result<Vec<Function>, Diagnostic>)
    ensures
        added_is(
            outcome,
            with_inherent_methods(
                functions_view(functions@),
                for_type@,
                functions_view(methods@),
                methods@.len(),
            ),
        ),
{
    let ghost start = functions_view(functions@);
    let ghost all = functions_view(methods@);
    let mut done = functions;
    for i in 0..methods.len()
        invariant
            start == functions_view(functions@),
            all == functions_view(methods@),
            with_inherent_methods(start, for_type@, all, i as nat) == Ok::<
                Seq<FunctionView>,
                DiagnosticView,
            >(functions_view(done@)),
    {
        let method = &methods[i];
        assert(all[i as int] == method@);
        let name = mangle(for_type, &method.name);
        if find_function(&done, &name).is_some() {
            proof {
                lemma_inherent_methods(start, for_type@, all, (i + 1) as nat, all.len());
            }
            let mut message = String::from_str("method '");
            message.append(method.name.as_str());
            message.append("' is already defined for '");
            message.append(for_type.as_str());
            message.append("'");
            return Err(Diagnostic::at_span(message, method.span));
        }
        let ghost before = functions_view(done@);
        let lowered = Function {
            name,
            public: method.public,
            params: substitute_self_params(&method.params, for_type),
            return_type: substitute_self_return(&method.return_type, for_type),
            body: substitute_self_stmts(&method.body, for_type),
            span: method.span,
        };
        assert(lowered@ == inherent_function(method@, for_type@));
        done.push(lowered);
        assert(functions_view(done@) =~= before.push(inherent_function(method@, for_type@)));
    }
    Ok(done)
}

/// An error among the first stays the error of them all.
proof fn lemma_inherent_methods(
    functions: Seq<FunctionView>,
    for_type: Seq<char>,
    methods: Seq<FunctionView>,
    from: nat,
    to: nat,
)
    requires
        from <= to <= methods.len(),
    ensures
        with_inherent_methods(functions, for_type, methods, from) is Err ==> with_inherent_methods(
            functions,
            for_type,
            methods,
            to,
        ) == with_inherent_methods(functions, for_type, methods, from),
    decreases to,
{
    if from < to {
        lemma_inherent_methods(functions, for_type, methods, from, (to - 1) as nat);
    }
}

/// Where the method of that name stands in a trait.
fn find_method(methods: &Vec<TraitMethodSig>, name: &String) -> (at: Option<usize>)
    ensures
        match at {
            Some(at) => position_of(method_names(method_sigs_view(methods@)), name@) == Some(
                at as int,
            ) && at < methods@.len(),
            None => position_of(method_names(method_sigs_view(methods@)), name@) is None,
        },
{
    let ghost all = method_names(method_sigs_view(methods@));
    for i in 0..methods.len()
        invariant
            all == method_names(method_sigs_view(methods@)),
            position_of(all, name@) == position_from(all, name@, i as int),
    {
        assert(all[i as int] == methods@[i as int]@.name);
        if methods[i].name == *name {
            return Some(i);
        }
    }
    None
}

/// Checks the types of the parameters of a method against those in its trait.
fn check_parameters(method: &Function, sig: &TraitMethodSig, for_type: &String) -> (outcome: Result<
    (),
    Diagnostic,
>)
    requires
        method@.params.len() == sig@.params.len(),
    ensures
        outcome_is(
            outcome,
            parameter_problem(method@, sig@.params, for_type@, method@.params.len()),
        ),
{
    let params = &method.params;
    let ghost all = params_view(params@);
    let ghost expected_all = params_view(sig.params@);
    for i in 0..params.len()
        invariant
            *params == method.params,
            all == params_view(params@),
            all == method@.params,
            expected_all == params_view(sig.params@),
            expected_all == sig@.params,
            all.len() == expected_all.len(),
            parameter_problem(method@, expected_all, for_type@, i as nat) is None,
    {
        let param = &params[i];
        assert(all[i as int] == param@);
        assert(sig.params@.len() == expected_all.len());
        assert(expected_all[i as int] == sig.params@[i as int]@);
        let expected = substitute_self_type(&sig.params[i].ty, for_type);
        if !same_type(&param.ty, &expected) {
            proof {
                lemma_parameter_problem(
                    method@,
                    expected_all,
                    for_type@,
                    (i + 1) as nat,
                    all.len(),
                );
            }
            let mut message = String::from_str("trait method '");
            message.append(method.name.as_str());
            message.append("' parameter '");
            message.append(param.name.as_str());
            message.append("' type mismatch: expected ");
            message.append(expected.display().as_str());
            message.append(", got ");
            message.append(param.ty.display().as_str());
            return Err(Diagnostic::at_span(message, param.span));
        }
    }
    Ok(())
}

/// A problem among the first stays the problem of them all.
proof fn lemma_parameter_problem(
    method: FunctionView,
    expected: Seq<ParamView>,
    for_type: Seq<char>,
    from: nat,
    to: nat,
)
    requires
        from <= to <= method.params.len(),
    ensures
        parameter_problem(method, expected, for_type, from) is Some ==> parameter_problem(
            method,
            expected,
            for_type,
            to,
        ) == parameter_problem(method, expected, for_type, from),
    decreases to,
{
    if from < to {
        lemma_parameter_problem(method, expected, for_type, from, (to - 1) as nat);
    }
}

/// A type that a method gives back, as it is shown.
fn show_return(ty: &Option<TypeName>) -> (text: String)
    ensures
        text@ == shown_return(optional_type(*ty)),
{
    match ty {
        Some(ty) => ty.display(),
        None => String::from_str("void"),
    }
}

/// Checks a method against the signature in its trait.
fn check_signature(method: &Function, sig: &TraitMethodSig, for_type: &String) -> (outcome: Result<
    (),
    Diagnostic,
>)
    ensures
        outcome_is(outcome, signature_problem(method@, sig@, for_type@)),
{
    assert(method@.params.len() == method.params@.len());
    assert(sig@.params.len() == sig.params@.len());
    if method.params.len() != sig.params.len() {
        let mut message = String::from_str("trait method '");
        message.append(method.name.as_str());
        message.append("' parameter count mismatch: expected ");
        message.append(decimal_text(sig.params.len() as u64).as_str());
        message.append(", got ");
        message.append(decimal_text(method.params.len() as u64).as_str());
        return Err(Diagnostic::at_span(message, method.span));
    }
    check_parameters(method, sig, for_type)?;
    let expected = substitute_self_return(&sig.return_type, for_type);
    assert(optional_type(method.return_type) == method@.return_type);
    assert(optional_type(sig.return_type) == sig@.return_type);
    if !same_optional_type(&method.return_type, &expected) {
        let mut message = String::from_str("trait method '");
        message.append(method.name.as_str());
        message.append("' return type mismatch: expected ");
        message.append(show_return(&expected).as_str());
        message.append(", got ");
        message.append(show_return(&method.return_type).as_str());
        return Err(Diagnostic::at_span(message, method.span));
    }
    Ok(())
}

/// Adds the methods of traits to the functions.
pub fn monomorphize_trait_impls(
    functions: Vec<Function>,
    index: &ProgramIndex,
    impls: &Vec<TraitImplDef>,
) -> (outcome: Result<Vec<Function>, Diagnostic>)
    ensures
        added_is(
            outcome,
            with_trait_impls(
                functions_view(functions@),
                index@.structs,
                index@.traits,
                trait_impls_view(impls@),
                impls@.len(),
            ),
        ),
{
    let ghost start = functions_view(functions@);
    let ghost all = trait_impls_view(impls@);
    let ghost structs = index@.structs;
    let ghost traits = index@.traits;
    let mut done = functions;
    for i in 0..impls.len()
        invariant
            start == functions_view(functions@),
            structs == index@.structs,
            traits == index@.traits,
            all == trait_impls_view(impls@),
            with_trait_impls(start, structs, traits, all, i as nat) == Ok::<
                Seq<FunctionView>,
                DiagnosticView,
            >(functions_view(done@)),
    {
        let def = &impls[i];
        assert(all[i as int] == def@);
        proof {
            lemma_trait_impls(start, structs, traits, all, (i + 1) as nat, all.len());
        }
        let at: usize = match find_trait(&index.traits, &def.trait_name) {
            Some(at) => at,
            None => {
                let mut message = String::from_str("unknown trait '");
                message.append(def.trait_name.as_str());
                message.append("'");
                return Err(Diagnostic::at_span(message, def.span));
            },
        };
        assert(traits[at as int] == index.traits@[at as int]@);
        if find_struct(&index.structs, &def.for_type).is_none() {
            let mut message = String::from_str("trait");
            message.append(" impl target '");
            message.append(def.for_type.as_str());
            message.append("' must be a known struct");
            return Err(Diagnostic::at_span(message, def.span));
        }
        done = add_trait_methods(done, &index.traits[at], &def.for_type, &def.methods)?;
    }
    Ok(done)
}

/// An error among the first stays the error of them all.
proof fn lemma_trait_impls(
    functions: Seq<FunctionView>,
    structs: Seq<StructView>,
    traits: Seq<TraitView>,
    impls: Seq<TraitImplView>,
    from: nat,
    to: nat,
)
    requires
        from <= to <= impls.len(),
    ensures
        with_trait_impls(functions, structs, traits, impls, from) is Err ==> with_trait_impls(
            functions,
            structs,
            traits,
            impls,
            to,
        ) == with_trait_impls(functions, structs, traits, impls, from),
    decreases to,
{
    if from < to {
        lemma_trait_impls(functions, structs, traits, impls, from, (to - 1) as nat);
    }
}

/// Adds the methods of a trait for a type to the functions.
fn add_trait_methods(
    functions: Vec<Function>,
    def: &TraitDef,
    for_type: &String,
    methods: &Vec<Function>,
) -> (outcome: Result<Vec<Function>, Diagnostic>)
    ensures
        added_is(
            outcome,
            with_trait_methods(
                functions_view(functions@),
                def@,
                for_type@,
                functions_view(methods@),
                methods@.len(),
            ),
        ),
{
    let ghost start = functions_view(functions@);
    let ghost all = functions_view(methods@);
    let mut done = functions;
    for i in 0..methods.len()
        invariant
            start == functions_view(functions@),
            all == functions_view(methods@),
            with_trait_methods(start, def@, for_type@, all, i as nat) == Ok::<
                Seq<FunctionView>,
                DiagnosticView,
            >(functions_view(done@)),
    {
        assert(all[i as int] == methods@[i as int]@);
        proof {
            lemma_trait_methods(start, def@, for_type@, all, (i + 1) as nat, all.len());
        }
        done = add_trait_method(done, def, for_type, &methods[i])?;
    }
    Ok(done)
}

/// An error among the first stays the error of them all.
proof fn lemma_trait_methods(
    functions: Seq<FunctionView>,
    def: TraitView,
    for_type: Seq<char>,
    methods: Seq<FunctionView>,
    from: nat,
    to: nat,
)
    requires
        from <= to <= methods.len(),
    ensures
        with_trait_methods(functions, def, for_type, methods, from) is Err ==> with_trait_methods(
            functions,
            def,
            for_type,
            methods,
            to,
        ) == with_trait_methods(functions, def, for_type, methods, from),
    decreases to,
{
    if from < to {
        lemma_trait_methods(functions, def, for_type, methods, from, (to - 1) as nat);
    }
}

/// Adds one method of a trait for a type to the functions.
fn add_trait_method(
    functions: Vec<Function>,
    def: &TraitDef,
    for_type: &String,
    method: &Function,
) -> (outcome: Result<Vec<Function>, Diagnostic>)
    ensures
        added_is(
            outcome,
            with_trait_method(functions_view(functions@), def@, for_type@, method@),
        ),
{
    let at: usize = match find_method(&def.methods, &method.name) {
        Some(at) => at,
        None => {
            let mut message = String::from_str("method '");
            message.append(method.name.as_str());
            message.append("' is not declared in trait '");
            message.append(def.name.as_str());
            message.append("'");
            return Err(Diagnostic::at_span(message, method.span));
        },
    };
    assert(def@.methods[at as int] == def.methods@[at as int]@);
    check_signature(method, &def.methods[at], for_type)?;
    let name = mangle(for_type, &method.name);
    if find_function(&functions, &name).is_some() {
        let mut message = String::from_str("monomorphized function '");
        message.append(name.as_str());
        message.append("' already exists");
        return Err(Diagnostic::at_span(message, method.span));
    }
    let lowered = Function {
        name,
        public: method.public,
        params: copy_params(&method.params),
        return_type: match &method.return_type {
            Some(ty) => Some(copy_type(ty)),
            None => None,
        },
        body: substitute_self_stmts(&method.body, for_type),
        span: method.span,
    };
    assert(lowered@ == trait_function(method@, for_type@));
    let mut done = functions;
    done.push(lowered);
    assert(functions_view(done@) =~= functions_view(functions@).push(
        trait_function(method@, for_type@),
    ));
    Ok(done)
}

} // verus!
