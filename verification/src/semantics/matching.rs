//! Match expressions: whether the arms fit the enum, which of them is taken, and
//! what it binds.

use crate::ast::{
    arms_view, fields_view, named_patterns_view, optional_text, optional_texts, texts_view,
    tuple_fields_view, ArmView, EnumDef, EnumTupleFieldDef, EnumVariantPayloadDef, EnumView,
    FieldView, MatchArm, MatchNamedFieldPattern, MatchPattern, NamedPatternView, PatternView,
    PayloadView, Span, StructField, TupleFieldView, TypeName, TypeView,
};
use crate::diagnostic::{type_message, Diagnostic, DiagnosticView};
use crate::semantics::collect::{first_problem, problem_from, stands_before};
use crate::semantics::environment::{fresh_binding, with_name, Binding, BindingView, Env};
use crate::semantics::generics::{
    inferred_view, instantiate_generic_type, instantiated, put_inferred, Inferred,
};
use crate::semantics::known::outcome_is;
use crate::semantics::names::{
    field_names, find_field, find_text, find_variant, is_listed, lemma_is_listed,
    lemma_position_from, position_of, variant_names,
};
use crate::semantics::spans::{pattern_span, place_of_pattern};
use crate::semantics::types::optional_type;
use crate::semantics::values::{
    copy_value, find_value, named_view, optional_types, value_named, values_view, EnumPayloadValue,
    NamedValue, NamedView, PayloadValueView, Value, ValueView,
};
use crate::text::{decimal, decimal_text, join_texts, joined};
use vstd::prelude::*;

verus! {

/// A variant by the names of its enum and of itself.
pub open spec fn qualified(owner: Seq<char>, member: Seq<char>) -> Seq<char> {
    owner + "::"@ + member
}

/// A variant by the names of its enum and of itself.
fn qualify(owner: &String, member: &String) -> (name: String)
    ensures
        name@ == qualified(owner@, member@),
{
    let mut name = owner.clone();
    name.append("::");
    name.append(member.as_str());
    name
}

/// What is said of a pattern, by its variant.
pub open spec fn of_pattern(owner: Seq<char>, member: Seq<char>, rest: Seq<char>) -> Seq<char> {
    "pattern '"@ + qualified(owner, member) + rest
}

/// What is said of a pattern for another enum.
pub open spec fn wrong_enum(pattern: Seq<char>, actual: Seq<char>) -> Seq<char> {
    "pattern enum '"@ + pattern + "' does not match scrutinee enum '"@ + actual + "'"@
}

/// What is said of a pattern for a variant that the enum does not have.
pub open spec fn unknown_pattern_variant(variant: Seq<char>, owner: Seq<char>) -> Seq<char> {
    "unknown variant '"@ + variant + "' for enum '"@ + owner + "' in match pattern"@
}

/// What is said of a pattern with the wrong number of fields.
pub open spec fn wrong_field_count(
    owner: Seq<char>,
    variant: Seq<char>,
    expected: nat,
    got: nat,
) -> Seq<char> {
    of_pattern(owner, variant, "' expects "@ + decimal(expected) + " fields, got "@ + decimal(got))
}

/// What is said of a name that a pattern binds twice.
pub open spec fn duplicate_binding(name: Seq<char>) -> Seq<char> {
    "duplicate binding '"@ + name + "' in match pattern"@
}

/// What is said of a field that a pattern names twice.
pub open spec fn duplicate_pattern_field(name: Seq<char>) -> Seq<char> {
    "duplicate field '"@ + name + "' in match pattern"@
}

/// What is said of a field that the variant does not have.
pub open spec fn unknown_pattern_field(
    field: Seq<char>,
    owner: Seq<char>,
    variant: Seq<char>,
) -> Seq<char> {
    "unknown payload field '"@ + field + "' for pattern '"@ + qualified(owner, variant) + "'"@
}

/// The name stands among those before the position.
pub open spec fn bound_before(bindings: Seq<Option<Seq<char>>>, at: int) -> bool {
    bindings[at] is Some && exists|j: int| 0 <= j < at && #[trigger] bindings[j] == bindings[at]
}

/// What is wrong with a name that a tuple pattern binds.
pub open spec fn tuple_binding_flaw(
    bindings: Seq<Option<Seq<char>>>,
    at: int,
    span: Span,
) -> Option<DiagnosticView> {
    if bound_before(bindings, at) {
        Some(type_message(duplicate_binding(bindings[at]->0), span))
    } else {
        None
    }
}

/// The names that a named pattern binds.
pub open spec fn pattern_bindings(fields: Seq<NamedPatternView>) -> Seq<Option<Seq<char>>> {
    Seq::new(fields.len(), |i: int| fields[i].binding)
}

/// The fields that a named pattern names.
pub open spec fn pattern_names(fields: Seq<NamedPatternView>) -> Seq<Seq<char>> {
    Seq::new(fields.len(), |i: int| fields[i].name)
}

/// What is wrong with a field of a named pattern.
pub open spec fn named_pattern_flaw(
    fields: Seq<NamedPatternView>,
    at: int,
    defs: Seq<FieldView>,
    owner: Seq<char>,
    variant: Seq<char>,
) -> Option<DiagnosticView> {
    let field = fields[at];
    if stands_before(pattern_names(fields), at) {
        Some(type_message(duplicate_pattern_field(field.name), field.span))
    } else if !is_listed(field_names(defs), field.name) {
        Some(type_message(unknown_pattern_field(field.name, owner, variant), field.span))
    } else if bound_before(pattern_bindings(fields), at) {
        Some(type_message(duplicate_binding(field.binding->0), field.span))
    } else {
        None
    }
}

/// What is wrong with a pattern for a payload.
pub open spec fn payload_pattern_flaw(
    pattern: PatternView,
    payload: PayloadView,
    owner: Seq<char>,
    variant: Seq<char>,
) -> Option<DiagnosticView> {
    let span = place_of_pattern(pattern);
    match (pattern, payload) {
        (PatternView::EnumUnit { .. }, PayloadView::Unit) => None,
        (PatternView::EnumTuple { bindings, .. }, PayloadView::Tuple(defs)) => if bindings.len()
            != defs.len() {
            Some(
                type_message(
                    wrong_field_count(owner, variant, defs.len(), bindings.len()),
                    span,
                ),
            )
        } else {
            first_problem(
                Seq::new(bindings.len(), |i: int| tuple_binding_flaw(bindings, i, span)),
            )
        },
        (PatternView::EnumNamed { fields, .. }, PayloadView::Named(defs)) => first_problem(
            Seq::new(
                fields.len(),
                |i: int| named_pattern_flaw(fields, i, defs, owner, variant),
            ),
        ),
        (PatternView::EnumUnit { .. }, _) => Some(
            type_message(of_pattern(owner, variant, "' must destructure its payload"@), span),
        ),
        (PatternView::EnumTuple { .. }, _) => Some(
            type_message(
                of_pattern(owner, variant, "' uses tuple syntax for a non-tuple variant"@),
                span,
            ),
        ),
        (PatternView::EnumNamed { .. }, _) => Some(
            type_message(
                of_pattern(owner, variant, "' uses named syntax for a non-named variant"@),
                span,
            ),
        ),
        (PatternView::Wildcard { .. }, _) => None,
    }
}

/// The variant that a pattern is for.
pub open spec fn pattern_variant(pattern: PatternView, def: EnumView) -> Result<
    Seq<char>,
    DiagnosticView,
> {
    let span = place_of_pattern(pattern);
    match pattern {
        PatternView::Wildcard { .. } => Err(
            type_message("internal error: wildcard passed to enum-pattern validator"@, span),
        ),
        PatternView::EnumUnit { enum_name, variant, .. }
        | PatternView::EnumTuple { enum_name, variant, .. }
        | PatternView::EnumNamed { enum_name, variant, .. } => if enum_name != def.name {
            Err(type_message(wrong_enum(enum_name, def.name), span))
        } else {
            match position_of(variant_names(def.variants), variant) {
                None => Err(type_message(unknown_pattern_variant(variant, def.name), span)),
                Some(at) => match payload_pattern_flaw(
                    pattern,
                    def.variants[at].payload,
                    def.name,
                    variant,
                ) {
                    Some(problem) => Err(problem),
                    None => Ok(variant),
                },
            }
        },
    }
}

/// What is said of a pattern, by its variant.
fn say_of_pattern(owner: &String, member: &String, rest: &str, span: Span) -> (diagnostic:
    Diagnostic)
    ensures
        diagnostic@ == type_message(of_pattern(owner@, member@, rest@), span),
{
    let mut message = String::from_str("pattern '");
    message.append(qualify(owner, member).as_str());
    message.append(rest);
    Diagnostic::type_error(message, span)
}

/// Whether two optional texts are the same.
fn same_optional_text(a: &Option<String>, b: &Option<String>) -> (same: bool)
    ensures
        same == (optional_text(*a) == optional_text(*b)),
{
    match (a, b) {
        (Some(a), Some(b)) => *a == *b,
        (None, None) => true,
        _ => false,
    }
}

/// What is said of a name that a pattern binds twice.
fn say_duplicate_binding(name: &String, span: Span) -> (diagnostic: Diagnostic)
    ensures
        diagnostic@ == type_message(duplicate_binding(name@), span),
{
    let mut message = String::from_str("duplicate binding '");
    message.append(name.as_str());
    message.append("' in match pattern");
    Diagnostic::type_error(message, span)
}

/// Checks the names that a tuple pattern binds.
fn check_tuple_bindings(bindings: &Vec<Option<String>>, span: Span) -> (outcome: Result<
    (),
    Diagnostic,
>)
    ensures
        outcome_is(
            outcome,
            first_problem(
                Seq::new(
                    bindings@.len(),
                    |i: int| tuple_binding_flaw(optional_texts(bindings@), i, span),
                ),
            ),
        ),
{
    let ghost all = optional_texts(bindings@);
    let ghost problems = Seq::new(bindings@.len(), |i: int| tuple_binding_flaw(all, i, span));
    for i in 0..bindings.len()
        invariant
            all == optional_texts(bindings@),
            problems == Seq::new(bindings@.len(), |i: int| tuple_binding_flaw(all, i, span)),
            first_problem(problems) == problem_from(problems, i as int),
    {
        assert(problems[i as int] == tuple_binding_flaw(all, i as int, span));
        match &bindings[i] {
            None => {},
            Some(name) => {
                for j in 0..i
                    invariant
                        i < bindings@.len(),
                        all == optional_texts(bindings@),
                        bindings@[i as int] == Some(*name),
                        problems == Seq::new(
                            bindings@.len(),
                            |i: int| tuple_binding_flaw(all, i, span),
                        ),
                        first_problem(problems) == problem_from(problems, i as int),
                        forall|k: int| 0 <= k < j ==> #[trigger] all[k] != all[i as int],
                {
                    assert(all[j as int] == optional_text(bindings@[j as int]));
                    assert(problems[i as int] == tuple_binding_flaw(all, i as int, span));
                    if same_optional_text(&bindings[j], &bindings[i]) {
                        assert(all[j as int] == all[i as int]);
                        return Err(say_duplicate_binding(name, span));
                    }
                }
            },
        }
    }
    Ok(())
}

/// Whether a field before the position binds the same name.
fn is_bound_before(fields: &Vec<MatchNamedFieldPattern>, at: usize) -> (found: bool)
    requires
        at < fields@.len(),
    ensures
        found == bound_before(pattern_bindings(named_patterns_view(fields@)), at as int),
{
    let ghost all = pattern_bindings(named_patterns_view(fields@));
    assert(all[at as int] == optional_text(fields@[at as int].binding));
    if fields[at].binding.is_none() {
        return false;
    }
    for j in 0..at
        invariant
            at < fields@.len(),
            all == pattern_bindings(named_patterns_view(fields@)),
            all[at as int] == optional_text(fields@[at as int].binding),
            fields@[at as int].binding is Some,
            forall|k: int| 0 <= k < j ==> #[trigger] all[k] != all[at as int],
    {
        assert(all[j as int] == optional_text(fields@[j as int].binding));
        if same_optional_text(&fields[j].binding, &fields[at].binding) {
            return true;
        }
    }
    false
}

/// Checks the fields of a named pattern.
fn check_named_pattern(
    fields: &Vec<MatchNamedFieldPattern>,
    defs: &Vec<StructField>,
    owner: &String,
    variant: &String,
) -> (outcome: Result<(), Diagnostic>)
    ensures
        outcome_is(
            outcome,
            first_problem(
                Seq::new(
                    fields@.len(),
                    |i: int|
                        named_pattern_flaw(
                            named_patterns_view(fields@),
                            i,
                            fields_view(defs@),
                            owner@,
                            variant@,
                        ),
                ),
            ),
        ),
{
    let ghost all = named_patterns_view(fields@);
    let ghost known = fields_view(defs@);
    let ghost names = pattern_names(all);
    let ghost problems = Seq::new(
        fields@.len(),
        |i: int| named_pattern_flaw(all, i, known, owner@, variant@),
    );
    let mut seen: Vec<String> = Vec::with_capacity(fields.len());
    assert(texts_view(seen@) =~= names.subrange(0, 0));
    for i in 0..fields.len()
        invariant
            all == named_patterns_view(fields@),
            known == fields_view(defs@),
            names == pattern_names(all),
            problems == Seq::new(
                fields@.len(),
                |i: int| named_pattern_flaw(all, i, known, owner@, variant@),
            ),
            texts_view(seen@) == names.subrange(0, i as int),
            first_problem(problems) == problem_from(problems, i as int),
    {
        let field = &fields[i];
        assert(all[i as int] == field@);
        assert(problems[i as int] == named_pattern_flaw(all, i as int, known, owner@, variant@));
        if find_text(&seen, &field.name).is_some() {
            let mut message = String::from_str("duplicate field '");
            message.append(field.name.as_str());
            message.append("' in match pattern");
            return Err(Diagnostic::type_error(message, field.span));
        }
        if find_field(defs, &field.name).is_none() {
            let mut message = String::from_str("unknown payload field '");
            message.append(field.name.as_str());
            message.append("' for pattern '");
            message.append(qualify(owner, variant).as_str());
            message.append("'");
            return Err(Diagnostic::type_error(message, field.span));
        }
        if is_bound_before(fields, i) {
            if let Some(binding) = &field.binding {
                return Err(say_duplicate_binding(binding, field.span));
            }
        }
        seen.push(field.name.clone());
        assert(texts_view(seen@) =~= names.subrange(0, i + 1));
    }
    Ok(())
}

/// Checks a pattern against a payload.
fn check_payload_pattern(
    pattern: &MatchPattern,
    payload: &EnumVariantPayloadDef,
    owner: &String,
    variant: &String,
) -> (outcome: Result<(), Diagnostic>)
    ensures
        outcome_is(outcome, payload_pattern_flaw(pattern@, payload@, owner@, variant@)),
{
    let span = pattern_span(pattern);
    match (pattern, payload) {
        (MatchPattern::EnumUnit { .. }, EnumVariantPayloadDef::Unit) => Ok(()),
        (MatchPattern::EnumTuple { bindings, .. }, EnumVariantPayloadDef::Tuple(defs)) => {
            assert(optional_texts(bindings@).len() == bindings@.len());
            assert(tuple_fields_view(defs@).len() == defs@.len());
            if bindings.len() != defs.len() {
                let mut rest = String::from_str("' expects ");
                rest.append(decimal_text(defs.len() as u64).as_str());
                rest.append(" fields, got ");
                rest.append(decimal_text(bindings.len() as u64).as_str());
                return Err(say_of_pattern(owner, variant, rest.as_str(), span));
            }
            check_tuple_bindings(bindings, span)
        },
        (MatchPattern::EnumNamed { fields, .. }, EnumVariantPayloadDef::Named(defs)) => {
            assert(named_patterns_view(fields@).len() == fields@.len());
            check_named_pattern(fields, defs, owner, variant)
        },
        (MatchPattern::EnumUnit { .. }, _) => Err(
            say_of_pattern(owner, variant, "' must destructure its payload", span),
        ),
        (MatchPattern::EnumTuple { .. }, _) => Err(
            say_of_pattern(owner, variant, "' uses tuple syntax for a non-tuple variant", span),
        ),
        (MatchPattern::EnumNamed { .. }, _) => Err(
            say_of_pattern(owner, variant, "' uses named syntax for a non-named variant", span),
        ),
        (MatchPattern::Wildcard { .. }, _) => Ok(()),
    }
}

/// The variant that a pattern is for.
pub fn validate_enum_match_pattern(pattern: &MatchPattern, def: &EnumDef) -> (outcome: Result<
    String,
    Diagnostic,
>)
    ensures
        match pattern_variant(pattern@, def@) {
            Ok(variant) => outcome matches Ok(found) && found@ == variant,
            Err(error) => outcome matches Err(found) && found@ == error,
        },
{
    let span = pattern_span(pattern);
    let (enum_name, variant) = match pattern {
        MatchPattern::EnumUnit { enum_name, variant, .. } => (enum_name, variant),
        MatchPattern::EnumTuple { enum_name, variant, .. } => (enum_name, variant),
        MatchPattern::EnumNamed { enum_name, variant, .. } => (enum_name, variant),
        MatchPattern::Wildcard { .. } => {
            return Err(
                Diagnostic::about_types(
                    "internal error: wildcard passed to enum-pattern validator",
                    span,
                ),
            );
        },
    };
    if *enum_name != def.name {
        let mut message = String::from_str("pattern enum '");
        message.append(enum_name.as_str());
        message.append("' does not match scrutinee enum '");
        message.append(def.name.as_str());
        message.append("'");
        return Err(Diagnostic::type_error(message, span));
    }
    let at: usize = match find_variant(&def.variants, variant) {
        Some(at) => at,
        None => {
            let mut message = String::from_str("unknown variant '");
            message.append(variant.as_str());
            message.append("' for enum '");
            message.append(def.name.as_str());
            message.append("' in match pattern");
            return Err(Diagnostic::type_error(message, span));
        },
    };
    assert(def@.variants[at as int] == def.variants@[at as int]@);
    check_payload_pattern(pattern, &def.variants[at].payload, &def.name, variant)?;
    Ok(variant.clone())
}

/// What the first arms of a match come to: the variants that they cover, whether
/// one of them is for all, and which is taken.
#[verifier::ext_equal]
pub struct ArmsView {
    pub covered: Seq<Seq<char>>,
    pub wildcard: bool,
    pub selected: Option<int>,
}

/// What is said of a second arm for a variant.
pub open spec fn duplicate_arm(owner: Seq<char>, variant: Seq<char>) -> Seq<char> {
    "unreachable duplicate match arm for '"@ + qualified(owner, variant) + "'"@
}

/// What the arms come to with one more.
pub open spec fn with_arm(
    state: ArmsView,
    arms: Seq<ArmView>,
    at: int,
    def: EnumView,
    active: Seq<char>,
) -> Result<ArmsView, DiagnosticView> {
    let pattern = arms[at].pattern;
    let span = place_of_pattern(pattern);
    match pattern {
        PatternView::Wildcard { .. } => if state.wildcard || at + 1 != arms.len() {
            Err(type_message("wildcard match arm must appear exactly once and be last"@, span))
        } else if state.covered.len() == def.variants.len() {
            Err(
                type_message(
                    "unreachable wildcard match arm: every enum variant is already covered"@,
                    span,
                ),
            )
        } else {
            Ok(
                ArmsView {
                    wildcard: true,
                    selected: match state.selected {
                        Some(selected) => Some(selected),
                        None => Some(at),
                    },
                    ..state
                },
            )
        },
        _ => match pattern_variant(pattern, def) {
            Err(error) => Err(error),
            Ok(variant) => if is_listed(state.covered, variant) {
                Err(type_message(duplicate_arm(def.name, variant), span))
            } else {
                Ok(
                    ArmsView {
                        covered: state.covered.push(variant),
                        selected: if variant == active {
                            Some(at)
                        } else {
                            state.selected
                        },
                        ..state
                    },
                )
            },
        },
    }
}

/// What the first arms come to.
pub open spec fn arms_state(
    arms: Seq<ArmView>,
    count: nat,
    def: EnumView,
    active: Seq<char>,
) -> Result<
    ArmsView,
    DiagnosticView,
>
    decreases count,
{
    if count == 0 || count > arms.len() {
        Ok(ArmsView { covered: Seq::empty(), wildcard: false, selected: None })
    } else {
        match arms_state(arms, (count - 1) as nat, def, active) {
            Err(error) => Err(error),
            Ok(state) => with_arm(state, arms, count - 1, def, active),
        }
    }
}

/// The first variants that no arm covers.
pub open spec fn missing_variants(def: EnumView, covered: Seq<Seq<char>>, count: nat) -> Seq<
    Seq<char>,
>
    decreases count,
{
    if count == 0 || count > def.variants.len() {
        Seq::empty()
    } else {
        let before = missing_variants(def, covered, (count - 1) as nat);
        let variant = def.variants[count - 1].name;
        if is_listed(covered, variant) {
            before
        } else {
            before.push(qualified(def.name, variant))
        }
    }
}

/// What is said of a match that leaves variants out.
pub open spec fn not_exhaustive(name: Seq<char>, missing: Seq<Seq<char>>) -> Seq<char> {
    "non-exhaustive match for enum '"@ + name + "'; missing "@ + joined(
        missing,
        ", "@,
        missing.len(),
    )
}

/// The arm that is taken for a value of a variant.
pub open spec fn selected_arm(
    arms: Seq<ArmView>,
    def: EnumView,
    active: Seq<char>,
    span: Span,
) -> Result<int, DiagnosticView> {
    match arms_state(arms, arms.len(), def, active) {
        Err(error) => Err(error),
        Ok(state) => {
            let missing = missing_variants(def, state.covered, def.variants.len());
            if !state.wildcard && missing.len() > 0 {
                Err(type_message(not_exhaustive(def.name, missing), span))
            } else {
                match state.selected {
                    Some(at) => Ok(at),
                    None => Err(
                        type_message(
                            "internal error: exhaustive enum match selected no arm"@,
                            span,
                        ),
                    ),
                }
            }
        },
    }
}

/// The variants that no arm covers.
fn find_missing(def: &EnumDef, covered: &Vec<String>) -> (missing: Vec<String>)
    ensures
        texts_view(missing@) == missing_variants(
            def@,
            texts_view(covered@),
            def@.variants.len(),
        ),
{
    let variants = &def.variants;
    let mut missing: Vec<String> = Vec::new();
    assert(texts_view(missing@) =~= Seq::empty());
    for i in 0..variants.len()
        invariant
            *variants == def.variants,
            texts_view(missing@) == missing_variants(def@, texts_view(covered@), i as nat),
    {
        assert(def@.variants[i as int] == variants@[i as int]@);
        if find_text(covered, &variants[i].name).is_none() {
            let ghost before = texts_view(missing@);
            let name = qualify(&def.name, &variants[i].name);
            missing.push(name);
            assert(texts_view(missing@) =~= before.push(name@));
        }
    }
    missing
}

/// The arm that is taken for a value of a variant.
pub fn select_arm(arms: &Vec<MatchArm>, def: &EnumDef, active: &String, span: Span) -> (outcome:
    Result<usize, Diagnostic>)
    ensures
        match selected_arm(arms_view(arms@), def@, active@, span) {
            Ok(at) => outcome matches Ok(found) && found == at && found < arms@.len(),
            Err(error) => outcome matches Err(found) && found@ == error,
        },
{
    let ghost all = arms_view(arms@);
    let mut covered: Vec<String> = Vec::new();
    let mut wildcard = false;
    let mut selected: Option<usize> = None;
    assert(texts_view(covered@) =~= Seq::empty());
    for i in 0..arms.len()
        invariant
            all == arms_view(arms@),
            selected matches Some(at) ==> at < arms@.len(),
            match arms_state(all, i as nat, def@, active@) {
                Ok(state) => state.covered == texts_view(covered@) && state.wildcard == wildcard
                    && (match selected {
                    Some(at) => state.selected == Some(at as int),
                    None => state.selected is None,
                }),
                Err(_) => false,
            },
    {
        let pattern = &arms[i].pattern;
        assert(all[i as int] == arms@[i as int]@);
        proof {
            lemma_arms_state(all, (i + 1) as nat, all.len(), def@, active@);
        }
        let place = pattern_span(pattern);
        match pattern {
            MatchPattern::Wildcard { .. } => {
                if wildcard || i + 1 != arms.len() {
                    return Err(
                        Diagnostic::about_types(
                            "wildcard match arm must appear exactly once and be last",
                            place,
                        ),
                    );
                }
                assert(texts_view(covered@).len() == covered@.len());
                assert(def@.variants.len() == def.variants@.len());
                if covered.len() == def.variants.len() {
                    return Err(
                        Diagnostic::about_types(
                            "unreachable wildcard match arm: every enum variant is already covered",
                            place,
                        ),
                    );
                }
                wildcard = true;
                if selected.is_none() {
                    selected = Some(i);
                }
            },
            _ => {
                let variant = validate_enum_match_pattern(pattern, def)?;
                if find_text(&covered, &variant).is_some() {
                    let mut message = String::from_str("unreachable duplicate match arm for '");
                    message.append(qualify(&def.name, &variant).as_str());
                    message.append("'");
                    return Err(Diagnostic::type_error(message, place));
                }
                if variant == *active {
                    selected = Some(i);
                }
                let ghost before = texts_view(covered@);
                let ghost name = variant@;
                covered.push(variant);
                assert(texts_view(covered@) =~= before.push(name));
            },
        }
    }
    assert(all.len() == arms@.len());
    if !wildcard {
        let missing = find_missing(def, &covered);
        assert(texts_view(missing@).len() == missing@.len());
        if missing.len() > 0 {
            let mut message = String::from_str("non-exhaustive match for enum '");
            message.append(def.name.as_str());
            message.append("'; missing ");
            message.append(join_texts(&missing, ", ").as_str());
            return Err(Diagnostic::type_error(message, span));
        }
    }
    match selected {
        Some(at) => Ok(at),
        None => Err(
            Diagnostic::about_types(
                "internal error: exhaustive enum match selected no arm",
                span,
            ),
        ),
    }
}

/// An error among the first arms stays the error of them all.
proof fn lemma_arms_state(
    arms: Seq<ArmView>,
    from: nat,
    to: nat,
    def: EnumView,
    active: Seq<char>,
)
    requires
        from <= to <= arms.len(),
    ensures
        arms_state(arms, from, def, active) is Err ==> arms_state(arms, to, def, active)
            == arms_state(arms, from, def, active),
    decreases to,
{
    if from < to {
        lemma_arms_state(arms, from, (to - 1) as nat, def, active);
    }
}

/// What holds of the first arms: a covered variant that is active has its arm
/// taken, and an arm for all leaves none untaken.
spec fn is_settled(
    state: ArmsView,
    arms: Seq<ArmView>,
    count: nat,
    def: EnumView,
    active: Seq<char>,
) -> bool {
    &&& (is_listed(state.covered, active) || state.wildcard) ==> state.selected is Some
    &&& state.selected matches Some(at) ==> 0 <= at < count && (arms[at].pattern is Wildcard
        || pattern_variant(arms[at].pattern, def) == Ok::<Seq<char>, DiagnosticView>(active))
}

/// The first arms are settled.
proof fn lemma_settled(arms: Seq<ArmView>, count: nat, def: EnumView, active: Seq<char>)
    requires
        count <= arms.len(),
    ensures
        arms_state(arms, count, def, active) matches Ok(state) ==> is_settled(
            state,
            arms,
            count,
            def,
            active,
        ),
    decreases count,
{
    if count > 0 {
        let before = (count - 1) as nat;
        lemma_settled(arms, before, def, active);
        if let Ok(state) = arms_state(arms, before, def, active) {
            if let Ok(variant) = pattern_variant(arms[before as int].pattern, def) {
                lemma_is_listed(state.covered, active);
                lemma_is_listed(state.covered.push(variant), active);
                if state.covered.push(variant).contains(active) && variant != active {
                    let k = choose|k: int|
                        0 <= k < state.covered.push(variant).len() && state.covered.push(variant)[k]
                            == active;
                    assert(state.covered[k] == active);
                }
            }
        }
    }
}

/// A variant that is not among the missing is covered.
proof fn lemma_not_missing(def: EnumView, covered: Seq<Seq<char>>, count: nat, at: int)
    requires
        0 <= at < count <= def.variants.len(),
        missing_variants(def, covered, count).len() == 0,
    ensures
        is_listed(covered, def.variants[at].name),
    decreases count,
{
    if at < count - 1 {
        lemma_not_missing(def, covered, (count - 1) as nat, at);
    }
}

/// A match that is accepted takes an arm for each variant of its enum: that of
/// the variant, or the one for all.
pub proof fn law_accepted_match_takes_an_arm(
    arms: Seq<ArmView>,
    def: EnumView,
    active: Seq<char>,
    span: Span,
)
    requires
        is_listed(variant_names(def.variants), active),
        arms_state(arms, arms.len(), def, active) is Ok,
        arms_state(arms, arms.len(), def, active)->Ok_0.wildcard || missing_variants(
            def,
            arms_state(arms, arms.len(), def, active)->Ok_0.covered,
            def.variants.len(),
        ).len() == 0,
    ensures
        selected_arm(arms, def, active, span) matches Ok(at) && 0 <= at < arms.len() && (
        arms[at].pattern is Wildcard || pattern_variant(arms[at].pattern, def) == Ok::<
            Seq<char>,
            DiagnosticView,
        >(active)),
{
    lemma_settled(arms, arms.len(), def, active);
    let state = arms_state(arms, arms.len(), def, active)->Ok_0;
    if !state.wildcard {
        lemma_position_from(variant_names(def.variants), active, 0);
        let at = position_of(variant_names(def.variants), active)->0;
        assert(variant_names(def.variants)[at] == active);
        lemma_not_missing(def, state.covered, def.variants.len(), at);
    }
}

/// What the type parameters of a value stand for, as far as it is known.
pub open spec fn known_arguments(
    type_params: Seq<Seq<char>>,
    type_args: Seq<Option<TypeView>>,
    count: nat,
) -> Map<Seq<char>, TypeView>
    decreases count,
{
    if count == 0 || count > type_params.len() || count > type_args.len() {
        Map::empty()
    } else {
        let before = known_arguments(type_params, type_args, (count - 1) as nat);
        match type_args[count - 1] {
            Some(ty) => before.insert(type_params[count - 1], ty),
            None => before,
        }
    }
}

/// The smaller of two numbers.
pub open spec fn smaller(a: nat, b: nat) -> nat {
    if a < b {
        a
    } else {
        b
    }
}

/// The scopes with the first names of a tuple pattern bound.
pub open spec fn with_tuple_bound(
    scopes: Seq<Map<Seq<char>, BindingView>>,
    bindings: Seq<Option<Seq<char>>>,
    defs: Seq<TupleFieldView>,
    values: Seq<ValueView>,
    inferred: Map<Seq<char>, TypeView>,
    count: nat,
) -> Seq<Map<Seq<char>, BindingView>>
    decreases count,
{
    if count == 0 || count > bindings.len() || count > defs.len() || count > values.len() {
        scopes
    } else {
        let before = with_tuple_bound(
            scopes,
            bindings,
            defs,
            values,
            inferred,
            (count - 1) as nat,
        );
        match bindings[count - 1] {
            Some(name) => with_name(
                before,
                name,
                fresh_binding(
                    values[count - 1],
                    instantiated(defs[count - 1].ty, inferred),
                    false,
                ),
            ),
            None => before,
        }
    }
}

/// The scopes with the first names of a named pattern bound, unless a field is
/// not there.
pub open spec fn with_named_bound(
    scopes: Seq<Map<Seq<char>, BindingView>>,
    fields: Seq<NamedPatternView>,
    defs: Seq<FieldView>,
    values: Seq<NamedView>,
    inferred: Map<Seq<char>, TypeView>,
    count: nat,
) -> Option<Seq<Map<Seq<char>, BindingView>>>
    decreases count,
{
    if count == 0 || count > fields.len() {
        Some(scopes)
    } else {
        match with_named_bound(scopes, fields, defs, values, inferred, (count - 1) as nat) {
            None => None,
            Some(before) => match fields[count - 1].binding {
                None => Some(before),
                Some(binding) => match (
                    position_of(field_names(defs), fields[count - 1].name),
                    value_named(values, fields[count - 1].name),
                ) {
                    (Some(at), Some(value)) => Some(
                        with_name(
                            before,
                            binding,
                            fresh_binding(value, instantiated(defs[at].ty, inferred), false),
                        ),
                    ),
                    _ => None,
                },
            },
        }
    }
}

/// The scopes with the names of a pattern bound, for a value of a variant. What
/// is said of a payload that does not fit is an error of the program's own
/// checks.
pub open spec fn with_pattern_bound(
    scopes: Seq<Map<Seq<char>, BindingView>>,
    pattern: PatternView,
    def: EnumView,
    active: Seq<char>,
    type_args: Seq<Option<TypeView>>,
    payload: PayloadValueView,
) -> Result<Seq<Map<Seq<char>, BindingView>>, DiagnosticView> {
    let span = place_of_pattern(pattern);
    let inferred = known_arguments(
        def.type_params,
        type_args,
        smaller(def.type_params.len(), type_args.len()),
    );
    let misfit = type_message(
        "internal error: enum payload does not match its definition"@,
        span,
    );
    match position_of(variant_names(def.variants), active) {
        None => Err(
            type_message(
                "internal error: active enum variant is absent from its definition"@,
                span,
            ),
        ),
        Some(at) => match (pattern, def.variants[at].payload, payload) {
            (PatternView::Wildcard { .. }, _, _) | (PatternView::EnumUnit { .. }, _, _) => Ok(
                scopes,
            ),
            (
                PatternView::EnumTuple { bindings, .. },
                PayloadView::Tuple(defs),
                PayloadValueView::Tuple(values),
            ) => Ok(
                with_tuple_bound(
                    scopes,
                    bindings,
                    defs,
                    values,
                    inferred,
                    smaller(smaller(bindings.len(), defs.len()), values.len()),
                ),
            ),
            (
                PatternView::EnumNamed { fields, .. },
                PayloadView::Named(defs),
                PayloadValueView::Named(values),
            ) => match with_named_bound(scopes, fields, defs, values, inferred, fields.len()) {
                Some(bound) => Ok(bound),
                None => Err(misfit),
            },
            _ => Err(misfit),
        },
    }
}

/// What the type parameters of a value stand for, as far as it is known.
fn collect_arguments(
    type_params: &Vec<String>,
    type_args: &Vec<Option<TypeName>>,
) -> (inferred: Vec<
    Inferred,
>)
    ensures
        inferred_view(inferred@) == known_arguments(
            texts_view(type_params@),
            optional_types(type_args@),
            smaller(type_params@.len(), type_args@.len()),
        ),
{
    let ghost params = texts_view(type_params@);
    let ghost args = optional_types(type_args@);
    let mut inferred: Vec<Inferred> = Vec::new();
    assert(inferred_view(inferred@) =~= Map::empty());
    let count: usize = if type_params.len() < type_args.len() {
        type_params.len()
    } else {
        type_args.len()
    };
    for i in 0..count
        invariant
            count <= type_params@.len(),
            count <= type_args@.len(),
            params == texts_view(type_params@),
            args == optional_types(type_args@),
            inferred_view(inferred@) == known_arguments(params, args, i as nat),
    {
        assert(args[i as int] == optional_type(type_args@[i as int]));
        if let Some(ty) = &type_args[i] {
            put_inferred(&mut inferred, &type_params[i], ty);
        }
    }
    inferred
}

/// Binds the names of a tuple pattern.
fn bind_tuple(
    env: &mut Env,
    bindings: &Vec<Option<String>>,
    defs: &Vec<EnumTupleFieldDef>,
    values: &Vec<Value>,
    inferred: &Vec<Inferred>,
)
    ensures
        final(env)@ == with_tuple_bound(
            old(env)@,
            optional_texts(bindings@),
            tuple_fields_view(defs@),
            values_view(values@),
            inferred_view(inferred@),
            smaller(smaller(bindings@.len(), defs@.len()), values@.len()),
        ),
{
    let ghost names = optional_texts(bindings@);
    let ghost known = tuple_fields_view(defs@);
    let ghost given = values_view(values@);
    let ghost start = env@;
    let two: usize = if bindings.len() < defs.len() {
        bindings.len()
    } else {
        defs.len()
    };
    let count: usize = if two < values.len() {
        two
    } else {
        values.len()
    };
    for i in 0..count
        invariant
            count <= bindings@.len(),
            count <= defs@.len(),
            count <= values@.len(),
            start == old(env)@,
            names == optional_texts(bindings@),
            known == tuple_fields_view(defs@),
            given == values_view(values@),
            env@ == with_tuple_bound(
                start,
                names,
                known,
                given,
                inferred_view(inferred@),
                i as nat,
            ),
    {
        assert(names[i as int] == optional_text(bindings@[i as int]));
        assert(known[i as int] == defs@[i as int]@);
        assert(given[i as int] == values@[i as int]@);
        if let Some(name) = &bindings[i] {
            let ty = instantiate_generic_type(&defs[i].ty, inferred);
            env.insert(name.clone(), Binding::fresh(copy_value(&values[i]), ty, false));
        }
    }
}

/// The scopes differ at most in the innermost.
pub open spec fn same_outer_scopes(
    before: Seq<Map<Seq<char>, BindingView>>,
    after: Seq<Map<Seq<char>, BindingView>>,
) -> bool {
    &&& after.len() == before.len()
    &&& before.len() > 0 ==> after.drop_last() == before.drop_last()
}

/// Binds the names of a named pattern, unless a field is not there.
fn bind_named(
    env: &mut Env,
    fields: &Vec<MatchNamedFieldPattern>,
    defs: &Vec<StructField>,
    values: &Vec<NamedValue>,
    inferred: &Vec<Inferred>,
) -> (bound: bool)
    ensures
        match with_named_bound(
            old(env)@,
            named_patterns_view(fields@),
            fields_view(defs@),
            named_view(values@),
            inferred_view(inferred@),
            fields@.len(),
        ) {
            Some(scopes) => bound && final(env)@ == scopes,
            None => !bound,
        },
        same_outer_scopes(old(env)@, final(env)@),
{
    let ghost all = named_patterns_view(fields@);
    let ghost known = fields_view(defs@);
    let ghost given = named_view(values@);
    let ghost start = env@;
    for i in 0..fields.len()
        invariant
            start == old(env)@,
            all == named_patterns_view(fields@),
            known == fields_view(defs@),
            given == named_view(values@),
            with_named_bound(start, all, known, given, inferred_view(inferred@), i as nat) == Some(
                env@,
            ),
            same_outer_scopes(start, env@),
    {
        assert(all[i as int] == fields@[i as int]@);
        proof {
            lemma_named_bound(
                start,
                all,
                known,
                given,
                inferred_view(inferred@),
                (i + 1) as nat,
                all.len(),
            );
        }
        let field = &fields[i];
        if let Some(binding) = &field.binding {
            let at: usize = match find_field(defs, &field.name) {
                Some(at) => at,
                None => {
                    return false;
                },
            };
            let place: usize = match find_value(values, &field.name) {
                Some(place) => place,
                None => {
                    return false;
                },
            };
            assert(known[at as int] == defs@[at as int]@);
            assert(given[place as int] == values@[place as int]@);
            let ty = instantiate_generic_type(&defs[at].ty, inferred);
            let ghost before = env@;
            env.insert(
                binding.clone(),
                Binding::fresh(copy_value(&values[place].value), ty, false),
            );
            assert(before.len() > 0 ==> env@.drop_last() =~= before.drop_last());
        }
    }
    true
}

/// A field that is not there among the first stays missing.
proof fn lemma_named_bound(
    scopes: Seq<Map<Seq<char>, BindingView>>,
    fields: Seq<NamedPatternView>,
    defs: Seq<FieldView>,
    values: Seq<NamedView>,
    inferred: Map<Seq<char>, TypeView>,
    from: nat,
    to: nat,
)
    requires
        from <= to <= fields.len(),
    ensures
        with_named_bound(scopes, fields, defs, values, inferred, from) is None ==> with_named_bound(
            scopes,
            fields,
            defs,
            values,
            inferred,
            to,
        ) is None,
    decreases to,
{
    if from < to {
        lemma_named_bound(scopes, fields, defs, values, inferred, from, (to - 1) as nat);
    }
}

/// Binds the names of a pattern in the innermost scope, for a value of a
/// variant.
pub fn bind_enum_match_pattern(
    pattern: &MatchPattern,
    def: &EnumDef,
    active: &String,
    type_args: &Vec<Option<TypeName>>,
    payload: &EnumPayloadValue,
    env: &mut Env,
) -> (outcome: Result<(), Diagnostic>)
    ensures
        match with_pattern_bound(
            old(env)@,
            pattern@,
            def@,
            active@,
            optional_types(type_args@),
            payload@,
        ) {
            Ok(scopes) => outcome is Ok && final(env)@ == scopes,
            Err(error) => (outcome matches Err(found) && found@ == error) && same_outer_scopes(
                old(env)@,
                final(env)@,
            ),
        },
{
    let span = pattern_span(pattern);
    let inferred = collect_arguments(&def.type_params, type_args);
    let at: usize = match find_variant(&def.variants, active) {
        Some(at) => at,
        None => {
            return Err(
                Diagnostic::about_types(
                    "internal error: active enum variant is absent from its definition",
                    span,
                ),
            );
        },
    };
    assert(def@.variants[at as int] == def.variants@[at as int]@);
    match (pattern, &def.variants[at].payload, payload) {
        (MatchPattern::Wildcard { .. }, _, _) => Ok(()),
        (MatchPattern::EnumUnit { .. }, _, _) => Ok(()),
        (
            MatchPattern::EnumTuple { bindings, .. },
            EnumVariantPayloadDef::Tuple(defs),
            EnumPayloadValue::Tuple(values),
        ) => {
            assert(optional_texts(bindings@).len() == bindings@.len());
            assert(tuple_fields_view(defs@).len() == defs@.len());
            assert(values_view(values@).len() == values@.len());
            bind_tuple(env, bindings, defs, values, &inferred);
            Ok(())
        },
        (
            MatchPattern::EnumNamed { fields, .. },
            EnumVariantPayloadDef::Named(defs),
            EnumPayloadValue::Named(values),
        ) => {
            assert(named_patterns_view(fields@).len() == fields@.len());
            if bind_named(env, fields, defs, values, &inferred) {
                Ok(())
            } else {
                Err(
                    Diagnostic::about_types(
                        "internal error: enum payload does not match its definition",
                        span,
                    ),
                )
            }
        },
        _ => Err(
            Diagnostic::about_types(
                "internal error: enum payload does not match its definition",
                span,
            ),
        ),
    }
}

} // verus!
