//! What the names of a pattern stand for once it is bound, and which arm of a match is
//! taken.

use crate::ast::{ArmView, EnumView, FieldView, NamedPatternView, PatternView, PayloadView, Span};
use crate::ast::{TupleFieldView, TypeView};
use crate::diagnostic::DiagnosticView;
use crate::semantics::environment::{meaning, scope_of, with_name, BindingView};
use crate::semantics::generics::instantiated;
use crate::semantics::matching::{
    arms_state, known_arguments, pattern_variant, selected_arm, smaller, with_named_bound,
    with_pattern_bound, with_tuple_bound,
};
use crate::semantics::names::{field_names, lemma_position_from, position_of, variant_names};
use crate::semantics::values::{names_in, NamedView, PayloadValueView, ValueView};
use vstd::prelude::*;

verus! {

/// What a name stands for that a pattern binds: a value of a type, which nothing
/// borrows and nothing may change.
pub open spec fn is_bound_to(
    scopes: Seq<Map<Seq<char>, BindingView>>,
    name: Seq<char>,
    value: ValueView,
    ty: TypeView,
) -> bool {
    meaning(scopes, name) matches Some(binding) && binding.value == value && binding.ty == ty
        && !binding.mutable && binding.shared_borrows == 0 && !binding.mut_borrowed
}

/// A name that is put into the innermost scope does not hide another.
proof fn lemma_other_scope(
    scopes: Seq<Map<Seq<char>, BindingView>>,
    name: Seq<char>,
    binding: BindingView,
    other: Seq<char>,
    count: int,
)
    requires
        other != name,
        count <= scopes.len(),
    ensures
        scope_of(with_name(scopes, name, binding), other, count) == scope_of(scopes, other, count),
        scope_of(scopes, other, count) matches Some(at) ==> 0 <= at < count,
    decreases count,
{
    if count > 0 {
        lemma_other_scope(scopes, name, binding, other, count - 1);
    }
}

/// What names stand for once one is put into the innermost scope.
proof fn lemma_meanings(
    scopes: Seq<Map<Seq<char>, BindingView>>,
    name: Seq<char>,
    binding: BindingView,
)
    requires
        scopes.len() > 0,
    ensures
        with_name(scopes, name, binding).len() == scopes.len(),
        meaning(with_name(scopes, name, binding), name) == Some(binding),
        forall|other: Seq<char>|
            other != name ==> #[trigger] meaning(with_name(scopes, name, binding), other)
                == meaning(scopes, other),
{
    let after = with_name(scopes, name, binding);
    assert(after.last().contains_key(name));
    assert forall|other: Seq<char>| other != name implies #[trigger] meaning(after, other)
        == meaning(scopes, other) by {
        lemma_other_scope(scopes, name, binding, other, scopes.len() as int);
    }
}

/// The names among the first of a list differ.
pub open spec fn names_differ(names: Seq<Option<Seq<char>>>) -> bool {
    forall|i: int, j: int|
        0 <= i < j < names.len()
            && (#[trigger] names[i]) is Some ==> names[i] != #[trigger] names[j]
}

/// The first names of a tuple pattern are bound.
proof fn lemma_tuple_bound(
    scopes: Seq<Map<Seq<char>, BindingView>>,
    bindings: Seq<Option<Seq<char>>>,
    defs: Seq<TupleFieldView>,
    values: Seq<ValueView>,
    inferred: Map<Seq<char>, TypeView>,
    count: nat,
)
    requires
        scopes.len() > 0,
        names_differ(bindings),
        count <= bindings.len(),
        count <= defs.len(),
        count <= values.len(),
    ensures
        with_tuple_bound(scopes, bindings, defs, values, inferred, count).len() == scopes.len(),
        forall|i: int|
            0 <= i < count ==> ((#[trigger] bindings[i]) matches Some(name) ==> is_bound_to(
                with_tuple_bound(scopes, bindings, defs, values, inferred, count),
                name,
                values[i],
                instantiated(defs[i].ty, inferred),
            )),
        forall|other: Seq<char>|
            (forall|i: int| 0 <= i < count ==> #[trigger] bindings[i] != Some(other))
                ==> #[trigger] meaning(
                with_tuple_bound(scopes, bindings, defs, values, inferred, count),
                other,
            ) == meaning(scopes, other),
    decreases count,
{
    if count > 0 {
        let at = count - 1;
        lemma_tuple_bound(scopes, bindings, defs, values, inferred, at as nat);
        let before = with_tuple_bound(scopes, bindings, defs, values, inferred, at as nat);
        let after = with_tuple_bound(scopes, bindings, defs, values, inferred, count);
        if let Some(name) = bindings[at] {
            let binding = after.last()[name];
            assert(after == with_name(before, name, binding));
            lemma_meanings(before, name, binding);
            assert forall|i: int| 0 <= i < count implies ((#[trigger] bindings[i]) matches Some(
                other,
            ) ==> is_bound_to(after, other, values[i], instantiated(defs[i].ty, inferred))) by {
                if i < at {
                    assert(bindings[i] is Some ==> bindings[i] != bindings[at]);
                }
            }
        }
        assert forall|other: Seq<char>|
            (forall|i: int| 0 <= i < count ==> #[trigger] bindings[i] != Some(other)) implies
            #[trigger] meaning(after, other) == meaning(scopes, other) by {
            assert(bindings[at] != Some(other));
            assert(meaning(before, other) == meaning(scopes, other));
        }
    }
}

/// A tuple pattern gives each of its names the value at the same place of the payload,
/// of the type that the variant declares there with the type arguments put in. Other
/// names stand for what they stood for.
pub proof fn law_tuple_pattern_binds_in_place(
    scopes: Seq<Map<Seq<char>, BindingView>>,
    pattern: PatternView,
    def: EnumView,
    at: int,
    type_args: Seq<Option<TypeView>>,
    values: Seq<ValueView>,
)
    requires
        scopes.len() > 0,
        0 <= at < def.variants.len(),
        position_of(variant_names(def.variants), def.variants[at].name) == Some(at),
        pattern matches PatternView::EnumTuple { bindings, .. } && names_differ(bindings)
            && bindings.len() == values.len()
            && (def.variants[at].payload matches PayloadView::Tuple(
            defs,
        ) && defs.len() == values.len()),
    ensures
        with_pattern_bound(
            scopes,
            pattern,
            def,
            def.variants[at].name,
            type_args,
            PayloadValueView::Tuple(values),
        ) matches Ok(after) && {
            let defs = def.variants[at].payload->Tuple_0;
            let bindings = pattern->EnumTuple_bindings;
            let inferred = known_arguments(
                def.type_params,
                type_args,
                smaller(def.type_params.len(), type_args.len()),
            );
            &&& after.len() == scopes.len()
            &&& forall|i: int|
                0 <= i < values.len() ==> ((#[trigger] bindings[i]) matches Some(name)
                    ==> is_bound_to(after, name, values[i], instantiated(defs[i].ty, inferred)))
            &&& forall|other: Seq<char>|
                (forall|i: int| 0 <= i < values.len() ==> #[trigger] bindings[i] != Some(other))
                    ==> #[trigger] meaning(after, other) == meaning(scopes, other)
        },
{
    let defs = def.variants[at].payload->Tuple_0;
    let bindings = pattern->EnumTuple_bindings;
    let inferred = known_arguments(
        def.type_params,
        type_args,
        smaller(def.type_params.len(), type_args.len()),
    );
    lemma_tuple_bound(scopes, bindings, defs, values, inferred, values.len());
}

/// The names that a named pattern binds.
pub open spec fn bound_by(fields: Seq<NamedPatternView>) -> Seq<Option<Seq<char>>> {
    Seq::new(fields.len(), |i: int| fields[i].binding)
}

/// A name stands at one place of a list only.
pub open spec fn has_once(names: Seq<Seq<char>>, at: int) -> bool {
    forall|i: int| 0 <= i < names.len() && i != at ==> #[trigger] names[i] != names[at]
}

/// Where a name stands that stands at one place only.
proof fn lemma_position_of_once(names: Seq<Seq<char>>, at: int)
    requires
        0 <= at < names.len(),
        has_once(names, at),
    ensures
        position_of(names, names[at]) == Some(at),
{
    lemma_position_from(names, names[at], 0);
}

/// The first names of a named pattern are bound.
proof fn lemma_named_are_bound(
    scopes: Seq<Map<Seq<char>, BindingView>>,
    fields: Seq<NamedPatternView>,
    defs: Seq<FieldView>,
    values: Seq<NamedView>,
    inferred: Map<Seq<char>, TypeView>,
    count: nat,
)
    requires
        scopes.len() > 0,
        names_differ(bound_by(fields)),
        count <= fields.len(),
        with_named_bound(scopes, fields, defs, values, inferred, count) is Some,
    ensures
        with_named_bound(scopes, fields, defs, values, inferred, count) matches Some(after) && {
            &&& after.len() == scopes.len()
            &&& forall|i: int, k: int, d: int|
                #![trigger fields[i], values[k], defs[d]]
                0 <= i < count && 0 <= k < values.len() && 0 <= d < defs.len() && values[k].name
                    == fields[i].name && defs[d].name == fields[i].name && has_once(
                    names_in(values),
                    k,
                ) && has_once(field_names(defs), d) ==> (fields[i].binding matches Some(name)
                    ==> is_bound_to(
                    after,
                    name,
                    values[k].value,
                    instantiated(defs[d].ty, inferred),
                ))
            &&& forall|other: Seq<char>|
                (forall|i: int| 0 <= i < count ==> (#[trigger] fields[i]).binding != Some(other))
                    ==> #[trigger] meaning(after, other) == meaning(scopes, other)
        },
    decreases count,
{
    if count > 0 {
        let at = count - 1;
        lemma_named_are_bound(scopes, fields, defs, values, inferred, at as nat);
        let before = with_named_bound(scopes, fields, defs, values, inferred, at as nat)->0;
        let after = with_named_bound(scopes, fields, defs, values, inferred, count)->0;
        if let Some(name) = fields[at].binding {
            let binding = after.last()[name];
            assert(after == with_name(before, name, binding));
            lemma_meanings(before, name, binding);
            assert forall|i: int, k: int, d: int|
                #![trigger fields[i], values[k], defs[d]]
                0 <= i < count && 0 <= k < values.len() && 0 <= d < defs.len() && values[k].name
                    == fields[i].name && defs[d].name == fields[i].name && has_once(
                    names_in(values),
                    k,
                ) && has_once(field_names(defs), d) implies (fields[i].binding matches Some(other)
                ==> is_bound_to(
                after,
                other,
                values[k].value,
                instantiated(defs[d].ty, inferred),
            )) by {
                assert(names_in(values)[k] == fields[i].name);
                assert(field_names(defs)[d] == fields[i].name);
                lemma_position_of_once(names_in(values), k);
                lemma_position_of_once(field_names(defs), d);
                if i < at {
                    assert(bound_by(fields)[i] is Some ==> bound_by(fields)[i] != bound_by(
                        fields,
                    )[at]);
                }
            }
        }
        assert forall|other: Seq<char>|
            (forall|i: int| 0 <= i < count ==> (#[trigger] fields[i]).binding != Some(other)) implies
            #[trigger] meaning(after, other) == meaning(scopes, other) by {
            assert(fields[at].binding != Some(other));
            assert(meaning(before, other) == meaning(scopes, other));
        }
    }
}

/// A named pattern gives each of its names the value of the field that it names, of
/// the type that the variant declares for it with the type arguments put in. Other
/// names stand for what they stood for.
pub proof fn law_named_pattern_binds_by_name(
    scopes: Seq<Map<Seq<char>, BindingView>>,
    pattern: PatternView,
    def: EnumView,
    at: int,
    type_args: Seq<Option<TypeView>>,
    values: Seq<NamedView>,
)
    requires
        scopes.len() > 0,
        0 <= at < def.variants.len(),
        position_of(variant_names(def.variants), def.variants[at].name) == Some(at),
        pattern matches PatternView::EnumNamed { fields, .. } && names_differ(bound_by(fields)),
        def.variants[at].payload is Named,
        with_pattern_bound(
            scopes,
            pattern,
            def,
            def.variants[at].name,
            type_args,
            PayloadValueView::Named(values),
        ) is Ok,
    ensures
        with_pattern_bound(
            scopes,
            pattern,
            def,
            def.variants[at].name,
            type_args,
            PayloadValueView::Named(values),
        ) matches Ok(after) && {
            let defs = def.variants[at].payload->Named_0;
            let fields = pattern->EnumNamed_fields;
            let inferred = known_arguments(
                def.type_params,
                type_args,
                smaller(def.type_params.len(), type_args.len()),
            );
            &&& after.len() == scopes.len()
            &&& forall|i: int, k: int, d: int|
                #![trigger fields[i], values[k], defs[d]]
                0 <= i < fields.len() && 0 <= k < values.len() && 0 <= d < defs.len()
                    && values[k].name == fields[i].name && defs[d].name == fields[i].name
                    && has_once(names_in(values), k) && has_once(field_names(defs), d) ==> (
                fields[i].binding matches Some(name) ==> is_bound_to(
                    after,
                    name,
                    values[k].value,
                    instantiated(defs[d].ty, inferred),
                ))
            &&& forall|other: Seq<char>|
                (forall|i: int|
                    0 <= i < fields.len() ==> (#[trigger] fields[i]).binding != Some(other))
                    ==> #[trigger] meaning(after, other) == meaning(scopes, other)
        },
{
    let defs = def.variants[at].payload->Named_0;
    let fields = pattern->EnumNamed_fields;
    let inferred = known_arguments(
        def.type_params,
        type_args,
        smaller(def.type_params.len(), type_args.len()),
    );
    lemma_named_are_bound(scopes, fields, defs, values, inferred, fields.len());
}

/// Patterns that bind no name leave every name as it was.
pub proof fn law_other_patterns_bind_nothing(
    scopes: Seq<Map<Seq<char>, BindingView>>,
    pattern: PatternView,
    def: EnumView,
    active: Seq<char>,
    type_args: Seq<Option<TypeView>>,
    payload: PayloadValueView,
)
    requires
        pattern is Wildcard || pattern is EnumUnit,
    ensures
        with_pattern_bound(scopes, pattern, def, active, type_args, payload) matches Ok(after)
            ==> after == scopes,
{
}

/// Each type parameter whose argument is known stands for it, where the parameters
/// have names of their own.
pub proof fn law_type_arguments_are_known_by_name(
    params: Seq<Seq<char>>,
    args: Seq<Option<TypeView>>,
    count: nat,
)
    requires
        count <= params.len(),
        count <= args.len(),
        forall|i: int| 0 <= i < params.len() ==> #[trigger] has_once(params, i),
    ensures
        forall|i: int|
            0 <= i < count ==> ((#[trigger] args[i]) matches Some(ty) ==> known_arguments(
                params,
                args,
                count,
            ).contains_key(params[i]) && known_arguments(params, args, count)[params[i]] == ty),
        forall|name: Seq<char>| #[trigger]
            known_arguments(params, args, count).contains_key(name) ==> exists|i: int|
                0 <= i < count && #[trigger] params[i] == name && args[i] is Some,
    decreases count,
{
    if count > 0 {
        let at = count - 1;
        law_type_arguments_are_known_by_name(params, args, at as nat);
        assert(has_once(params, at));
        assert forall|i: int| 0 <= i < count implies ((#[trigger] args[i]) matches Some(ty)
            ==> known_arguments(params, args, count).contains_key(params[i]) && known_arguments(
            params,
            args,
            count,
        )[params[i]] == ty) by {
            if i < at {
                assert(params[i] != params[at]);
            }
        }
        assert forall|name: Seq<char>| #[trigger]
            known_arguments(params, args, count).contains_key(name) implies exists|i: int|
            0 <= i < count && #[trigger] params[i] == name && args[i] is Some by {
            if known_arguments(params, args, at as nat).contains_key(name) {
                let i = choose|i: int|
                    0 <= i < at && #[trigger] params[i] == name && args[i] is Some;
                assert(params[i] == name);
            } else {
                assert(params[at] == name);
            }
        }
    }
}

/// The first arms select one of the variant where there is one, else the one for all.
proof fn lemma_selected(arms: Seq<ArmView>, count: nat, def: EnumView, active: Seq<char>)
    requires
        count <= arms.len(),
    ensures
        arms_state(arms, count, def, active) matches Ok(state) ==> {
            &&& state.selected matches Some(at) ==> 0 <= at < count && (
            arms[at].pattern is Wildcard || pattern_variant(arms[at].pattern, def) == Ok::<
                Seq<char>,
                DiagnosticView,
            >(active))
            &&& forall|i: int|
                0 <= i < count && !((#[trigger] arms[i]).pattern is Wildcard) && pattern_variant(
                    arms[i].pattern,
                    def,
                ) == Ok::<Seq<char>, DiagnosticView>(active) ==> (state.selected matches Some(at)
                    && !(arms[at].pattern is Wildcard))
        },
    decreases count,
{
    if count > 0 {
        lemma_selected(arms, (count - 1) as nat, def, active);
    }
}

/// The arm that is taken is one of the variant, or the one for all where no arm is of
/// the variant.
pub proof fn law_the_arm_of_the_variant_is_taken(
    arms: Seq<ArmView>,
    def: EnumView,
    active: Seq<char>,
    span: Span,
)
    ensures
        selected_arm(arms, def, active, span) matches Ok(at) ==> {
            &&& 0 <= at < arms.len()
            &&& arms[at].pattern is Wildcard || pattern_variant(arms[at].pattern, def) == Ok::<
                Seq<char>,
                DiagnosticView,
            >(active)
            &&& arms[at].pattern is Wildcard ==> forall|i: int|
                0 <= i < arms.len() && !((#[trigger] arms[i]).pattern is Wildcard)
                    ==> pattern_variant(arms[i].pattern, def) != Ok::<Seq<char>, DiagnosticView>(
                    active,
                )
        },
{
    lemma_selected(arms, arms.len(), def, active);
}

} // verus!
