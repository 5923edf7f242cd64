//! What is built of values and of declarations keeps them all, in their order.

use crate::ast::{
    EnumView, FieldView, FunctionView, InherentImplView, ItemView, Span, StmtNode, StructView,
    TraitImplView, TraitView, TypeView,
};
use crate::diagnostic::DiagnosticView;
use crate::ir::StmtView;
use crate::semantics::collect::{builtin_enums, declared_by};
use crate::semantics::evaluate::{
    coerced_from, given_value, named_payload, named_variant_value, payload_defs, payload_types,
    payload_values, tuple_variant_value, types_of_values,
};
use crate::semantics::execute::{round_start, rounds_ran, stmts_ran};
use crate::semantics::flow::{parallel_problem, FlowView};
use crate::semantics::impls::{
    inherent_function, trait_function, with_inherent_impls, with_trait_impls,
};
use crate::semantics::index::IndexView;
use crate::semantics::matching_laws::has_once;
use crate::semantics::names::{lemma_position_from, position_of, trait_names};
use crate::semantics::operations::{coerced, ValueOperations};
use crate::semantics::program::resolved_functions;
use crate::semantics::qualified::resolved_stmts;
use crate::semantics::self_laws::{lemma_inherent, lemma_trait_methods};
use crate::semantics::state::{FailureView, StateView};
use crate::semantics::values::{names_in, NamedView, PayloadValueView, ValueView};
use crate::semantics::variants::argument_targets;
use vstd::prelude::*;

verus! {

/// Values from one on become values of types, each at its place.
proof fn lemma_coerced<O: ValueOperations>(
    ops: O,
    values: Seq<ValueView>,
    targets: Seq<TypeView>,
    spans: Seq<Span>,
    from: int,
    before: Seq<ValueView>,
)
    requires
        0 <= from <= values.len(),
        before.len() == from,
        forall|i: int|
            0 <= i < from ==> coerced(ops, values[i], targets[i], spans[i]) == Ok::<
                ValueView,
                DiagnosticView,
            >(#[trigger] before[i]),
    ensures
        coerced_from(ops, values, targets, spans, from, before) matches Ok(after) ==> after.len()
            == values.len() && forall|i: int|
            0 <= i < values.len() ==> coerced(ops, values[i], targets[i], spans[i]) == Ok::<
                ValueView,
                DiagnosticView,
            >(#[trigger] after[i]),
    decreases values.len() - from,
{
    if from < values.len() {
        if let Ok(value) = coerced(ops, values[from], targets[from], spans[from]) {
            let longer = before.push(value);
            assert forall|i: int| 0 <= i < from + 1 implies coerced(
                ops,
                values[i],
                targets[i],
                spans[i],
            ) == Ok::<ValueView, DiagnosticView>(#[trigger] longer[i]) by {
                if i < from {
                    assert(longer[i] == before[i]);
                }
            }
            lemma_coerced(ops, values, targets, spans, from + 1, longer);
        }
    }
}

/// Each value is carried as its type takes it.
pub open spec fn are_taken<O: ValueOperations>(
    ops: O,
    values: Seq<ValueView>,
    targets: Seq<TypeView>,
    spans: Seq<Span>,
    carried: Seq<ValueView>,
) -> bool {
    forall|i: int|
        0 <= i < values.len() ==> coerced(ops, values[i], targets[i], spans[i]) == Ok::<
            ValueView,
            DiagnosticView,
        >(#[trigger] carried[i])
}

/// What was given once under the name of a field is carried there as its type takes it.
pub open spec fn named_are_taken<O: ValueOperations>(
    ops: O,
    defs: Seq<FieldView>,
    given: Seq<NamedView>,
    targets: Seq<TypeView>,
    span: Span,
    carried: Seq<NamedView>,
) -> bool {
    forall|i: int, k: int|
        0 <= i < defs.len() && 0 <= k < given.len() && has_once(names_in(given), k)
            && given[k].name == defs[i].name ==> coerced(
            ops,
            (#[trigger] given[k]).value,
            targets[i],
            span,
        ) == Ok::<ValueView, DiagnosticView>((#[trigger] carried[i]).value)
}

/// A variant that carries values in a row carries each at the place of its argument, as
/// some type takes it.
pub proof fn law_variants_carry_their_arguments<O: ValueOperations>(
    ops: O,
    index: IndexView,
    enum_name: Seq<char>,
    variant: Seq<char>,
    at: int,
    templates: Seq<TypeView>,
    values: Seq<ValueView>,
    spans: Seq<Span>,
    span: Span,
)
    requires
        tuple_variant_value(
            ops,
            index,
            enum_name,
            variant,
            at,
            templates,
            values,
            spans,
            span,
        ) is Ok,
    ensures
        tuple_variant_value(
            ops,
            index,
            enum_name,
            variant,
            at,
            templates,
            values,
            spans,
            span,
        ) matches Ok(
            ValueView::Enum { name, variant: own, payload: PayloadValueView::Tuple(carried), .. },
        )
            && name == enum_name && own == variant && carried.len() == values.len() && exists|
            targets: Seq<TypeView>,
        | #[trigger]
            are_taken(ops, values, targets, spans, carried),
{
    let targets = argument_targets(
        index.enums[at].type_params,
        templates,
        types_of_values(ops, values),
        span,
    )->Ok_0.1;
    lemma_coerced(ops, values, targets, spans, 0, Seq::empty());
    let carried = coerced_from(ops, values, targets, spans, 0, Seq::empty())->Ok_0;
    assert(are_taken(ops, values, targets, spans, carried));
}

/// A variant that carries named values carries under each name of its declaration what
/// was given under that name, as some type takes it.
pub proof fn law_variants_carry_what_was_named<O: ValueOperations>(
    ops: O,
    index: IndexView,
    enum_name: Seq<char>,
    variant: Seq<char>,
    at: int,
    place: int,
    given: Seq<NamedView>,
    span: Span,
)
    requires
        named_variant_value(ops, index, enum_name, variant, at, place, given, span) is Ok,
    ensures
        ({
            let defs = payload_defs(index, at, place);
            named_variant_value(ops, index, enum_name, variant, at, place, given, span) matches Ok(
                ValueView::Enum {
                    name,
                    variant: own,
                    payload: PayloadValueView::Named(carried),
                    ..
                },
            ) && name == enum_name && own == variant && carried.len() == defs.len() && (forall|
                i: int,
            |
                0 <= i < defs.len() ==> (#[trigger] carried[i]).name == defs[i].name) && exists|
                targets: Seq<TypeView>,
            | #[trigger]
                named_are_taken(ops, defs, given, targets, span, carried)
        }),
{
    let defs = payload_defs(index, at, place);
    let values = payload_values(defs, given);
    let spans = Seq::new(defs.len(), |i: int| span);
    let targets = argument_targets(
        index.enums[at].type_params,
        payload_types(defs),
        types_of_values(ops, values),
        span,
    )->Ok_0.1;
    lemma_coerced(ops, values, targets, spans, 0, Seq::empty());
    let taken = coerced_from(ops, values, targets, spans, 0, Seq::empty())->Ok_0;
    let carried = named_payload(defs, taken);
    assert forall|i: int, k: int|
        0 <= i < defs.len() && 0 <= k < given.len() && has_once(names_in(given), k) && given[k].name
            == defs[i].name implies coerced(
        ops,
        (#[trigger] given[k]).value,
        targets[i],
        span,
    ) == Ok::<ValueView, DiagnosticView>((#[trigger] carried[i]).value) by {
        assert(names_in(given)[k] == defs[i].name);
        lemma_position_from(names_in(given), defs[i].name, 0);
        assert(given_value(given, defs[i].name) == given[k].value);
        assert(values[i] == given[k].value);
        assert(coerced(ops, values[i], targets[i], spans[i]) == Ok::<ValueView, DiagnosticView>(
            taken[i],
        ));
    }
    assert(named_are_taken(ops, defs, given, targets, span, carried));
}

/// The functions among the first items.
pub open spec fn functions_among(items: Seq<ItemView>, count: nat) -> Seq<FunctionView>
    decreases count,
{
    if count == 0 || count > items.len() {
        Seq::empty()
    } else {
        let before = functions_among(items, (count - 1) as nat);
        match items[count - 1] {
            ItemView::Function(def) => before.push(def),
            _ => before,
        }
    }
}

/// The structs among the first items.
pub open spec fn structs_among(items: Seq<ItemView>, count: nat) -> Seq<StructView>
    decreases count,
{
    if count == 0 || count > items.len() {
        Seq::empty()
    } else {
        let before = structs_among(items, (count - 1) as nat);
        match items[count - 1] {
            ItemView::Struct(def) => before.push(def),
            _ => before,
        }
    }
}

/// The enums among the first items.
pub open spec fn enums_among(items: Seq<ItemView>, count: nat) -> Seq<EnumView>
    decreases count,
{
    if count == 0 || count > items.len() {
        Seq::empty()
    } else {
        let before = enums_among(items, (count - 1) as nat);
        match items[count - 1] {
            ItemView::Enum(def) => before.push(def),
            _ => before,
        }
    }
}

/// The traits among the first items.
pub open spec fn traits_among(items: Seq<ItemView>, count: nat) -> Seq<TraitView>
    decreases count,
{
    if count == 0 || count > items.len() {
        Seq::empty()
    } else {
        let before = traits_among(items, (count - 1) as nat);
        match items[count - 1] {
            ItemView::Trait(def) => before.push(def),
            _ => before,
        }
    }
}

/// The implementations of traits among the first items.
pub open spec fn trait_impls_among(items: Seq<ItemView>, count: nat) -> Seq<TraitImplView>
    decreases count,
{
    if count == 0 || count > items.len() {
        Seq::empty()
    } else {
        let before = trait_impls_among(items, (count - 1) as nat);
        match items[count - 1] {
            ItemView::Impl(def) => before.push(def),
            _ => before,
        }
    }
}

/// The implementations of types among the first items.
pub open spec fn inherent_impls_among(items: Seq<ItemView>, count: nat) -> Seq<InherentImplView>
    decreases count,
{
    if count == 0 || count > items.len() {
        Seq::empty()
    } else {
        let before = inherent_impls_among(items, (count - 1) as nat);
        match items[count - 1] {
            ItemView::InherentImpl(def) => before.push(def),
            _ => before,
        }
    }
}

/// What the items of a program declare is what stands among them of each kind, all of it
/// and in its order; the enums that every program has stand before its own.
pub proof fn law_declarations_are_the_items(items: Seq<ItemView>, count: nat)
    requires
        count <= items.len(),
    ensures
        declared_by(items, count) matches Ok(declared) ==> {
            &&& declared.functions == functions_among(items, count)
            &&& declared.structs == structs_among(items, count)
            &&& declared.enums == builtin_enums() + enums_among(items, count)
            &&& declared.traits == traits_among(items, count)
            &&& declared.trait_impls == trait_impls_among(items, count)
            &&& declared.inherent_impls == inherent_impls_among(items, count)
        },
    decreases count,
{
    if count > 0 {
        law_declarations_are_the_items(items, (count - 1) as nat);
        if let ItemView::Enum(def) = items[count - 1] {
            let before = enums_among(items, (count - 1) as nat);
            assert((builtin_enums() + before).push(def) =~= builtin_enums() + before.push(def));
        }
    } else {
        assert(builtin_enums() + enums_among(items, 0) =~= builtin_enums());
    }
}

/// Functions whose calls are resolved are the functions, in their order, but for their
/// bodies, and these are the bodies with their calls resolved.
pub proof fn law_resolved_functions_are_the_functions(
    functions: Seq<FunctionView>,
    count: nat,
    enums: Seq<EnumView>,
)
    requires
        count <= functions.len(),
    ensures
        resolved_functions(functions, count, enums) matches Ok(done) ==> done.len() == count && (
        forall|i: int|
            0 <= i < count ==> (#[trigger] done[i]) == (FunctionView {
                body: done[i].body,
                ..functions[i]
            }) && resolved_stmts(
                functions[i].body,
                functions[i].body.len() as int,
                enums,
            ) == Ok::<Seq<StmtNode>, DiagnosticView>(done[i].body)),
    decreases count,
{
    if count > 0 {
        law_resolved_functions_are_the_functions(functions, (count - 1) as nat, enums);
    }
}

/// The methods of the first types are among the functions, behind those that there were.
pub proof fn law_methods_of_types_are_among_the_functions(
    functions: Seq<FunctionView>,
    structs: Seq<StructView>,
    impls: Seq<InherentImplView>,
    count: nat,
)
    requires
        count <= impls.len(),
    ensures
        with_inherent_impls(functions, structs, impls, count) matches Ok(done) ==> {
            &&& functions.is_prefix_of(done)
            &&& forall|k: int, i: int|
                #![trigger impls[k].methods[i]]
                0 <= k < count && 0 <= i < impls[k].methods.len() ==> done.contains(
                    inherent_function(impls[k].methods[i], impls[k].for_type),
                )
        },
    decreases count,
{
    if count > 0 {
        law_methods_of_types_are_among_the_functions(
            functions,
            structs,
            impls,
            (count - 1) as nat,
        );
        if let Ok(done) = with_inherent_impls(functions, structs, impls, count) {
            let before = with_inherent_impls(functions, structs, impls, (count - 1) as nat)->Ok_0;
            let def = impls[count - 1];
            lemma_inherent(before, def.for_type, def.methods, def.methods.len());
            let added = Seq::new(
                def.methods.len(),
                |i: int| inherent_function(def.methods[i], def.for_type),
            );
            assert(done == before + added);
            assert forall|k: int, i: int|
                #![trigger impls[k].methods[i]]
                0 <= k < count && 0 <= i < impls[k].methods.len() implies done.contains(
                inherent_function(impls[k].methods[i], impls[k].for_type),
            ) by {
                let wanted = inherent_function(impls[k].methods[i], impls[k].for_type);
                if k < count - 1 {
                    assert(before.contains(wanted));
                    let at = choose|at: int| 0 <= at < before.len() && before[at] == wanted;
                    assert(done[at] == wanted);
                } else {
                    assert(done[before.len() + i] == wanted);
                }
            }
        }
    } else {
        assert(functions.is_prefix_of(functions));
    }
}

/// The methods of the first implementations of traits are among the functions, behind
/// those that there were.
pub proof fn law_methods_of_traits_are_among_the_functions(
    functions: Seq<FunctionView>,
    structs: Seq<StructView>,
    traits: Seq<TraitView>,
    impls: Seq<TraitImplView>,
    count: nat,
)
    requires
        count <= impls.len(),
    ensures
        with_trait_impls(functions, structs, traits, impls, count) matches Ok(done) ==> {
            &&& functions.is_prefix_of(done)
            &&& forall|k: int, i: int|
                #![trigger impls[k].methods[i]]
                0 <= k < count && 0 <= i < impls[k].methods.len() ==> done.contains(
                    trait_function(impls[k].methods[i], impls[k].for_type),
                )
        },
    decreases count,
{
    if count > 0 {
        law_methods_of_traits_are_among_the_functions(
            functions,
            structs,
            traits,
            impls,
            (count - 1) as nat,
        );
        if let Ok(done) = with_trait_impls(functions, structs, traits, impls, count) {
            let before = with_trait_impls(
                functions,
                structs,
                traits,
                impls,
                (count - 1) as nat,
            )->Ok_0;
            let def = impls[count - 1];
            let at = position_of(
                trait_names(traits),
                def.trait_name,
            )->0;
            lemma_trait_methods(before, traits[at], def.for_type, def.methods, def.methods.len());
            let added = Seq::new(
                def.methods.len(),
                |i: int| trait_function(def.methods[i], def.for_type),
            );
            assert(done == before + added);
            assert forall|k: int, i: int|
                #![trigger impls[k].methods[i]]
                0 <= k < count && 0 <= i < impls[k].methods.len() implies done.contains(
                trait_function(impls[k].methods[i], impls[k].for_type),
            ) by {
                let wanted = trait_function(impls[k].methods[i], impls[k].for_type);
                if k < count - 1 {
                    assert(before.contains(wanted));
                    let at = choose|at: int| 0 <= at < before.len() && before[at] == wanted;
                    assert(done[at] == wanted);
                } else {
                    assert(done[before.len() + i] == wanted);
                }
            }
        }
    } else {
        assert(functions.is_prefix_of(functions));
    }
}

/// What the rounds of a parallel loop lower to stands in the order of the rounds: that of
/// one behind that of those before it.
pub proof fn law_rounds_follow_each_other<O: ValueOperations>(
    ops: O,
    index: IndexView,
    threads: usize,
    calls: usize,
    name: Seq<char>,
    body: Seq<StmtNode>,
    rounds: Seq<ValueView>,
    from: int,
    before: Seq<StmtView>,
    state: StateView,
    span: Span,
    flow: FlowView,
    end: StateView,
)
    requires
        0 <= from < rounds.len(),
        stmts_ran(
            ops,
            index,
            threads,
            calls,
            body,
            0,
            round_start(ops, name, rounds[from], state),
        ) == (Ok::<FlowView, FailureView>(flow), end),
        parallel_problem(flow, span) is None,
    ensures
        rounds_ran(
            ops,
            index,
            threads,
            calls,
            name,
            body,
            rounds,
            from,
            before,
            state,
            span,
        ) == rounds_ran(
            ops,
            index,
            threads,
            calls,
            name,
            body,
            rounds,
            from + 1,
            before + end.lowered,
            state,
            span,
        ),
{
}

} // verus!
