//! What the type parameters of a generic type are found to stand for is what makes it the
//! type that was seen.

use crate::ast::{Span, TypeView};
use crate::semantics::generics::{all_instantiated, inferred_by, inferred_by_all, instantiated};
use crate::semantics::names::is_listed;
use vstd::prelude::*;

verus! {

/// What one map says the other says too.
pub open spec fn is_part_of(
    part: Map<Seq<char>, TypeView>,
    whole: Map<Seq<char>, TypeView>,
) -> bool {
    forall|name: Seq<char>| #[trigger]
        part.contains_key(name) ==> whole.contains_key(name) && whole[name] == part[name]
}

/// A type is as it was where nothing is put in.
pub proof fn law_nothing_put_in_changes_nothing(ty: TypeView)
    ensures
        instantiated(ty, Map::empty()) == ty,
    decreases ty, 0int,
{
    match ty {
        TypeView::Applied { args, .. } => {
            lemma_nothing_put_in(args);
        },
        TypeView::Array { elem, .. } | TypeView::List { elem } => {
            law_nothing_put_in_changes_nothing(*elem);
        },
        TypeView::Dict { key, value } | TypeView::Mapping { key, value } => {
            law_nothing_put_in_changes_nothing(*key);
            law_nothing_put_in_changes_nothing(*value);
        },
        TypeView::Ref { inner, .. } => {
            law_nothing_put_in_changes_nothing(*inner);
        },
        _ => {},
    }
}

/// The same of types in a list.
proof fn lemma_nothing_put_in(list: Seq<TypeView>)
    ensures
        all_instantiated(list, Map::empty()) == list,
    decreases list, 0int,
{
    assert forall|i: int| 0 <= i < list.len() implies all_instantiated(
        list,
        Map::empty(),
    )[i] == list[i] by {
        law_nothing_put_in_changes_nothing(list[i]);
    }
    assert(all_instantiated(list, Map::empty()) =~= list);
}

/// What is put in everywhere by a part is so by what lies between it and the whole.
proof fn lemma_between(
    ty: TypeView,
    part: Map<Seq<char>, TypeView>,
    more: Map<Seq<char>, TypeView>,
    whole: Map<Seq<char>, TypeView>,
)
    requires
        is_part_of(part, more),
        is_part_of(more, whole),
        instantiated(ty, part) == instantiated(ty, whole),
    ensures
        instantiated(ty, more) == instantiated(ty, whole),
    decreases ty, 0int,
{
    match ty {
        TypeView::Applied { args, .. } => {
            lemma_all_between(args, part, more, whole);
        },
        TypeView::Array { elem, .. } | TypeView::List { elem } => {
            lemma_between(*elem, part, more, whole);
        },
        TypeView::Dict { key, value } | TypeView::Mapping { key, value } => {
            lemma_between(*key, part, more, whole);
            lemma_between(*value, part, more, whole);
        },
        TypeView::Ref { inner, .. } => {
            lemma_between(*inner, part, more, whole);
        },
        _ => {},
    }
}

/// The same of types in a list.
proof fn lemma_all_between(
    list: Seq<TypeView>,
    part: Map<Seq<char>, TypeView>,
    more: Map<Seq<char>, TypeView>,
    whole: Map<Seq<char>, TypeView>,
)
    requires
        is_part_of(part, more),
        is_part_of(more, whole),
        all_instantiated(list, part) == all_instantiated(list, whole),
    ensures
        all_instantiated(list, more) == all_instantiated(list, whole),
    decreases list, 0int,
{
    assert forall|i: int| 0 <= i < list.len() implies all_instantiated(list, more)[i]
        == all_instantiated(list, whole)[i] by {
        assert(all_instantiated(list, part)[i] == all_instantiated(list, whole)[i]);
        lemma_between(list[i], part, more, whole);
    }
    assert(all_instantiated(list, more) =~= all_instantiated(list, whole));
}

/// A meaning of type parameters: each stands for a type that is known.
pub open spec fn is_meaning(
    params: Seq<Seq<char>>,
    meaning: Map<Seq<char>, TypeView>,
) -> bool {
    &&& forall|name: Seq<char>| #[trigger] meaning.contains_key(name) <==> is_listed(params, name)
    &&& forall|name: Seq<char>| #[trigger]
        meaning.contains_key(name) ==> meaning[name] != TypeView::Struct("_"@)
}

/// From a type that a generic one becomes with a meaning of its parameters, inference
/// finds nothing against that meaning, and enough of it to make the generic type that
/// type again. What was known stays.
pub proof fn law_inference_finds_the_meaning(
    template: TypeView,
    params: Seq<Seq<char>>,
    meaning: Map<Seq<char>, TypeView>,
    known: Map<Seq<char>, TypeView>,
    span: Span,
)
    requires
        is_meaning(params, meaning),
        is_part_of(known, meaning),
    ensures
        inferred_by(
            template,
            instantiated(template, meaning),
            params,
            known,
            span,
        ) matches Ok(found)
            && is_part_of(known, found) && is_part_of(found, meaning) && instantiated(
            template,
            found,
        ) == instantiated(template, meaning),
    decreases template, 0int,
{
    match template {
        TypeView::Applied { args, .. } => {
            lemma_all_found(args, args.len() as int, params, meaning, known, span);
            let actual = all_instantiated(args, meaning);
            let found = inferred_by_all(args, actual, args.len() as int, params, known, span)->Ok_0;
            assert forall|i: int| 0 <= i < args.len() implies all_instantiated(args, found)[i]
                == actual[i] by {
                assert(instantiated(args[i], found) == instantiated(args[i], meaning));
            }
            assert(all_instantiated(args, found) =~= actual);
        },
        TypeView::Array { elem, .. } | TypeView::List { elem } => {
            law_inference_finds_the_meaning(*elem, params, meaning, known, span);
        },
        TypeView::Dict { key, value } | TypeView::Mapping { key, value } => {
            law_inference_finds_the_meaning(*key, params, meaning, known, span);
            let more = inferred_by(
                *key,
                instantiated(*key, meaning),
                params,
                known,
                span,
            )->Ok_0;
            law_inference_finds_the_meaning(*value, params, meaning, more, span);
            let found = inferred_by(
                *value,
                instantiated(*value, meaning),
                params,
                more,
                span,
            )->Ok_0;
            lemma_between(*key, more, found, meaning);
        },
        TypeView::Ref { inner, .. } => {
            law_inference_finds_the_meaning(*inner, params, meaning, known, span);
        },
        _ => {},
    }
}

/// The same of the first types of a list.
proof fn lemma_all_found(
    templates: Seq<TypeView>,
    count: int,
    params: Seq<Seq<char>>,
    meaning: Map<Seq<char>, TypeView>,
    known: Map<Seq<char>, TypeView>,
    span: Span,
)
    requires
        0 <= count <= templates.len(),
        is_meaning(params, meaning),
        is_part_of(known, meaning),
    ensures
        inferred_by_all(
            templates,
            all_instantiated(templates, meaning),
            count,
            params,
            known,
            span,
        ) matches Ok(found) && is_part_of(known, found) && is_part_of(found, meaning) && (forall|
            i: int,
        |
            0 <= i < count ==> instantiated(#[trigger] templates[i], found) == instantiated(
                templates[i],
                meaning,
            )),
    decreases templates, count,
{
    if count > 0 {
        let actuals = all_instantiated(templates, meaning);
        lemma_all_found(templates, count - 1, params, meaning, known, span);
        let more = inferred_by_all(templates, actuals, count - 1, params, known, span)->Ok_0;
        law_inference_finds_the_meaning(templates[count - 1], params, meaning, more, span);
        assert(actuals[count - 1] == instantiated(templates[count - 1], meaning));
        let found = inferred_by(
            templates[count - 1],
            actuals[count - 1],
            params,
            more,
            span,
        )->Ok_0;
        assert forall|i: int| 0 <= i < count implies instantiated(#[trigger] templates[i], found)
            == instantiated(templates[i], meaning) by {
            if i < count - 1 {
                lemma_between(templates[i], more, found, meaning);
            }
        }
    }
}

} // verus!
