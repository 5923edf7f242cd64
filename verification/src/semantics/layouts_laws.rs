//! What the layouts of structs promise: no struct holds itself, and a layout is
//! flat.

use crate::ast::{FieldView, Span, StructView, TypeView};
use crate::semantics::index::{LayoutFieldView, LayoutView};
use crate::semantics::layouts::{
    acyclic_at, acyclic_fields, acyclic_first, is_path, laid_out, layout_at, layout_names,
    layout_of_fields, layouts_first, layouts_of, lemma_path_grows, with_embedded,
};
use crate::semantics::names::{
    is_listed, lemma_is_listed, lemma_position_from, position_of, struct_names,
};
use crate::semantics::order::{law_sorted_names, sorted_names};
use vstd::prelude::*;

verus! {

/// Each declared struct that one of the first fields holds is listed.
pub open spec fn held_are_listed(
    structs: Seq<StructView>,
    fields: Seq<FieldView>,
    count: int,
    names: Seq<Seq<char>>,
) -> bool {
    forall|i: int|
        0 <= i < count && i < fields.len() ==> (match (#[trigger] fields[i]).ty {
            TypeView::Struct(child) => is_listed(struct_names(structs), child) ==> is_listed(
                names,
                child,
            ),
            _ => true,
        })
}

/// Each struct stands behind those that it holds.
pub open spec fn is_ranked(structs: Seq<StructView>, order: Seq<Seq<char>>) -> bool {
    forall|i: int|
        0 <= i < order.len() ==> (match position_of(struct_names(structs), #[trigger] order[i]) {
            Some(at) => held_are_listed(
                structs,
                structs[at].fields,
                structs[at].fields.len() as int,
                order.subrange(0, i),
            ),
            None => false,
        })
}

/// What is listed stays listed in a longer list.
proof fn lemma_listed_in_longer(names: Seq<Seq<char>>, longer: Seq<Seq<char>>, name: Seq<char>)
    requires
        names.is_prefix_of(longer),
        is_listed(names, name),
    ensures
        is_listed(longer, name),
        position_of(longer, name) == position_of(names, name),
{
    lemma_position_from(names, name, 0);
    lemma_position_from(longer, name, 0);
    let at = position_of(names, name)->0;
    assert(longer[at] == names[at]);
    let other = position_of(longer, name)->0;
    if other < at {
        assert(longer[other] == names[other]);
    }
}

/// Structs that are held stay listed in a longer list.
proof fn lemma_held_in_longer(
    structs: Seq<StructView>,
    fields: Seq<FieldView>,
    count: int,
    names: Seq<Seq<char>>,
    longer: Seq<Seq<char>>,
)
    requires
        held_are_listed(structs, fields, count, names),
        names.is_prefix_of(longer),
    ensures
        held_are_listed(structs, fields, count, longer),
{
    assert forall|i: int| 0 <= i < count && i < fields.len() implies (match (
    #[trigger] fields[i]).ty {
        TypeView::Struct(child) => is_listed(struct_names(structs), child) ==> is_listed(
            longer,
            child,
        ),
        _ => true,
    }) by {
        if let TypeView::Struct(child) = fields[i].ty {
            if is_listed(struct_names(structs), child) {
                lemma_listed_in_longer(names, longer, child);
            }
        }
    }
}

/// To follow a struct keeps the list ranked, and lists the struct.
proof fn lemma_ranked_at(
    structs: Seq<StructView>,
    name: Seq<char>,
    visiting: Seq<Seq<char>>,
    validated: Seq<Seq<char>>,
)
    requires
        is_path(structs, visiting),
        is_ranked(structs, validated),
    ensures
        acyclic_at(structs, name, visiting, validated) matches Ok(known) ==> is_ranked(
            structs,
            known,
        ) && validated.is_prefix_of(known) && (is_listed(struct_names(structs), name) ==> is_listed(
            known,
            name,
        )),
    decreases structs.len() - visiting.len(), 0int,
{
    if !is_listed(validated, name) && is_listed(struct_names(structs), name) && !is_listed(
        visiting,
        name,
    ) {
        lemma_path_grows(structs, visiting, name);
        let at = position_of(struct_names(structs), name)->0;
        let fields = structs[at].fields;
        let path = visiting.push(name);
        lemma_ranked_fields(structs, fields, fields.len() as int, path, validated);
        if let Ok(before) = acyclic_fields(structs, fields, fields.len() as int, path, validated) {
            let known = before.push(name);
            assert forall|i: int| 0 <= i < known.len() implies (match position_of(
                struct_names(structs),
                #[trigger] known[i],
            ) {
                Some(at) => held_are_listed(
                    structs,
                    structs[at].fields,
                    structs[at].fields.len() as int,
                    known.subrange(0, i),
                ),
                None => false,
            }) by {
                if i < before.len() {
                    assert(known[i] == before[i]);
                    assert(known.subrange(0, i) =~= before.subrange(0, i));
                } else {
                    assert(known.subrange(0, i) =~= before);
                }
            }
            assert(known[known.len() - 1] == name);
            lemma_is_listed(known, name);
        }
    }
}

/// To follow fields keeps the list ranked, and lists what they hold.
proof fn lemma_ranked_fields(
    structs: Seq<StructView>,
    fields: Seq<FieldView>,
    count: int,
    visiting: Seq<Seq<char>>,
    validated: Seq<Seq<char>>,
)
    requires
        is_path(structs, visiting),
        is_ranked(structs, validated),
        count <= fields.len(),
    ensures
        acyclic_fields(structs, fields, count, visiting, validated) matches Ok(known) ==> is_ranked(
            structs,
            known,
        ) && validated.is_prefix_of(known) && held_are_listed(structs, fields, count, known),
    decreases structs.len() - visiting.len(), 1 + count,
{
    if count > 0 {
        lemma_ranked_fields(structs, fields, count - 1, visiting, validated);
        if let Ok(before) = acyclic_fields(structs, fields, count - 1, visiting, validated) {
            if let TypeView::Struct(child) = fields[count - 1].ty {
                lemma_ranked_at(structs, child, visiting, before);
                if let Ok(known) = acyclic_at(structs, child, visiting, before) {
                    lemma_held_in_longer(structs, fields, count - 1, before, known);
                }
            }
        }
    }
}

/// To follow the first of some names keeps the list ranked, and lists them.
proof fn lemma_ranked_first(structs: Seq<StructView>, names: Seq<Seq<char>>, count: nat)
    requires
        count <= names.len(),
    ensures
        acyclic_first(structs, names, count) matches Ok(known) ==> is_ranked(structs, known) && (
        forall|i: int|
            0 <= i < count && is_listed(struct_names(structs), #[trigger] names[i]) ==> is_listed(
                known,
                names[i],
            )),
    decreases count,
{
    if count > 0 {
        let before = (count - 1) as nat;
        lemma_ranked_first(structs, names, before);
        if let Ok(earlier) = acyclic_first(structs, names, before) {
            lemma_ranked_at(structs, names[before as int], Seq::empty(), earlier);
            if let Ok(known) = acyclic_at(structs, names[before as int], Seq::empty(), earlier) {
                assert forall|i: int|
                    0 <= i < count && is_listed(
                        struct_names(structs),
                        #[trigger] names[i],
                    ) implies is_listed(known, names[i]) by {
                    if i < before {
                        lemma_listed_in_longer(earlier, known, names[i]);
                    }
                }
            }
        }
    }
}

/// No struct holds itself, directly or through others: where layouts are found,
/// the structs can be put in an order in which each stands behind those that it
/// holds.
pub proof fn law_no_struct_holds_itself(structs: Seq<StructView>) -> (order: Seq<Seq<char>>)
    requires
        layouts_of(structs) is Ok,
    ensures
        is_ranked(structs, order),
        forall|i: int| 0 <= i < structs.len() ==> is_listed(order, (#[trigger] structs[i]).name),
{
    let given = struct_names(structs);
    let names = sorted_names(given);
    lemma_ranked_first(structs, names, names.len());
    let order = acyclic_first(structs, names, names.len())->Ok_0;
    assert forall|i: int| 0 <= i < structs.len() implies is_listed(
        order,
        (#[trigger] structs[i]).name,
    ) by {
        assert(given[i] == structs[i].name);
        lemma_sorted_holds(given, structs[i].name);
        let k = choose|k: int| 0 <= k < names.len() && names[k] == structs[i].name;
        lemma_is_listed(given, names[k]);
    }
    order
}

/// The sorted names hold each name.
proof fn lemma_sorted_holds(names: Seq<Seq<char>>, name: Seq<char>)
    requires
        names.contains(name),
    ensures
        sorted_names(names).contains(name),
{
    broadcast use vstd::seq_lib::group_to_multiset_ensures;

    law_sorted_names(names);
    assert(names.to_multiset().count(name) > 0);
    assert(sorted_names(names).to_multiset().count(name) > 0);
}

/// The layout of the first fields: each field itself, or in the place of an
/// embedded one the layout of its struct.
pub open spec fn flat_fields(
    fields: Seq<FieldView>,
    count: int,
    layouts: Seq<LayoutView>,
) -> Seq<LayoutFieldView>
    decreases count,
{
    if count <= 0 || count > fields.len() {
        Seq::empty()
    } else {
        let field = fields[count - 1];
        flat_fields(fields, count - 1, layouts) + (if field.embedded {
            match field.ty {
                TypeView::Struct(child) => match position_of(laid_out(layouts), child) {
                    Some(at) => layouts[at].fields,
                    None => Seq::empty(),
                },
                _ => Seq::empty(),
            }
        } else {
            seq![LayoutFieldView { name: field.name, ty: field.ty }]
        })
    }
}

/// The type is a struct, and its name is listed.
pub open spec fn embeds_one_of(ty: TypeView, names: Seq<Seq<char>>) -> bool {
    match ty {
        TypeView::Struct(child) => is_listed(names, child),
        _ => false,
    }
}

/// Each embedded field among the first names a struct that has a layout.
pub open spec fn embeds_laid_out(
    fields: Seq<FieldView>,
    count: int,
    layouts: Seq<LayoutView>,
) -> bool {
    forall|i: int|
        0 <= i < count && i < fields.len() && (#[trigger] fields[i]).embedded
            ==> embeds_one_of(fields[i].ty, laid_out(layouts))
}

/// The layout is that of a declared struct, flat, and no name stands in it
/// twice.
pub open spec fn is_flat_layout(
    structs: Seq<StructView>,
    layout: LayoutView,
    layouts: Seq<LayoutView>,
) -> bool {
    match position_of(struct_names(structs), layout.name) {
        Some(at) => {
            let fields = structs[at].fields;
            &&& embeds_laid_out(fields, fields.len() as int, layouts)
            &&& layout.fields == flat_fields(fields, fields.len() as int, layouts)
            &&& layout_names(layout.fields).no_duplicates()
        },
        None => false,
    }
}

/// All layouts are flat.
pub open spec fn are_flat(structs: Seq<StructView>, layouts: Seq<LayoutView>) -> bool {
    forall|i: int|
        0 <= i < layouts.len() ==> is_flat_layout(structs, #[trigger] layouts[i], layouts)
}

/// What is laid out stays so among more layouts.
proof fn lemma_laid_out_longer(
    layouts: Seq<LayoutView>,
    longer: Seq<LayoutView>,
    name: Seq<char>,
)
    requires
        layouts.is_prefix_of(longer),
        is_listed(laid_out(layouts), name),
    ensures
        position_of(laid_out(longer), name) == position_of(laid_out(layouts), name),
        longer[position_of(laid_out(layouts), name)->0] == layouts[position_of(
            laid_out(layouts),
            name,
        )->0],
{
    assert(laid_out(layouts) =~= laid_out(longer).subrange(0, layouts.len() as int)) by {
        assert forall|i: int| 0 <= i < layouts.len() implies laid_out(layouts)[i] == laid_out(
            longer,
        )[i] by {
            assert(longer.subrange(0, layouts.len() as int)[i] == longer[i]);
        }
    }
    lemma_position_from(laid_out(layouts), name, 0);
    lemma_listed_in_longer(laid_out(layouts), laid_out(longer), name);
    let at = position_of(laid_out(layouts), name)->0;
    assert(longer.subrange(0, layouts.len() as int)[at] == longer[at]);
}

/// A flat layout stays flat among more layouts.
proof fn lemma_flat_longer(
    fields: Seq<FieldView>,
    count: int,
    layouts: Seq<LayoutView>,
    longer: Seq<LayoutView>,
)
    requires
        layouts.is_prefix_of(longer),
        embeds_laid_out(fields, count, layouts),
    ensures
        embeds_laid_out(fields, count, longer),
        flat_fields(fields, count, longer) == flat_fields(fields, count, layouts),
    decreases count,
{
    assert forall|i: int|
        0 <= i < count && i < fields.len() && (
        #[trigger] fields[i]).embedded implies embeds_one_of(fields[i].ty, laid_out(longer)) by {
        if let TypeView::Struct(child) = fields[i].ty {
            lemma_laid_out_longer(layouts, longer, child);
        }
    }
    if 0 < count <= fields.len() {
        lemma_flat_longer(fields, count - 1, layouts, longer);
        if fields[count - 1].embedded {
            if let TypeView::Struct(child) = fields[count - 1].ty {
                lemma_laid_out_longer(layouts, longer, child);
            }
        }
    }
}

/// All stay flat with one more flat layout behind them.
proof fn lemma_flat_push(structs: Seq<StructView>, layouts: Seq<LayoutView>, layout: LayoutView)
    requires
        are_flat(structs, layouts),
        is_flat_layout(structs, layout, layouts),
    ensures
        are_flat(structs, layouts.push(layout)),
{
    let longer = layouts.push(layout);
    assert(layouts.is_prefix_of(longer));
    assert forall|i: int| 0 <= i < longer.len() implies is_flat_layout(
        structs,
        #[trigger] longer[i],
        longer,
    ) by {
        if i < layouts.len() {
            assert(longer[i] == layouts[i]);
            assert(is_flat_layout(structs, layouts[i], layouts));
        }
        let at = position_of(struct_names(structs), longer[i].name)->0;
        let fields = structs[at].fields;
        lemma_flat_longer(fields, fields.len() as int, layouts, longer);
    }
}

/// The fields of an embedded struct come behind those before, and bring no name
/// a second time.
proof fn lemma_with_embedded_flat(
    fields: Seq<LayoutFieldView>,
    embedded: Seq<LayoutFieldView>,
    count: nat,
    name: Seq<char>,
    span: Span,
)
    requires
        layout_names(fields).no_duplicates(),
        count <= embedded.len(),
    ensures
        with_embedded(fields, embedded, count, name, span) matches Ok(done) ==> done == fields
            + embedded.subrange(0, count as int) && layout_names(done).no_duplicates(),
    decreases count,
{
    if count == 0 {
        assert(fields + embedded.subrange(0, 0) =~= fields);
    } else {
        let before = (count - 1) as nat;
        lemma_with_embedded_flat(fields, embedded, before, name, span);
        if let Ok(done) = with_embedded(fields, embedded, before, name, span) {
            let field = embedded[before as int];
            if !is_listed(layout_names(done), field.name) {
                lemma_push_name(done, field);
            }
            assert((fields + embedded.subrange(0, before as int)).push(field) =~= fields
                + embedded.subrange(0, count as int));
        }
    }
}

/// A field of a new name leaves no name twice.
proof fn lemma_push_name(fields: Seq<LayoutFieldView>, field: LayoutFieldView)
    requires
        layout_names(fields).no_duplicates(),
        !is_listed(layout_names(fields), field.name),
    ensures
        layout_names(fields.push(field)).no_duplicates(),
{
    let names = layout_names(fields);
    lemma_is_listed(names, field.name);
    assert(layout_names(fields.push(field)) =~= names.push(field.name));
    assert forall|i: int, j: int|
        0 <= i < j < names.push(field.name).len() implies #[trigger] names.push(field.name)[i]
        != #[trigger] names.push(field.name)[j] by {
        if j == names.len() {
            assert(names.contains(names[i]));
        }
    }
}

/// None of the structs on the way has a layout yet.
spec fn path_is_open(visiting: Seq<Seq<char>>, layouts: Seq<LayoutView>) -> bool {
    forall|i: int|
        0 <= i < visiting.len() ==> !is_listed(laid_out(layouts), #[trigger] visiting[i])
}

/// A new layout of another struct leaves the way open.
proof fn lemma_open_push(
    visiting: Seq<Seq<char>>,
    layouts: Seq<LayoutView>,
    layout: LayoutView,
)
    requires
        path_is_open(visiting, layouts),
        !is_listed(visiting, layout.name),
    ensures
        path_is_open(visiting, layouts.push(layout)),
{
    let longer = layouts.push(layout);
    assert(laid_out(longer) =~= laid_out(layouts).push(layout.name));
    lemma_is_listed(visiting, layout.name);
    assert forall|i: int| 0 <= i < visiting.len() implies !is_listed(
        laid_out(longer),
        #[trigger] visiting[i],
    ) by {
        lemma_is_listed(laid_out(layouts), visiting[i]);
        lemma_is_listed(laid_out(longer), visiting[i]);
        if laid_out(longer).contains(visiting[i]) {
            let k = choose|k: int| 0 <= k < laid_out(longer).len() && laid_out(longer)[k]
                == visiting[i];
            if k < layouts.len() {
                assert(laid_out(layouts)[k] == visiting[i]);
            } else {
                assert(visiting.contains(layout.name));
            }
        }
    }
}

/// The layout of a struct keeps all flat, and is among those known then.
proof fn lemma_flat_at(
    structs: Seq<StructView>,
    name: Seq<char>,
    visiting: Seq<Seq<char>>,
    layouts: Seq<LayoutView>,
)
    requires
        are_flat(structs, layouts),
        path_is_open(visiting, layouts),
    ensures
        layout_at(structs, name, visiting, layouts) matches Ok((fields, known)) ==> are_flat(
            structs,
            known,
        ) && layouts.is_prefix_of(known) && path_is_open(visiting, known) && (match position_of(
            laid_out(known),
            name,
        ) {
            Some(at) => known[at].fields == fields,
            None => false,
        }),
    decreases structs.len() - visiting.len(), 0int,
{
    if !is_listed(laid_out(layouts), name) && is_listed(struct_names(structs), name) && !is_listed(
        visiting,
        name,
    ) && visiting.len() < structs.len() {
        let at = position_of(struct_names(structs), name)->0;
        let fields = structs[at].fields;
        let path = visiting.push(name);
        assert(path_is_open(path, layouts));
        lemma_flat_fields(structs, name, fields, fields.len() as int, path, layouts);
        if let Ok((done, before)) = layout_of_fields(
            structs,
            name,
            fields,
            fields.len() as int,
            path,
            layouts,
        ) {
            let layout = LayoutView { name, fields: done };
            let known = before.push(layout);
            assert forall|i: int| 0 <= i < visiting.len() implies !is_listed(
                laid_out(before),
                #[trigger] visiting[i],
            ) by {
                assert(path[i] == visiting[i]);
            }
            assert(path[visiting.len() as int] == name);
            lemma_flat_push(structs, before, layout);
            lemma_open_push(visiting, before, layout);
            lemma_position_from(laid_out(before), name, 0);
            lemma_position_from(laid_out(known), name, 0);
            assert(laid_out(known)[before.len() as int] == name);
            let place = position_of(laid_out(known), name)->0;
            if place < before.len() {
                assert(laid_out(before)[place] == laid_out(known)[place]);
            }
        }
    }
}

/// The layout of the first fields keeps all flat, and is flat itself.
proof fn lemma_flat_fields(
    structs: Seq<StructView>,
    name: Seq<char>,
    fields: Seq<FieldView>,
    count: int,
    visiting: Seq<Seq<char>>,
    layouts: Seq<LayoutView>,
)
    requires
        are_flat(structs, layouts),
        path_is_open(visiting, layouts),
        count <= fields.len(),
    ensures
        layout_of_fields(structs, name, fields, count, visiting, layouts) matches Ok((done, known))
            ==> are_flat(structs, known) && layouts.is_prefix_of(known) && path_is_open(
            visiting,
            known,
        ) && embeds_laid_out(fields, count, known) && done == flat_fields(fields, count, known)
            && layout_names(done).no_duplicates(),
    decreases structs.len() - visiting.len(), 1 + count,
{
    if count > 0 {
        lemma_flat_fields(structs, name, fields, count - 1, visiting, layouts);
        if let Ok((done, before)) = layout_of_fields(
            structs,
            name,
            fields,
            count - 1,
            visiting,
            layouts,
        ) {
            let field = fields[count - 1];
            if field.embedded {
                if let TypeView::Struct(child) = field.ty {
                    lemma_flat_at(structs, child, visiting, before);
                    if let Ok((embedded, known)) = layout_at(structs, child, visiting, before) {
                        lemma_with_embedded_flat(done, embedded, embedded.len(), name, field.span);
                        assert(embedded.subrange(0, embedded.len() as int) =~= embedded);
                        lemma_flat_longer(fields, count - 1, before, known);
                    }
                }
            } else {
                let new = LayoutFieldView { name: field.name, ty: field.ty };
                if !is_listed(layout_names(done), field.name) {
                    lemma_push_name(done, new);
                    assert(done.push(new) =~= done + seq![new]);
                }
            }
        }
    }
}

/// The layouts of the first of some names are flat.
proof fn lemma_flat_first(structs: Seq<StructView>, names: Seq<Seq<char>>, count: nat)
    requires
        count <= names.len(),
    ensures
        layouts_first(structs, names, count) matches Ok(known) ==> are_flat(structs, known) && (
        forall|i: int| 0 <= i < count ==> is_listed(laid_out(known), #[trigger] names[i])),
    decreases count,
{
    if count > 0 {
        let before = (count - 1) as nat;
        lemma_flat_first(structs, names, before);
        if let Ok(earlier) = layouts_first(structs, names, before) {
            lemma_flat_at(structs, names[before as int], Seq::empty(), earlier);
            if let Ok(
                (_, known),
            ) = layout_at(structs, names[before as int], Seq::empty(), earlier) {
                assert forall|i: int| 0 <= i < count implies is_listed(
                    laid_out(known),
                    #[trigger] names[i],
                ) by {
                    if i < before {
                        lemma_laid_out_longer(earlier, known, names[i]);
                    }
                }
            }
        }
    }
}

/// Layouts are flat: each struct has one, which holds each of its fields, or in
/// the place of an embedded one the layout of that struct, and no name twice.
pub proof fn law_layouts_are_flat(structs: Seq<StructView>)
    ensures
        layouts_of(structs) matches Ok(layouts) ==> are_flat(structs, layouts) && (forall|i: int|
            0 <= i < structs.len() ==> is_listed(
                laid_out(layouts),
                (#[trigger] structs[i]).name,
            )),
{
    if let Ok(layouts) = layouts_of(structs) {
        let given = struct_names(structs);
        let names = sorted_names(given);
        lemma_flat_first(structs, names, names.len());
        assert forall|i: int| 0 <= i < structs.len() implies is_listed(
            laid_out(layouts),
            (#[trigger] structs[i]).name,
        ) by {
            assert(given[i] == structs[i].name);
            lemma_sorted_holds(given, structs[i].name);
            let k = choose|k: int| 0 <= k < names.len() && names[k] == structs[i].name;
            assert(is_listed(laid_out(layouts), names[k]));
        }
    }
}

} // verus!
