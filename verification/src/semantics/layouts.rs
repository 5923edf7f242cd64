//! The layouts of structs: that no struct holds itself, and which fields each
//! has once the embedded ones stand in their place.

use crate::ast::{
    fields_view, texts_view, FieldView, Span, StructDef, StructView, TypeName, TypeView,
};
use crate::copy::copy_type;
use crate::diagnostic::{message_at, message_at_span, Diagnostic, DiagnosticView};
use crate::semantics::index::{
    layout_fields_view, layouts_view, LayoutField, LayoutFieldView, LayoutView, StructLayout,
};
use crate::semantics::names::{
    find_struct, find_text, is_listed, lemma_is_listed, position_from, position_of, struct_names,
    structs_view,
};
use crate::semantics::order::{sort_names, sorted_names};
use crate::text::{join_texts, joined};
use vstd::prelude::*;

verus! {

/// What is said of structs that hold one another.
pub open spec fn recursive_layout(cycle: Seq<Seq<char>>) -> Seq<char> {
    "recursive resource layout is not allowed: "@ + joined(cycle, " -> "@, cycle.len())
}

/// The structs that are known to hold no cycle once the one of that name has
/// been followed, where those in `visiting` hold it and those in `validated`
/// were known before. Each stands behind those that it holds. No struct is
/// visited twice, so there are never more in `visiting` than there are structs.
pub open spec fn acyclic_at(
    structs: Seq<StructView>,
    name: Seq<char>,
    visiting: Seq<Seq<char>>,
    validated: Seq<Seq<char>>,
) -> Result<Seq<Seq<char>>, DiagnosticView>
    decreases structs.len() - visiting.len(), 0int,
{
    if is_listed(validated, name) {
        Ok(validated)
    } else {
        match position_of(struct_names(structs), name) {
            None => Ok(validated),
            Some(at) => match position_of(visiting, name) {
                Some(start) => Err(
                    message_at_span(
                        recursive_layout(
                            visiting.subrange(start, visiting.len() as int).push(name),
                        ),
                        structs[at].span,
                    ),
                ),
                None => if visiting.len() >= structs.len() {
                    Ok(validated)
                } else {
                    let fields = structs[at].fields;
                    match acyclic_fields(
                        structs,
                        fields,
                        fields.len() as int,
                        visiting.push(name),
                        validated,
                    ) {
                        Err(error) => Err(error),
                        Ok(known) => Ok(known.push(name)),
                    }
                },
            },
        }
    }
}

/// The same once the first of some fields have been followed.
pub open spec fn acyclic_fields(
    structs: Seq<StructView>,
    fields: Seq<FieldView>,
    count: int,
    visiting: Seq<Seq<char>>,
    validated: Seq<Seq<char>>,
) -> Result<Seq<Seq<char>>, DiagnosticView>
    decreases structs.len() - visiting.len(), 1 + count,
{
    if count <= 0 || count > fields.len() {
        Ok(validated)
    } else {
        match acyclic_fields(structs, fields, count - 1, visiting, validated) {
            Err(error) => Err(error),
            Ok(known) => match fields[count - 1].ty {
                TypeView::Struct(child) => acyclic_at(structs, child, visiting, known),
                _ => Ok(known),
            },
        }
    }
}

/// The same once the structs of the first of some names have been followed.
pub open spec fn acyclic_first(
    structs: Seq<StructView>,
    names: Seq<Seq<char>>,
    count: nat,
) -> Result<Seq<Seq<char>>, DiagnosticView>
    decreases count,
{
    if count == 0 || count > names.len() {
        Ok(Seq::empty())
    } else {
        match acyclic_first(structs, names, (count - 1) as nat) {
            Err(error) => Err(error),
            Ok(known) => acyclic_at(structs, names[count - 1], Seq::empty(), known),
        }
    }
}

/// The names of the fields of a layout.
pub open spec fn layout_names(fields: Seq<LayoutFieldView>) -> Seq<Seq<char>> {
    Seq::new(fields.len(), |i: int| fields[i].name)
}

/// The names of the structs that have a layout.
pub open spec fn laid_out(layouts: Seq<LayoutView>) -> Seq<Seq<char>> {
    Seq::new(layouts.len(), |i: int| layouts[i].name)
}

/// What is said of an embedded struct that is not declared.
pub open spec fn unknown_embedded(name: Seq<char>) -> Seq<char> {
    "unknown struct '"@ + name + "' in embedded layout"@
}

/// What is said of structs that embed one another.
pub open spec fn cyclic_embedding(name: Seq<char>) -> Seq<char> {
    "cyclic struct embedding detected for '"@ + name + "'"@
}

/// What is said of a field that an embedded struct brings a second time.
pub open spec fn embedded_collision(field: Seq<char>, name: Seq<char>) -> Seq<char> {
    "embedded field '"@ + field + "' collides in struct '"@ + name + "'"@
}

/// What is said of a field that a struct declares a second time.
pub open spec fn duplicate_field(field: Seq<char>, name: Seq<char>) -> Seq<char> {
    "duplicate field '"@ + field + "' in struct '"@ + name + "'"@
}

/// A layout with the first of the fields of an embedded struct behind it, unless
/// a name would stand twice.
pub open spec fn with_embedded(
    fields: Seq<LayoutFieldView>,
    embedded: Seq<LayoutFieldView>,
    count: nat,
    name: Seq<char>,
    span: Span,
) -> Result<Seq<LayoutFieldView>, DiagnosticView>
    decreases count,
{
    if count == 0 || count > embedded.len() {
        Ok(fields)
    } else {
        match with_embedded(fields, embedded, (count - 1) as nat, name, span) {
            Err(error) => Err(error),
            Ok(done) => {
                let field = embedded[count - 1];
                if is_listed(layout_names(done), field.name) {
                    Err(message_at_span(embedded_collision(field.name, name), span))
                } else {
                    Ok(done.push(field))
                }
            },
        }
    }
}

/// The fields of the struct of that name, and the layouts that are known then,
/// where those in `visiting` embed it.
pub open spec fn layout_at(
    structs: Seq<StructView>,
    name: Seq<char>,
    visiting: Seq<Seq<char>>,
    layouts: Seq<LayoutView>,
) -> Result<(Seq<LayoutFieldView>, Seq<LayoutView>), DiagnosticView>
    decreases structs.len() - visiting.len(), 0int,
{
    match position_of(laid_out(layouts), name) {
        Some(at) => Ok((layouts[at].fields, layouts)),
        None => match position_of(struct_names(structs), name) {
            None => Err(message_at(unknown_embedded(name), 0, 0)),
            Some(at) => if is_listed(visiting, name) || visiting.len() >= structs.len() {
                Err(message_at_span(cyclic_embedding(name), structs[at].span))
            } else {
                let fields = structs[at].fields;
                match layout_of_fields(
                    structs,
                    name,
                    fields,
                    fields.len() as int,
                    visiting.push(name),
                    layouts,
                ) {
                    Err(error) => Err(error),
                    Ok((done, known)) => Ok((done, known.push(LayoutView { name, fields: done }))),
                }
            },
        },
    }
}

/// The layout of the first fields of a struct, and the layouts that are known
/// then.
pub open spec fn layout_of_fields(
    structs: Seq<StructView>,
    name: Seq<char>,
    fields: Seq<FieldView>,
    count: int,
    visiting: Seq<Seq<char>>,
    layouts: Seq<LayoutView>,
) -> Result<(Seq<LayoutFieldView>, Seq<LayoutView>), DiagnosticView>
    decreases structs.len() - visiting.len(), 1 + count,
{
    if count <= 0 || count > fields.len() {
        Ok((Seq::empty(), layouts))
    } else {
        match layout_of_fields(structs, name, fields, count - 1, visiting, layouts) {
            Err(error) => Err(error),
            Ok((done, known)) => {
                let field = fields[count - 1];
                if field.embedded {
                    match field.ty {
                        TypeView::Struct(child) => match layout_at(
                            structs,
                            child,
                            visiting,
                            known,
                        ) {
                            Err(error) => Err(error),
                            Ok((embedded, known)) => match with_embedded(
                                done,
                                embedded,
                                embedded.len(),
                                name,
                                field.span,
                            ) {
                                Err(error) => Err(error),
                                Ok(done) => Ok((done, known)),
                            },
                        },
                        _ => Err(
                            message_at_span(
                                "embedded field must reference a struct type"@,
                                field.span,
                            ),
                        ),
                    }
                } else if is_listed(layout_names(done), field.name) {
                    Err(message_at_span(duplicate_field(field.name, name), field.span))
                } else {
                    Ok((done.push(LayoutFieldView { name: field.name, ty: field.ty }), known))
                }
            },
        }
    }
}

/// The layouts that are known once those of the first of some names are.
pub open spec fn layouts_first(
    structs: Seq<StructView>,
    names: Seq<Seq<char>>,
    count: nat,
) -> Result<Seq<LayoutView>, DiagnosticView>
    decreases count,
{
    if count == 0 || count > names.len() {
        Ok(Seq::empty())
    } else {
        match layouts_first(structs, names, (count - 1) as nat) {
            Err(error) => Err(error),
            Ok(known) => match layout_at(structs, names[count - 1], Seq::empty(), known) {
                Err(error) => Err(error),
                Ok((_, known)) => Ok(known),
            },
        }
    }
}

/// The layouts of structs. The structs are followed in the order of their
/// names, first for cycles and then for their layouts.
pub open spec fn layouts_of(structs: Seq<StructView>) -> Result<Seq<LayoutView>, DiagnosticView> {
    let names = sorted_names(struct_names(structs));
    match acyclic_first(structs, names, names.len()) {
        Err(error) => Err(error),
        Ok(_) => layouts_first(structs, names, names.len()),
    }
}

/// The structs that are being followed: each is declared, and none stands twice.
pub open spec fn is_path(structs: Seq<StructView>, visiting: Seq<Seq<char>>) -> bool {
    visiting.no_duplicates() && forall|i: int|
        0 <= i < visiting.len() ==> struct_names(structs).contains(#[trigger] visiting[i])
}

/// A struct that is declared and not being followed can be followed: there are
/// fewer on the way than structs.
pub proof fn lemma_path_grows(structs: Seq<StructView>, visiting: Seq<Seq<char>>, name: Seq<char>)
    requires
        is_path(structs, visiting),
        is_listed(struct_names(structs), name),
        !is_listed(visiting, name),
    ensures
        is_path(structs, visiting.push(name)),
        visiting.len() < structs.len(),
{
    let names = struct_names(structs);
    let longer = visiting.push(name);
    lemma_is_listed(names, name);
    lemma_is_listed(visiting, name);
    assert(longer.no_duplicates());
    longer.unique_seq_to_set();
    names.lemma_cardinality_of_set();
    assert(longer.to_set().subset_of(names.to_set())) by {
        assert forall|x: Seq<char>| longer.to_set().contains(x) implies names.to_set().contains(
            x,
        ) by {
            let i = choose|i: int| 0 <= i < longer.len() && longer[i] == x;
            if i < visiting.len() {
                assert(longer[i] == visiting[i]);
            }
        }
    }
    vstd::set_lib::lemma_len_subset(longer.to_set(), names.to_set());
}

/// Names from a position on, and one more.
fn cycle_from(visiting: &Vec<String>, start: usize, name: &String) -> (cycle: Vec<String>)
    requires
        start < visiting@.len(),
    ensures
        texts_view(cycle@) == texts_view(visiting@).subrange(
            start as int,
            visiting@.len() as int,
        ).push(name@),
{
    let mut cycle: Vec<String> = Vec::new();
    for i in start..visiting.len()
        invariant
            start < visiting@.len(),
            cycle@.len() == i - start,
            forall|j: int| 0 <= j < i - start ==> (#[trigger] cycle@[j])@ == visiting@[start + j]@,
    {
        cycle.push(visiting[i].clone());
    }
    cycle.push(name.clone());
    assert(texts_view(cycle@) =~= texts_view(visiting@).subrange(
        start as int,
        visiting@.len() as int,
    ).push(name@));
    cycle
}

/// Follows the struct of that name, and fails where it is held by itself.
pub fn validate_inline_acyclic(
    name: &String,
    structs: &Vec<StructDef>,
    visiting: &mut Vec<String>,
    validated: Vec<String>,
) -> (done: Result<Vec<String>, Diagnostic>)
    requires
        is_path(structs_view(structs@), texts_view(old(visiting)@)),
    ensures
        texts_view(final(visiting)@) == texts_view(old(visiting)@),
        match acyclic_at(
            structs_view(structs@),
            name@,
            texts_view(old(visiting)@),
            texts_view(validated@),
        ) {
            Ok(expected) => done matches Ok(known) && texts_view(known@) == expected,
            Err(error) => done matches Err(found) && found@ == error,
        },
    decreases structs@.len() - old(visiting)@.len(),
{
    let ghost defs = structs_view(structs@);
    let ghost path = texts_view(visiting@);
    let ghost before = texts_view(validated@);
    if find_text(&validated, name).is_some() {
        return Ok(validated);
    }
    let at: usize = match find_struct(structs, name) {
        Some(at) => at,
        None => {
            return Ok(validated);
        },
    };
    assert(defs[at as int] == structs@[at as int]@);
    if let Some(start) = find_text(visiting, name) {
        let mut message = String::from_str("recursive resource layout is not allowed: ");
        let cycle = cycle_from(visiting, start, name);
        assert(texts_view(cycle@).len() == cycle@.len());
        message.append(join_texts(&cycle, " -> ").as_str());
        return Err(Diagnostic::at_span(message, structs[at].span));
    }
    proof {
        lemma_path_grows(defs, path, name@);
    }
    visiting.push(name.clone());
    assert(texts_view(visiting@) =~= path.push(name@));
    let fields = &structs[at].fields;
    let ghost all = fields_view(fields@);
    let mut known = validated;
    for i in 0..fields.len()
        invariant
            defs == structs_view(structs@),
            all == fields_view(fields@),
            all == defs[at as int].fields,
            position_of(struct_names(defs), name@) == Some(at as int),
            !is_listed(path, name@),
            !is_listed(before, name@),
            path.len() == old(visiting)@.len(),
            path.len() < defs.len(),
            texts_view(visiting@) == path.push(name@),
            is_path(defs, path.push(name@)),
            path == texts_view(old(visiting)@),
            before == texts_view(validated@),
            acyclic_fields(defs, all, i as int, path.push(name@), before) == Ok::<
                Seq<Seq<char>>,
                DiagnosticView,
            >(texts_view(known@)),
    {
        assert(all[i as int] == fields@[i as int]@);
        proof {
            lemma_acyclic_fields(defs, all, i + 1, all.len() as int, path.push(name@), before);
        }
        match &fields[i].ty {
            TypeName::Struct(child) => {
                match validate_inline_acyclic(child, structs, visiting, known) {
                    Ok(more) => {
                        known = more;
                    },
                    Err(error) => {
                        visiting.pop();
                        assert(texts_view(visiting@) =~= path.push(name@).drop_last());
                        assert(path.push(name@).drop_last() =~= path);
                        return Err(error);
                    },
                }
            },
            _ => {},
        }
    }
    visiting.pop();
    assert(texts_view(visiting@) =~= path.push(name@).drop_last());
    assert(path.push(name@).drop_last() =~= path);
    let ghost done = texts_view(known@);
    known.push(name.clone());
    assert(texts_view(known@) =~= done.push(name@));
    Ok(known)
}

/// An error among the first fields stays the error of them all.
proof fn lemma_acyclic_fields(
    structs: Seq<StructView>,
    fields: Seq<FieldView>,
    from: int,
    to: int,
    visiting: Seq<Seq<char>>,
    validated: Seq<Seq<char>>,
)
    requires
        0 <= from <= to <= fields.len(),
    ensures
        acyclic_fields(structs, fields, from, visiting, validated) is Err ==> acyclic_fields(
            structs,
            fields,
            to,
            visiting,
            validated,
        ) == acyclic_fields(structs, fields, from, visiting, validated),
    decreases to,
{
    if from < to {
        lemma_acyclic_fields(structs, fields, from, to - 1, visiting, validated);
    }
}

/// Where the layout of the struct of that name stands.
pub fn find_layout(layouts: &Vec<StructLayout>, name: &String) -> (at: Option<usize>)
    ensures
        match at {
            Some(at) => position_of(laid_out(layouts_view(layouts@)), name@) == Some(at as int)
                && at < layouts@.len(),
            None => position_of(laid_out(layouts_view(layouts@)), name@) is None,
        },
{
    let ghost all = laid_out(layouts_view(layouts@));
    for i in 0..layouts.len()
        invariant
            all == laid_out(layouts_view(layouts@)),
            position_of(all, name@) == position_from(all, name@, i as int),
    {
        assert(all[i as int] == layouts@[i as int].name@);
        if layouts[i].name == *name {
            return Some(i);
        }
    }
    None
}

/// Whether a layout has a field of that name.
fn has_field(fields: &Vec<LayoutField>, name: &String) -> (found: bool)
    ensures
        found == is_listed(layout_names(layout_fields_view(fields@)), name@),
{
    let ghost all = layout_names(layout_fields_view(fields@));
    for i in 0..fields.len()
        invariant
            all == layout_names(layout_fields_view(fields@)),
            position_of(all, name@) == position_from(all, name@, i as int),
    {
        assert(all[i as int] == fields@[i as int].name@);
        if fields[i].name == *name {
            return true;
        }
    }
    false
}

/// A copy of the fields of a layout.
pub fn copy_layout_fields(fields: &Vec<LayoutField>) -> (copy: Vec<LayoutField>)
    ensures
        layout_fields_view(copy@) == layout_fields_view(fields@),
{
    let mut copy: Vec<LayoutField> = Vec::with_capacity(fields.len());
    for i in 0..fields.len()
        invariant
            copy@.len() == i,
            forall|j: int| 0 <= j < i ==> (#[trigger] copy@[j])@ == fields@[j]@,
    {
        copy.push(LayoutField { name: fields[i].name.clone(), ty: copy_type(&fields[i].ty) });
    }
    assert(layout_fields_view(copy@) =~= layout_fields_view(fields@));
    copy
}

/// Puts the fields of an embedded struct behind a layout, and fails where a name
/// would stand twice.
fn embed_fields(
    fields: Vec<LayoutField>,
    embedded: &Vec<LayoutField>,
    name: &String,
    span: Span,
) -> (done: Result<Vec<LayoutField>, Diagnostic>)
    ensures
        match with_embedded(
            layout_fields_view(fields@),
            layout_fields_view(embedded@),
            embedded@.len(),
            name@,
            span,
        ) {
            Ok(expected) => done matches Ok(new) && layout_fields_view(new@) == expected,
            Err(error) => done matches Err(found) && found@ == error,
        },
{
    let ghost start = layout_fields_view(fields@);
    let ghost more = layout_fields_view(embedded@);
    let mut new = fields;
    for i in 0..embedded.len()
        invariant
            start == layout_fields_view(fields@),
            more == layout_fields_view(embedded@),
            with_embedded(start, more, i as nat, name@, span) == Ok::<
                Seq<LayoutFieldView>,
                DiagnosticView,
            >(layout_fields_view(new@)),
    {
        let field = &embedded[i];
        assert(more[i as int] == field@);
        if has_field(&new, &field.name) {
            proof {
                lemma_with_embedded(start, more, (i + 1) as nat, more.len(), name@, span);
            }
            let mut message = String::from_str("embedded field '");
            message.append(field.name.as_str());
            message.append("' collides in struct '");
            message.append(name.as_str());
            message.append("'");
            return Err(Diagnostic::at_span(message, span));
        }
        let ghost before = layout_fields_view(new@);
        new.push(LayoutField { name: field.name.clone(), ty: copy_type(&field.ty) });
        assert(layout_fields_view(new@) =~= before.push(more[i as int]));
    }
    Ok(new)
}

/// An error among the first fields stays the error of them all.
proof fn lemma_with_embedded(
    fields: Seq<LayoutFieldView>,
    embedded: Seq<LayoutFieldView>,
    from: nat,
    to: nat,
    name: Seq<char>,
    span: Span,
)
    requires
        from <= to <= embedded.len(),
    ensures
        with_embedded(fields, embedded, from, name, span) is Err ==> with_embedded(
            fields,
            embedded,
            to,
            name,
            span,
        ) == with_embedded(fields, embedded, from, name, span),
    decreases to,
{
    if from < to {
        lemma_with_embedded(fields, embedded, from, (to - 1) as nat, name, span);
    }
}

/// The fields of the struct of that name, and the layouts that are known then.
pub fn resolve_struct_layout(
    name: &String,
    structs: &Vec<StructDef>,
    layouts: Vec<StructLayout>,
    visiting: &mut Vec<String>,
) -> (done: Result<(Vec<LayoutField>, Vec<StructLayout>), Diagnostic>)
    requires
        is_path(structs_view(structs@), texts_view(old(visiting)@)),
    ensures
        texts_view(final(visiting)@) == texts_view(old(visiting)@),
        match layout_at(
            structs_view(structs@),
            name@,
            texts_view(old(visiting)@),
            layouts_view(layouts@),
        ) {
            Ok((fields, known)) => done matches Ok((new, all)) && layout_fields_view(new@)
                == fields && layouts_view(all@) == known,
            Err(error) => done matches Err(found) && found@ == error,
        },
    decreases structs@.len() - old(visiting)@.len(), 0int,
{
    let ghost defs = structs_view(structs@);
    let ghost path = texts_view(visiting@);
    let ghost before = layouts_view(layouts@);
    if let Some(at) = find_layout(&layouts, name) {
        assert(before[at as int] == layouts@[at as int]@);
        let fields = copy_layout_fields(&layouts[at].fields);
        return Ok((fields, layouts));
    }
    let at: usize = match find_struct(structs, name) {
        Some(at) => at,
        None => {
            let mut message = String::from_str("unknown struct '");
            message.append(name.as_str());
            message.append("' in embedded layout");
            return Err(Diagnostic::new(message.as_str(), 0, 0));
        },
    };
    assert(defs[at as int] == structs@[at as int]@);
    if find_text(visiting, name).is_some() {
        let mut message = String::from_str("cyclic struct embedding detected for '");
        message.append(name.as_str());
        message.append("'");
        return Err(Diagnostic::at_span(message, structs[at].span));
    }
    proof {
        lemma_path_grows(defs, path, name@);
    }
    visiting.push(name.clone());
    assert(texts_view(visiting@) =~= path.push(name@));
    let outcome = resolve_fields(name, &structs[at], structs, layouts, visiting);
    visiting.pop();
    assert(texts_view(visiting@) =~= path.push(name@).drop_last());
    assert(path.push(name@).drop_last() =~= path);
    let (fields, mut known) = outcome?;
    let copy = copy_layout_fields(&fields);
    let ghost done = layouts_view(known@);
    known.push(StructLayout { name: name.clone(), fields: copy });
    assert(layouts_view(known@) =~= done.push(
        LayoutView { name: name@, fields: layout_fields_view(fields@) },
    ));
    Ok((fields, known))
}

/// The layout of the fields of a struct, and the layouts that are known then.
fn resolve_fields(
    name: &String,
    def: &StructDef,
    structs: &Vec<StructDef>,
    layouts: Vec<StructLayout>,
    visiting: &mut Vec<String>,
) -> (done: Result<(Vec<LayoutField>, Vec<StructLayout>), Diagnostic>)
    requires
        is_path(structs_view(structs@), texts_view(old(visiting)@)),
        old(visiting)@.len() >= 1,
    ensures
        texts_view(final(visiting)@) == texts_view(old(visiting)@),
        match layout_of_fields(
            structs_view(structs@),
            name@,
            def@.fields,
            def@.fields.len() as int,
            texts_view(old(visiting)@),
            layouts_view(layouts@),
        ) {
            Ok((fields, known)) => done matches Ok((new, all)) && layout_fields_view(new@)
                == fields && layouts_view(all@) == known,
            Err(error) => done matches Err(found) && found@ == error,
        },
    decreases structs@.len() - old(visiting)@.len(), 1int,
{
    let ghost defs = structs_view(structs@);
    let ghost path = texts_view(visiting@);
    let ghost before = layouts_view(layouts@);
    let ghost all = fields_view(def.fields@);
    let mut known = layouts;
    let mut fields: Vec<LayoutField> = Vec::new();
    assert(layout_fields_view(fields@) =~= Seq::empty());
    for i in 0..def.fields.len()
        invariant
            defs == structs_view(structs@),
            all == fields_view(def.fields@),
            all == def@.fields,
            path == texts_view(old(visiting)@),
            path == texts_view(visiting@),
            before == layouts_view(layouts@),
            path.len() == old(visiting)@.len(),
            is_path(defs, path),
            layout_of_fields(defs, name@, all, i as int, path, before) == Ok::<
                (Seq<LayoutFieldView>, Seq<LayoutView>),
                DiagnosticView,
            >((layout_fields_view(fields@), layouts_view(known@))),
    {
        let field = &def.fields[i];
        assert(all[i as int] == field@);
        proof {
            lemma_layout_of_fields(defs, name@, all, i + 1, all.len() as int, path, before);
        }
        if field.embedded {
            match &field.ty {
                TypeName::Struct(child) => {
                    assert(texts_view(visiting@).len() == visiting@.len());
                    let (embedded, more) = resolve_struct_layout(child, structs, known, visiting)?;
                    known = more;
                    fields = embed_fields(fields, &embedded, name, field.span)?;
                },
                _ => {
                    return Err(
                        Diagnostic::at_span(
                            String::from_str("embedded field must reference a struct type"),
                            field.span,
                        ),
                    );
                },
            }
        } else {
            if has_field(&fields, &field.name) {
                let mut message = String::from_str("duplicate field '");
                message.append(field.name.as_str());
                message.append("' in struct '");
                message.append(name.as_str());
                message.append("'");
                return Err(Diagnostic::at_span(message, field.span));
            }
            let ghost done = layout_fields_view(fields@);
            fields.push(LayoutField { name: field.name.clone(), ty: copy_type(&field.ty) });
            assert(layout_fields_view(fields@) =~= done.push(
                LayoutFieldView { name: field.name@, ty: field.ty@ },
            ));
        }
    }
    Ok((fields, known))
}

/// An error among the first fields stays the error of them all.
proof fn lemma_layout_of_fields(
    structs: Seq<StructView>,
    name: Seq<char>,
    fields: Seq<FieldView>,
    from: int,
    to: int,
    visiting: Seq<Seq<char>>,
    layouts: Seq<LayoutView>,
)
    requires
        0 <= from <= to <= fields.len(),
    ensures
        layout_of_fields(structs, name, fields, from, visiting, layouts) is Err
            ==> layout_of_fields(structs, name, fields, to, visiting, layouts) == layout_of_fields(
            structs,
            name,
            fields,
            from,
            visiting,
            layouts,
        ),
    decreases to,
{
    if from < to {
        lemma_layout_of_fields(structs, name, fields, from, to - 1, visiting, layouts);
    }
}

/// An error for the first names stays the error for them all.
proof fn lemma_first(structs: Seq<StructView>, names: Seq<Seq<char>>, from: nat, to: nat)
    requires
        from <= to <= names.len(),
    ensures
        acyclic_first(structs, names, from) is Err ==> acyclic_first(structs, names, to)
            == acyclic_first(structs, names, from),
        layouts_first(structs, names, from) is Err ==> layouts_first(structs, names, to)
            == layouts_first(structs, names, from),
    decreases to,
{
    if from < to {
        lemma_first(structs, names, from, (to - 1) as nat);
    }
}

/// The layouts of structs.
pub fn resolve_struct_layouts(structs: &Vec<StructDef>) -> (done: Result<
    Vec<StructLayout>,
    Diagnostic,
>)
    ensures
        match layouts_of(structs_view(structs@)) {
            Ok(expected) => done matches Ok(layouts) && layouts_view(layouts@) == expected,
            Err(error) => done matches Err(found) && found@ == error,
        },
{
    let ghost defs = structs_view(structs@);
    let mut given: Vec<String> = Vec::with_capacity(structs.len());
    for i in 0..structs.len()
        invariant
            given@.len() == i,
            forall|j: int| 0 <= j < i ==> (#[trigger] given@[j])@ == structs@[j]@.name,
    {
        given.push(structs[i].name.clone());
    }
    assert(texts_view(given@) =~= struct_names(defs));
    let names = sort_names(&given);
    let ghost all = texts_view(names@);
    let mut visiting: Vec<String> = Vec::new();
    assert(texts_view(visiting@) =~= Seq::empty());
    let mut validated: Vec<String> = Vec::new();
    assert(texts_view(validated@) =~= Seq::empty());
    for i in 0..names.len()
        invariant
            defs == structs_view(structs@),
            all == texts_view(names@),
            all == sorted_names(struct_names(defs)),
            texts_view(visiting@) == Seq::<Seq<char>>::empty(),
            acyclic_first(defs, all, i as nat) == Ok::<Seq<Seq<char>>, DiagnosticView>(
                texts_view(validated@),
            ),
    {
        proof {
            lemma_first(defs, all, (i + 1) as nat, all.len());
        }
        validated = validate_inline_acyclic(&names[i], structs, &mut visiting, validated)?;
    }
    let mut layouts: Vec<StructLayout> = Vec::new();
    assert(layouts_view(layouts@) =~= Seq::empty());
    for i in 0..names.len()
        invariant
            defs == structs_view(structs@),
            all == texts_view(names@),
            all == sorted_names(struct_names(defs)),
            acyclic_first(defs, all, all.len()) is Ok,
            texts_view(visiting@) == Seq::<Seq<char>>::empty(),
            layouts_first(defs, all, i as nat) == Ok::<Seq<LayoutView>, DiagnosticView>(
                layouts_view(layouts@),
            ),
    {
        proof {
            lemma_first(defs, all, (i + 1) as nat, all.len());
        }
        let (_, known) = resolve_struct_layout(&names[i], structs, layouts, &mut visiting)?;
        layouts = known;
    }
    Ok(layouts)
}

} // verus!
