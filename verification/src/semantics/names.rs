//! Names: how they are looked up, put together and shown.

use crate::ast::{
    fields_view, functions_view, texts_view, variants_view, EnumDef, EnumVariantDef, EnumView,
    FieldView, Function, FunctionView, Span, StructDef, StructField, StructView, TraitDef,
    TraitView, VariantView,
};
use crate::diagnostic::{message_at_span, Diagnostic};
use crate::parser::cursor::is_text;
use vstd::prelude::*;
use vstd::string::StringExecFns;

verus! {

/// The first position from `from` on where the name stands in a list.
pub open spec fn position_from(names: Seq<Seq<char>>, name: Seq<char>, from: int) -> Option<int>
    decreases names.len() - from,
{
    if from < 0 || from >= names.len() {
        None
    } else if names[from] == name {
        Some(from)
    } else {
        position_from(names, name, from + 1)
    }
}

/// The first position where the name stands in a list.
pub open spec fn position_of(names: Seq<Seq<char>>, name: Seq<char>) -> Option<int> {
    position_from(names, name, 0)
}

/// The name stands in the list.
pub open spec fn is_listed(names: Seq<Seq<char>>, name: Seq<char>) -> bool {
    position_of(names, name) is Some
}

/// A position that was found holds the name, and none before it does.
pub proof fn lemma_position_from(names: Seq<Seq<char>>, name: Seq<char>, from: int)
    requires
        0 <= from,
    ensures
        position_from(names, name, from) matches Some(at) ==> from <= at < names.len()
            && names[at] == name && forall|k: int| from <= k < at ==> #[trigger] names[k] != name,
        position_from(names, name, from) is None ==> forall|k: int|
            from <= k < names.len() ==> #[trigger] names[k] != name,
    decreases names.len() - from,
{
    if from < names.len() && names[from] != name {
        lemma_position_from(names, name, from + 1);
    }
}

/// A name is listed if and only if some position holds it.
pub proof fn lemma_is_listed(names: Seq<Seq<char>>, name: Seq<char>)
    ensures
        is_listed(names, name) == names.contains(name),
{
    lemma_position_from(names, name, 0);
    if names.contains(name) {
        let k = choose|k: int| 0 <= k < names.len() && names[k] == name;
        assert(names[k] == name);
    }
}

/// Where a text stands in a list.
pub fn find_text(texts: &Vec<String>, text: &String) -> (at: Option<usize>)
    ensures
        match at {
            Some(at) => position_of(texts_view(texts@), text@) == Some(at as int) && at
                < texts@.len(),
            None => position_of(texts_view(texts@), text@) is None,
        },
{
    let ghost all = texts_view(texts@);
    for i in 0..texts.len()
        invariant
            all == texts_view(texts@),
            position_of(all, text@) == position_from(all, text@, i as int),
    {
        assert(all[i as int] == texts@[i as int]@);
        if texts[i] == *text {
            return Some(i);
        }
    }
    None
}

/// The names of functions.
pub open spec fn function_names(functions: Seq<FunctionView>) -> Seq<Seq<char>> {
    Seq::new(functions.len(), |i: int| functions[i].name)
}

/// The names of structs.
pub open spec fn struct_names(structs: Seq<StructView>) -> Seq<Seq<char>> {
    Seq::new(structs.len(), |i: int| structs[i].name)
}

/// The names of enums.
pub open spec fn enum_names(enums: Seq<EnumView>) -> Seq<Seq<char>> {
    Seq::new(enums.len(), |i: int| enums[i].name)
}

/// The names of traits.
pub open spec fn trait_names(traits: Seq<TraitView>) -> Seq<Seq<char>> {
    Seq::new(traits.len(), |i: int| traits[i].name)
}

/// The names of variants.
pub open spec fn variant_names(variants: Seq<VariantView>) -> Seq<Seq<char>> {
    Seq::new(variants.len(), |i: int| variants[i].name)
}

/// The names of fields.
pub open spec fn field_names(fields: Seq<FieldView>) -> Seq<Seq<char>> {
    Seq::new(fields.len(), |i: int| fields[i].name)
}

/// Where the function of a name stands.
pub fn find_function(functions: &Vec<Function>, name: &String) -> (at: Option<usize>)
    ensures
        match at {
            Some(
                at,
            ) => position_of(function_names(functions_view(functions@)), name@) == Some(at as int)
                && at < functions@.len(),
            None => position_of(function_names(functions_view(functions@)), name@) is None,
        },
{
    let ghost all = function_names(functions_view(functions@));
    for i in 0..functions.len()
        invariant
            all == function_names(functions_view(functions@)),
            position_of(all, name@) == position_from(all, name@, i as int),
    {
        assert(all[i as int] == functions@[i as int]@.name);
        if functions[i].name == *name {
            return Some(i);
        }
    }
    None
}

/// Structs as mathematical values.
pub open spec fn structs_view(structs: Seq<StructDef>) -> Seq<StructView> {
    Seq::new(structs.len(), |i: int| structs[i]@)
}

/// Where the struct of a name stands.
pub fn find_struct(structs: &Vec<StructDef>, name: &String) -> (at: Option<usize>)
    ensures
        match at {
            Some(at) => position_of(struct_names(structs_view(structs@)), name@) == Some(at as int)
                && at < structs@.len(),
            None => position_of(struct_names(structs_view(structs@)), name@) is None,
        },
{
    let ghost all = struct_names(structs_view(structs@));
    for i in 0..structs.len()
        invariant
            all == struct_names(structs_view(structs@)),
            position_of(all, name@) == position_from(all, name@, i as int),
    {
        assert(all[i as int] == structs@[i as int]@.name);
        if structs[i].name == *name {
            return Some(i);
        }
    }
    None
}

/// Enums as mathematical values.
pub open spec fn enums_view(enums: Seq<EnumDef>) -> Seq<EnumView> {
    Seq::new(enums.len(), |i: int| enums[i]@)
}

/// Where the enum of a name stands.
pub fn find_enum(enums: &Vec<EnumDef>, name: &String) -> (at: Option<usize>)
    ensures
        match at {
            Some(at) => position_of(enum_names(enums_view(enums@)), name@) == Some(at as int)
                && at < enums@.len(),
            None => position_of(enum_names(enums_view(enums@)), name@) is None,
        },
{
    let ghost all = enum_names(enums_view(enums@));
    for i in 0..enums.len()
        invariant
            all == enum_names(enums_view(enums@)),
            position_of(all, name@) == position_from(all, name@, i as int),
    {
        assert(all[i as int] == enums@[i as int]@.name);
        if enums[i].name == *name {
            return Some(i);
        }
    }
    None
}

/// Traits as mathematical values.
pub open spec fn traits_view(traits: Seq<TraitDef>) -> Seq<TraitView> {
    Seq::new(traits.len(), |i: int| traits[i]@)
}

/// Where the trait of a name stands.
pub fn find_trait(traits: &Vec<TraitDef>, name: &String) -> (at: Option<usize>)
    ensures
        match at {
            Some(at) => position_of(trait_names(traits_view(traits@)), name@) == Some(at as int)
                && at < traits@.len(),
            None => position_of(trait_names(traits_view(traits@)), name@) is None,
        },
{
    let ghost all = trait_names(traits_view(traits@));
    for i in 0..traits.len()
        invariant
            all == trait_names(traits_view(traits@)),
            position_of(all, name@) == position_from(all, name@, i as int),
    {
        assert(all[i as int] == traits@[i as int]@.name);
        if traits[i].name == *name {
            return Some(i);
        }
    }
    None
}

/// Where the variant of a name stands.
pub fn find_variant(variants: &Vec<EnumVariantDef>, name: &String) -> (at: Option<usize>)
    ensures
        match at {
            Some(
                at,
            ) => position_of(variant_names(variants_view(variants@)), name@) == Some(at as int)
                && at < variants@.len(),
            None => position_of(variant_names(variants_view(variants@)), name@) is None,
        },
{
    let ghost all = variant_names(variants_view(variants@));
    for i in 0..variants.len()
        invariant
            all == variant_names(variants_view(variants@)),
            position_of(all, name@) == position_from(all, name@, i as int),
    {
        assert(all[i as int] == variants@[i as int]@.name);
        if variants[i].name == *name {
            return Some(i);
        }
    }
    None
}

/// Where the field of a name stands.
pub fn find_field(fields: &Vec<StructField>, name: &String) -> (at: Option<usize>)
    ensures
        match at {
            Some(at) => position_of(field_names(fields_view(fields@)), name@) == Some(at as int)
                && at < fields@.len(),
            None => position_of(field_names(fields_view(fields@)), name@) is None,
        },
{
    let ghost all = field_names(fields_view(fields@));
    for i in 0..fields.len()
        invariant
            all == field_names(fields_view(fields@)),
            position_of(all, name@) == position_from(all, name@, i as int),
    {
        assert(all[i as int] == fields@[i as int]@.name);
        if fields[i].name == *name {
            return Some(i);
        }
    }
    None
}

/// Where two underscores first stand in a text, from a position on.
pub open spec fn double_underscore_from(text: Seq<char>, from: int) -> Option<int>
    decreases text.len() - from,
{
    if from < 0 || from + 1 >= text.len() {
        None
    } else if text[from] == '_' && text[from + 1] == '_' {
        Some(from)
    } else {
        double_underscore_from(text, from + 1)
    }
}

/// The name of a function as its author wrote it: the first two underscores of
/// a name that was put together stand for two colons.
pub open spec fn source_name(name: Seq<char>) -> Seq<char> {
    match double_underscore_from(name, 0) {
        Some(at) => name.subrange(0, at) + "::"@ + name.subrange(at + 2, name.len() as int),
        None => name,
    }
}

/// The name of a function as its author wrote it.
pub fn source_callable_name(name: &String) -> (shown: String)
    ensures
        shown@ == source_name(name@),
{
    let text = name.as_str();
    let count: usize = text.unicode_len();
    let mut i: usize = 0;
    while count >= 2 && i <= count - 2
        invariant
            text@ == name@,
            count == text@.len(),
            count >= 2 ==> i <= count - 1,
            i == 0 || count >= 2,
            double_underscore_from(name@, 0) == double_underscore_from(name@, i as int),
        decreases count - i,
    {
        if text.get_char(i) == '_' && text.get_char(i + 1) == '_' {
            let mut shown = String::from_str(text.substring_char(0, i));
            shown.append("::");
            shown.append(text.substring_char(i + 2, count));
            return shown;
        }
        i = i + 1;
    }
    name.clone()
}

/// What is said of a call of an unknown function.
pub open spec fn unknown_function(name: Seq<char>) -> Seq<char> {
    "unknown function '"@ + source_name(name) + "'"@
}

/// What is said of a call of an unknown function.
pub fn unknown_function_diagnostic(name: &String, span: Span) -> (diagnostic: Diagnostic)
    ensures
        diagnostic@ == message_at_span(unknown_function(name@), span),
{
    let mut message = String::from_str("unknown function '");
    message.append(source_callable_name(name).as_str());
    message.append("'");
    Diagnostic::at_span(message, span)
}

/// The noun for a number of arguments.
pub open spec fn noun_for(count: nat) -> Seq<char> {
    if count == 1 {
        "argument"@
    } else {
        "arguments"@
    }
}

/// The noun for a number of arguments.
pub fn argument_noun(count: usize) -> (noun: &'static str)
    ensures
        noun@ == noun_for(count as nat),
{
    if count == 1 {
        "argument"
    } else {
        "arguments"
    }
}

/// The name is that of a routine that only compiled programs have.
pub open spec fn is_runtime_only(name: Seq<char>) -> bool {
    ||| name == "file_open_read"@
    ||| name == "file_create"@
    ||| name == "file_write_all"@
    ||| name == "file_read"@
    ||| name == "file_close"@
    ||| name == "File__open_read"@
    ||| name == "File__create"@
    ||| name == "Path__new"@
    ||| name == "Path__join"@
    ||| name == "Thread__spawn"@
    ||| name == "Thread::spawn"@
    ||| name == "Channel::bounded"@
    ||| name == "Channel__bounded"@
    ||| name == "Channel::unbounded"@
    ||| name == "Channel__unbounded"@
    ||| name == "runtime_arg_count"@
    ||| name == "runtime_monotonic_nanos"@
    ||| name == "runtime_wall_time_nanos"@
    ||| name == "runtime_process_id"@
    ||| name == "runtime_argument"@
    ||| name == "runtime_environment_count"@
    ||| name == "runtime_environment_entry"@
    ||| name == "runtime_stdlib_abi_version"@
}

/// Whether the name is that of a routine that only compiled programs have.
pub fn is_file_runtime_intrinsic(name: &String) -> (found: bool)
    ensures
        found == is_runtime_only(name@),
{
    is_text(name, "file_open_read")
        || is_text(name, "file_create")
        || is_text(name, "file_write_all")
        || is_text(name, "file_read")
        || is_text(name, "file_close")
        || is_text(name, "File__open_read")
        || is_text(name, "File__create")
        || is_text(name, "Path__new")
        || is_text(name, "Path__join")
        || is_text(name, "Thread__spawn")
        || is_text(name, "Thread::spawn")
        || is_text(name, "Channel::bounded")
        || is_text(name, "Channel__bounded")
        || is_text(name, "Channel::unbounded")
        || is_text(name, "Channel__unbounded")
        || is_text(name, "runtime_arg_count")
        || is_text(name, "runtime_monotonic_nanos")
        || is_text(name, "runtime_wall_time_nanos")
        || is_text(name, "runtime_process_id")
        || is_text(name, "runtime_argument")
        || is_text(name, "runtime_environment_count")
        || is_text(name, "runtime_environment_entry")
        || is_text(name, "runtime_stdlib_abi_version")
}

} // verus!
