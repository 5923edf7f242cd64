//! The entries of dictionaries and maps, in the order of their keys.

use crate::semantics::names::{is_listed, lemma_is_listed, lemma_position_from, position_of};
use crate::semantics::order::{is_before, law_order_is_total, text_before};
use crate::semantics::values::{
    find_value, named_view, names_in, NamedValue, NamedView, Value, ValueView,
};
use vstd::prelude::*;

verus! {

/// The place of a new key: before the first that does not stand before it, from
/// a position on.
pub open spec fn place_of(entries: Seq<NamedView>, key: Seq<char>, from: int) -> int
    decreases entries.len() - from,
{
    if 0 <= from < entries.len() && text_before(entries[from].name, key) {
        place_of(entries, key, from + 1)
    } else {
        from
    }
}

/// Entries with the value of a key set.
pub open spec fn with_entry(entries: Seq<NamedView>, key: Seq<char>, value: ValueView) -> Seq<
    NamedView,
> {
    match position_of(names_in(entries), key) {
        Some(at) => entries.update(at, NamedView { name: key, value }),
        None => entries.insert(place_of(entries, key, 0), NamedView { name: key, value }),
    }
}

/// Entries without that of a key.
pub open spec fn without_entry(entries: Seq<NamedView>, key: Seq<char>) -> Seq<NamedView> {
    match position_of(names_in(entries), key) {
        Some(at) => entries.remove(at),
        None => entries,
    }
}

/// Each key stands before the next.
pub open spec fn is_sorted(entries: Seq<NamedView>) -> bool {
    forall|i: int, j: int|
        0 <= i < j < entries.len() ==> text_before(
            (#[trigger] entries[i]).name,
            (#[trigger] entries[j]).name,
        )
}

/// Sets the value of a key.
pub fn put_entry(entries: &mut Vec<NamedValue>, key: &String, value: Value)
    ensures
        named_view(final(entries)@) == with_entry(named_view(old(entries)@), key@, value@),
{
    let ghost before = named_view(entries@);
    let new = NamedValue { name: key.clone(), value };
    match find_value(entries, key) {
        Some(at) => {
            entries.set(at, new);
            assert(named_view(entries@) =~= before.update(at as int, new@));
        },
        None => {
            let mut at: usize = 0;
            while at < entries.len() && is_before(&entries[at].name, key)
                invariant
                    at <= entries@.len(),
                    before == named_view(entries@),
                    place_of(before, key@, 0) == place_of(before, key@, at as int),
                decreases entries@.len() - at,
            {
                assert(before[at as int] == entries@[at as int]@);
                at = at + 1;
            }
            if at < entries.len() {
                assert(before[at as int] == entries@[at as int]@);
            }
            entries.insert(at, new);
            assert(named_view(entries@) =~= before.insert(at as int, new@));
        },
    }
}

/// Removes the entry of a key.
pub fn remove_entry(entries: &mut Vec<NamedValue>, key: &String)
    ensures
        named_view(final(entries)@) == without_entry(named_view(old(entries)@), key@),
{
    let ghost before = named_view(entries@);
    match find_value(entries, key) {
        Some(at) => {
            entries.remove(at);
            assert(named_view(entries@) =~= before.remove(at as int));
        },
        None => {},
    }
}

/// The keys before the place of a new one stand before it.
proof fn lemma_place(entries: Seq<NamedView>, key: Seq<char>, from: int)
    requires
        0 <= from <= entries.len(),
        forall|k: int| 0 <= k < from ==> text_before((#[trigger] entries[k]).name, key),
    ensures
        from <= place_of(entries, key, from) <= entries.len(),
        forall|k: int|
            0 <= k < place_of(entries, key, from) ==> text_before(
                (#[trigger] entries[k]).name,
                key,
            ),
        place_of(entries, key, from) < entries.len() ==> !text_before(
            entries[place_of(entries, key, from)].name,
            key,
        ),
    decreases entries.len() - from,
{
    if from < entries.len() && text_before(entries[from].name, key) {
        lemma_place(entries, key, from + 1);
    }
}

/// Entries stay sorted when the value of a key is set, and the key has it then.
pub proof fn law_set_entry(entries: Seq<NamedView>, key: Seq<char>, value: ValueView)
    requires
        is_sorted(entries),
    ensures
        is_sorted(with_entry(entries, key, value)),
        with_entry(entries, key, value).contains(NamedView { name: key, value }),
{
    let new = NamedView { name: key, value };
    lemma_position_from(names_in(entries), key, 0);
    match position_of(names_in(entries), key) {
        Some(at) => {
            let after = entries.update(at, new);
            assert(names_in(entries)[at] == key);
            assert forall|i: int, j: int| 0 <= i < j < after.len() implies text_before(
                (#[trigger] after[i]).name,
                (#[trigger] after[j]).name,
            ) by {
                assert(after[i].name == entries[i].name);
                assert(after[j].name == entries[j].name);
            }
            assert(after[at] == new);
        },
        None => {
            lemma_place(entries, key, 0);
            let place = place_of(entries, key, 0);
            let after = entries.insert(place, new);
            assert forall|i: int, j: int| 0 <= i < j < after.len() implies text_before(
                (#[trigger] after[i]).name,
                (#[trigger] after[j]).name,
            ) by {
                if j == place {
                    assert(after[i] == entries[i]);
                } else if i == place {
                    assert(after[j] == entries[j - 1]);
                    assert(names_in(entries)[place] == entries[place].name);
                    law_order_is_total(key, entries[place].name, entries[j - 1].name);
                    law_order_is_total(entries[place].name, key, key);
                    if place < j - 1 {
                        assert(text_before(entries[place].name, entries[j - 1].name));
                    }
                } else {
                    let a = if i < place {
                        i
                    } else {
                        i - 1
                    };
                    let b = if j < place {
                        j
                    } else {
                        j - 1
                    };
                    assert(after[i] == entries[a]);
                    assert(after[j] == entries[b]);
                }
            }
            assert(after[place] == new);
        },
    }
}

/// Entries stay sorted when that of a key is removed, and the key is gone then.
pub proof fn law_remove_entry(entries: Seq<NamedView>, key: Seq<char>)
    requires
        is_sorted(entries),
    ensures
        is_sorted(without_entry(entries, key)),
        !is_listed(names_in(without_entry(entries, key)), key),
{
    lemma_position_from(names_in(entries), key, 0);
    let after = without_entry(entries, key);
    lemma_is_listed(names_in(after), key);
    match position_of(names_in(entries), key) {
        Some(at) => {
            assert(names_in(entries)[at] == key);
            assert forall|i: int, j: int| 0 <= i < j < after.len() implies text_before(
                (#[trigger] after[i]).name,
                (#[trigger] after[j]).name,
            ) by {
                let a = if i < at {
                    i
                } else {
                    i + 1
                };
                let b = if j < at {
                    j
                } else {
                    j + 1
                };
                assert(after[i] == entries[a]);
                assert(after[j] == entries[b]);
            }
            assert forall|k: int| 0 <= k < names_in(after).len() implies #[trigger] names_in(
                after,
            )[k] != key by {
                law_order_is_total(key, key, key);
                if k < at {
                    assert(after[k] == entries[k]);
                    assert(text_before(entries[k].name, entries[at].name));
                } else {
                    assert(after[k] == entries[k + 1]);
                    assert(text_before(entries[at].name, entries[k + 1].name));
                }
            }
        },
        None => {},
    }
}

} // verus!
