//! The order of names.

use crate::ast::texts_view;
use vstd::prelude::*;
use vstd::string::StringExecFns;

verus! {

/// The first text stands before the second in the order of dictionaries, by
/// code points, from a position on.
pub open spec fn before_from(a: Seq<char>, b: Seq<char>, from: int) -> bool
    decreases a.len() - from,
{
    if from < 0 || from >= b.len() {
        false
    } else if from >= a.len() {
        true
    } else if a[from] != b[from] {
        (a[from] as u32) < (b[from] as u32)
    } else {
        before_from(a, b, from + 1)
    }
}

/// The first text stands before the second.
pub open spec fn text_before(a: Seq<char>, b: Seq<char>) -> bool {
    before_from(a, b, 0)
}

/// A sorted list with one more name, before the first that does not stand
/// before it.
pub open spec fn with_name(sorted: Seq<Seq<char>>, name: Seq<char>, from: int) -> Seq<Seq<char>>
    decreases sorted.len() - from,
{
    if 0 <= from < sorted.len() && text_before(sorted[from], name) {
        with_name(sorted, name, from + 1)
    } else {
        sorted.insert(from, name)
    }
}

/// The first of the names, in order.
pub open spec fn sorted_first(names: Seq<Seq<char>>, count: nat) -> Seq<Seq<char>>
    decreases count,
{
    if count == 0 || count > names.len() {
        Seq::empty()
    } else {
        with_name(sorted_first(names, (count - 1) as nat), names[count - 1], 0)
    }
}

/// The names in order.
pub open spec fn sorted_names(names: Seq<Seq<char>>) -> Seq<Seq<char>> {
    sorted_first(names, names.len())
}

/// Whether the first text stands before the second.
pub fn is_before(a: &String, b: &String) -> (found: bool)
    ensures
        found == text_before(a@, b@),
{
    let left = a.as_str();
    let right = b.as_str();
    let left_count: usize = left.unicode_len();
    let right_count: usize = right.unicode_len();
    let mut i: usize = 0;
    while i < left_count && i < right_count
        invariant
            left@ == a@,
            right@ == b@,
            left_count == a@.len(),
            right_count == b@.len(),
            i <= left_count,
            i <= right_count,
            text_before(a@, b@) == before_from(a@, b@, i as int),
        decreases left_count - i,
    {
        let x: char = left.get_char(i);
        let y: char = right.get_char(i);
        if x != y {
            return (x as u32) < (y as u32);
        }
        i = i + 1;
    }
    i < right_count
}

/// The names in order.
pub fn sort_names(names: &Vec<String>) -> (sorted: Vec<String>)
    ensures
        texts_view(sorted@) == sorted_names(texts_view(names@)),
{
    let ghost all = texts_view(names@);
    let mut sorted: Vec<String> = Vec::new();
    assert(texts_view(sorted@) =~= Seq::empty());
    for i in 0..names.len()
        invariant
            all == texts_view(names@),
            texts_view(sorted@) == sorted_first(all, i as nat),
            sorted@.len() == i,
    {
        let ghost done = sorted@;
        let mut at: usize = 0;
        while at < sorted.len() && is_before(&sorted[at], &names[i])
            invariant
                i < names@.len(),
                done == sorted@,
                at <= sorted@.len(),
                sorted@.len() == i,
                all == texts_view(names@),
                with_name(texts_view(done), all[i as int], 0) == with_name(
                    texts_view(done),
                    all[i as int],
                    at as int,
                ),
            decreases sorted@.len() - at,
        {
            assert(texts_view(done)[at as int] == sorted@[at as int]@);
            at = at + 1;
        }
        if at < sorted.len() {
            assert(texts_view(done)[at as int] == sorted@[at as int]@);
        }
        sorted.insert(at, names[i].clone());
        assert(texts_view(sorted@) =~= texts_view(done).insert(at as int, all[i as int]));
    }
    sorted
}

/// The order of names is that of dictionaries: no text stands before itself, of
/// two different texts one stands before the other, and what stands before a
/// text stands before all that it stands before.
pub proof fn law_order_is_total(a: Seq<char>, b: Seq<char>, c: Seq<char>)
    ensures
        !text_before(a, a),
        a != b ==> text_before(a, b) != text_before(b, a),
        text_before(a, b) && text_before(b, c) ==> text_before(a, c),
{
    lemma_irreflexive(a, 0);
    if a != b {
        lemma_total(a, b, 0);
    }
    if text_before(a, b) && text_before(b, c) {
        lemma_transitive(a, b, c, 0);
    }
}

/// No text stands before itself.
proof fn lemma_irreflexive(a: Seq<char>, from: int)
    requires
        0 <= from,
    ensures
        !before_from(a, a, from),
    decreases a.len() - from,
{
    if from < a.len() {
        lemma_irreflexive(a, from + 1);
    }
}

/// Two characters with the same code are the same.
proof fn lemma_codes_differ(a: char, b: char)
    requires
        a != b,
    ensures
        a as u32 != b as u32,
{
}

/// Of two texts that agree up to a position and differ, one stands before the
/// other.
proof fn lemma_total(a: Seq<char>, b: Seq<char>, from: int)
    requires
        0 <= from <= a.len(),
        from <= b.len(),
        a != b,
        forall|k: int| 0 <= k < from ==> a[k] == b[k],
    ensures
        before_from(a, b, from) != before_from(b, a, from),
    decreases a.len() - from,
{
    if from < a.len() && from < b.len() {
        if a[from] == b[from] {
            lemma_total(a, b, from + 1);
        } else {
            lemma_codes_differ(a[from], b[from]);
        }
    } else if from == a.len() && from == b.len() {
        assert(a =~= b);
    }
}

/// What stands before a text stands before all that it stands before.
proof fn lemma_transitive(a: Seq<char>, b: Seq<char>, c: Seq<char>, from: int)
    requires
        0 <= from,
        before_from(a, b, from),
        before_from(b, c, from),
    ensures
        before_from(a, c, from),
    decreases a.len() - from,
{
    if from < a.len() && from < b.len() && from < c.len() && a[from] == b[from] && b[from]
        == c[from] {
        lemma_transitive(a, b, c, from + 1);
    }
}

/// Each name before the next.
pub open spec fn is_in_order(names: Seq<Seq<char>>) -> bool {
    forall|i: int, j: int|
        0 <= i < j < names.len() ==> !text_before(#[trigger] names[j], #[trigger] names[i])
}

/// Sorted names stand in order, and are the names that were given.
pub proof fn law_sorted_names(names: Seq<Seq<char>>)
    ensures
        is_in_order(sorted_names(names)),
        sorted_names(names).to_multiset() == names.to_multiset(),
{
    lemma_sorted_first(names, names.len());
    assert(names.subrange(0, names.len() as int) =~= names);
}

/// The first of the names stand in order once they are sorted.
proof fn lemma_sorted_first(names: Seq<Seq<char>>, count: nat)
    requires
        count <= names.len(),
    ensures
        is_in_order(sorted_first(names, count)),
        sorted_first(names, count).to_multiset() == names.subrange(0, count as int).to_multiset(),
    decreases count,
{
    broadcast use vstd::seq_lib::group_to_multiset_ensures;

    if count == 0 {
        assert(names.subrange(0, 0) =~= Seq::<Seq<char>>::empty());
    } else {
        let before = (count - 1) as nat;
        lemma_sorted_first(names, before);
        lemma_with_name(sorted_first(names, before), names[before as int], 0);
        assert(names.subrange(0, count as int) =~= names.subrange(0, before as int).push(
            names[before as int],
        ));
    }
}

/// A name that is put into a sorted list keeps it sorted.
proof fn lemma_with_name(sorted: Seq<Seq<char>>, name: Seq<char>, from: int)
    requires
        0 <= from <= sorted.len(),
        is_in_order(sorted),
        forall|k: int| 0 <= k < from ==> text_before(#[trigger] sorted[k], name),
    ensures
        is_in_order(with_name(sorted, name, from)),
        with_name(sorted, name, from).to_multiset() == sorted.to_multiset().insert(name),
    decreases sorted.len() - from,
{
    broadcast use vstd::seq_lib::group_to_multiset_ensures;

    if from < sorted.len() && text_before(sorted[from], name) {
        lemma_with_name(sorted, name, from + 1);
    } else {
        let new = sorted.insert(from, name);
        assert forall|i: int, j: int| 0 <= i < j < new.len() implies !text_before(
            #[trigger] new[j],
            #[trigger] new[i],
        ) by {
            let a = if i < from {
                sorted[i]
            } else if i == from {
                name
            } else {
                sorted[i - 1]
            };
            let b = if j < from {
                sorted[j]
            } else if j == from {
                name
            } else {
                sorted[j - 1]
            };
            if i == from {
                if j - 1 > from {
                    assert(!text_before(sorted[j - 1], sorted[from]));
                    law_order_is_total(sorted[from], sorted[j - 1], name);
                    law_order_is_total(sorted[j - 1], sorted[from], name);
                    law_order_is_total(sorted[j - 1], name, sorted[from]);
                    law_order_is_total(sorted[from], name, name);
                }
            } else if j == from {
                law_order_is_total(sorted[i], name, sorted[i]);
                law_order_is_total(name, sorted[i], name);
            }
        }
    }
}

} // verus!
