//! What holds of the stamp: the order in which the sections and their
//! entries come does not matter, as long as their names tell them apart,
//! and a change of one text changes the message that is hashed.

use vstd::prelude::*;
use vstd::seq_lib::{
    to_multiset_contains, to_multiset_insert, to_multiset_len, to_multiset_remove,
};
use vstd::utf8::{encode_utf8, encode_utf8_decode_utf8};
use crate::bank::{Key, Section};
use crate::signature::{
    entries_message, entry_message, insert_position, lex_lt, preamble, precedes,
    section_message, sections_message, sorted_by_name, spec_signature, spec_signature_message,
    Named, STRING_MARKER, VALUE_MARKER,
};

verus! {

/// No byte string comes before itself.
pub proof fn lemma_lex_irreflexive(a: Seq<u8>)
    ensures
        !lex_lt(a, a),
    decreases a.len(),
{
    if a.len() > 0 {
        lemma_lex_irreflexive(a.drop_first());
    }
}

/// What comes before something that comes before a third comes before the
/// third.
pub proof fn lemma_lex_transitive(a: Seq<u8>, b: Seq<u8>, c: Seq<u8>)
    requires
        lex_lt(a, b),
        lex_lt(b, c),
    ensures
        lex_lt(a, c),
    decreases a.len(),
{
    if a.len() > 0 && a[0] == b[0] && b[0] == c[0] {
        lemma_lex_transitive(a.drop_first(), b.drop_first(), c.drop_first());
    }
}

/// Of two different byte strings one comes before the other.
pub proof fn lemma_lex_total(a: Seq<u8>, b: Seq<u8>)
    ensures
        lex_lt(a, b) || lex_lt(b, a) || a == b,
    decreases a.len(),
{
    if a.len() > 0 && b.len() > 0 && a[0] == b[0] {
        lemma_lex_total(a.drop_first(), b.drop_first());
        if a.drop_first() == b.drop_first() {
            assert(a =~= seq![a[0]] + a.drop_first());
            assert(b =~= seq![b[0]] + b.drop_first());
        }
    } else if a.len() == 0 && b.len() == 0 {
        assert(a =~= b);
    }
}

/// No two items have the same name.
pub open spec fn distinct_names<T: Named>(items: Seq<T>) -> bool {
    forall|i: int, j: int|
        0 <= i < j < items.len() ==> (#[trigger] items[i]).label() != (#[trigger] items[j]).label()
}

/// No item comes before an earlier one.
pub open spec fn ascending<T: Named>(items: Seq<T>) -> bool {
    forall|i: int, j: int|
        0 <= i < j < items.len() ==> !precedes(#[trigger] items[j], #[trigger] items[i])
}

/// Every item comes before every later one.
pub open spec fn strictly_ascending<T: Named>(items: Seq<T>) -> bool {
    forall|i: int, j: int|
        0 <= i < j < items.len() ==> precedes(#[trigger] items[i], #[trigger] items[j])
}

/// Items with different names have different name bytes, and one of them
/// comes before the other.
proof fn lemma_names_apart<T: Named>(a: T, b: T)
    requires
        a.label() != b.label(),
    ensures
        precedes(a, b) || precedes(b, a),
{
    encode_utf8_decode_utf8(a.label());
    encode_utf8_decode_utf8(b.label());
    lemma_lex_total(encode_utf8(a.label()), encode_utf8(b.label()));
}

/// The place where an item is inserted: every item before it comes before
/// the new one, and the item at it, if there is one, does not.
proof fn lemma_insert_position<T: Named>(sorted: Seq<T>, item: T)
    ensures
        0 <= insert_position(sorted, item) <= sorted.len(),
        forall|i: int|
            0 <= i < insert_position(sorted, item) ==> precedes(#[trigger] sorted[i], item),
        insert_position(sorted, item) < sorted.len() ==> !precedes(
            sorted[insert_position(sorted, item)],
            item,
        ),
    decreases sorted.len(),
{
    if sorted.len() > 0 && precedes(sorted.first(), item) {
        let rest = sorted.drop_first();
        lemma_insert_position(rest, item);
        assert forall|i: int| 0 <= i < insert_position(sorted, item) implies precedes(
            #[trigger] sorted[i],
            item,
        ) by {
            if i > 0 {
                assert(sorted[i] == rest[i - 1]);
            }
        }
        if insert_position(sorted, item) < sorted.len() {
            assert(sorted[insert_position(sorted, item)] == rest[insert_position(rest, item)]);
        }
    }
}

/// Inserting an item at its place keeps an ascending list ascending.
proof fn lemma_insert_keeps_ascending<T: Named>(sorted: Seq<T>, item: T)
    requires
        ascending(sorted),
    ensures
        ascending(sorted.insert(insert_position(sorted, item), item)),
{
    let p = insert_position(sorted, item);
    let after = sorted.insert(p, item);
    let key = encode_utf8(item.label());
    lemma_insert_position(sorted, item);
    assert forall|i: int, j: int| 0 <= i < j < after.len() implies !precedes(
        #[trigger] after[j],
        #[trigger] after[i],
    ) by {
        if j == p {
            assert(after[i] == sorted[i]);
            let other = encode_utf8(sorted[i].label());
            if lex_lt(key, other) {
                lemma_lex_transitive(key, other, key);
                lemma_lex_irreflexive(key);
            }
        } else if i == p {
            assert(after[j] == sorted[j - 1]);
            let other = encode_utf8(sorted[j - 1].label());
            let at = encode_utf8(sorted[p].label());
            if lex_lt(other, key) {
                lemma_lex_total(key, at);
                if lex_lt(key, at) {
                    lemma_lex_transitive(other, key, at);
                }
                if j - 1 > p {
                    assert(!precedes(sorted[j - 1], sorted[p]));
                }
            }
        } else {
            let i0 = if i < p {
                i
            } else {
                i - 1
            };
            let j0 = if j < p {
                j
            } else {
                j - 1
            };
            assert(after[i] == sorted[i0]);
            assert(after[j] == sorted[j0]);
        }
    }
}

/// The sorted list is ascending and holds the same items as often as the
/// list it was made from.
pub proof fn lemma_sorted_by_name<T: Named>(items: Seq<T>)
    ensures
        ascending(sorted_by_name(items)),
        sorted_by_name(items).to_multiset() == items.to_multiset(),
        sorted_by_name(items).len() == items.len(),
    decreases items.len(),
{
    if items.len() > 0 {
        let rest = sorted_by_name(items.drop_first());
        let p = insert_position(rest, items.first());
        lemma_sorted_by_name(items.drop_first());
        lemma_insert_position(rest, items.first());
        lemma_insert_keeps_ascending(rest, items.first());
        to_multiset_insert(rest, p, items.first());
        to_multiset_insert(items.drop_first(), 0, items.first());
        assert(items.drop_first().insert(0, items.first()) =~= items);
    } else {
        assert(sorted_by_name(items) =~= items);
    }
}

/// A list that holds the same items as often as a list of items with
/// different names is itself a list of items with different names.
proof fn lemma_distinct_names_of_permutation<T: Named>(items: Seq<T>, other: Seq<T>)
    requires
        distinct_names(items),
        items.to_multiset() == other.to_multiset(),
    ensures
        distinct_names(other),
{
    assert(items.no_duplicates());
    items.lemma_multiset_has_no_duplicates();
    other.lemma_multiset_has_no_duplicates_conv();
    assert forall|i: int, j: int| 0 <= i < j < other.len() implies (#[trigger] other[i]).label()
        != (#[trigger] other[j]).label() by {
        to_multiset_contains(other, other[i]);
        to_multiset_contains(other, other[j]);
        to_multiset_contains(items, other[i]);
        to_multiset_contains(items, other[j]);
        assert(other.contains(other[i]) && other.contains(other[j]));
        let m = choose|m: int| 0 <= m < items.len() && items[m] == other[i];
        let n = choose|n: int| 0 <= n < items.len() && items[n] == other[j];
        assert(other[i] != other[j]);
        assert(m != n);
    }
}

/// An ascending list of items with different names is strictly ascending.
proof fn lemma_strictly_ascending<T: Named>(items: Seq<T>)
    requires
        ascending(items),
        distinct_names(items),
    ensures
        strictly_ascending(items),
{
    assert forall|i: int, j: int| 0 <= i < j < items.len() implies precedes(
        #[trigger] items[i],
        #[trigger] items[j],
    ) by {
        lemma_names_apart(items[i], items[j]);
    }
}

/// Two strictly ascending lists that hold the same items are the same list.
proof fn lemma_strictly_ascending_unique<T: Named>(x: Seq<T>, y: Seq<T>)
    requires
        strictly_ascending(x),
        strictly_ascending(y),
        x.to_multiset() == y.to_multiset(),
    ensures
        x == y,
    decreases x.len(),
{
    to_multiset_len(x);
    to_multiset_len(y);
    if x.len() == 0 {
        assert(x =~= y);
    } else {
        let n = x.len() as int;
        let u = x.last();
        let w = y.last();
        to_multiset_contains(x, u);
        to_multiset_contains(y, u);
        to_multiset_contains(x, w);
        to_multiset_contains(y, w);
        assert(x.contains(u));
        assert(y.contains(w));
        let j = choose|j: int| 0 <= j < y.len() && y[j] == u;
        let i = choose|i: int| 0 <= i < x.len() && x[i] == w;
        if j < n - 1 {
            assert(precedes(y[j], y[n - 1]));
            let ku = encode_utf8(u.label());
            let kw = encode_utf8(w.label());
            if i < n - 1 {
                assert(precedes(x[i], x[n - 1]));
                lemma_lex_transitive(ku, kw, ku);
            }
            lemma_lex_irreflexive(ku);
        }
        assert(u == w);
        to_multiset_remove(x, n - 1);
        to_multiset_remove(y, n - 1);
        assert(x.remove(n - 1) =~= x.drop_last());
        assert(y.remove(n - 1) =~= y.drop_last());
        assert(strictly_ascending(x.drop_last())) by {
            assert forall|a: int, b: int| 0 <= a < b < x.drop_last().len() implies precedes(
                #[trigger] x.drop_last()[a],
                #[trigger] x.drop_last()[b],
            ) by {
                assert(precedes(x[a], x[b]));
            }
        }
        assert(strictly_ascending(y.drop_last())) by {
            assert forall|a: int, b: int| 0 <= a < b < y.drop_last().len() implies precedes(
                #[trigger] y.drop_last()[a],
                #[trigger] y.drop_last()[b],
            ) by {
                assert(precedes(y[a], y[b]));
            }
        }
        lemma_strictly_ascending_unique(x.drop_last(), y.drop_last());
        assert(x =~= x.drop_last().push(u));
        assert(y =~= y.drop_last().push(w));
    }
}

/// Sorting does not depend on the order in which the items came, where
/// no two of them have the same name.
pub proof fn lemma_sorted_ignores_order<T: Named>(a: Seq<T>, b: Seq<T>)
    requires
        distinct_names(a),
        a.to_multiset() == b.to_multiset(),
    ensures
        sorted_by_name(a) == sorted_by_name(b),
{
    lemma_sorted_by_name(a);
    lemma_sorted_by_name(b);
    lemma_distinct_names_of_permutation(a, sorted_by_name(a));
    lemma_distinct_names_of_permutation(a, sorted_by_name(b));
    lemma_strictly_ascending(sorted_by_name(a));
    lemma_strictly_ascending(sorted_by_name(b));
    lemma_strictly_ascending_unique(sorted_by_name(a), sorted_by_name(b));
}

/// The stamp does not depend on the order of the sections, where no two
/// sections have the same name.
pub proof fn lemma_signature_ignores_section_order(
    player_handle: usize,
    a: Seq<Section>,
    b: Seq<Section>,
)
    requires
        distinct_names(a),
        a.to_multiset() == b.to_multiset(),
    ensures
        spec_signature_message(player_handle, a) == spec_signature_message(player_handle, b),
        spec_signature(player_handle, a) == spec_signature(player_handle, b),
{
    lemma_sorted_ignores_order(a, b);
}

/// Two sections with the same name and the same entries, which may stand in
/// another order and of which no two have the same name.
pub open spec fn same_entries(x: Section, y: Section) -> bool {
    &&& x.name@ == y.name@
    &&& x.keys@.to_multiset() == y.keys@.to_multiset()
    &&& distinct_names(x.keys@)
}

/// Each section of the one list has the same name and the same entries as
/// the section at its place in the other.
pub open spec fn same_entries_each(a: Seq<Section>, b: Seq<Section>) -> bool {
    &&& a.len() == b.len()
    &&& forall|i: int| 0 <= i < a.len() ==> same_entries(#[trigger] a[i], b[i])
}

/// The two lists are as long as each other, and the items at each place
/// have the same name.
pub open spec fn same_names<T: Named>(a: Seq<T>, b: Seq<T>) -> bool {
    &&& a.len() == b.len()
    &&& forall|i: int| 0 <= i < a.len() ==> (#[trigger] a[i]).label() == b[i].label()
}

/// The place of an item depends on the names only.
proof fn lemma_insert_position_by_names<T: Named>(a: Seq<T>, b: Seq<T>, x: T, y: T)
    requires
        same_names(a, b),
        x.label() == y.label(),
    ensures
        insert_position(a, x) == insert_position(b, y),
    decreases a.len(),
{
    if a.len() > 0 {
        assert(a[0].label() == b[0].label());
        assert(same_names(a.drop_first(), b.drop_first())) by {
            assert forall|i: int| 0 <= i < a.drop_first().len() implies (
            #[trigger] a.drop_first()[i]).label() == b.drop_first()[i].label() by {
                assert(a[i + 1].label() == b[i + 1].label());
            }
        }
        lemma_insert_position_by_names(a.drop_first(), b.drop_first(), x, y);
    }
}

/// Sorting two lists of sections that agree place by place gives two lists
/// that agree place by place.
proof fn lemma_sorted_same_entries(a: Seq<Section>, b: Seq<Section>)
    requires
        same_entries_each(a, b),
    ensures
        same_entries_each(sorted_by_name(a), sorted_by_name(b)),
    decreases a.len(),
{
    if a.len() > 0 {
        let rest_a = sorted_by_name(a.drop_first());
        let rest_b = sorted_by_name(b.drop_first());
        assert(same_entries(a[0], b[0]));
        assert(same_entries_each(a.drop_first(), b.drop_first())) by {
            assert forall|i: int| 0 <= i < a.drop_first().len() implies same_entries(
                #[trigger] a.drop_first()[i],
                b.drop_first()[i],
            ) by {
                assert(same_entries(a[i + 1], b[i + 1]));
            }
        }
        lemma_sorted_same_entries(a.drop_first(), b.drop_first());
        assert(same_names(rest_a, rest_b)) by {
            assert forall|i: int| 0 <= i < rest_a.len() implies (#[trigger] rest_a[i]).label()
                == rest_b[i].label() by {
                assert(same_entries(rest_a[i], rest_b[i]));
            }
        }
        lemma_insert_position_by_names(rest_a, rest_b, a.first(), b.first());
        lemma_insert_position(rest_a, a.first());
        let p = insert_position(rest_a, a.first());
        let sorted_a = rest_a.insert(p, a.first());
        let sorted_b = rest_b.insert(p, b.first());
        assert forall|i: int| 0 <= i < sorted_a.len() implies same_entries(
            #[trigger] sorted_a[i],
            sorted_b[i],
        ) by {
            if i < p {
                assert(same_entries(rest_a[i], rest_b[i]));
            } else if i > p {
                assert(same_entries(rest_a[i - 1], rest_b[i - 1]));
            }
        }
    }
}

/// Sections that agree place by place add the same to the message.
proof fn lemma_sections_message_same_entries(a: Seq<Section>, b: Seq<Section>)
    requires
        same_entries_each(a, b),
    ensures
        sections_message(a) == sections_message(b),
    decreases a.len(),
{
    if a.len() > 0 {
        assert(same_entries(a[a.len() - 1], b[a.len() - 1]));
        assert(same_entries_each(a.drop_last(), b.drop_last())) by {
            assert forall|i: int| 0 <= i < a.drop_last().len() implies same_entries(
                #[trigger] a.drop_last()[i],
                b.drop_last()[i],
            ) by {
                assert(same_entries(a[i], b[i]));
            }
        }
        lemma_sections_message_same_entries(a.drop_last(), b.drop_last());
        lemma_sorted_ignores_order(a.last().keys@, b.last().keys@);
    }
}

/// The stamp does not depend on the order of the entries within the
/// sections, where no two entries of a section have the same name.
pub proof fn lemma_signature_ignores_entry_order(
    player_handle: usize,
    a: Seq<Section>,
    b: Seq<Section>,
)
    requires
        same_entries_each(a, b),
    ensures
        spec_signature_message(player_handle, a) == spec_signature_message(player_handle, b),
        spec_signature(player_handle, a) == spec_signature(player_handle, b),
{
    lemma_sorted_same_entries(a, b);
    lemma_sections_message_same_entries(sorted_by_name(a), sorted_by_name(b));
}


/// The two lists are the same but for the item at place `i`, which has the
/// same name in both.
pub open spec fn same_but_at<T: Named>(a: Seq<T>, b: Seq<T>, i: int) -> bool {
    &&& a.len() == b.len()
    &&& 0 <= i < a.len()
    &&& a[i].label() == b[i].label()
    &&& forall|m: int| 0 <= m < a.len() && m != i ==> #[trigger] a[m] == b[m]
}

/// Sorting two lists that are the same but for one item gives two lists
/// that are the same but for that item, which stands at one place in both.
proof fn lemma_sorted_same_but_at<T: Named>(a: Seq<T>, b: Seq<T>, i: int) -> (p: int)
    requires
        same_but_at(a, b, i),
    ensures
        same_but_at(sorted_by_name(a), sorted_by_name(b), p),
        sorted_by_name(a)[p] == a[i],
        sorted_by_name(b)[p] == b[i],
    decreases a.len(),
{
    let rest_a = sorted_by_name(a.drop_first());
    let rest_b = sorted_by_name(b.drop_first());
    if i == 0 {
        assert(a.drop_first() =~= b.drop_first()) by {
            assert forall|m: int| 0 <= m < a.drop_first().len() implies a.drop_first()[m]
                == b.drop_first()[m] by {
                assert(a[m + 1] == b[m + 1]);
            }
        }
        lemma_insert_position_by_names(rest_a, rest_b, a[0], b[0]);
        lemma_insert_position(rest_a, a[0]);
        let p = insert_position(rest_a, a[0]);
        let sorted_a = rest_a.insert(p, a[0]);
        let sorted_b = rest_b.insert(p, b[0]);
        assert forall|m: int| 0 <= m < sorted_a.len() && m != p implies #[trigger] sorted_a[m]
            == sorted_b[m] by {}
        p
    } else {
        assert(same_but_at(a.drop_first(), b.drop_first(), i - 1)) by {
            assert(a.drop_first()[i - 1] == a[i]);
            assert(b.drop_first()[i - 1] == b[i]);
            assert forall|m: int|
                0 <= m < a.drop_first().len() && m != i - 1 implies #[trigger] a.drop_first()[m]
                == b.drop_first()[m] by {
                assert(a[m + 1] == b[m + 1]);
            }
        }
        let inner = lemma_sorted_same_but_at(a.drop_first(), b.drop_first(), i - 1);
        assert(a[0] == b[0]);
        assert(same_names(rest_a, rest_b)) by {
            assert forall|m: int| 0 <= m < rest_a.len() implies (#[trigger] rest_a[m]).label()
                == rest_b[m].label() by {
                if m != inner {
                    assert(rest_a[m] == rest_b[m]);
                }
            }
        }
        lemma_insert_position_by_names(rest_a, rest_b, a[0], b[0]);
        lemma_insert_position(rest_a, a[0]);
        let q = insert_position(rest_a, a[0]);
        let p = if inner < q {
            inner
        } else {
            inner + 1
        };
        let sorted_a = rest_a.insert(q, a[0]);
        let sorted_b = rest_b.insert(q, b[0]);
        assert forall|m: int| 0 <= m < sorted_a.len() && m != p implies #[trigger] sorted_a[m]
            == sorted_b[m] by {
            if m < q {
                assert(rest_a[m] == rest_b[m]);
            } else if m > q {
                assert(rest_a[m - 1] == rest_b[m - 1]);
            }
        }
        p
    }
}

/// Two byte strings that differ only in their middle parts differ where
/// the middle parts do.
proof fn lemma_middle_differs(before: Seq<u8>, x: Seq<u8>, y: Seq<u8>, after: Seq<u8>)
    requires
        x != y,
    ensures
        before + x + after != before + y + after,
{
    let left = before + x + after;
    let right = before + y + after;
    if left == right {
        assert(left.len() == right.len());
        assert forall|k: int| 0 <= k < x.len() implies x[k] == y[k] by {
            assert(left[before.len() + k] == x[k]);
            assert(right[before.len() + k] == y[k]);
        }
        assert(x =~= y);
    }
}

/// What the entries add to the message, split at one entry.
proof fn lemma_entries_message_split(keys: Seq<Key>, q: int)
    requires
        0 <= q < keys.len(),
    ensures
        entries_message(keys) == entries_message(keys.take(q)) + entry_message(keys[q])
            + entries_message(keys.skip(q + 1)),
    decreases keys.len(),
{
    let tail = keys.skip(q + 1);
    let head = entries_message(keys.take(q));
    let at = entry_message(keys[q]);
    if q == keys.len() - 1 {
        assert(keys.take(q) =~= keys.drop_last());
        assert(tail.len() == 0);
        assert(head + at + entries_message(tail) =~= head + at);
    } else {
        let shorter = keys.drop_last();
        let last = entry_message(keys.last());
        let rest = entries_message(tail.drop_last());
        lemma_entries_message_split(shorter, q);
        assert(shorter.take(q) =~= keys.take(q));
        assert(shorter.skip(q + 1) =~= tail.drop_last());
        assert(shorter[q] == keys[q]);
        assert(tail.last() == keys.last());
        assert(entries_message(shorter) == head + at + rest);
        assert(entries_message(tail) == rest + last);
        assert(entries_message(keys) == entries_message(shorter) + last);
        assert((head + at + rest) + last =~= head + at + (rest + last));
    }
}

/// What the sections add to the message, split at one section.
proof fn lemma_sections_message_split(sections: Seq<Section>, p: int)
    requires
        0 <= p < sections.len(),
    ensures
        sections_message(sections) == sections_message(sections.take(p)) + section_message(
            sections[p],
        ) + sections_message(sections.skip(p + 1)),
    decreases sections.len(),
{
    let tail = sections.skip(p + 1);
    let head = sections_message(sections.take(p));
    let at = section_message(sections[p]);
    if p == sections.len() - 1 {
        assert(sections.take(p) =~= sections.drop_last());
        assert(tail.len() == 0);
        assert(head + at + sections_message(tail) =~= head + at);
    } else {
        let shorter = sections.drop_last();
        let last = section_message(sections.last());
        let rest = sections_message(tail.drop_last());
        lemma_sections_message_split(shorter, p);
        assert(shorter.take(p) =~= sections.take(p));
        assert(shorter.skip(p + 1) =~= tail.drop_last());
        assert(shorter[p] == sections[p]);
        assert(tail.last() == sections.last());
        assert(sections_message(shorter) == head + at + rest);
        assert(sections_message(tail) == rest + last);
        assert(sections_message(sections) == sections_message(shorter) + last);
        assert((head + at + rest) + last =~= head + at + (rest + last));
    }
}

/// Two entries with one name and different texts add different bytes to
/// the message.
proof fn lemma_entry_message_differs(x: Key, y: Key)
    requires
        x.name@ == y.name@,
        x.value.string@ != y.value.string@,
    ensures
        entry_message(x) != entry_message(y),
{
    encode_utf8_decode_utf8(x.value.string@);
    encode_utf8_decode_utf8(y.value.string@);
    let head = encode_utf8(x.name@) + encode_utf8(VALUE_MARKER@) + encode_utf8(STRING_MARKER@);
    lemma_middle_differs(
        head,
        encode_utf8(x.value.string@),
        encode_utf8(y.value.string@),
        Seq::empty(),
    );
    assert(entry_message(x) =~= head + encode_utf8(x.value.string@) + Seq::<u8>::empty());
    assert(entry_message(y) =~= head + encode_utf8(y.value.string@) + Seq::<u8>::empty());
}

/// The two lists of entries are the same but for the text of the entry at
/// place `j`.
pub open spec fn differ_in_text(a: Seq<Key>, b: Seq<Key>, j: int) -> bool {
    &&& same_but_at(a, b, j)
    &&& a[j].value.string@ != b[j].value.string@
}

/// The two lists of sections are the same but for the text of entry `j` of
/// section `i`.
pub open spec fn differ_in_one_text(a: Seq<Section>, b: Seq<Section>, i: int, j: int) -> bool {
    &&& same_but_at(a, b, i)
    &&& differ_in_text(a[i].keys@, b[i].keys@, j)
}

/// Entries that differ in one text add different bytes to the message.
proof fn lemma_entries_message_differs(a: Seq<Key>, b: Seq<Key>, j: int)
    requires
        differ_in_text(a, b, j),
    ensures
        entries_message(sorted_by_name(a)) != entries_message(sorted_by_name(b)),
{
    let q = lemma_sorted_same_but_at(a, b, j);
    let x = sorted_by_name(a);
    let y = sorted_by_name(b);
    lemma_entries_message_split(x, q);
    lemma_entries_message_split(y, q);
    assert(x.take(q) =~= y.take(q));
    assert(x.skip(q + 1) =~= y.skip(q + 1));
    lemma_entry_message_differs(x[q], y[q]);
    lemma_middle_differs(
        entries_message(x.take(q)),
        entry_message(x[q]),
        entry_message(y[q]),
        entries_message(x.skip(q + 1)),
    );
}

/// A change of the text of one entry changes the message that is hashed.
pub proof fn lemma_message_tells_texts_apart(
    player_handle: usize,
    a: Seq<Section>,
    b: Seq<Section>,
    i: int,
    j: int,
)
    requires
        differ_in_one_text(a, b, i, j),
    ensures
        spec_signature_message(player_handle, a) != spec_signature_message(player_handle, b),
{
    let p = lemma_sorted_same_but_at(a, b, i);
    let x = sorted_by_name(a);
    let y = sorted_by_name(b);
    lemma_sections_message_split(x, p);
    lemma_sections_message_split(y, p);
    assert(x.take(p) =~= y.take(p));
    assert(x.skip(p + 1) =~= y.skip(p + 1));
    lemma_entries_message_differs(a[i].keys@, b[i].keys@, j);
    let name = encode_utf8(a[i].name@);
    lemma_middle_differs(
        name,
        entries_message(sorted_by_name(a[i].keys@)),
        entries_message(sorted_by_name(b[i].keys@)),
        Seq::empty(),
    );
    assert(section_message(x[p]) =~= name + entries_message(sorted_by_name(a[i].keys@))
        + Seq::<u8>::empty());
    assert(section_message(y[p]) =~= name + entries_message(sorted_by_name(b[i].keys@))
        + Seq::<u8>::empty());
    lemma_middle_differs(
        sections_message(x.take(p)),
        section_message(x[p]),
        section_message(y[p]),
        sections_message(x.skip(p + 1)),
    );
    lemma_middle_differs(
        preamble(player_handle),
        sections_message(x),
        sections_message(y),
        Seq::empty(),
    );
    assert(spec_signature_message(player_handle, a) =~= preamble(player_handle)
        + sections_message(x) + Seq::<u8>::empty());
    assert(spec_signature_message(player_handle, b) =~= preamble(player_handle)
        + sections_message(y) + Seq::<u8>::empty());
}

} // verus!
