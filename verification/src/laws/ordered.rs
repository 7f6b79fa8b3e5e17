//! What holds of keys, groups, tallies and sorted lists.
use crate::ordered::{
    ascending, group_by, is_key, key1, key2, key3, key_lt, keys_of, lemma_rank, lemma_sorted_keys,
    lemma_text_total_ordering, lookup, occurrences, sorted_keys, sorted_texts, tally_of,
    value_under, values_for,
};
use crate::reorg::preflight::distinct;
use crate::seqs::lemma_filter_map_push;
use crate::text::{lemma_text_lt_irreflexive, lemma_text_lt_transitive, text_le, text_lt};
use vstd::prelude::*;

verus! {

/// Keys agree on their first `n` parts, and there the first one ends or has the part
/// that sorts first.
pub open spec fn keys_differ_at(a: Seq<Seq<char>>, b: Seq<Seq<char>>, n: int) -> bool {
    0 <= n <= a.len() && n < b.len() && a.take(n) == b.take(n) && (n == a.len() || text_lt(
        a[n],
        b[n],
    ))
}

/// Keys are ordered by the first part in which they differ.
pub proof fn law_keys_are_ordered_by_the_first_difference(a: Seq<Seq<char>>, b: Seq<Seq<char>>)
    ensures
        key_lt(a, b) <==> exists|n: int| #[trigger] keys_differ_at(a, b, n),
    decreases b.len(),
{
    if b.len() > 0 {
        if a.len() == 0 {
            assert(a.take(0) =~= b.take(0));
            assert(keys_differ_at(a, b, 0));
        } else if a[0] != b[0] {
            if text_lt(a[0], b[0]) {
                assert(a.take(0) =~= b.take(0));
                assert(keys_differ_at(a, b, 0));
            }
            if exists|n: int| #[trigger] keys_differ_at(a, b, n) {
                let n = choose|n: int| #[trigger] keys_differ_at(a, b, n);
                if n > 0 {
                    assert(a.take(n)[0] == b.take(n)[0]);
                }
            }
        } else {
            let x = a.skip(1);
            let y = b.skip(1);
            law_keys_are_ordered_by_the_first_difference(x, y);
            if key_lt(x, y) {
                let n = choose|n: int| #[trigger] keys_differ_at(x, y, n);
                assert(a.take(n + 1) =~= seq![a[0]] + x.take(n));
                assert(b.take(n + 1) =~= seq![b[0]] + y.take(n));
                assert(keys_differ_at(a, b, n + 1));
            }
            if exists|n: int| #[trigger] keys_differ_at(a, b, n) {
                let n = choose|n: int| #[trigger] keys_differ_at(a, b, n);
                lemma_text_lt_irreflexive(a[0]);
                assert(n > 0);
                assert(x.take(n - 1) =~= a.take(n).skip(1));
                assert(y.take(n - 1) =~= b.take(n).skip(1));
                assert(keys_differ_at(x, y, n - 1));
            }
        }
    }
}

/// Keys of one, two and three texts are known by their texts.
pub proof fn law_keys_are_their_parts(a: Seq<char>, b: Seq<char>, c: Seq<char>)
    ensures
        key1(a) == seq![a],
        key2(a, b) == seq![a, b],
        key3(a, b, c) == seq![a, b, c],
{
}

/// The values under a key are those of its items, in their order.
pub proof fn law_values_keep_their_order<W>(
    items: Seq<(Seq<Seq<char>>, W)>,
    k: Seq<Seq<char>>,
    j: Seq<Seq<char>>,
    w: W,
)
    ensures
        values_for(Seq::<(Seq<Seq<char>>, W)>::empty(), k).len() == 0,
        values_for(items.push((k, w)), k) == values_for(items, k).push(w),
        j != k ==> values_for(items.push((j, w)), k) == values_for(items, k),
{
    lemma_filter_map_push(items, value_under(k), (k, w));
    lemma_filter_map_push(items, value_under(k), (j, w));
}

/// Items are grouped by their keys, in ascending order: a key has a group exactly
/// where it has an item, and the group is its values.
pub proof fn law_groups_are_the_values_of_a_key<W>(
    items: Seq<(Seq<Seq<char>>, W)>,
    k: Seq<Seq<char>>,
)
    ensures
        ascending(keys_of(group_by(items))),
        lookup(group_by(items), k) is Some <==> exists|i: int|
            0 <= i < items.len() && (#[trigger] items[i]).0 == k,
        lookup(group_by(items), k) matches Some(vs) ==> vs == values_for(items, k),
{
    let keys = keys_of(items);
    lemma_sorted_keys(keys);
    let sorted = sorted_keys(keys);
    assert(keys_of(group_by(items)) =~= sorted);
    lemma_rank(sorted, k);
    if exists|i: int| 0 <= i < items.len() && (#[trigger] items[i]).0 == k {
        let i = choose|i: int| 0 <= i < items.len() && (#[trigger] items[i]).0 == k;
        assert(keys[i] == k);
        assert(keys.contains(k));
    }
    if sorted.contains(k) {
        assert(keys.contains(k));
        let i = choose|i: int| 0 <= i < keys.len() && keys[i] == k;
        assert(items[i].0 == k);
    }
}

/// A key occurs once more with each occurrence, and a tally tells how often.
pub proof fn law_tally_counts_occurrences(
    keys: Seq<Seq<Seq<char>>>,
    k: Seq<Seq<char>>,
    j: Seq<Seq<char>>,
)
    requires
        keys.len() <= usize::MAX,
    ensures
        occurrences(Seq::empty(), k) == 0,
        occurrences(keys.push(k), k) == occurrences(keys, k) + 1,
        j != k ==> occurrences(keys.push(j), k) == occurrences(keys, k),
        lookup(tally_of(keys), k) is Some <==> keys.contains(k),
        lookup(tally_of(keys), k) matches Some(n) ==> n == occurrences(keys, k),
        ascending(keys_of(tally_of(keys))),
{
    reveal(Seq::filter);
    keys.lemma_filter_push(k, is_key(k));
    keys.lemma_filter_push(j, is_key(k));
    lemma_sorted_keys(keys);
    let sorted = sorted_keys(keys);
    assert(keys_of(tally_of(keys)) =~= sorted);
    lemma_rank(sorted, k);
    keys.lemma_filter_len(is_key(k));
    assert(sorted.contains(k) <==> keys.contains(k));
}

/// A sorted list has the texts of the list, each as often, in ascending order.
pub proof fn law_sorted_list_has_the_same_texts(s: Seq<Seq<char>>)
    ensures
        sorted_texts(s).to_multiset() == s.to_multiset(),
        sorted_texts(s).len() == s.len(),
        forall|i: int, j: int|
            0 <= i < j < s.len() ==> !text_lt(
                #[trigger] sorted_texts(s)[j],
                #[trigger] sorted_texts(s)[i],
            ),
{
    lemma_text_total_ordering();
    let leq = |a: Seq<char>, b: Seq<char>| text_le(a, b);
    s.lemma_sort_by_ensures(leq);
    broadcast use vstd::seq_lib::group_to_multiset_ensures;

    let out = sorted_texts(s);
    assert(out.to_multiset().len() == out.len());
    assert(s.to_multiset().len() == s.len());
    assert forall|i: int, j: int| 0 <= i < j < s.len() implies !text_lt(
        #[trigger] out[j],
        #[trigger] out[i],
    ) by {
        assert(vstd::relations::sorted_by(out, leq));
        assert(leq(out[i], out[j]));
        lemma_text_lt_irreflexive(out[i]);
        if text_lt(out[j], out[i]) && out[i] != out[j] {
            lemma_text_lt_transitive(out[i], out[j], out[i]);
        }
    }
}

/// A list without repetitions has the texts of the list, each once, in the order in
/// which they first stand there.
pub proof fn law_distinct_texts_stand_once(s: Seq<Seq<char>>)
    ensures
        distinct(s).no_duplicates(),
        forall|t: Seq<char>| #[trigger] distinct(s).contains(t) <==> s.contains(t),
        forall|i: int, j: int|
            0 <= i < j < distinct(s).len() ==> stands_first(
                s,
                #[trigger] distinct(s)[i],
                #[trigger] distinct(s)[j],
            ),
    decreases s.len(),
{
    if s.len() > 0 {
        let rest = s.drop_last();
        let x = s.last();
        law_distinct_texts_stand_once(rest);
        let d = distinct(rest);
        let out = distinct(s);
        assert forall|t: Seq<char>| #[trigger] s.contains(t) <==> rest.contains(t) || t == x by {
            if s.contains(t) {
                let i = choose|i: int| 0 <= i < s.len() && s[i] == t;
                if i < rest.len() {
                    assert(rest[i] == t);
                }
            }
            if rest.contains(t) {
                let i = choose|i: int| 0 <= i < rest.len() && rest[i] == t;
                assert(s[i] == t);
            }
            assert(s[s.len() - 1] == x);
        }
        assert forall|t: Seq<char>| #[trigger] out.contains(t) <==> s.contains(t) by {
            assert(d.contains(t) <==> rest.contains(t));
            if !d.contains(x) {
                if out.contains(t) {
                    let i = choose|i: int| 0 <= i < out.len() && out[i] == t;
                    if i < d.len() {
                        assert(d[i] == t);
                    }
                }
                if d.contains(t) {
                    let i = choose|i: int| 0 <= i < d.len() && d[i] == t;
                    assert(out[i] == t);
                }
                assert(out[d.len() as int] == x);
            }
        }
        assert forall|i: int, j: int| 0 <= i < j < out.len() implies stands_first(
            s,
            #[trigger] out[i],
            #[trigger] out[j],
        ) by {
            if j < d.len() {
                assert(stands_first(rest, d[i], d[j]));
                let k = choose|k: int|
                    0 <= k < rest.len() && rest[k] == d[i] && forall|m: int|
                        0 <= m <= k ==> #[trigger] rest[m] != d[j];
                assert forall|m: int| 0 <= m <= k implies #[trigger] s[m] != out[j] by {
                    assert(rest[m] == s[m]);
                }
                assert(s[k] == out[i]);
            } else {
                assert(d.contains(d[i]));
                assert(rest.contains(d[i]));
                let k = choose|k: int| 0 <= k < rest.len() && rest[k] == d[i];
                assert forall|m: int| 0 <= m <= k implies #[trigger] s[m] != out[j] by {
                    assert(rest[m] == s[m]);
                    if s[m] == x {
                        assert(rest.contains(x));
                        assert(d.contains(x));
                    }
                }
                assert(s[k] == out[i]);
            }
        }
    }
}

/// A text stands in a list before another does.
pub open spec fn stands_first(s: Seq<Seq<char>>, a: Seq<char>, b: Seq<char>) -> bool {
    exists|k: int|
        0 <= k < s.len() && #[trigger] s[k] == a && forall|m: int|
            0 <= m <= k ==> #[trigger] s[m] != b
}

} // verus!
