//! Maps and groupings whose keys are texts, or tuples of texts, kept in
//! ascending key order.
use crate::seqs::{
    lemma_filter_map_contains, lemma_filter_map_push, lemma_insert_multiset, lemma_take_all,
    lemma_take_push, push_item,
};
use crate::text::{
    compare_text, lemma_text_lt_irreflexive, lemma_text_lt_total, lemma_text_lt_transitive, text_le,
    text_lt, Order,
};
use vstd::prelude::*;

verus! {

/// `a` sorts strictly before `b`: the first differing part decides.
pub open spec fn key_lt(a: Seq<Seq<char>>, b: Seq<Seq<char>>) -> bool
    decreases b.len(),
{
    if b.len() == 0 {
        false
    } else if a.len() == 0 {
        true
    } else if a[0] != b[0] {
        text_lt(a[0], b[0])
    } else {
        key_lt(a.skip(1), b.skip(1))
    }
}

/// No key sorts before itself.
pub proof fn lemma_key_lt_irreflexive(a: Seq<Seq<char>>)
    ensures
        !key_lt(a, a),
    decreases a.len(),
{
    if a.len() > 0 {
        lemma_key_lt_irreflexive(a.skip(1));
    }
}

/// The order of keys is transitive.
pub proof fn lemma_key_lt_transitive(a: Seq<Seq<char>>, b: Seq<Seq<char>>, c: Seq<Seq<char>>)
    requires
        key_lt(a, b),
        key_lt(b, c),
    ensures
        key_lt(a, c),
    decreases b.len(),
{
    if a.len() > 0 {
        if a[0] == b[0] && b[0] == c[0] {
            lemma_key_lt_transitive(a.skip(1), b.skip(1), c.skip(1));
        } else if a[0] != b[0] && b[0] != c[0] {
            lemma_text_lt_transitive(a[0], b[0], c[0]);
            lemma_text_lt_irreflexive(a[0]);
        }
    }
}

/// Any two different keys are ordered one way or the other.
pub proof fn lemma_key_lt_total(a: Seq<Seq<char>>, b: Seq<Seq<char>>)
    ensures
        a == b || key_lt(a, b) || key_lt(b, a),
    decreases a.len(),
{
    if a.len() == 0 && b.len() == 0 {
        assert(a =~= b);
    } else if a.len() > 0 && b.len() > 0 {
        lemma_text_lt_total(a[0], b[0]);
        if a[0] == b[0] {
            lemma_key_lt_total(a.skip(1), b.skip(1));
            if a.skip(1) == b.skip(1) {
                assert(a.skip(1).len() == b.skip(1).len());
                assert forall|i: int| 0 <= i < a.len() implies a[i] == b[i] by {
                    if i > 0 {
                        assert(a.skip(1)[i - 1] == b.skip(1)[i - 1]);
                    }
                }
                assert(a =~= b);
            }
        }
    }
}

/// The order of two keys.
pub open spec fn key_order(a: Seq<Seq<char>>, b: Seq<Seq<char>>) -> Order {
    if a == b {
        Order::Equal
    } else if key_lt(a, b) {
        Order::Less
    } else {
        Order::Greater
    }
}

/// A value that serves as a key: one or more texts, compared part by part.
pub trait TextKey: Sized {
    /// The texts that make up the key, most significant first.
    spec fn parts(&self) -> Seq<Seq<char>>;

    /// Compare two keys.
    fn order(&self, other: &Self) -> (r: Order)
        ensures
            r == key_order(self.parts(), other.parts()),
    ;
}

/// The key of a single text.
pub open spec fn key1(a: Seq<char>) -> Seq<Seq<char>> {
    seq![a]
}

/// The key of two texts.
pub open spec fn key2(a: Seq<char>, b: Seq<char>) -> Seq<Seq<char>> {
    seq![a, b]
}

/// The key of three texts.
pub open spec fn key3(a: Seq<char>, b: Seq<char>, c: Seq<char>) -> Seq<Seq<char>> {
    seq![a, b, c]
}

impl TextKey for String {
    open spec fn parts(&self) -> Seq<Seq<char>> {
        key1(self@)
    }

    fn order(&self, other: &Self) -> (r: Order) {
        proof {
            reveal_with_fuel(key_lt, 2);
            assert(self.parts()[0] == self@ && other.parts()[0] == other@);
            if self@ == other@ {
                assert(self.parts() =~= other.parts());
            }
            lemma_key_lt_irreflexive(Seq::<Seq<char>>::empty());
        }
        compare_text(self.as_str(), other.as_str())
    }
}

impl TextKey for (String, String) {
    open spec fn parts(&self) -> Seq<Seq<char>> {
        key2(self.0@, self.1@)
    }

    fn order(&self, other: &Self) -> (r: Order) {
        proof {
            reveal_with_fuel(key_lt, 3);
            let a = self.parts();
            let b = other.parts();
            assert(a[0] == self.0@ && b[0] == other.0@ && a[1] == self.1@ && b[1] == other.1@);
            assert(a.skip(1)[0] == a[1] && b.skip(1)[0] == b[1]);
            if self.0@ == other.0@ && self.1@ == other.1@ {
                assert(a =~= b);
            }
        }
        match compare_text(self.0.as_str(), other.0.as_str()) {
            Order::Equal => compare_text(self.1.as_str(), other.1.as_str()),
            o => o,
        }
    }
}

impl TextKey for (String, String, String) {
    open spec fn parts(&self) -> Seq<Seq<char>> {
        key3(self.0@, self.1@, self.2@)
    }

    fn order(&self, other: &Self) -> (r: Order) {
        proof {
            reveal_with_fuel(key_lt, 4);
            let a = self.parts();
            let b = other.parts();
            assert(a[0] == self.0@ && b[0] == other.0@ && a[1] == self.1@ && b[1] == other.1@ && a[2]
                == self.2@ && b[2] == other.2@);
            assert(a.skip(1)[0] == a[1] && b.skip(1)[0] == b[1]);
            assert(a.skip(1).skip(1)[0] == a[2] && b.skip(1).skip(1)[0] == b[2]);
            if self.0@ == other.0@ && self.1@ == other.1@ && self.2@ == other.2@ {
                assert(a =~= b);
            }
        }
        match compare_text(self.0.as_str(), other.0.as_str()) {
            Order::Equal => match compare_text(self.1.as_str(), other.1.as_str()) {
                Order::Equal => compare_text(self.2.as_str(), other.2.as_str()),
                o => o,
            },
            o => o,
        }
    }
}

/// Each key sorts strictly before every later one.
pub open spec fn ascending(keys: Seq<Seq<Seq<char>>>) -> bool {
    forall|i: int, j: int| 0 <= i < j < keys.len() ==> key_lt(#[trigger] keys[i], #[trigger] keys[j])
}

/// The first position whose key does not sort before `k`.
pub open spec fn rank(keys: Seq<Seq<Seq<char>>>, k: Seq<Seq<char>>) -> int
    decreases keys.len(),
{
    if keys.len() == 0 || !key_lt(keys.last(), k) {
        if keys.len() == 0 {
            0
        } else {
            rank(keys.drop_last(), k)
        }
    } else {
        keys.len() as int
    }
}

/// What `rank` means on ascending keys.
pub proof fn lemma_rank(keys: Seq<Seq<Seq<char>>>, k: Seq<Seq<char>>)
    requires
        ascending(keys),
    ensures
        0 <= rank(keys, k) <= keys.len(),
        forall|i: int| 0 <= i < rank(keys, k) ==> key_lt(#[trigger] keys[i], k),
        forall|i: int| rank(keys, k) <= i < keys.len() ==> !key_lt(#[trigger] keys[i], k),
        forall|i: int| rank(keys, k) < i < keys.len() ==> key_lt(k, #[trigger] keys[i]),
        keys.contains(k) <==> rank(keys, k) < keys.len() && keys[rank(keys, k)] == k,
        rank(keys, k) < keys.len() && keys[rank(keys, k)] != k ==> key_lt(
            k,
            keys[rank(keys, k)],
        ),
    decreases keys.len(),
{
    if keys.len() > 0 {
        let rest = keys.drop_last();
        assert forall|i: int, j: int| 0 <= i < j < rest.len() implies key_lt(
            #[trigger] rest[i],
            #[trigger] rest[j],
        ) by {
            assert(rest[i] == keys[i] && rest[j] == keys[j]);
        }
        lemma_rank(rest, k);
        let n = rank(keys, k);
        lemma_key_lt_irreflexive(k);
        if key_lt(keys.last(), k) {
            assert forall|i: int| 0 <= i < keys.len() implies key_lt(#[trigger] keys[i], k) by {
                if i < keys.len() - 1 {
                    lemma_key_lt_transitive(keys[i], keys[keys.len() - 1], k);
                }
            }
        } else {
            assert forall|i: int| 0 <= i < n implies key_lt(#[trigger] keys[i], k) by {
                assert(rest[i] == keys[i]);
            }
            assert forall|i: int| n <= i < keys.len() implies !key_lt(#[trigger] keys[i], k) by {
                if i < rest.len() {
                    assert(rest[i] == keys[i]);
                }
            }
            if n < keys.len() {
                lemma_key_lt_total(k, keys[n]);
                assert forall|i: int| n < i < keys.len() implies key_lt(k, #[trigger] keys[i]) by {
                    assert(key_lt(keys[n], keys[i]));
                    if keys[n] != k {
                        lemma_key_lt_transitive(k, keys[n], keys[i]);
                    }
                }
            }
        }
        if keys.contains(k) {
            let i = choose|i: int| 0 <= i < keys.len() && keys[i] == k;
            if i < n {
                assert(key_lt(keys[i], k));
            } else if n < i {
                assert(key_lt(k, keys[i]));
            }
        }
    }
}

/// A position that splits ascending keys into those before `k` and the others is
/// the rank of `k`.
pub proof fn lemma_rank_unique(keys: Seq<Seq<Seq<char>>>, k: Seq<Seq<char>>, p: int)
    requires
        ascending(keys),
        0 <= p <= keys.len(),
        forall|i: int| 0 <= i < p ==> key_lt(#[trigger] keys[i], k),
        forall|i: int| p <= i < keys.len() ==> !key_lt(#[trigger] keys[i], k),
    ensures
        p == rank(keys, k),
{
    lemma_rank(keys, k);
    let n = rank(keys, k);
    if p < n {
        assert(key_lt(keys[p], k));
    } else if n < p {
        assert(key_lt(keys[n], k));
    }
}

/// The keys with `k` added in its place, unless it is there.
pub open spec fn insert_key(keys: Seq<Seq<Seq<char>>>, k: Seq<Seq<char>>) -> Seq<Seq<Seq<char>>> {
    if keys.contains(k) {
        keys
    } else {
        keys.insert(rank(keys, k), k)
    }
}

/// Adding a key keeps the keys ascending.
pub proof fn lemma_insert_key(keys: Seq<Seq<Seq<char>>>, k: Seq<Seq<char>>)
    requires
        ascending(keys),
    ensures
        ascending(insert_key(keys, k)),
        forall|j: Seq<Seq<char>>| #[trigger]
            insert_key(keys, k).contains(j) <==> j == k || keys.contains(j),
{
    lemma_rank(keys, k);
    let p = rank(keys, k);
    let out = insert_key(keys, k);
    if !keys.contains(k) {
        assert forall|i: int, j: int| 0 <= i < j < out.len() implies key_lt(
            #[trigger] out[i],
            #[trigger] out[j],
        ) by {
            if i < p && j == p {
                assert(key_lt(keys[i], k));
            } else if i < p && j > p {
                assert(key_lt(keys[i], keys[j - 1]));
            } else if i == p {
                assert(out[j] == keys[j - 1]);
                assert(key_lt(k, keys[j - 1]));
            } else if i > p {
                assert(key_lt(keys[i - 1], keys[j - 1]));
            } else {
                assert(key_lt(keys[i], keys[j]));
            }
        }
        assert(out[p] == k);
        assert forall|j: Seq<Seq<char>>| #[trigger]
            out.contains(j) <==> j == k || keys.contains(j) by {
            if keys.contains(j) {
                let i = choose|i: int| 0 <= i < keys.len() && keys[i] == j;
                if i < p {
                    assert(out[i] == j);
                } else {
                    assert(out[i + 1] == j);
                }
            }
            if out.contains(j) && j != k {
                let i = choose|i: int| 0 <= i < out.len() && out[i] == j;
                if i < p {
                    assert(keys[i] == j);
                } else {
                    assert(keys[i - 1] == j);
                }
            }
        }
    }
}

/// The distinct keys of a sequence in ascending order.
pub open spec fn sorted_keys(s: Seq<Seq<Seq<char>>>) -> Seq<Seq<Seq<char>>>
    decreases s.len(),
{
    if s.len() == 0 {
        Seq::empty()
    } else {
        insert_key(sorted_keys(s.drop_last()), s.last())
    }
}

/// The sorted keys are strictly ascending and are the keys that occur.
pub proof fn lemma_sorted_keys(s: Seq<Seq<Seq<char>>>)
    ensures
        ascending(sorted_keys(s)),
        forall|k: Seq<Seq<char>>| #[trigger] sorted_keys(s).contains(k) <==> s.contains(k),
    decreases s.len(),
{
    if s.len() > 0 {
        let rest = s.drop_last();
        lemma_sorted_keys(rest);
        lemma_insert_key(sorted_keys(rest), s.last());
        assert forall|k: Seq<Seq<char>>| #[trigger]
            sorted_keys(s).contains(k) <==> s.contains(k) by {
            assert(sorted_keys(s).contains(k) <==> k == s.last() || sorted_keys(rest).contains(k));
            if s.contains(k) {
                let i = choose|i: int| 0 <= i < s.len() && s[i] == k;
                if i < rest.len() {
                    assert(rest[i] == k);
                }
            }
            if rest.contains(k) {
                let i = choose|i: int| 0 <= i < rest.len() && rest[i] == k;
                assert(s[i] == k);
            }
            if k == s.last() {
                assert(s[s.len() - 1] == k);
            }
        }
    }
}

/// Two ascending sequences with the same keys are the same.
pub proof fn lemma_ascending_unique(a: Seq<Seq<Seq<char>>>, b: Seq<Seq<Seq<char>>>)
    requires
        ascending(a),
        ascending(b),
        forall|k: Seq<Seq<char>>| #[trigger] a.contains(k) <==> b.contains(k),
    ensures
        a == b,
    decreases a.len() + b.len(),
{
    if a.len() == 0 {
        if b.len() > 0 {
            assert(b.contains(b[0]));
            assert(a.contains(b[0]));
        }
        assert(a =~= b);
    } else if b.len() == 0 {
        assert(a.contains(a[0]));
        assert(b.contains(a[0]));
    } else {
        let x = a.last();
        let y = b.last();
        assert(a[a.len() - 1] == x && b[b.len() - 1] == y);
        assert(b.contains(x)) by {
            assert(a.contains(x));
        }
        assert(a.contains(y)) by {
            assert(b.contains(y));
        }
        let i = choose|i: int| 0 <= i < b.len() && b[i] == x;
        let j = choose|j: int| 0 <= j < a.len() && a[j] == y;
        if x != y {
            assert(key_lt(b[i], b[b.len() - 1]));
            assert(key_lt(a[j], a[a.len() - 1]));
            lemma_key_lt_transitive(x, y, x);
            lemma_key_lt_irreflexive(x);
        }
        let a1 = a.drop_last();
        let b1 = b.drop_last();
        assert forall|k: Seq<Seq<char>>| #[trigger] a1.contains(k) <==> b1.contains(k) by {
            lemma_key_lt_irreflexive(x);
            if a1.contains(k) {
                let m = choose|m: int| 0 <= m < a1.len() && a1[m] == k;
                assert(a[m] == k);
                assert(key_lt(a[m], a[a.len() - 1]));
                assert(a.contains(k));
                assert(b.contains(k));
                let n = choose|n: int| 0 <= n < b.len() && b[n] == k;
                assert(b1[n] == k);
            }
            if b1.contains(k) {
                let m = choose|m: int| 0 <= m < b1.len() && b1[m] == k;
                assert(b[m] == k);
                assert(key_lt(b[m], b[b.len() - 1]));
                assert(b.contains(k));
                assert(a.contains(k));
                let n = choose|n: int| 0 <= n < a.len() && a[n] == k;
                assert(a1[n] == k);
            }
        }
        assert forall|m: int, n: int| 0 <= m < n < a1.len() implies key_lt(
            #[trigger] a1[m],
            #[trigger] a1[n],
        ) by {
            assert(key_lt(a[m], a[n]));
        }
        assert forall|m: int, n: int| 0 <= m < n < b1.len() implies key_lt(
            #[trigger] b1[m],
            #[trigger] b1[n],
        ) by {
            assert(key_lt(b[m], b[n]));
        }
        lemma_ascending_unique(a1, b1);
        assert(a =~= a1.push(x));
        assert(b =~= b1.push(y));
    }
}

/// The keys of a sequence of entries.
pub open spec fn keys_of<W>(entries: Seq<(Seq<Seq<char>>, W)>) -> Seq<Seq<Seq<char>>> {
    entries.map_values(|e: (Seq<Seq<char>>, W)| e.0)
}

/// The value stored under a key.
pub open spec fn lookup<W>(entries: Seq<(Seq<Seq<char>>, W)>, k: Seq<Seq<char>>) -> Option<W> {
    if keys_of(entries).contains(k) {
        Some(entries[rank(keys_of(entries), k)].1)
    } else {
        None
    }
}

/// The entries with `w` stored under `k`.
pub open spec fn put<W>(entries: Seq<(Seq<Seq<char>>, W)>, k: Seq<Seq<char>>, w: W) -> Seq<
    (Seq<Seq<char>>, W),
> {
    let p = rank(keys_of(entries), k);
    if keys_of(entries).contains(k) {
        entries.update(p, (k, w))
    } else {
        entries.insert(p, (k, w))
    }
}

/// Storing under one key keeps the order and every other key's value.
pub proof fn lemma_put<W>(entries: Seq<(Seq<Seq<char>>, W)>, k: Seq<Seq<char>>, w: W)
    requires
        ascending(keys_of(entries)),
    ensures
        keys_of(put(entries, k, w)) == insert_key(keys_of(entries), k),
        ascending(keys_of(put(entries, k, w))),
        forall|j: Seq<Seq<char>>| #[trigger]
            lookup(put(entries, k, w), j) == if j == k {
                Some(w)
            } else {
                lookup(entries, j)
            },
{
    let keys = keys_of(entries);
    let out = put(entries, k, w);
    let p = rank(keys, k);
    lemma_rank(keys, k);
    lemma_insert_key(keys, k);
    assert(keys_of(out) =~= insert_key(keys, k));
    assert forall|j: Seq<Seq<char>>| #[trigger]
        lookup(out, j) == if j == k {
            Some(w)
        } else {
            lookup(entries, j)
        } by {
        lemma_rank(keys_of(out), j);
        lemma_rank(keys, j);
        assert(insert_key(keys, k).contains(j) <==> j == k || keys.contains(j));
        if keys_of(out).contains(j) {
            let a = rank(keys_of(out), j);
            assert(keys_of(out)[a] == j);
            lemma_key_lt_irreflexive(j);
            if j == k {
                assert(keys_of(out)[p] == k);
                if a < p {
                    assert(key_lt(keys_of(out)[a], keys_of(out)[p]));
                } else if p < a {
                    assert(key_lt(keys_of(out)[p], keys_of(out)[a]));
                }
            } else {
                let b = rank(keys, j);
                assert(keys[b] == j);
                let c = if keys.contains(k) || b < p {
                    b
                } else {
                    b + 1
                };
                assert(keys_of(out)[c] == j);
                if a < c {
                    assert(key_lt(keys_of(out)[a], keys_of(out)[c]));
                } else if c < a {
                    assert(key_lt(keys_of(out)[c], keys_of(out)[a]));
                }
            }
        }
    }
}

/// A map from keys to values, walked in ascending key order.
#[derive(Debug)]
pub struct OrderedMap<K: TextKey, V> {
    entries: Vec<(K, V)>,
}

impl<K: TextKey, V: DeepView> View for OrderedMap<K, V> {
    type V = Seq<(Seq<Seq<char>>, V::V)>;

    closed spec fn view(&self) -> Self::V {
        entry_views(self.entries@)
    }
}

impl<K: TextKey, V: DeepView> DeepView for OrderedMap<K, V> {
    type V = Seq<(Seq<Seq<char>>, V::V)>;

    open spec fn deep_view(&self) -> Self::V {
        self@
    }
}

/// Entries as keys and value contents.
pub open spec fn entry_views<K: TextKey, V: DeepView>(s: Seq<(K, V)>) -> Seq<
    (Seq<Seq<char>>, V::V),
> {
    s.map_values(|e: (K, V)| (e.0.parts(), e.1.deep_view()))
}

/// The keys of exec entries.
spec fn raw_keys<K: TextKey, V>(s: Seq<(K, V)>) -> Seq<Seq<Seq<char>>> {
    s.map_values(|e: (K, V)| e.0.parts())
}

impl<K: TextKey, V> OrderedMap<K, V> {
    #[verifier::type_invariant]
    spec fn wf(self) -> bool {
        ascending(raw_keys(self.entries@))
    }

    /// Where `k` is, or would go.
    fn locate(&self, k: &K) -> (r: (usize, bool))
        ensures
            r.0 == rank(raw_keys(self.entries@), k.parts()),
            r.0 <= self.entries@.len(),
            r.1 == raw_keys(self.entries@).contains(k.parts()),
            r.1 ==> r.0 < self.entries@.len() && self.entries@[r.0 as int].0.parts() == k.parts(),
    {
        proof {
            use_type_invariant(self);
            lemma_rank(raw_keys(self.entries@), k.parts());
        }
        let ghost keys = raw_keys(self.entries@);
        let mut lo: usize = 0;
        let mut hi: usize = self.entries.len();
        while lo < hi
            invariant
                keys == raw_keys(self.entries@),
                ascending(keys),
                lo <= hi <= self.entries@.len(),
                forall|i: int| 0 <= i < lo ==> key_lt(#[trigger] keys[i], k.parts()),
                forall|i: int| hi <= i < keys.len() ==> !key_lt(#[trigger] keys[i], k.parts()),
            decreases hi - lo,
        {
            let mid: usize = lo + (hi - lo) / 2;
            let o = self.entries[mid].0.order(k);
            assert(keys[mid as int] == self.entries@[mid as int].0.parts());
            if o == Order::Less {
                proof {
                    assert forall|i: int| 0 <= i < mid + 1 implies key_lt(
                        #[trigger] keys[i],
                        k.parts(),
                    ) by {
                        if i < mid {
                            lemma_key_lt_transitive(keys[i], keys[mid as int], k.parts());
                        }
                    }
                }
                lo = mid + 1;
            } else {
                proof {
                    lemma_key_lt_irreflexive(k.parts());
                    assert forall|i: int| mid <= i < keys.len() implies !key_lt(
                        #[trigger] keys[i],
                        k.parts(),
                    ) by {
                        if i > mid && key_lt(keys[i], k.parts()) {
                            lemma_key_lt_transitive(keys[mid as int], keys[i], k.parts());
                        }
                    }
                }
                hi = mid;
            }
        }
        proof {
            lemma_rank_unique(keys, k.parts(), lo as int);
        }
        if lo < self.entries.len() {
            assert(keys[lo as int] == self.entries@[lo as int].0.parts());
            let same = self.entries[lo].0.order(k) == Order::Equal;
            (lo, same)
        } else {
            (lo, false)
        }
    }
}

impl<K: TextKey, V: DeepView> OrderedMap<K, V> {
    /// An empty map.
    pub fn new() -> (r: Self)
        ensures
            r@ == Seq::<(Seq<Seq<char>>, V::V)>::empty(),
    {
        let r = OrderedMap { entries: Vec::new() };
        assert(r@ =~= Seq::<(Seq<Seq<char>>, V::V)>::empty());
        r
    }

    /// The number of entries. The keys of a map are strictly ascending.
    pub fn len(&self) -> (r: usize)
        ensures
            r == self@.len(),
            ascending(keys_of(self@)),
    {
        proof {
            use_type_invariant(self);
            assert(keys_of(self@) =~= raw_keys(self.entries@));
        }
        self.entries.len()
    }

    /// Whether there is no entry.
    pub fn is_empty(&self) -> (r: bool)
        ensures
            r == (self@.len() == 0),
    {
        self.entries.len() == 0
    }

    /// The key of the entry at a position.
    pub fn key_at(&self, i: usize) -> (r: &K)
        requires
            i < self@.len(),
        ensures
            r.parts() == self@[i as int].0,
    {
        &self.entries[i].0
    }

    /// The value of the entry at a position.
    pub fn value_at(&self, i: usize) -> (r: &V)
        requires
            i < self@.len(),
        ensures
            r.deep_view() == self@[i as int].1,
    {
        &self.entries[i].1
    }

    /// The value stored under a key.
    pub fn get(&self, k: &K) -> (r: Option<&V>)
        ensures
            r.deep_view() == lookup(self@, k.parts()),
    {
        proof {
            use_type_invariant(self);
            assert(keys_of(self@) =~= raw_keys(self.entries@));
        }
        let (p, found) = self.locate(k);
        if found {
            Some(&self.entries[p].1)
        } else {
            None
        }
    }

    /// Whether a value is stored under a key.
    pub fn contains_key(&self, k: &K) -> (r: bool)
        ensures
            r == keys_of(self@).contains(k.parts()),
            r == (lookup(self@, k.parts()) is Some),
    {
        proof {
            assert(keys_of(self@) =~= raw_keys(self.entries@));
        }
        self.locate(k).1
    }

    /// Store a value under a key, replacing the one that was there.
    pub fn insert(&mut self, k: K, v: V)
        ensures
            final(self)@ == put(old(self)@, k.parts(), v.deep_view()),
            forall|j: Seq<Seq<char>>| #[trigger]
                lookup(final(self)@, j) == if j == k.parts() {
                    Some(v.deep_view())
                } else {
                    lookup(old(self)@, j)
                },
    {
        proof {
            use_type_invariant(&*self);
            assert(keys_of(self@) =~= raw_keys(self.entries@));
            lemma_put(self@, k.parts(), v.deep_view());
        }
        let ghost before = self@;
        let ghost key = k.parts();
        let ghost value = v.deep_view();
        let (p, found) = self.locate(&k);
        let mut all: Vec<(K, V)> = Vec::new();
        core::mem::swap(&mut all, &mut self.entries);
        if found {
            all.set(p, (k, v));
        } else {
            all.insert(p, (k, v));
        }
        proof {
            assert(entry_views(all@) =~= put(before, key, value));
            assert(raw_keys(all@) =~= keys_of(entry_views(all@)));
        }
        *self = OrderedMap { entries: all };
    }
}

/// Takes the value of an item under `k`.
pub open spec fn value_under<W>(k: Seq<Seq<char>>) -> spec_fn((Seq<Seq<char>>, W)) -> Option<W> {
    |e: (Seq<Seq<char>>, W)|
        if e.0 == k {
            Some(e.1)
        } else {
            None
        }
}

/// The values that stand under `k`, in order.
pub open spec fn values_for<W>(items: Seq<(Seq<Seq<char>>, W)>, k: Seq<Seq<char>>) -> Seq<W> {
    items.filter_map(value_under(k))
}

/// Items grouped by key: each distinct key once, ascending, with its values in
/// the order in which they came.
pub open spec fn group_by<W>(items: Seq<(Seq<Seq<char>>, W)>) -> Seq<(Seq<Seq<char>>, Seq<W>)> {
    sorted_keys(keys_of(items)).map_values(|k: Seq<Seq<char>>| (k, values_for(items, k)))
}

/// Grouping one item more.
pub proof fn lemma_group_push<W>(
    items: Seq<(Seq<Seq<char>>, W)>,
    k: Seq<Seq<char>>,
    w: W,
)
    ensures
        ascending(keys_of(group_by(items))),
        group_by(items.push((k, w))) == put(
            group_by(items),
            k,
            (match lookup(group_by(items), k) {
                Some(v) => v,
                None => Seq::empty(),
            }).push(w),
        ),
{
    let before = group_by(items);
    let keys = sorted_keys(keys_of(items));
    let more = items.push((k, w));
    lemma_sorted_keys(keys_of(items));
    assert(keys_of(more) =~= keys_of(items).push(k));
    assert(keys_of(more).drop_last() =~= keys_of(items));
    let after = sorted_keys(keys_of(more));
    assert(after == insert_key(keys, k));
    assert(keys_of(before) =~= keys);
    lemma_rank(keys, k);
    let p = rank(keys, k);
    assert forall|j: Seq<Seq<char>>| #[trigger]
        values_for(more, j) == if j == k {
            values_for(items, j).push(w)
        } else {
            values_for(items, j)
        } by {
        lemma_filter_map_push(items, value_under(j), (k, w));
    }
    if !keys.contains(k) {
        assert(values_for(items, k) =~= Seq::<W>::empty()) by {
            if values_for(items, k).len() > 0 {
                let v = values_for(items, k)[0];
                lemma_filter_map_contains(items, value_under(k), v);
                assert(items.filter_map(value_under(k)).contains(v));
                let i = choose|i: int|
                    0 <= i < items.len() && #[trigger] value_under::<W>(k)(items[i]) == Some(v);
                assert(keys_of(items)[i] == k);
                assert(keys_of(items).contains(k));
            }
        }
    }
    let out = put(
        before,
        k,
        (match lookup(before, k) {
            Some(v) => v,
            None => Seq::empty(),
        }).push(w),
    );
    assert(group_by(more) =~= out) by {
        assert(group_by(more).len() == out.len());
        lemma_insert_key(keys, k);
        assert forall|i: int| 0 <= i < out.len() implies group_by(more)[i] == out[i] by {
            assert(group_by(more)[i] == (after[i], values_for(more, after[i])));
            if keys.contains(k) {
                lemma_key_lt_irreflexive(k);
                if i < p {
                    assert(key_lt(keys[i], k));
                } else if i > p {
                    assert(key_lt(k, keys[i]));
                }
            } else {
                if i < p {
                    assert(key_lt(keys[i], k));
                    lemma_key_lt_irreflexive(k);
                } else if i > p {
                    assert(after[i] == keys[i - 1]);
                    assert(key_lt(k, keys[i - 1]));
                    lemma_key_lt_irreflexive(k);
                }
            }
        }
    }
}

impl<K: TextKey, T: DeepView> OrderedMap<K, Vec<T>> {
    /// Append a value to the list stored under a key, starting a list where
    /// there is none.
    pub fn push_under(&mut self, k: K, x: T)
        ensures
            final(self)@ == put(
                old(self)@,
                k.parts(),
                (match lookup(old(self)@, k.parts()) {
                    Some(v) => v,
                    None => Seq::empty(),
                }).push(x.deep_view()),
            ),
    {
        proof {
            use_type_invariant(&*self);
            assert(keys_of(self@) =~= raw_keys(self.entries@));
            lemma_put(
                self@,
                k.parts(),
                (match lookup(self@, k.parts()) {
                    Some(v) => v,
                    None => Seq::empty(),
                }).push(x.deep_view()),
            );
        }
        let ghost before = self@;
        let ghost key = k.parts();
        let ghost value = (match lookup(before, key) {
            Some(v) => v,
            None => Seq::empty(),
        }).push(x.deep_view());
        let (p, found) = self.locate(&k);
        let mut all: Vec<(K, Vec<T>)> = Vec::new();
        core::mem::swap(&mut all, &mut self.entries);
        let ghost old_all = all@;
        if found {
            let (k0, mut list) = all.remove(p);
            push_item(&mut list, x);
            all.insert(p, (k0, list));
            proof {
                assert(entry_views(old_all)[p as int].0 == key);
                assert(entry_views(all@)[p as int] == (key, value));
            }
        } else {
            let mut list: Vec<T> = Vec::new();
            push_item(&mut list, x);
            proof {
                assert(list.deep_view() =~= Seq::<T::V>::empty().push(x.deep_view()));
            }
            all.insert(p, (k, list));
        }
        proof {
            assert(entry_views(all@) =~= put(before, key, value));
            assert(raw_keys(all@) =~= keys_of(entry_views(all@)));
        }
        *self = OrderedMap { entries: all };
    }
}

/// Group values by key.
pub fn group<K: TextKey, T: DeepView>(items: Vec<(K, T)>) -> (r: OrderedMap<K, Vec<T>>)
    ensures
        r@ == group_by(entry_views(items@)),
{
    let ghost all = entry_views(items@);
    let mut out: OrderedMap<K, Vec<T>> = OrderedMap::new();
    proof {
        assert(keys_of(all.take(0)) =~= Seq::<Seq<Seq<char>>>::empty());
        assert(group_by(all.take(0)) =~= Seq::<(Seq<Seq<char>>, Seq<T::V>)>::empty());
    }
    for item in iter: items
        invariant
            all == entry_views(iter.seq()),
            out@ == group_by(all.take(iter.index() as int)),
    {
        let ghost i = iter.index() as int;
        let (k, x) = item;
        proof {
            lemma_group_push(all.take(i), k.parts(), x.deep_view());
            lemma_take_push(all, i);
        }
        out.push_under(k, x);
    }
    proof {
        lemma_take_all(all);
    }
    out
}

/// How often a key occurs.
pub open spec fn occurrences(keys: Seq<Seq<Seq<char>>>, k: Seq<Seq<char>>) -> nat {
    keys.filter(is_key(k)).len()
}

/// Tells the key `k` from the others.
pub open spec fn is_key(k: Seq<Seq<char>>) -> spec_fn(Seq<Seq<char>>) -> bool {
    |j: Seq<Seq<char>>| j == k
}

/// How often each key occurs, in ascending key order.
pub open spec fn tally_of(keys: Seq<Seq<Seq<char>>>) -> Seq<(Seq<Seq<char>>, usize)> {
    sorted_keys(keys).map_values(|k: Seq<Seq<char>>| (k, occurrences(keys, k) as usize))
}

/// The keys of a list.
pub open spec fn list_keys<K: TextKey>(s: Seq<K>) -> Seq<Seq<Seq<char>>> {
    s.map_values(|k: K| k.parts())
}

/// As many values stand under a key as the key occurs.
pub proof fn lemma_values_count<W>(items: Seq<(Seq<Seq<char>>, W)>, k: Seq<Seq<char>>)
    ensures
        values_for(items, k).len() == occurrences(keys_of(items), k),
    decreases items.len(),
{
    reveal(Seq::filter);
    if items.len() > 0 {
        let rest = items.drop_last();
        lemma_values_count(rest, k);
        assert(items =~= rest.push(items.last()));
        lemma_filter_map_push(rest, value_under(k), items.last());
        assert(keys_of(items) =~= keys_of(rest).push(items.last().0));
        keys_of(rest).lemma_filter_push(items.last().0, is_key(k));
    }
}

/// Count how often each key occurs.
pub fn tally<K: TextKey>(keys: Vec<K>) -> (r: OrderedMap<K, usize>)
    ensures
        r@ == tally_of(list_keys(keys@)),
{
    let ghost all = list_keys(keys@);
    let mut items: Vec<(K, bool)> = Vec::new();
    for k in iter: keys
        invariant
            all == list_keys(iter.seq()),
            keys_of(entry_views(items@)) == all.take(iter.index() as int),
    {
        proof {
            lemma_take_push(all, iter.index() as int);
        }
        let ghost before = items@;
        items.push((k, true));
        assert(keys_of(entry_views(items@)) =~= keys_of(entry_views(before)).push(k.parts()));
    }
    proof {
        lemma_take_all(all);
    }
    let ghost pairs = entry_views(items@);
    let grouped = group(items);
    proof {
        use_type_invariant(&grouped);
        assert(all == keys_of(pairs));
    }
    let OrderedMap { entries } = grouped;
    let ghost raw = entries@;
    let mut out: Vec<(K, usize)> = Vec::new();
    for entry in iter: entries
        invariant
            raw == iter.seq(),
            out@.len() == iter.index(),
            forall|i: int|
                0 <= i < out@.len() ==> (#[trigger] out@[i]).0.parts() == raw[i].0.parts() && out@[i].1
                    == raw[i].1@.len(),
    {
        let (k, list) = entry;
        out.push((k, list.len()));
    }
    proof {
        assert(raw_keys(out@) =~= raw_keys(raw));
        assert(entry_views(raw) == group_by(pairs));
        assert(entry_views(out@) =~= tally_of(all)) by {
            assert(group_by(pairs).len() == tally_of(all).len());
            assert forall|i: int| 0 <= i < out@.len() implies entry_views(out@)[i] == tally_of(
                all,
            )[i] by {
                let k = sorted_keys(all)[i];
                lemma_values_count(pairs, k);
                assert(entry_views(raw)[i] == (k, values_for(pairs, k)));
                assert(entry_views(raw)[i].1.len() == raw[i].1@.len());
                assert(out@[i].0.parts() == raw[i].0.parts());
            }
        }
    }
    OrderedMap { entries: out }
}

/// A set of keys, walked in ascending order.
#[derive(Debug)]
pub struct KeySet<K: TextKey> {
    members: OrderedMap<K, bool>,
}

impl<K: TextKey> View for KeySet<K> {
    type V = Seq<Seq<Seq<char>>>;

    closed spec fn view(&self) -> Self::V {
        keys_of(self.members@)
    }
}

impl<K: TextKey> DeepView for KeySet<K> {
    type V = Seq<Seq<Seq<char>>>;

    open spec fn deep_view(&self) -> Self::V {
        self@
    }
}

impl<K: TextKey> KeySet<K> {
    /// An empty set.
    pub fn new() -> (r: Self)
        ensures
            r@ == Seq::<Seq<Seq<char>>>::empty(),
    {
        let r = KeySet { members: OrderedMap::new() };
        assert(r@ =~= Seq::<Seq<Seq<char>>>::empty());
        r
    }

    /// Add a key.
    pub fn insert(&mut self, k: K)
        ensures
            final(self)@ == insert_key(old(self)@, k.parts()),
    {
        let n: usize = self.members.len();
        proof {
            lemma_put(self.members@, k.parts(), true);
        }
        self.members.insert(k, true);
    }

    /// Whether a key is in the set.
    pub fn contains(&self, k: &K) -> (r: bool)
        ensures
            r == self@.contains(k.parts()),
    {
        self.members.contains_key(k)
    }

    /// The number of keys. They are strictly ascending.
    pub fn len(&self) -> (r: usize)
        ensures
            r == self@.len(),
            ascending(self@),
    {
        self.members.len()
    }

    /// Whether the set is empty.
    pub fn is_empty(&self) -> (r: bool)
        ensures
            r == (self@.len() == 0),
    {
        self.members.is_empty()
    }

    /// The key at a position.
    pub fn at(&self, i: usize) -> (r: &K)
        requires
            i < self@.len(),
        ensures
            r.parts() == self@[i as int],
    {
        self.members.key_at(i)
    }
}

/// The single-text keys of a list of texts.
pub open spec fn text_keys(s: Seq<Seq<char>>) -> Seq<Seq<Seq<char>>> {
    s.map_values(|t: Seq<char>| key1(t))
}

/// A list holds a text exactly where its keys hold the text's key.
pub proof fn lemma_text_keys(s: Seq<Seq<char>>, t: Seq<char>)
    ensures
        text_keys(s).contains(key1(t)) <==> s.contains(t),
{
    if s.contains(t) {
        let i = choose|i: int| 0 <= i < s.len() && s[i] == t;
        assert(text_keys(s)[i] == key1(t));
    }
    if text_keys(s).contains(key1(t)) {
        let i = choose|i: int| 0 <= i < s.len() && text_keys(s)[i] == key1(t);
        assert(key1(s[i])[0] == key1(t)[0]);
        assert(s[i] == t);
    }
}

/// Add every text of a list to a set.
pub fn insert_texts(set: &mut KeySet<String>, list: &[String])
    ensures
        final(set)@ == insert_keys(old(set)@, text_keys(list.deep_view())),
{
    let ghost keys = text_keys(list.deep_view());
    let mut i: usize = 0;
    proof {
        assert(keys.take(0) =~= Seq::<Seq<Seq<char>>>::empty());
    }
    while i < list.len()
        invariant
            i <= list@.len(),
            keys == text_keys(list.deep_view()),
            set@ == insert_keys(old(set)@, keys.take(i as int)),
        decreases list@.len() - i,
    {
        set.insert(list[i].clone());
        proof {
            lemma_take_push(keys, i as int);
            assert(keys.take(i + 1).drop_last() =~= keys.take(i as int));
            assert(keys[i as int] == list@[i as int].parts());
        }
        i = i + 1;
    }
    proof {
        lemma_take_all(keys);
    }
}

/// The keys with every key of `more` added.
pub open spec fn insert_keys(
    keys: Seq<Seq<Seq<char>>>,
    more: Seq<Seq<Seq<char>>>,
) -> Seq<Seq<Seq<char>>>
    decreases more.len(),
{
    if more.len() == 0 {
        keys
    } else {
        insert_key(insert_keys(keys, more.drop_last()), more.last())
    }
}

/// Adding to no keys at all gives the sorted distinct keys.
pub proof fn lemma_insert_keys(keys: Seq<Seq<Seq<char>>>, more: Seq<Seq<Seq<char>>>)
    requires
        ascending(keys),
    ensures
        ascending(insert_keys(keys, more)),
        forall|k: Seq<Seq<char>>| #[trigger]
            insert_keys(keys, more).contains(k) <==> keys.contains(k) || more.contains(k),
        keys.len() == 0 ==> insert_keys(keys, more) == sorted_keys(more),
    decreases more.len(),
{
    if more.len() > 0 {
        let rest = more.drop_last();
        lemma_insert_keys(keys, rest);
        lemma_insert_key(insert_keys(keys, rest), more.last());
        assert forall|k: Seq<Seq<char>>| #[trigger]
            insert_keys(keys, more).contains(k) <==> keys.contains(k) || more.contains(k) by {
            assert(insert_keys(keys, more).contains(k) <==> k == more.last() || insert_keys(
                keys,
                rest,
            ).contains(k));
            if more.contains(k) {
                let i = choose|i: int| 0 <= i < more.len() && more[i] == k;
                if i < rest.len() {
                    assert(rest[i] == k);
                }
            }
            if rest.contains(k) {
                let i = choose|i: int| 0 <= i < rest.len() && rest[i] == k;
                assert(more[i] == k);
            }
            if k == more.last() {
                assert(more[more.len() - 1] == k);
            }
        }
    } else if keys.len() == 0 {
        assert(keys =~= Seq::empty());
    }
}

/// The set of the texts of a list.
pub fn set_of(list: &[String]) -> (r: KeySet<String>)
    ensures
        r@ == sorted_keys(text_keys(list.deep_view())),
{
    let mut r: KeySet<String> = KeySet::new();
    insert_texts(&mut r, list);
    proof {
        lemma_insert_keys(Seq::empty(), text_keys(list.deep_view()));
    }
    r
}

/// The texts in ascending order.
pub open spec fn sorted_texts(s: Seq<Seq<char>>) -> Seq<Seq<char>> {
    s.sort_by(|a: Seq<char>, b: Seq<char>| text_le(a, b))
}

/// Texts are totally ordered.
pub proof fn lemma_text_total_ordering()
    ensures
        vstd::relations::total_ordering(|a: Seq<char>, b: Seq<char>| text_le(a, b)),
{
    let leq = |a: Seq<char>, b: Seq<char>| text_le(a, b);
    assert forall|a: Seq<char>, b: Seq<char>| #[trigger] leq(a, b) && #[trigger] leq(b, a) implies a
        == b by {
        if a != b {
            lemma_text_lt_transitive(a, b, a);
            lemma_text_lt_irreflexive(a);
        }
    }
    assert forall|a: Seq<char>, b: Seq<char>, c: Seq<char>| #[trigger]
        leq(a, b) && #[trigger] leq(b, c) implies leq(a, c) by {
        if a != b && b != c {
            lemma_text_lt_transitive(a, b, c);
        }
    }
    assert forall|a: Seq<char>, b: Seq<char>| #[trigger] leq(a, b) || leq(b, a) by {
        lemma_text_lt_total(a, b);
    }
}

/// Sort texts in ascending order.
pub fn sort_list(items: Vec<String>) -> (r: Vec<String>)
    ensures
        r.deep_view() == sorted_texts(items.deep_view()),
        r@.len() == items@.len(),
{
    let ghost all = items.deep_view();
    let mut out: Vec<String> = Vec::new();
    let ghost leq = |a: Seq<char>, b: Seq<char>| text_le(a, b);
    proof {
        assert(all.take(0) =~= out.deep_view());
    }
    for item in iter: items
        invariant
            all.len() == iter.seq().len(),
            forall|i: int| 0 <= i < all.len() ==> #[trigger] all[i] == iter.seq()[i]@,
            leq == (|a: Seq<char>, b: Seq<char>| text_le(a, b)),
            vstd::relations::sorted_by(out.deep_view(), leq),
            out.deep_view().to_multiset() == all.take(iter.index() as int).to_multiset(),
    {
        let ghost i = iter.index() as int;
        let ghost before = out.deep_view();
        let ghost x = item@;
        let mut p: usize = out.len();
        while p > 0 && compare_text(out[p - 1].as_str(), item.as_str()) == Order::Greater
            invariant
                x == item@,
                p <= out@.len(),
                before == out.deep_view(),
                forall|j: int| p <= j < before.len() ==> text_lt(x, #[trigger] before[j]),
            decreases p,
        {
            proof {
                lemma_text_lt_total(before[p - 1], x);
            }
            p = p - 1;
        }
        out.insert(p, item);
        proof {
            let after = out.deep_view();
            assert(after =~= before.insert(p as int, x));
            if p > 0 {
                assert(text_le(before[p - 1], x)) by {
                    assert(before[p - 1] == out@[p - 1]@);
                }
            }
            assert forall|a: int, b: int| 0 <= a < b < after.len() implies #[trigger] leq(
                after[a],
                after[b],
            ) by {
                if a < p && b == p {
                    if a < p - 1 {
                        assert(leq(before[a], before[p - 1]));
                        if before[a] != before[p - 1] && before[p - 1] != x {
                            lemma_text_lt_transitive(before[a], before[p - 1], x);
                        }
                    }
                } else if a < p && b > p {
                    assert(leq(before[a], before[b - 1]));
                } else if a == p {
                    assert(text_lt(x, before[b - 1]));
                } else if a > p {
                    assert(leq(before[a - 1], before[b - 1]));
                } else {
                    assert(leq(before[a], before[b]));
                }
            }
            lemma_insert_multiset(before, p as int, x);
            lemma_take_push(all, i);
            vstd::seq_lib::to_multiset_build(all.take(i), x);
        }
    }
    proof {
        lemma_take_all(all);
        lemma_text_total_ordering();
        all.lemma_sort_by_ensures(leq);
        vstd::seq_lib::lemma_sorted_unique(out.deep_view(), all.sort_by(leq), leq);
        broadcast use vstd::seq_lib::group_to_multiset_ensures;

        assert(all.to_multiset().len() == all.len());
        assert(out.deep_view().to_multiset().len() == out.deep_view().len());
    }
    out
}

/// Groups with the values of each sorted.
pub open spec fn sorted_groups(gs: Seq<(Seq<Seq<char>>, Seq<Seq<char>>)>) -> Seq<
    (Seq<Seq<char>>, Seq<Seq<char>>),
> {
    gs.map_values(|g: (Seq<Seq<char>>, Seq<Seq<char>>)| (g.0, sorted_texts(g.1)))
}

/// Sort the values of each group.
pub fn sort_groups<K: TextKey>(groups: OrderedMap<K, Vec<String>>) -> (r: OrderedMap<
    K,
    Vec<String>,
>)
    ensures
        r@ == sorted_groups(groups@),
{
    proof {
        use_type_invariant(&groups);
    }
    let ghost gs = groups@;
    let OrderedMap { entries } = groups;
    let ghost raw = entries@;
    let mut out: Vec<(K, Vec<String>)> = Vec::new();
    for entry in iter: entries
        invariant
            raw == iter.seq(),
            out@.len() == iter.index(),
            forall|i: int|
                0 <= i < out@.len() ==> (#[trigger] out@[i]).0.parts() == raw[i].0.parts()
                    && out@[i].1.deep_view() == sorted_texts(raw[i].1.deep_view()),
    {
        let (k, list) = entry;
        out.push((k, sort_list(list)));
    }
    proof {
        assert(raw_keys(out@) =~= raw_keys(raw));
        assert(entry_views(out@) =~= sorted_groups(gs)) by {
            assert forall|i: int| 0 <= i < out@.len() implies entry_views(out@)[i]
                == sorted_groups(gs)[i] by {
                assert(gs[i] == (raw[i].0.parts(), raw[i].1.deep_view()));
                assert(out@[i].0.parts() == raw[i].0.parts());
            }
        }
    }
    OrderedMap { entries: out }
}

} // verus!
