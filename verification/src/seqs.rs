//! Sequence facts shared by the loops of this crate: each relates a sequence
//! built from the first `i + 1` items of an input to the one built from the
//! first `i`.
use vstd::prelude::*;

verus! {

/// The longest prefix of a sequence is the sequence.
pub proof fn lemma_take_all<T>(s: Seq<T>)
    ensures
        s.take(s.len() as int) == s,
{
    assert(s.take(s.len() as int) =~= s);
}

/// A prefix grows by the next item.
pub proof fn lemma_take_push<T>(s: Seq<T>, i: int)
    requires
        0 <= i < s.len(),
    ensures
        s.take(i + 1) == s.take(i).push(s[i]),
{
    assert(s.take(i + 1) =~= s.take(i).push(s[i]));
}

/// Filtering one item more.
pub proof fn lemma_filter_step<T>(s: Seq<T>, p: spec_fn(T) -> bool, i: int)
    requires
        0 <= i < s.len(),
    ensures
        s.take(i + 1).filter(p) == if p(s[i]) {
            s.take(i).filter(p).push(s[i])
        } else {
            s.take(i).filter(p)
        },
{
    lemma_take_push(s, i);
    s.take(i).lemma_filter_push(s[i], p);
}

/// Mapping and filtering one item more.
pub proof fn lemma_filter_map_step<T, U>(s: Seq<T>, f: spec_fn(T) -> Option<U>, i: int)
    requires
        0 <= i < s.len(),
    ensures
        s.take(i + 1).filter_map(f) == match f(s[i]) {
            Some(u) => s.take(i).filter_map(f).push(u),
            None => s.take(i).filter_map(f),
        },
{
    lemma_take_push(s, i);
    lemma_filter_map_push(s.take(i), f, s[i]);
}

/// Mapping and filtering a sequence with one item appended.
pub proof fn lemma_filter_map_push<T, U>(s: Seq<T>, f: spec_fn(T) -> Option<U>, x: T)
    ensures
        s.push(x).filter_map(f) == match f(x) {
            Some(u) => s.filter_map(f).push(u),
            None => s.filter_map(f),
        },
{
    assert(s.push(x).drop_last() =~= s);
    match f(x) {
        Some(u) => {
            assert(s.filter_map(f) + seq![u] =~= s.filter_map(f).push(u));
        },
        None => {},
    }
}

/// Mapping one item more.
pub proof fn lemma_map_step<T, U>(s: Seq<T>, f: spec_fn(T) -> U, i: int)
    requires
        0 <= i < s.len(),
    ensures
        s.take(i + 1).map_values(f) == s.take(i).map_values(f).push(f(s[i])),
{
    assert(s.take(i + 1).map_values(f) =~= s.take(i).map_values(f).push(f(s[i])));
}

/// The pieces that `f` makes of each item, one after the other.
pub open spec fn spread<T, U>(s: Seq<T>, f: spec_fn(T) -> Seq<U>) -> Seq<U>
    decreases s.len(),
{
    if s.len() == 0 {
        Seq::empty()
    } else {
        spread(s.drop_last(), f) + f(s.last())
    }
}

/// Spreading one item more.
pub proof fn lemma_spread_step<T, U>(s: Seq<T>, f: spec_fn(T) -> Seq<U>, i: int)
    requires
        0 <= i < s.len(),
    ensures
        s.take(i + 1).len() > 0,
        spread(s.take(i + 1), f) == spread(s.take(i), f) + f(s[i]),
{
    lemma_take_push(s, i);
    assert(s.take(i).push(s[i]).drop_last() =~= s.take(i));
}

/// An item of a spread comes from one of the pieces.
pub proof fn lemma_spread_contains<T, U>(s: Seq<T>, f: spec_fn(T) -> Seq<U>, u: U)
    ensures
        spread(s, f).contains(u) <==> exists|i: int|
            0 <= i < s.len() && (#[trigger] f(s[i])).contains(u),
    decreases s.len(),
{
    if s.len() > 0 {
        let rest = s.drop_last();
        lemma_spread_contains(rest, f, u);
        let a = spread(rest, f);
        let b = f(s.last());
        if (a + b).contains(u) {
            let j = choose|j: int| 0 <= j < (a + b).len() && (a + b)[j] == u;
            if j < a.len() {
                assert(a[j] == u);
                assert(a.contains(u));
                let i = choose|i: int| 0 <= i < rest.len() && (#[trigger] f(rest[i])).contains(u);
                assert(f(s[i]).contains(u));
            } else {
                assert(b[j - a.len()] == u);
                assert(f(s[s.len() - 1]).contains(u));
            }
        }
        if exists|i: int| 0 <= i < s.len() && (#[trigger] f(s[i])).contains(u) {
            let i = choose|i: int| 0 <= i < s.len() && (#[trigger] f(s[i])).contains(u);
            if i < rest.len() {
                assert(f(rest[i]).contains(u));
                assert(a.contains(u));
                let j = choose|j: int| 0 <= j < a.len() && a[j] == u;
                assert((a + b)[j] == u);
            } else {
                let j = choose|j: int| 0 <= j < b.len() && b[j] == u;
                assert((a + b)[a.len() + j] == u);
            }
        }
    }
}

/// An item of a filtered and mapped sequence is the image of an input item.
pub proof fn lemma_filter_map_contains<T, U>(s: Seq<T>, f: spec_fn(T) -> Option<U>, u: U)
    ensures
        s.filter_map(f).contains(u) <==> exists|i: int|
            0 <= i < s.len() && #[trigger] f(s[i]) == Some(u),
    decreases s.len(),
{
    if s.len() > 0 {
        let rest = s.drop_last();
        lemma_filter_map_contains(rest, f, u);
        assert(s =~= rest.push(s.last()));
        lemma_filter_map_push(rest, f, s.last());
        let a = rest.filter_map(f);
        if s.filter_map(f).contains(u) {
            let j = choose|j: int| 0 <= j < s.filter_map(f).len() && s.filter_map(f)[j] == u;
            if j < a.len() {
                assert(a[j] == u);
                assert(a.contains(u));
                let i = choose|i: int| 0 <= i < rest.len() && #[trigger] f(rest[i]) == Some(u);
                assert(f(s[i]) == Some(u));
            } else {
                assert(f(s[s.len() - 1]) == Some(u));
            }
        }
        if exists|i: int| 0 <= i < s.len() && #[trigger] f(s[i]) == Some(u) {
            let i = choose|i: int| 0 <= i < s.len() && #[trigger] f(s[i]) == Some(u);
            if i < rest.len() {
                assert(f(rest[i]) == Some(u));
                assert(a.contains(u));
                let j = choose|j: int| 0 <= j < a.len() && a[j] == u;
                assert(s.filter_map(f)[j] == u);
            } else {
                assert(s.filter_map(f)[a.len() as int] == u);
            }
        }
    }
}

/// An item of a filtered sequence is an input item that passes.
pub proof fn lemma_filter_contains<T>(s: Seq<T>, p: spec_fn(T) -> bool, u: T)
    ensures
        s.filter(p).contains(u) <==> s.contains(u) && p(u),
    decreases s.len(),
{
    reveal(Seq::filter);
    if s.len() > 0 {
        let rest = s.drop_last();
        lemma_filter_contains(rest, p, u);
        assert(s =~= rest.push(s.last()));
        rest.lemma_filter_push(s.last(), p);
        let a = rest.filter(p);
        if s.contains(u) {
            let i = choose|i: int| 0 <= i < s.len() && s[i] == u;
            if i < rest.len() {
                assert(rest[i] == u);
                assert(rest.contains(u));
            }
            if p(u) {
                if rest.contains(u) {
                    let j = choose|j: int| 0 <= j < a.len() && a[j] == u;
                    assert(s.filter(p)[j] == u);
                } else {
                    assert(s.filter(p)[a.len() as int] == u);
                }
            }
        }
        if s.filter(p).contains(u) {
            let j = choose|j: int| 0 <= j < s.filter(p).len() && s.filter(p)[j] == u;
            if j < a.len() {
                assert(a[j] == u);
                assert(a.contains(u));
                let i = choose|i: int| 0 <= i < rest.len() && rest[i] == u;
                assert(s[i] == u);
            } else {
                assert(s[s.len() - 1] == u);
            }
        }
    }
}

/// Inserting an item adds it to the multiset of items.
pub proof fn lemma_insert_multiset<T>(s: Seq<T>, p: int, x: T)
    requires
        0 <= p <= s.len(),
    ensures
        s.insert(p, x).to_multiset() == s.to_multiset().insert(x),
{
    broadcast use vstd::seq_lib::group_to_multiset_ensures;

    let out = s.insert(p, x);
    vstd::seq_lib::to_multiset_remove(out, p);
    assert(out.remove(p) =~= s);
    assert(out[p] == x);
    assert(out.contains(x));
    assert(out.to_multiset().count(x) > 0);
    assert(out.to_multiset() =~= s.to_multiset().insert(x));
}

/// The first item that passes.
pub open spec fn first_where<T>(s: Seq<T>, p: spec_fn(T) -> bool) -> Option<T>
    decreases s.len(),
{
    if s.len() == 0 {
        None
    } else {
        match first_where(s.drop_last(), p) {
            Some(x) => Some(x),
            None => if p(s.last()) {
                Some(s.last())
            } else {
                None
            },
        }
    }
}

/// The item at `i` is the first that passes when no earlier one does.
pub proof fn lemma_first_found<T>(s: Seq<T>, p: spec_fn(T) -> bool, i: int)
    requires
        0 <= i < s.len(),
        p(s[i]),
        forall|j: int| 0 <= j < i ==> !p(#[trigger] s[j]),
    ensures
        first_where(s, p) == Some(s[i]),
    decreases s.len(),
{
    let rest = s.drop_last();
    if i == s.len() - 1 {
        lemma_first_none(rest, p);
    } else {
        assert(rest[i] == s[i]);
        assert forall|j: int| 0 <= j < i implies !p(#[trigger] rest[j]) by {
            assert(rest[j] == s[j]);
        }
        lemma_first_found(rest, p, i);
    }
}

/// Nothing is found where nothing passes.
pub proof fn lemma_first_none<T>(s: Seq<T>, p: spec_fn(T) -> bool)
    requires
        forall|j: int| 0 <= j < s.len() ==> !p(#[trigger] s[j]),
    ensures
        first_where(s, p) is None,
    decreases s.len(),
{
    if s.len() > 0 {
        let rest = s.drop_last();
        assert forall|j: int| 0 <= j < rest.len() implies !p(#[trigger] rest[j]) by {
            assert(rest[j] == s[j]);
        }
        lemma_first_none(rest, p);
    }
}

/// Every value in order, or the first error.
pub open spec fn collect_ok<A, E>(s: Seq<Result<A, E>>) -> Result<Seq<A>, E>
    decreases s.len(),
{
    if s.len() == 0 {
        Ok(Seq::empty())
    } else {
        match collect_ok(s.drop_last()) {
            Ok(v) => match s.last() {
                Ok(a) => Ok(v.push(a)),
                Err(e) => Err(e),
            },
            Err(e) => Err(e),
        }
    }
}

/// Collecting one item more.
pub proof fn lemma_collect_step<A, E>(s: Seq<Result<A, E>>, i: int)
    requires
        0 <= i < s.len(),
    ensures
        collect_ok(s.take(i + 1)) == match collect_ok(s.take(i)) {
            Ok(v) => match s[i] {
                Ok(a) => Ok(v.push(a)),
                Err(e) => Err(e),
            },
            Err(e) => Err(e),
        },
{
    assert(s.take(i + 1).drop_last() =~= s.take(i));
}

/// An error among the first items is the outcome for all of them.
pub proof fn lemma_collect_err<A, E>(s: Seq<Result<A, E>>, i: int)
    requires
        0 <= i <= s.len(),
        collect_ok(s.take(i)) is Err,
    ensures
        collect_ok(s) == Err::<Seq<A>, E>(collect_ok(s.take(i))->Err_0),
    decreases s.len() - i,
{
    if i < s.len() {
        lemma_collect_step(s, i);
        lemma_collect_err(s, i + 1);
    } else {
        lemma_take_all(s);
    }
}

/// The contents of a result.
pub open spec fn result_view<A: DeepView, E: DeepView>(r: Result<A, E>) -> Result<A::V, E::V> {
    match r {
        Ok(a) => Ok(a.deep_view()),
        Err(e) => Err(e.deep_view()),
    }
}

/// Append an item, seen through the contents of the list.
pub fn push_item<T: DeepView>(v: &mut Vec<T>, x: T)
    ensures
        final(v).deep_view() == old(v).deep_view().push(x.deep_view()),
        final(v)@ == old(v)@.push(x),
{
    v.push(x);
    assert(v.deep_view() =~= old(v).deep_view().push(x.deep_view()));
}

/// Move every item of `more` to the end of `v`.
pub fn push_all<T: DeepView>(v: &mut Vec<T>, more: Vec<T>)
    ensures
        final(v).deep_view() == old(v).deep_view() + more.deep_view(),
        final(v)@ == old(v)@ + more@,
{
    let ghost items = more.deep_view();
    let mut rest = more;
    v.append(&mut rest);
    assert(v.deep_view() =~= old(v).deep_view() + items);
}

} // verus!
