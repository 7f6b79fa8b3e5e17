//! What holds of searching, spreading and collecting.
use crate::seqs::{collect_ok, first_where, lemma_first_found, lemma_first_none, spread};
use vstd::prelude::*;

verus! {

/// The item at a position passes, and no earlier one does.
pub open spec fn is_first<T>(s: Seq<T>, p: spec_fn(T) -> bool, i: int) -> bool {
    0 <= i < s.len() && p(s[i]) && forall|j: int| 0 <= j < i ==> !p(#[trigger] s[j])
}

/// What is found is the first item that passes; nothing is found exactly where none
/// passes.
pub proof fn law_first_that_passes<T>(s: Seq<T>, p: spec_fn(T) -> bool)
    ensures
        forall|i: int| #[trigger] is_first(s, p, i) ==> first_where(s, p) == Some(s[i]),
        first_where(s, p) is Some <==> exists|i: int| #[trigger] is_first(s, p, i),
        first_where(s, p) is None <==> forall|i: int| 0 <= i < s.len() ==> !p(#[trigger] s[i]),
{
    assert forall|i: int| #[trigger] is_first(s, p, i) implies first_where(s, p) == Some(s[i]) by {
        lemma_first_found(s, p, i);
    }
    if exists|k: int| 0 <= k < s.len() && p(#[trigger] s[k]) {
        let k = choose|k: int| 0 <= k < s.len() && p(#[trigger] s[k]);
        lemma_some_first(s, p, k);
    } else {
        lemma_first_none(s, p);
    }
}

/// Where an item passes, some item is the first that does.
pub proof fn lemma_some_first<T>(s: Seq<T>, p: spec_fn(T) -> bool, k: int)
    requires
        0 <= k < s.len(),
        p(s[k]),
    ensures
        exists|i: int| #[trigger] is_first(s, p, i),
    decreases k,
{
    if exists|j: int| 0 <= j < k && p(#[trigger] s[j]) {
        let j = choose|j: int| 0 <= j < k && p(#[trigger] s[j]);
        lemma_some_first(s, p, j);
    } else {
        assert(is_first(s, p, k));
    }
}

/// What two sequences are spread to is what each is spread to, one after the other.
pub proof fn law_spread_joins<T, U>(a: Seq<T>, b: Seq<T>, f: spec_fn(T) -> Seq<U>)
    ensures
        spread(a + b, f) == spread(a, f) + spread(b, f),
        a.len() == 1 ==> spread(a, f) == f(a[0]),
    decreases b.len(),
{
    if a.len() == 1 {
        assert(spread(a.drop_last(), f) =~= Seq::<U>::empty());
        assert(spread(a, f) =~= f(a[0]));
    }
    if b.len() == 0 {
        assert(a + b =~= a);
        assert(spread(a, f) + spread(b, f) =~= spread(a, f));
    } else {
        law_spread_joins(a, b.drop_last(), f);
        assert((a + b).drop_last() =~= a + b.drop_last());
        assert(spread(a + b, f) =~= spread(a, f) + spread(b, f));
    }
}

/// The result at a position is an error, and no earlier one is.
pub open spec fn is_first_error<A, E>(s: Seq<Result<A, E>>, i: int, e: E) -> bool {
    0 <= i < s.len() && s[i] == Err::<A, E>(e) && forall|j: int|
        0 <= j < i ==> (#[trigger] s[j]) is Ok
}

/// Some error is the first of the results.
pub open spec fn has_first_error<A, E>(s: Seq<Result<A, E>>, e: E) -> bool {
    exists|i: int| #[trigger] is_first_error(s, i, e)
}

/// Collecting gives every value in its place, or the first error.
pub proof fn law_collecting<A, E>(s: Seq<Result<A, E>>)
    ensures
        collect_ok(s) matches Ok(v) ==> v.len() == s.len() && forall|i: int|
            0 <= i < s.len() ==> #[trigger] s[i] == Ok::<A, E>(v[i]),
        collect_ok(s) matches Err(e) ==> has_first_error(s, e),
        collect_ok(s) is Ok <==> forall|i: int| 0 <= i < s.len() ==> (#[trigger] s[i]) is Ok,
    decreases s.len(),
{
    if s.len() > 0 {
        let rest = s.drop_last();
        law_collecting(rest);
        match collect_ok(rest) {
            Ok(v) => {
                assert forall|i: int| 0 <= i < rest.len() implies #[trigger] s[i] == Ok::<A, E>(
                    v[i],
                ) by {
                    assert(rest[i] == s[i]);
                }
                match s.last() {
                    Ok(a) => {},
                    Err(e) => {
                        assert(is_first_error(s, s.len() - 1, e));
                        assert(has_first_error(s, e));
                        assert(s[s.len() - 1] is Err);
                    },
                }
            },
            Err(e) => {
                let i = choose|i: int| #[trigger] is_first_error(rest, i, e);
                assert(rest[i] == s[i]);
                assert forall|j: int| 0 <= j < i implies (#[trigger] s[j]) is Ok by {
                    assert(rest[j] == s[j]);
                }
                assert(is_first_error(s, i, e));
                assert(has_first_error(s, e));
            },
        }
    }
}

} // verus!
