//! Move collisions: a move never overwrites a copy that its destination already
//! holds, and several sources never overwrite each other at one destination.
use crate::ordered::{
    ascending, entry_views, group, group_by, key3, key_lt, keys_of, lemma_ascending_unique,
    lemma_group_push, lemma_key_lt_irreflexive, lemma_rank, lemma_sorted_keys, lookup, rank,
    sorted_keys, value_under, values_for, KeySet, OrderedMap, TextKey,
};
use crate::reorg::plan::{PlannedMove, PlannedMoveView, TagRef, TagRefView};
use crate::seqs::{
    lemma_filter_contains, lemma_filter_map_contains, lemma_filter_map_step, lemma_filter_step,
    lemma_insert_multiset, lemma_map_step, lemma_spread_contains, lemma_spread_step, lemma_take_all,
    lemma_take_push, push_all, push_item, spread,
};
use crate::text::{
    compare_text, copy_option, lemma_text_lt_irreflexive, lemma_text_lt_total,
    lemma_text_lt_transitive, text_lt, Order,
};
use vstd::multiset::Multiset;
use vstd::prelude::*;

verus! {

/// A move that was dropped because its destination already holds the tag, or
/// because a sibling source's copy was kept instead. Carries the build dates of
/// both copies as evidence.
#[derive(Debug, PartialEq, Eq)]
pub struct SupersededItem {
    pub tag: TagRef,
    pub dest: String,
    /// Where the winning copy lives.
    pub kept: String,
    /// Build date of the dropped copy, if known.
    pub own_built: Option<String>,
    /// Build date of the winning copy, if known.
    pub winner_built: Option<String>,
}

/// The contents of a [`SupersededItem`].
#[verifier::ext_equal]
pub struct SupersededItemView {
    pub tag: TagRefView,
    pub dest: Seq<char>,
    pub kept: Seq<char>,
    pub own_built: Option<Seq<char>>,
    pub winner_built: Option<Seq<char>>,
}

impl DeepView for SupersededItem {
    type V = SupersededItemView;

    open spec fn deep_view(&self) -> SupersededItemView {
        SupersededItemView {
            tag: self.tag.deep_view(),
            dest: self.dest@,
            kept: self.kept@,
            own_built: self.own_built.deep_view(),
            winner_built: self.winner_built.deep_view(),
        }
    }
}

/// The build date recorded for the copy of `image:tag` in a repository.
pub open spec fn age(
    ts: Seq<(Seq<Seq<char>>, Option<Seq<char>>)>,
    repo: Seq<char>,
    image: Seq<char>,
    tag: Seq<char>,
) -> Option<Seq<char>> {
    match lookup(ts, key3(repo, image, tag)) {
        Some(t) => t,
        None => None,
    }
}

/// The build date of a move's source copy, empty where unknown, so that it sorts
/// before every known one.
pub open spec fn source_age(
    ts: Seq<(Seq<Seq<char>>, Option<Seq<char>>)>,
    m: PlannedMoveView,
) -> Seq<char> {
    match age(ts, m.source_repo, m.image, m.tag) {
        Some(t) => t,
        None => Seq::empty(),
    }
}

/// Where a move would put its tag.
pub open spec fn move_key(m: PlannedMoveView) -> Seq<Seq<char>> {
    key3(m.dest, m.image, m.tag)
}

/// The moves with their target as key.
pub open spec fn keyed_moves(moves: Seq<PlannedMoveView>) -> Seq<(Seq<Seq<char>>, PlannedMoveView)> {
    moves.map_values(|m: PlannedMoveView| (move_key(m), m))
}

/// The moves grouped by target, targets ascending.
pub open spec fn by_target(moves: Seq<PlannedMoveView>) -> Seq<
    (Seq<Seq<char>>, Seq<PlannedMoveView>),
> {
    group_by(keyed_moves(moves))
}

/// The position of the newest of the first `n` candidates; the first wins ties.
/// Build times are compared as text, and one that is not known is the oldest.
pub open spec fn newest(
    ts: Seq<(Seq<Seq<char>>, Option<Seq<char>>)>,
    cands: Seq<PlannedMoveView>,
    n: int,
) -> int
    decreases n,
{
    if n <= 1 {
        0
    } else {
        let best = newest(ts, cands, n - 1);
        if text_lt(source_age(ts, cands[best]), source_age(ts, cands[n - 1])) {
            n - 1
        } else {
            best
        }
    }
}

/// A dropped move with what was kept in its place.
pub open spec fn dropped(
    ts: Seq<(Seq<Seq<char>>, Option<Seq<char>>)>,
    m: PlannedMoveView,
    kept: Seq<char>,
    winner_built: Option<Seq<char>>,
) -> SupersededItemView {
    SupersededItemView {
        tag: TagRefView { source_repo: m.source_repo, image: m.image, tag: m.tag },
        dest: m.dest,
        kept,
        own_built: age(ts, m.source_repo, m.image, m.tag),
        winner_built,
    }
}

/// Drops moves in favour of one kept copy.
pub open spec fn dropped_for(
    ts: Seq<(Seq<Seq<char>>, Option<Seq<char>>)>,
    kept: Seq<char>,
    winner_built: Option<Seq<char>>,
) -> spec_fn(PlannedMoveView) -> SupersededItemView {
    |m: PlannedMoveView| dropped(ts, m, kept, winner_built)
}

/// The moves kept for one target: none where the destination already holds the
/// tag, else the newest copy.
pub open spec fn target_kept(
    present: Seq<Seq<Seq<char>>>,
    ts: Seq<(Seq<Seq<char>>, Option<Seq<char>>)>,
) -> spec_fn((Seq<Seq<char>>, Seq<PlannedMoveView>)) -> Seq<PlannedMoveView> {
    |g: (Seq<Seq<char>>, Seq<PlannedMoveView>)|
        if present.contains(g.0) {
            Seq::empty()
        } else {
            seq![g.1[newest(ts, g.1, g.1.len() as int)]]
        }
}

/// The moves dropped for one target: all of them where the destination already
/// holds the tag, else all but the newest.
pub open spec fn target_dropped(
    present: Seq<Seq<Seq<char>>>,
    ts: Seq<(Seq<Seq<char>>, Option<Seq<char>>)>,
) -> spec_fn((Seq<Seq<char>>, Seq<PlannedMoveView>)) -> Seq<SupersededItemView> {
    |g: (Seq<Seq<char>>, Seq<PlannedMoveView>)|
        if present.contains(g.0) {
            g.1.map_values(
                dropped_for(
                    ts,
                    "the existing copy already there"@,
                    age(ts, g.0[0], g.0[1], g.0[2]),
                ),
            )
        } else {
            let best = newest(ts, g.1, g.1.len() as int);
            let winner = g.1[best].source_repo;
            g.1.remove(best).map_values(
                dropped_for(ts, "the newer copy in "@ + winner, age(ts, winner, g.0[1], g.0[2])),
            )
        }
}

/// The moves that survive: for each target in ascending order, what is kept.
pub open spec fn kept_moves(
    moves: Seq<PlannedMoveView>,
    present: Seq<Seq<Seq<char>>>,
    ts: Seq<(Seq<Seq<char>>, Option<Seq<char>>)>,
) -> Seq<PlannedMoveView> {
    spread(by_target(moves), target_kept(present, ts))
}

/// The moves that are dropped: for each target in ascending order, in the order
/// in which they were planned.
pub open spec fn dropped_moves(
    moves: Seq<PlannedMoveView>,
    present: Seq<Seq<Seq<char>>>,
    ts: Seq<(Seq<Seq<char>>, Option<Seq<char>>)>,
) -> Seq<SupersededItemView> {
    spread(by_target(moves), target_dropped(present, ts))
}

/// The build date of a copy, if one is recorded.
fn age_of(
    ts: &OrderedMap<(String, String, String), Option<String>>,
    repo: &str,
    image: &str,
    tag: &str,
) -> (r: Option<String>)
    ensures
        r.deep_view() == age(ts@, repo@, image@, tag@),
{
    let key = (repo.to_string(), image.to_string(), tag.to_string());
    match ts.get(&key) {
        Some(t) => match t {
            Some(s) => Some(s.clone()),
            None => None,
        },
        None => None,
    }
}

/// The build date of a move's source copy, empty where unknown.
fn source_age_of(
    ts: &OrderedMap<(String, String, String), Option<String>>,
    m: &PlannedMove,
) -> (r: String)
    ensures
        r@ == source_age(ts@, m.deep_view()),
{
    match age_of(ts, m.source_repo.as_str(), m.image.as_str(), m.tag.as_str()) {
        Some(t) => t,
        None => String::new(),
    }
}

/// The newest candidate; the first wins ties.
fn newest_of(
    ts: &OrderedMap<(String, String, String), Option<String>>,
    cands: &[PlannedMove],
) -> (r: usize)
    requires
        cands@.len() > 0,
    ensures
        r == newest(ts@, cands.deep_view(), cands@.len() as int),
        r < cands@.len(),
{
    let mut best: usize = 0;
    let mut i: usize = 1;
    while i < cands.len()
        invariant
            1 <= i <= cands@.len(),
            best < i,
            best == newest(ts@, cands.deep_view(), i as int),
        decreases cands@.len() - i,
    {
        let a = source_age_of(ts, &cands[i]);
        let b = source_age_of(ts, &cands[best]);
        assert(cands.deep_view()[i as int] == cands@[i as int].deep_view());
        assert(cands.deep_view()[best as int] == cands@[best as int].deep_view());
        let later = compare_text(b.as_str(), a.as_str()) == Order::Less;
        if later {
            proof {
                lemma_text_lt_irreflexive(a@);
            }
            best = i;
        } else {
            proof {
                lemma_text_lt_irreflexive(a@);
            }
        }
        i = i + 1;
    }
    best
}

/// Drop a move in favour of a kept copy.
fn drop_move(
    ts: &OrderedMap<(String, String, String), Option<String>>,
    m: &PlannedMove,
    kept: &str,
    winner_built: &Option<String>,
) -> (r: SupersededItem)
    ensures
        r.deep_view() == dropped(ts@, m.deep_view(), kept@, winner_built.deep_view()),
{
    SupersededItem {
        tag: TagRef {
            source_repo: m.source_repo.clone(),
            image: m.image.clone(),
            tag: m.tag.clone(),
        },
        dest: m.dest.clone(),
        kept: kept.to_string(),
        own_built: age_of(ts, m.source_repo.as_str(), m.image.as_str(), m.tag.as_str()),
        winner_built: copy_option(winner_built),
    }
}

/// Drop moves in favour of a kept copy, all but the one at `skip`.
fn drop_moves(
    ts: &OrderedMap<(String, String, String), Option<String>>,
    cands: &[PlannedMove],
    skip: usize,
    kept: &str,
    winner_built: &Option<String>,
) -> (r: Vec<SupersededItem>)
    ensures
        r.deep_view() == (if skip < cands@.len() {
            cands.deep_view().remove(skip as int)
        } else {
            cands.deep_view()
        }).map_values(dropped_for(ts@, kept@, winner_built.deep_view())),
{
    let mut out: Vec<SupersededItem> = Vec::new();
    let ghost all = cands.deep_view();
    let ghost f = dropped_for(ts@, kept@, winner_built.deep_view());
    let ghost chosen = if skip < cands@.len() {
        all.remove(skip as int)
    } else {
        all
    };
    let mut i: usize = 0;
    assert(out.deep_view() =~= chosen.take(0).map_values(f));
    while i < cands.len()
        invariant
            all == cands.deep_view(),
            f == dropped_for(ts@, kept@, winner_built.deep_view()),
            chosen == (if skip < cands@.len() {
                all.remove(skip as int)
            } else {
                all
            }),
            i <= cands@.len(),
            out.deep_view() == chosen.take(
                if skip < i {
                    i - 1
                } else {
                    i as int
                },
            ).map_values(f),
        decreases cands@.len() - i,
    {
        assert(all[i as int] == cands@[i as int].deep_view());
        if i != skip {
            let ghost n = if skip < i {
                i - 1
            } else {
                i as int
            };
            proof {
                assert(chosen[n] == all[i as int]);
                lemma_map_step(chosen, f, n);
            }
            push_item(&mut out, drop_move(ts, &cands[i], kept, winner_built));
        }
        i = i + 1;
    }
    proof {
        lemma_take_all(chosen);
    }
    out
}

/// Resolve move collisions. For each distinct `(dest, image, tag)`: if `present`
/// holds it, every move to it is dropped; else the newest source copy by `ts` is
/// kept and the others are dropped. `ts` is keyed by `(repo, image, tag)`.
pub fn resolve_move_collisions(
    moves: Vec<PlannedMove>,
    present: &KeySet<(String, String, String)>,
    ts: &OrderedMap<(String, String, String), Option<String>>,
) -> (r: (Vec<PlannedMove>, Vec<SupersededItem>))
    ensures
        r.0.deep_view() == kept_moves(moves.deep_view(), present@, ts@),
        r.1.deep_view() == dropped_moves(moves.deep_view(), present@, ts@),
{
    let ghost all = moves.deep_view();
    let mut items: Vec<((String, String, String), PlannedMove)> = Vec::new();
    for m in iter: moves
        invariant
            all.len() == iter.seq().len(),
            forall|i: int| 0 <= i < all.len() ==> #[trigger] all[i] == iter.seq()[i].deep_view(),
            entry_views(items@) == keyed_moves(all.take(iter.index() as int)),
    {
        let ghost i = iter.index() as int;
        let ghost before = items@;
        let key = (m.dest.clone(), m.image.clone(), m.tag.clone());
        items.push((key, m));
        proof {
            lemma_take_push(all, i);
            assert(all[i] == m.deep_view());
            assert(entry_views(items@) =~= entry_views(before).push(
                (move_key(all[i]), all[i]),
            ));
            assert(keyed_moves(all.take(i).push(all[i])) =~= keyed_moves(all.take(i)).push(
                (move_key(all[i]), all[i]),
            ));
        }
    }
    proof {
        lemma_take_all(all);
    }
    let groups = group(items);
    let ghost gs = by_target(all);
    let ghost keep = target_kept(present@, ts@);
    let ghost lose = target_dropped(present@, ts@);
    let mut kept: Vec<PlannedMove> = Vec::new();
    let mut superseded: Vec<SupersededItem> = Vec::new();
    let mut i: usize = 0;
    proof {
        assert(kept.deep_view() =~= spread(gs.take(0), keep));
        assert(superseded.deep_view() =~= spread(gs.take(0), lose));
    }
    while i < groups.len()
        invariant
            groups@ == gs,
            gs == by_target(all),
            keep == target_kept(present@, ts@),
            lose == target_dropped(present@, ts@),
            i <= gs.len(),
            kept.deep_view() == spread(gs.take(i as int), keep),
            superseded.deep_view() == spread(gs.take(i as int), lose),
        decreases gs.len() - i,
    {
        let key = groups.key_at(i);
        let cands = groups.value_at(i);
        proof {
            lemma_spread_step(gs, keep, i as int);
            lemma_spread_step(gs, lose, i as int);
            assert(gs[i as int].0 == key.parts());
            assert(gs[i as int].1 == cands.deep_view());
            lemma_target_nonempty(all, i as int);
        }
        if present.contains(key) {
            let winner_built = age_of(ts, key.0.as_str(), key.1.as_str(), key.2.as_str());
            let n: usize = cands.len();
            let lost = drop_moves(
                ts,
                cands.as_slice(),
                n,
                "the existing copy already there",
                &winner_built,
            );
            push_all(&mut superseded, lost);
            assert(keep(gs[i as int]) =~= Seq::<PlannedMoveView>::empty());
            assert(kept.deep_view() =~= spread(gs.take(i as int), keep) + keep(gs[i as int]));
        } else {
            let best: usize = newest_of(ts, cands.as_slice());
            let winner = cands[best].source_repo.clone();
            let winner_built = age_of(ts, winner.as_str(), key.1.as_str(), key.2.as_str());
            let mut why = "the newer copy in ".to_string();
            why.append(winner.as_str());
            let lost = drop_moves(ts, cands.as_slice(), best, why.as_str(), &winner_built);
            push_all(&mut superseded, lost);
            assert(cands.deep_view()[best as int] == cands@[best as int].deep_view());
            push_item(&mut kept, cands[best].clone());
            assert(kept.deep_view() =~= spread(gs.take(i as int), keep) + keep(gs[i as int]));
        }
        i = i + 1;
    }
    proof {
        lemma_take_all(gs);
    }
    (kept, superseded)
}

/// Each target has at least one move, and its moves are moves to that target.
pub proof fn lemma_target_nonempty(moves: Seq<PlannedMoveView>, i: int)
    requires
        0 <= i < by_target(moves).len(),
    ensures
        by_target(moves)[i].1.len() > 0,
        by_target(moves)[i].0 == sorted_keys(keys_of(keyed_moves(moves)))[i],
        forall|j: int|
            0 <= j < by_target(moves)[i].1.len() ==> move_key(#[trigger] by_target(moves)[i].1[j])
                == by_target(moves)[i].0 && moves.contains(by_target(moves)[i].1[j]),
{
    let items = keyed_moves(moves);
    let keys = keys_of(items);
    let k = sorted_keys(keys)[i];
    let vs = values_for(items, k);
    assert(by_target(moves)[i] == (k, vs));
    lemma_sorted_keys(keys);
    assert(sorted_keys(keys).contains(k));
    let n = choose|n: int| 0 <= n < keys.len() && keys[n] == k;
    assert(value_under::<PlannedMoveView>(k)(items[n]) == Some(items[n].1));
    lemma_filter_map_contains(items, value_under(k), items[n].1);
    assert(vs.contains(items[n].1));
    assert forall|j: int| 0 <= j < vs.len() implies move_key(#[trigger] vs[j]) == k
        && moves.contains(vs[j]) by {
        lemma_filter_map_contains(items, value_under(k), vs[j]);
        assert(vs.contains(vs[j]));
        let m = choose|m: int|
            0 <= m < items.len() && #[trigger] value_under::<PlannedMoveView>(k)(items[m]) == Some(
                vs[j],
            );
        assert(items[m] == (move_key(moves[m]), moves[m]));
        assert(moves[m] == vs[j]);
    }
}

/// Tells a target that its destination does not hold yet.
pub open spec fn is_free(present: Seq<Seq<Seq<char>>>) -> spec_fn(Seq<Seq<char>>) -> bool {
    |k: Seq<Seq<char>>| !present.contains(k)
}

/// The targets of some moves, in order.
pub open spec fn targets(moves: Seq<PlannedMoveView>) -> Seq<Seq<Seq<char>>> {
    moves.map_values(|m: PlannedMoveView| move_key(m))
}

/// Exactly one move is kept for each planned target that the destination does
/// not hold yet, in ascending order, and none for any other.
pub proof fn law_one_move_per_free_target(
    moves: Seq<PlannedMoveView>,
    present: Seq<Seq<Seq<char>>>,
    ts: Seq<(Seq<Seq<char>>, Option<Seq<char>>)>,
)
    ensures
        targets(kept_moves(moves, present, ts)) == sorted_keys(targets(moves)).filter(
            is_free(present),
        ),
{
    let gs = by_target(moves);
    let keep = target_kept(present, ts);
    let keys = sorted_keys(targets(moves));
    assert(keys_of(keyed_moves(moves)) =~= targets(moves));
    lemma_kept_prefix(moves, present, ts, gs.len() as int);
    lemma_take_all(gs);
    lemma_take_all(keys);
}

/// The law above for the first `n` targets.
proof fn lemma_kept_prefix(
    moves: Seq<PlannedMoveView>,
    present: Seq<Seq<Seq<char>>>,
    ts: Seq<(Seq<Seq<char>>, Option<Seq<char>>)>,
    n: int,
)
    requires
        0 <= n <= by_target(moves).len(),
    ensures
        sorted_keys(targets(moves)).len() == by_target(moves).len(),
        targets(spread(by_target(moves).take(n), target_kept(present, ts))) == sorted_keys(
            targets(moves),
        ).take(n).filter(is_free(present)),
    decreases n,
{
    let gs = by_target(moves);
    let keep = target_kept(present, ts);
    let keys = sorted_keys(targets(moves));
    assert(keys_of(keyed_moves(moves)) =~= targets(moves));
    reveal(Seq::filter);
    if n == 0 {
        assert(spread(gs.take(0), keep) =~= Seq::<PlannedMoveView>::empty());
        assert(targets(spread(gs.take(0), keep)) =~= keys.take(0).filter(is_free(present)));
    } else {
        let i = n - 1;
        lemma_kept_prefix(moves, present, ts, i);
        lemma_spread_step(gs, keep, i);
        lemma_filter_step(keys, is_free(present), i);
        lemma_target_nonempty(moves, i);
        let before = spread(gs.take(i), keep);
        if present.contains(gs[i].0) {
            assert(before + keep(gs[i]) =~= before);
        } else {
            lemma_newest(ts, gs[i].1, gs[i].1.len() as int);
            let b = gs[i].1[newest(ts, gs[i].1, gs[i].1.len() as int)];
            assert(move_key(b) == gs[i].0);
            assert(keep(gs[i]) =~= seq![b]);
            assert(targets(before + keep(gs[i])) =~= targets(before).push(move_key(b)));
        }
    }
}

/// The newest candidate is no older than any other and strictly newer than every
/// earlier one.
pub proof fn lemma_newest(
    ts: Seq<(Seq<Seq<char>>, Option<Seq<char>>)>,
    cands: Seq<PlannedMoveView>,
    n: int,
)
    requires
        1 <= n <= cands.len(),
    ensures
        0 <= newest(ts, cands, n) < n,
        forall|j: int|
            0 <= j < n ==> !text_lt(
                source_age(ts, cands[newest(ts, cands, n)]),
                source_age(ts, #[trigger] cands[j]),
            ),
        forall|j: int|
            0 <= j < newest(ts, cands, n) ==> text_lt(
                source_age(ts, #[trigger] cands[j]),
                source_age(ts, cands[newest(ts, cands, n)]),
            ),
    decreases n,
{
    lemma_text_lt_irreflexive(source_age(ts, cands[newest(ts, cands, n)]));
    if n > 1 {
        lemma_newest(ts, cands, n - 1);
        let best = newest(ts, cands, n - 1);
        let a = source_age(ts, cands[best]);
        let b = source_age(ts, cands[n - 1]);
        if text_lt(a, b) {
            assert forall|j: int| 0 <= j < n - 1 implies text_lt(
                source_age(ts, #[trigger] cands[j]),
                b,
            ) && !text_lt(b, source_age(ts, cands[j])) by {
                let c = source_age(ts, cands[j]);
                lemma_text_lt_total(a, c);
                if a != c {
                    lemma_text_lt_transitive(c, a, b);
                }
                if text_lt(b, c) {
                    lemma_text_lt_transitive(c, b, c);
                    lemma_text_lt_irreflexive(c);
                }
            }
        }
    }
}

/// A kept move never overwrites a copy that is already there, and no two kept
/// moves have the same target.
pub proof fn law_kept_moves_never_clobber(
    moves: Seq<PlannedMoveView>,
    present: Seq<Seq<Seq<char>>>,
    ts: Seq<(Seq<Seq<char>>, Option<Seq<char>>)>,
)
    ensures
        forall|i: int|
            0 <= i < kept_moves(moves, present, ts).len() ==> !present.contains(
                move_key(#[trigger] kept_moves(moves, present, ts)[i]),
            ),
        forall|i: int, j: int|
            0 <= i < j < kept_moves(moves, present, ts).len() ==> move_key(
                #[trigger] kept_moves(moves, present, ts)[i],
            ) != move_key(#[trigger] kept_moves(moves, present, ts)[j]),
{
    let kept = kept_moves(moves, present, ts);
    let all = sorted_keys(targets(moves));
    let keys = all.filter(is_free(present));
    law_one_move_per_free_target(moves, present, ts);
    lemma_sorted_keys(targets(moves));
    assert forall|i: int| 0 <= i < kept.len() implies !present.contains(
        move_key(#[trigger] kept[i]),
    ) by {
        assert(targets(kept)[i] == move_key(kept[i]));
        lemma_filter_contains(all, is_free(present), keys[i]);
        assert(keys.contains(keys[i]));
    }
    lemma_filter_ascending(all, is_free(present));
    assert forall|i: int, j: int| 0 <= i < j < kept.len() implies move_key(#[trigger] kept[i])
        != move_key(#[trigger] kept[j]) by {
        assert(targets(kept)[i] == move_key(kept[i]));
        assert(targets(kept)[j] == move_key(kept[j]));
        assert(key_lt(keys[i], keys[j]));
        lemma_key_lt_irreflexive(keys[i]);
    }
}

/// Filtering keeps keys ascending.
pub proof fn lemma_filter_ascending(
    keys: Seq<Seq<Seq<char>>>,
    p: spec_fn(Seq<Seq<char>>) -> bool,
)
    requires
        ascending(keys),
    ensures
        ascending(keys.filter(p)),
    decreases keys.len(),
{
    reveal(Seq::filter);
    if keys.len() > 0 {
        let rest = keys.drop_last();
        assert forall|i: int, j: int| 0 <= i < j < rest.len() implies key_lt(
            #[trigger] rest[i],
            #[trigger] rest[j],
        ) by {
            assert(key_lt(keys[i], keys[j]));
        }
        lemma_filter_ascending(rest, p);
        let out = keys.filter(p);
        let before = rest.filter(p);
        assert forall|i: int, j: int| 0 <= i < j < out.len() implies key_lt(
            #[trigger] out[i],
            #[trigger] out[j],
        ) by {
            if j < before.len() {
                assert(key_lt(before[i], before[j]));
            } else {
                assert(before.contains(before[i]));
                lemma_filter_contains(rest, p, before[i]);
                let m = choose|m: int| 0 <= m < rest.len() && rest[m] == before[i];
                assert(key_lt(keys[m], keys[keys.len() - 1]));
            }
        }
    }
}

/// Where several sources hold a tag that the destination lacks, no dropped copy
/// is newer than the kept one.
pub proof fn law_newest_copy_is_kept(
    moves: Seq<PlannedMoveView>,
    present: Seq<Seq<Seq<char>>>,
    ts: Seq<(Seq<Seq<char>>, Option<Seq<char>>)>,
    m: PlannedMoveView,
)
    requires
        moves.contains(m),
        !present.contains(move_key(m)),
    ensures
        exists|k: PlannedMoveView| #[trigger]
            kept_moves(moves, present, ts).contains(k) && move_key(k) == move_key(m) && !text_lt(
                source_age(ts, k),
                source_age(ts, m),
            ),
{
    let gs = by_target(moves);
    let keep = target_kept(present, ts);
    let items = keyed_moves(moves);
    let keys = keys_of(items);
    let x = choose|x: int| 0 <= x < moves.len() && moves[x] == m;
    assert(items[x] == (move_key(m), m));
    assert(keys[x] == move_key(m));
    assert(keys.contains(move_key(m)));
    lemma_sorted_keys(keys);
    assert(sorted_keys(keys).contains(move_key(m)));
    let i = choose|i: int|
        0 <= i < sorted_keys(keys).len() && sorted_keys(keys)[i] == move_key(m);
    lemma_target_nonempty(moves, i);
    let cands = gs[i].1;
    assert(cands == values_for(items, move_key(m)));
    assert(value_under::<PlannedMoveView>(move_key(m))(items[x]) == Some(m));
    lemma_filter_map_contains(items, value_under(move_key(m)), m);
    assert(cands.contains(m));
    let j = choose|j: int| 0 <= j < cands.len() && cands[j] == m;
    lemma_newest(ts, cands, cands.len() as int);
    let k = cands[newest(ts, cands, cands.len() as int)];
    assert(keep(gs[i]) =~= seq![k]);
    assert(keep(gs[i])[0] == k);
    assert(keep(gs[i]).contains(k));
    lemma_spread_contains(gs, keep, k);
    assert(kept_moves(moves, present, ts).contains(k));
    assert(move_key(k) == gs[i].0);
}

/// The source and the destination of a move.
pub open spec fn route() -> spec_fn(PlannedMoveView) -> (TagRefView, Seq<char>) {
    |m: PlannedMoveView|
        (TagRefView { source_repo: m.source_repo, image: m.image, tag: m.tag }, m.dest)
}

/// The source and the destination of a dropped move.
pub open spec fn dropped_route() -> spec_fn(SupersededItemView) -> (TagRefView, Seq<char>) {
    |s: SupersededItemView| (s.tag, s.dest)
}

/// Every planned move is settled once: the kept moves and the dropped ones
/// together have the sources and destinations of the planned ones, each as often
/// as it was planned.
pub proof fn law_every_move_settled(
    moves: Seq<PlannedMoveView>,
    present: Seq<Seq<Seq<char>>>,
    ts: Seq<(Seq<Seq<char>>, Option<Seq<char>>)>,
)
    ensures
        kept_moves(moves, present, ts).map_values(route()).to_multiset().add(
            dropped_moves(moves, present, ts).map_values(dropped_route()).to_multiset(),
        ) == moves.map_values(route()).to_multiset(),
        kept_moves(moves, present, ts).len() + dropped_moves(moves, present, ts).len()
            == moves.len(),
{
    let gs = by_target(moves);
    lemma_settled_prefix(moves, present, ts, gs.len() as int);
    lemma_take_all(gs);
    lemma_group_bag(keyed_moves(moves), route());
    let a = kept_moves(moves, present, ts).map_values(route());
    let b = dropped_moves(moves, present, ts).map_values(dropped_route());
    assert(entry_values(keyed_moves(moves)).map_values(route()) =~= moves.map_values(route()));
    lemma_bag_size(a);
    lemma_bag_size(b);
    lemma_bag_size(moves.map_values(route()));
    assert(a.to_multiset().add(b.to_multiset()).len() == a.to_multiset().len()
        + b.to_multiset().len());
}

/// A multiset of items is as large as the sequence.
proof fn lemma_bag_size<X>(s: Seq<X>)
    ensures
        s.to_multiset().len() == s.len(),
{
    broadcast use vstd::seq_lib::group_to_multiset_ensures;

}

/// What is appended joins the multiset.
proof fn lemma_bag_push<X>(s: Seq<X>, x: X)
    ensures
        s.push(x).to_multiset() == s.to_multiset().insert(x),
{
    broadcast use vstd::seq_lib::group_to_multiset_ensures;

}

/// The values of some entries.
pub open spec fn entry_values<W>(items: Seq<(Seq<Seq<char>>, W)>) -> Seq<W> {
    items.map_values(|e: (Seq<Seq<char>>, W)| e.1)
}

/// What the items of some groups are mapped to, as a multiset.
spec fn bag<W, X>(gs: Seq<(Seq<Seq<char>>, Seq<W>)>, f: spec_fn(W) -> X) -> Multiset<X>
    decreases gs.len(),
{
    if gs.len() == 0 {
        Multiset::empty()
    } else {
        bag(gs.drop_last(), f).add(gs.last().1.map_values(f).to_multiset())
    }
}

/// The law above for one target.
proof fn lemma_settled_target(
    g: (Seq<Seq<char>>, Seq<PlannedMoveView>),
    present: Seq<Seq<Seq<char>>>,
    ts: Seq<(Seq<Seq<char>>, Option<Seq<char>>)>,
)
    requires
        g.1.len() > 0,
    ensures
        target_kept(present, ts)(g).map_values(route()).to_multiset().add(
            target_dropped(present, ts)(g).map_values(dropped_route()).to_multiset(),
        ) == g.1.map_values(route()).to_multiset(),
{
    let kept = target_kept(present, ts)(g).map_values(route());
    let lost = target_dropped(present, ts)(g).map_values(dropped_route());
    let all = g.1.map_values(route());
    if present.contains(g.0) {
        assert(kept =~= Seq::empty());
        assert(lost =~= all);
        lemma_bag_size(kept);
        assert(kept.to_multiset() =~= Multiset::empty());
        assert(kept.to_multiset().add(lost.to_multiset()) =~= all.to_multiset());
    } else {
        let best = newest(ts, g.1, g.1.len() as int);
        lemma_newest(ts, g.1, g.1.len() as int);
        assert(kept =~= Seq::empty().push(all[best]));
        assert(lost =~= all.remove(best));
        lemma_insert_multiset(lost, best, all[best]);
        assert(lost.insert(best, all[best]) =~= all);
        lemma_bag_push(Seq::<(TagRefView, Seq<char>)>::empty(), all[best]);
        lemma_bag_size(Seq::<(TagRefView, Seq<char>)>::empty());
        assert(Seq::<(TagRefView, Seq<char>)>::empty().to_multiset() =~= Multiset::empty());
        assert(kept.to_multiset().add(lost.to_multiset()) =~= all.to_multiset());
    }
}

/// The law above for the first `n` targets.
proof fn lemma_settled_prefix(
    moves: Seq<PlannedMoveView>,
    present: Seq<Seq<Seq<char>>>,
    ts: Seq<(Seq<Seq<char>>, Option<Seq<char>>)>,
    n: int,
)
    requires
        0 <= n <= by_target(moves).len(),
    ensures
        spread(by_target(moves).take(n), target_kept(present, ts)).map_values(
            route(),
        ).to_multiset().add(
            spread(by_target(moves).take(n), target_dropped(present, ts)).map_values(
                dropped_route(),
            ).to_multiset(),
        ) == bag(by_target(moves).take(n), route()),
    decreases n,
{
    let gs = by_target(moves);
    let keep = target_kept(present, ts);
    let lose = target_dropped(present, ts);
    if n == 0 {
        let a = spread(gs.take(0), keep).map_values(route());
        let b = spread(gs.take(0), lose).map_values(dropped_route());
        assert(a =~= Seq::empty());
        assert(b =~= Seq::empty());
        lemma_bag_size(a);
        lemma_bag_size(b);
        assert(a.to_multiset() =~= Multiset::empty());
        assert(b.to_multiset() =~= Multiset::empty());
        assert(a.to_multiset().add(b.to_multiset()) =~= bag(gs.take(0), route()));
    } else {
        lemma_settled_prefix(moves, present, ts, n - 1);
        lemma_spread_step(gs, keep, n - 1);
        lemma_spread_step(gs, lose, n - 1);
        lemma_target_nonempty(moves, n - 1);
        lemma_settled_target(gs[n - 1], present, ts);
        assert(gs.take(n).drop_last() =~= gs.take(n - 1));
        let a = spread(gs.take(n - 1), keep).map_values(route());
        let b = spread(gs.take(n - 1), lose).map_values(dropped_route());
        let x = keep(gs[n - 1]).map_values(route());
        let y = lose(gs[n - 1]).map_values(dropped_route());
        assert(spread(gs.take(n), keep).map_values(route()) =~= a + x);
        assert(spread(gs.take(n), lose).map_values(dropped_route()) =~= b + y);
        vstd::seq_lib::lemma_multiset_commutative(a, x);
        vstd::seq_lib::lemma_multiset_commutative(b, y);
        assert((a + x).to_multiset().add((b + y).to_multiset()) =~= a.to_multiset().add(
            b.to_multiset(),
        ).add(x.to_multiset().add(y.to_multiset())));
    }
}

/// Grouping keeps every item.
proof fn lemma_group_bag<W, X>(items: Seq<(Seq<Seq<char>>, W)>, f: spec_fn(W) -> X)
    ensures
        bag(group_by(items), f) == entry_values(items).map_values(f).to_multiset(),
    decreases items.len(),
{
    if items.len() == 0 {
        assert(keys_of(items) =~= Seq::<Seq<Seq<char>>>::empty());
        assert(group_by(items) =~= Seq::<(Seq<Seq<char>>, Seq<W>)>::empty());
        let none = entry_values(items).map_values(f);
        lemma_bag_size(none);
        assert(none.to_multiset() =~= Multiset::empty());
    } else {
        let rest = items.drop_last();
        let (k, w) = items.last();
        lemma_group_bag(rest, f);
        lemma_group_push(rest, k, w);
        assert(items =~= rest.push((k, w)));
        assert(entry_values(items).map_values(f) =~= entry_values(rest).map_values(f).push(f(w)));
        lemma_bag_push(entry_values(rest).map_values(f), f(w));
        let before = group_by(rest);
        let keys = keys_of(before);
        lemma_rank(keys, k);
        let p = rank(keys, k);
        if keys.contains(k) {
            lemma_bag_update(before, p, k, w, f);
        } else {
            lemma_bag_insert(before, p, k, w, f);
        }
    }
}

/// What a group gains joins the multiset.
proof fn lemma_bag_update<W, X>(
    gs: Seq<(Seq<Seq<char>>, Seq<W>)>,
    p: int,
    k: Seq<Seq<char>>,
    w: W,
    f: spec_fn(W) -> X,
)
    requires
        0 <= p < gs.len(),
    ensures
        bag(gs.update(p, (k, gs[p].1.push(w))), f) == bag(gs, f).insert(f(w)),
    decreases gs.len(),
{
    let out = gs.update(p, (k, gs[p].1.push(w)));
    if p == gs.len() - 1 {
        assert(out.drop_last() =~= gs.drop_last());
        let last = gs[p].1.map_values(f);
        assert(gs[p].1.push(w).map_values(f) =~= last.push(f(w)));
        lemma_bag_push(last, f(w));
        assert(bag(out, f) =~= bag(gs, f).insert(f(w)));
    } else {
        lemma_bag_update(gs.drop_last(), p, k, w, f);
        assert(out.drop_last() =~= gs.drop_last().update(p, (k, gs[p].1.push(w))));
        assert(out.last() == gs.last());
        assert(bag(out, f) =~= bag(gs, f).insert(f(w)));
    }
}

/// What a new group holds joins the multiset.
proof fn lemma_bag_insert<W, X>(
    gs: Seq<(Seq<Seq<char>>, Seq<W>)>,
    p: int,
    k: Seq<Seq<char>>,
    w: W,
    f: spec_fn(W) -> X,
)
    requires
        0 <= p <= gs.len(),
    ensures
        bag(gs.insert(p, (k, Seq::<W>::empty().push(w))), f) == bag(gs, f).insert(f(w)),
    decreases gs.len(),
{
    let g = (k, Seq::<W>::empty().push(w));
    let out = gs.insert(p, g);
    if p == gs.len() {
        assert(out.drop_last() =~= gs);
        assert(g.1.map_values(f) =~= Seq::<X>::empty().push(f(w)));
        lemma_bag_push(Seq::<X>::empty(), f(w));
        lemma_bag_size(Seq::<X>::empty());
        assert(Seq::<X>::empty().to_multiset() =~= Multiset::empty());
        assert(bag(out, f) =~= bag(gs, f).insert(f(w)));
    } else {
        lemma_bag_insert(gs.drop_last(), p, k, w, f);
        assert(out.drop_last() =~= gs.drop_last().insert(p, g));
        assert(out.last() == gs.last());
        assert(bag(out, f) =~= bag(gs, f).insert(f(w)));
    }
}

/// The one value under a key of entries with ascending keys.
proof fn lemma_single_value<W>(items: Seq<(Seq<Seq<char>>, W)>, i: int, n: int)
    requires
        ascending(keys_of(items)),
        0 <= i < items.len(),
        0 <= n <= items.len(),
    ensures
        values_for(items.take(n), items[i].0) == if i < n {
            seq![items[i].1]
        } else {
            Seq::empty()
        },
    decreases n,
{
    let f = value_under::<W>(items[i].0);
    if n == 0 {
        assert(values_for(items.take(0), items[i].0) =~= Seq::<W>::empty());
    } else {
        lemma_single_value(items, i, n - 1);
        lemma_filter_map_step(items, f, n - 1);
        let keys = keys_of(items);
        assert(keys[i] == items[i].0 && keys[n - 1] == items[n - 1].0);
        if n - 1 != i {
            lemma_key_lt_irreflexive(keys[i]);
            assert(key_lt(keys[i], keys[n - 1]) || key_lt(keys[n - 1], keys[i]));
        } else {
            assert(Seq::<W>::empty().push(items[i].1) =~= seq![items[i].1]);
        }
    }
}

/// Moves with ascending targets, none of which is held yet, stay as they are.
proof fn lemma_settled_moves_stay(
    moves: Seq<PlannedMoveView>,
    present: Seq<Seq<Seq<char>>>,
    ts: Seq<(Seq<Seq<char>>, Option<Seq<char>>)>,
    n: int,
)
    requires
        ascending(targets(moves)),
        forall|i: int| 0 <= i < moves.len() ==> !present.contains(move_key(#[trigger] moves[i])),
        0 <= n <= moves.len(),
    ensures
        by_target(moves).len() == moves.len(),
        spread(by_target(moves).take(n), target_kept(present, ts)) == moves.take(n),
        spread(by_target(moves).take(n), target_dropped(present, ts)).len() == 0,
    decreases n,
{
    let gs = by_target(moves);
    let items = keyed_moves(moves);
    let keep = target_kept(present, ts);
    let lose = target_dropped(present, ts);
    assert(keys_of(items) =~= targets(moves));
    lemma_sorted_keys(targets(moves));
    lemma_ascending_unique(sorted_keys(targets(moves)), targets(moves));
    if n == 0 {
        assert(spread(gs.take(0), keep) =~= moves.take(0));
    } else {
        let i = n - 1;
        lemma_settled_moves_stay(moves, present, ts, i);
        lemma_spread_step(gs, keep, i);
        lemma_spread_step(gs, lose, i);
        lemma_single_value(items, i, items.len() as int);
        lemma_take_all(items);
        assert(targets(moves)[i] == move_key(moves[i]));
        assert(items[i] == (move_key(moves[i]), moves[i]));
        assert(gs[i] == (move_key(moves[i]), seq![moves[i]]));
        assert(newest(ts, gs[i].1, 1) == 0);
        assert(keep(gs[i]) =~= seq![moves[i]]);
        assert(gs[i].1.remove(0) =~= Seq::<PlannedMoveView>::empty());
        assert(lose(gs[i]).len() == 0);
        assert(moves.take(i) + seq![moves[i]] =~= moves.take(n));
    }
}

/// Moves whose collisions were resolved have none left: resolving them again
/// changes nothing.
pub proof fn law_resolved_moves_stay(
    moves: Seq<PlannedMoveView>,
    present: Seq<Seq<Seq<char>>>,
    ts: Seq<(Seq<Seq<char>>, Option<Seq<char>>)>,
)
    ensures
        kept_moves(kept_moves(moves, present, ts), present, ts) == kept_moves(moves, present, ts),
        dropped_moves(kept_moves(moves, present, ts), present, ts).len() == 0,
{
    let kept = kept_moves(moves, present, ts);
    law_one_move_per_free_target(moves, present, ts);
    law_kept_moves_never_clobber(moves, present, ts);
    lemma_sorted_keys(targets(moves));
    lemma_filter_ascending(sorted_keys(targets(moves)), is_free(present));
    lemma_settled_moves_stay(kept, present, ts, kept.len() as int);
    lemma_take_all(kept);
    lemma_take_all(by_target(kept));
}

} // verus!
