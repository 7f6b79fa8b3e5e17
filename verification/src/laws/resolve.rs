//! What resolving a docker reorganisation plan promises.
use crate::laws::plan::{begins_with_one, law_prefixes_begin_names};
use crate::laws::text::{law_comparison_is_fair, law_split_at_the_first};
use crate::ordered::{
    ascending, insert_key, insert_keys, is_key, key1, key3, key_lt, keys_of, lemma_insert_key,
    lemma_insert_keys, lemma_key_lt_irreflexive, lemma_put, lemma_sorted_keys, lookup, occurrences,
    sorted_keys, value_under, values_for,
};
use crate::reorg::collisions::{
    age, by_target, dropped, dropped_moves, kept_moves, keyed_moves, law_kept_moves_never_clobber,
    law_newest_copy_is_kept, lemma_newest, lemma_target_nonempty, move_key, newest, source_age,
    target_dropped, target_kept, targets, SupersededItemView,
};
use crate::reorg::compile::CompiledGroupView;
use crate::reorg::plan::{
    routed_class, AbsentView, ConditionalDeleteView, DeleteItemView, PlannedMoveView,
    ReconcileItemView, TagRefView,
};
use crate::reorg::resolve::{
    after_reconcile, after_superseded, before_time, colliding_tag, created_of, empty_resolved,
    inventory_keys, law_newer_dropped_copy_is_kept, purged_tag, reconcile_outcome, retired_tag,
    scan_holds, scan_order, FoundCopyView, ResolvedView,
};
use crate::reorg::settle::{after_conditional, after_triage, is_held, is_unscanned, TriageFactsView};
use crate::seqs::{lemma_filter_contains, lemma_filter_map_contains, lemma_spread_contains};
use crate::text::{lemma_text_lt_irreflexive, lemma_text_lt_transitive, text_lt};
use vstd::prelude::*;

verus! {

/// Both build dates are known, and the kept copy's sorts before the dropped one's.
pub open spec fn provably_newer(s: SupersededItemView) -> bool {
    s.own_built is Some && s.winner_built is Some && text_lt(
        s.winner_built->Some_0,
        s.own_built->Some_0,
    )
}

/// The deletion of a dropped copy.
pub open spec fn cleanup_of(s: SupersededItemView) -> DeleteItemView {
    DeleteItemView { tag: s.tag, reason: "superseded (a newer copy is kept elsewhere)"@ }
}

/// A dropped move stays for review exactly where both build dates are known and the
/// kept copy's date sorts strictly before its own; every other one is deleted.
pub proof fn law_only_newer_copies_stay_for_review(r: ResolvedView, items: Seq<SupersededItemView>)
    ensures
        forall|s: SupersededItemView| #[trigger]
            after_superseded(r, items).superseded.contains(s) <==> r.superseded.contains(s) || (
            items.contains(s) && provably_newer(s)),
        forall|i: int|
            0 <= i < items.len() && !provably_newer(#[trigger] items[i]) ==> after_superseded(
                r,
                items,
            ).deletes.contains(cleanup_of(items[i])),
        forall|d: DeleteItemView| #[trigger]
            after_superseded(r, items).deletes.contains(d) ==> r.deletes.contains(d) || cleans_up(
                items,
                d,
            ),
        after_superseded(r, items).superseded.len() + after_superseded(r, items).deletes.len()
            == r.superseded.len() + r.deletes.len() + items.len(),
    decreases items.len(),
{
    if items.len() > 0 {
        let rest = items.drop_last();
        law_only_newer_copies_stay_for_review(r, rest);
        let before = after_superseded(r, rest);
        let after = after_superseded(r, items);
        let x = items.last();
        assert forall|s: SupersededItemView| #[trigger] items.contains(s) <==> rest.contains(s)
            || s == x by {
            if items.contains(s) {
                let i = choose|i: int| 0 <= i < items.len() && items[i] == s;
                if i < rest.len() {
                    assert(rest[i] == s);
                }
            }
            if rest.contains(s) {
                let i = choose|i: int| 0 <= i < rest.len() && rest[i] == s;
                assert(items[i] == s);
            }
            assert(items[items.len() - 1] == x);
        }
        assert forall|s: SupersededItemView| #[trigger]
            after.superseded.contains(s) <==> r.superseded.contains(s) || (items.contains(s)
                && provably_newer(s)) by {
            lemma_push_contains(before.superseded, x, s);
            assert(before.superseded.contains(s) <==> r.superseded.contains(s) || (rest.contains(s)
                && provably_newer(s)));
            assert(items.contains(s) <==> rest.contains(s) || s == x);
        }
        assert forall|i: int|
            0 <= i < items.len() && !provably_newer(#[trigger] items[i]) implies
            after.deletes.contains(cleanup_of(items[i])) by {
            let d = cleanup_of(items[i]);
            lemma_push_contains(before.deletes, cleanup_of(x), d);
            if i < rest.len() {
                assert(rest[i] == items[i]);
                assert(before.deletes.contains(d));
            }
        }
        assert forall|d: DeleteItemView| #[trigger] after.deletes.contains(d) implies
            r.deletes.contains(d) || cleans_up(items, d) by {
            lemma_push_contains(before.deletes, cleanup_of(x), d);
            if before.deletes.contains(d) {
                if !r.deletes.contains(d) {
                    assert(cleans_up(rest, d));
                    let i = choose|i: int|
                        0 <= i < rest.len() && cleanup_of(#[trigger] rest[i]) == d
                            && !provably_newer(rest[i]);
                    assert(items[i] == rest[i]);
                    assert(cleans_up(items, d));
                }
            } else {
                assert(items[items.len() - 1] == x);
                assert(cleans_up(items, d));
            }
        }
    } else {
        assert forall|s: SupersededItemView| !(#[trigger] items.contains(s)) by {}
    }
}

/// A deletion is that of a dropped copy that is not provably newer.
pub open spec fn cleans_up(items: Seq<SupersededItemView>, d: DeleteItemView) -> bool {
    exists|i: int|
        0 <= i < items.len() && cleanup_of(#[trigger] items[i]) == d && !provably_newer(items[i])
}

/// An item of a sequence with one more.
pub proof fn lemma_push_contains<T>(s: Seq<T>, x: T, y: T)
    ensures
        s.push(x).contains(y) <==> s.contains(y) || x == y,
{
    if s.contains(y) {
        let i = choose|i: int| 0 <= i < s.len() && s[i] == y;
        assert(s.push(x)[i] == y);
    }
    if x == y {
        assert(s.push(x)[s.len() as int] == y);
    }
    if s.push(x).contains(y) {
        let i = choose|i: int| 0 <= i < s.push(x).len() && s.push(x)[i] == y;
        if i < s.len() {
            assert(s[i] == y);
        }
    }
}

/// A dropped copy whose date sorts before that of the kept copy is among the
/// deletes, and is not put up for review.
pub proof fn law_older_dropped_copy_is_cleaned_up(
    r: ResolvedView,
    items: Seq<SupersededItemView>,
    i: int,
)
    requires
        0 <= i < items.len(),
        items[i].own_built is Some,
        items[i].winner_built is Some,
        text_lt(items[i].own_built->Some_0, items[i].winner_built->Some_0),
        !r.superseded.contains(items[i]),
    ensures
        after_superseded(r, items).deletes.contains(cleanup_of(items[i])),
        !after_superseded(r, items).superseded.contains(items[i]),
{
    law_only_newer_copies_stay_for_review(r, items);
    law_comparison_is_fair(items[i].own_built->Some_0, items[i].winner_built->Some_0);
}

/// Of two sources of a tag that the destination lacks, the older one, where both
/// build dates are known, is deleted, and the newest is moved.
pub proof fn law_older_of_two_sources_is_deleted(
    r: ResolvedView,
    present: Seq<Seq<Seq<char>>>,
    ts: Seq<(Seq<Seq<char>>, Option<Seq<char>>)>,
    a: int,
    b: int,
)
    requires
        0 <= a < r.moves.len(),
        0 <= b < r.moves.len(),
        r.moves[a].dest == r.moves[b].dest,
        r.moves[a].image == r.moves[b].image,
        r.moves[a].tag == r.moves[b].tag,
        !present.contains(seq![r.moves[a].dest, r.moves[a].image, r.moves[a].tag]),
        ({
            let m = r.moves[a];
            let n = r.moves[b];
            let x = lookup(ts, seq![m.source_repo, m.image, m.tag]);
            let y = lookup(ts, seq![n.source_repo, n.image, n.tag]);
            x matches Some(Some(s)) && y matches Some(Some(t)) && text_lt(s, t)
        }),
    ensures
        ({
            let m = r.moves[a];
            let after = after_superseded(
                ResolvedView { moves: kept_moves(r.moves, present, ts), ..r },
                dropped_moves(r.moves, present, ts),
            );
            &&& !after.moves.contains(m)
            &&& after.deletes.contains(
                DeleteItemView {
                    tag: TagRefView { source_repo: m.source_repo, image: m.image, tag: m.tag },
                    reason: "superseded (a newer copy is kept elsewhere)"@,
                },
            )
        }),
{
    let moves = r.moves;
    let m = moves[a];
    let n = moves[b];
    let k = move_key(m);
    let (i, cands) = lemma_candidates(moves, m);
    let (i2, cands2) = lemma_candidates(moves, n);
    assert(move_key(n) == k);
    let gs = by_target(moves);
    lemma_one_group(moves, i, i2);
    assert(cands2 == cands);
    let x = choose|x: int| 0 <= x < cands.len() && cands[x] == m;
    let y = choose|y: int| 0 <= y < cands.len() && cands[y] == n;
    lemma_newest(ts, cands, cands.len() as int);
    let best = newest(ts, cands, cands.len() as int);
    let s = source_age(ts, m);
    let t = source_age(ts, n);
    let w = source_age(ts, cands[best]);
    assert(key3(m.source_repo, m.image, m.tag) =~= seq![m.source_repo, m.image, m.tag]);
    assert(key3(n.source_repo, n.image, n.tag) =~= seq![n.source_repo, n.image, n.tag]);
    assert(text_lt(s, t));
    assert(!text_lt(w, t)) by {
        assert(!text_lt(source_age(ts, cands[best]), source_age(ts, cands[y])));
    }
    law_comparison_is_fair(w, t);
    if text_lt(t, w) {
        lemma_text_lt_transitive(s, t, w);
    }
    assert(text_lt(s, w));
    lemma_text_lt_irreflexive(s);
    assert(best != x);
    assert(!present.contains(gs[i].0)) by {
        assert(gs[i].0 =~= seq![m.dest, m.image, m.tag]);
    }
    let winner = cands[best].source_repo;
    let kept_text = "the newer copy in "@ + winner;
    let wb = age(ts, winner, gs[i].0[1], gs[i].0[2]);
    let item = dropped(ts, m, kept_text, wb);
    let drop = target_dropped(present, ts);
    let left = cands.remove(best);
    assert(left.contains(m)) by {
        if x < best {
            assert(left[x] == m);
        } else {
            assert(left[x - 1] == m);
        }
    }
    let z = choose|z: int| 0 <= z < left.len() && left[z] == m;
    assert(drop(gs[i])[z] == item);
    assert(drop(gs[i]).contains(item));
    lemma_spread_contains(gs, drop, item);
    let items = dropped_moves(moves, present, ts);
    assert(items.contains(item));
    let base = ResolvedView { moves: kept_moves(moves, present, ts), ..r };
    law_only_newer_copies_stay_for_review(base, items);
    let at = choose|at: int| 0 <= at < items.len() && items[at] == item;
    lemma_group_members(moves, i, best);
    assert(move_key(cands[best]) == k);
    assert(gs[i].0[1] == m.image && gs[i].0[2] == m.tag);
    assert(key3(cands[best].dest, cands[best].image, cands[best].tag)[1] == m.image);
    assert(key3(cands[best].dest, cands[best].image, cands[best].tag)[2] == m.tag);
    assert(cands[best].image == m.image && cands[best].tag == m.tag);
    if let Some(o) = item.own_built {
        if let Some(v) = item.winner_built {
            assert(o == s);
            assert(v == w);
            law_comparison_is_fair(s, w);
        }
    }
    assert(!provably_newer(item));
    law_newer_dropped_copy_is_kept(base, items);
    assert(!kept_moves(moves, present, ts).contains(m)) by {
        let keep = target_kept(present, ts);
        if kept_moves(moves, present, ts).contains(m) {
            lemma_spread_contains(gs, keep, m);
            let g = choose|g: int| 0 <= g < gs.len() && (#[trigger] keep(gs[g])).contains(m);
            let v = gs[g].1[newest(ts, gs[g].1, gs[g].1.len() as int)];
            assert(keep(gs[g])[0] == m);
            assert(v == m);
            lemma_group_nonempty(moves, g);
            lemma_newest(ts, gs[g].1, gs[g].1.len() as int);
            lemma_group_members(moves, g, newest(ts, gs[g].1, gs[g].1.len() as int));
            assert(gs[g].0 == move_key(m));
            lemma_one_group(moves, i, g);
            assert(cands[best] == m);
            assert(text_lt(s, s));
        }
    }
}

/// The candidates of a move's target, which hold the move.
proof fn lemma_candidates(moves: Seq<PlannedMoveView>, m: PlannedMoveView) -> (r: (
    int,
    Seq<PlannedMoveView>,
))
    requires
        moves.contains(m),
    ensures
        0 <= r.0 < by_target(moves).len(),
        by_target(moves)[r.0] == (move_key(m), r.1),
        r.1.contains(m),
{
    let items = keyed_moves(moves);
    let keys = keys_of(items);
    let x = choose|x: int| 0 <= x < moves.len() && moves[x] == m;
    assert(items[x] == (move_key(m), m));
    assert(keys[x] == move_key(m));
    lemma_sorted_keys(keys);
    assert(keys.contains(move_key(m)));
    assert(sorted_keys(keys).contains(move_key(m)));
    let i = choose|i: int| 0 <= i < sorted_keys(keys).len() && sorted_keys(keys)[i] == move_key(m);
    let cands = values_for(items, move_key(m));
    assert(by_target(moves)[i] == (move_key(m), cands));
    assert(value_under::<PlannedMoveView>(move_key(m))(items[x]) == Some(m));
    lemma_filter_map_contains(items, value_under(move_key(m)), m);
    (i, cands)
}

/// A group of a target holds moves to that target.
proof fn lemma_group_members(moves: Seq<PlannedMoveView>, g: int, x: int)
    requires
        0 <= g < by_target(moves).len(),
        0 <= x < by_target(moves)[g].1.len(),
    ensures
        move_key(by_target(moves)[g].1[x]) == by_target(moves)[g].0,
{
    let items = keyed_moves(moves);
    let k = by_target(moves)[g].0;
    let vs = values_for(items, k);
    let f = value_under::<PlannedMoveView>(k);
    lemma_filter_map_contains(items, f, vs[x]);
    assert(vs.contains(vs[x]));
    let i = choose|i: int| 0 <= i < items.len() && #[trigger] f(items[i]) == Some(vs[x]);
    assert(items[i] == (move_key(moves[i]), moves[i]));
}

/// A group of a target is not empty.
proof fn lemma_group_nonempty(moves: Seq<PlannedMoveView>, g: int)
    requires
        0 <= g < by_target(moves).len(),
    ensures
        by_target(moves)[g].1.len() > 0,
{
    let items = keyed_moves(moves);
    let keys = keys_of(items);
    lemma_sorted_keys(keys);
    let k = sorted_keys(keys)[g];
    assert(sorted_keys(keys).contains(k));
    assert(keys.contains(k));
    let x = choose|x: int| 0 <= x < keys.len() && keys[x] == k;
    let f = value_under::<PlannedMoveView>(k);
    assert(f(items[x]) == Some(moves[x]));
    lemma_filter_map_contains(items, f, moves[x]);
    assert(values_for(items, k).contains(moves[x]));
}

/// A target has one group.
proof fn lemma_one_group(moves: Seq<PlannedMoveView>, g: int, h: int)
    requires
        0 <= g < by_target(moves).len(),
        0 <= h < by_target(moves).len(),
        by_target(moves)[g].0 == by_target(moves)[h].0,
    ensures
        g == h,
{
    let keys = keys_of(keyed_moves(moves));
    lemma_sorted_keys(keys);
    let sorted = sorted_keys(keys);
    assert(by_target(moves)[g].0 == sorted[g]);
    assert(by_target(moves)[h].0 == sorted[h]);
    lemma_key_lt_irreflexive(sorted[g]);
    if g < h {
        assert(key_lt(sorted[g], sorted[h]));
    }
    if h < g {
        assert(key_lt(sorted[h], sorted[g]));
    }
}

/// A move to a place where the tag is already is never made: it is dropped, for the
/// copy that is there.
pub proof fn law_existing_copy_is_never_overwritten(
    moves: Seq<PlannedMoveView>,
    present: Seq<Seq<Seq<char>>>,
    ts: Seq<(Seq<Seq<char>>, Option<Seq<char>>)>,
    a: int,
)
    requires
        0 <= a < moves.len(),
        present.contains(seq![moves[a].dest, moves[a].image, moves[a].tag]),
    ensures
        !kept_moves(moves, present, ts).contains(moves[a]),
        dropped_moves(moves, present, ts).contains(
            SupersededItemView {
                tag: TagRefView {
                    source_repo: moves[a].source_repo,
                    image: moves[a].image,
                    tag: moves[a].tag,
                },
                dest: moves[a].dest,
                kept: "the existing copy already there"@,
                own_built: age(ts, moves[a].source_repo, moves[a].image, moves[a].tag),
                winner_built: age(ts, moves[a].dest, moves[a].image, moves[a].tag),
            },
        ),
{
    let m = moves[a];
    let gs = by_target(moves);
    let (i, cands) = lemma_candidates(moves, m);
    assert(move_key(m) =~= seq![m.dest, m.image, m.tag]);
    let drop = target_dropped(present, ts);
    let item = dropped(
        ts,
        m,
        "the existing copy already there"@,
        age(ts, m.dest, m.image, m.tag),
    );
    let x = choose|x: int| 0 <= x < cands.len() && cands[x] == m;
    assert(drop(gs[i])[x] == item);
    assert(drop(gs[i]).contains(item));
    lemma_spread_contains(gs, drop, item);
    law_kept_moves_never_clobber(moves, present, ts);
    if kept_moves(moves, present, ts).contains(m) {
        let kept = kept_moves(moves, present, ts);
        let z = choose|z: int| 0 <= z < kept.len() && kept[z] == m;
        assert(!present.contains(move_key(kept[z])));
    }
}

/// A move that no other competes with, to a place without the tag, is made.
pub proof fn law_single_move_to_a_free_place_is_made(
    moves: Seq<PlannedMoveView>,
    present: Seq<Seq<Seq<char>>>,
    ts: Seq<(Seq<Seq<char>>, Option<Seq<char>>)>,
    a: int,
)
    requires
        0 <= a < moves.len(),
        !present.contains(seq![moves[a].dest, moves[a].image, moves[a].tag]),
        forall|b: int|
            0 <= b < moves.len() && (#[trigger] moves[b]).dest == moves[a].dest && moves[b].image
                == moves[a].image && moves[b].tag == moves[a].tag ==> moves[b] == moves[a],
    ensures
        kept_moves(moves, present, ts).contains(moves[a]),
{
    let m = moves[a];
    assert(move_key(m) =~= seq![m.dest, m.image, m.tag]);
    law_newest_copy_is_kept(moves, present, ts, m);
    let k = choose|k: PlannedMoveView| #[trigger]
        kept_moves(moves, present, ts).contains(k) && move_key(k) == move_key(m);
    let gs = by_target(moves);
    let keep = target_kept(present, ts);
    lemma_spread_contains(gs, keep, k);
    let g = choose|g: int| 0 <= g < gs.len() && (#[trigger] keep(gs[g])).contains(k);
    let v = gs[g].1[newest(ts, gs[g].1, gs[g].1.len() as int)];
    assert(keep(gs[g])[0] == k);
    assert(v == k);
    lemma_group_nonempty(moves, g);
    lemma_newest(ts, gs[g].1, gs[g].1.len() as int);
    let items = keyed_moves(moves);
    let f = value_under::<PlannedMoveView>(gs[g].0);
    lemma_filter_map_contains(items, f, k);
    assert(values_for(items, gs[g].0).contains(k));
    let i = choose|i: int| 0 <= i < items.len() && #[trigger] f(items[i]) == Some(k);
    assert(moves[i] == k);
    assert(key3(k.dest, k.image, k.tag)[0] == k.dest);
    assert(key3(m.dest, m.image, m.tag)[0] == m.dest);
    assert(key3(k.dest, k.image, k.tag)[1] == k.image);
    assert(key3(m.dest, m.image, m.tag)[1] == m.image);
    assert(key3(k.dest, k.image, k.tag)[2] == k.tag);
    assert(key3(m.dest, m.image, m.tag)[2] == m.tag);
    assert(moves[i].dest == m.dest);
}

/// A tag that is absent from its check repository is moved to its destination, and
/// nothing else changes; where it is there already it only counts as placed.
pub proof fn law_absent_tag_is_moved(
    r: ResolvedView,
    g: CompiledGroupView,
    rec: ReconcileItemView,
    dest: Seq<char>,
    source_digest: Seq<char>,
    source_built: Option<Seq<char>>,
    check_built: Option<Seq<char>>,
)
    requires
        rec.absent == AbsentView::MoveTo(dest),
    ensures
        ({
            let after = after_reconcile(
                r,
                reconcile_outcome(g, rec, None, source_digest, source_built, check_built),
            );
            if dest == rec.tag.source_repo {
                after == (ResolvedView { already_placed: r.already_placed + 1, ..r })
            } else {
                after == (ResolvedView {
                    moves: r.moves.push(
                        PlannedMoveView {
                            source_repo: rec.tag.source_repo,
                            image: rec.tag.image,
                            tag: rec.tag.tag,
                            dest,
                            class: routed_class(g, rec.tag.image, rec.tag.tag),
                        },
                    ),
                    ..r
                })
            }
        }),
{
}

/// Where the check copy has the same known digest, the source copy is deleted, or
/// kept where it is the check copy itself; where the digest differs or is not
/// known, the tag is a mismatch under the policy of the reconcile.
pub proof fn law_found_copy_is_compared_by_digest(
    r: ResolvedView,
    g: CompiledGroupView,
    rec: ReconcileItemView,
    found: FoundCopyView,
    source_digest: Seq<char>,
    source_built: Option<Seq<char>>,
    check_built: Option<Seq<char>>,
)
    ensures
        ({
            let after = after_reconcile(
                r,
                reconcile_outcome(g, rec, Some(found), source_digest, source_built, check_built),
            );
            let same = found.digest.len() > 0 && found.digest == source_digest;
            &&& after.moves == r.moves
            &&& after.insight_absent == r.insight_absent
            &&& same && rec.tag.source_repo == rec.check_repo ==> after.kept == r.kept.push(rec.tag)
                && after.deletes == r.deletes && after.mismatched == r.mismatched
            &&& same && rec.tag.source_repo != rec.check_repo ==> after.deletes.len()
                == r.deletes.len() + 1 && after.deletes.last().tag == rec.tag && after.kept
                == r.kept && after.mismatched == r.mismatched
            &&& !same ==> after.deletes == r.deletes && after.kept == r.kept
                && after.mismatched.len() == r.mismatched.len() + 1 && ({
                let m = after.mismatched.last();
                &&& m.tag == rec.tag
                &&& m.check_repo == found.repo
                &&& m.source_digest == source_digest
                &&& m.check_digest == found.digest
                &&& m.source_built == source_built
                &&& m.check_built == check_built
                &&& m.on_mismatch == rec.on_mismatch
            })
        }),
{
}

/// The build date of a flagged or redundant copy is recorded where it is known.
pub proof fn law_known_build_date_is_recorded(
    r: ResolvedView,
    g: CompiledGroupView,
    rec: ReconcileItemView,
    found: Option<FoundCopyView>,
    source_digest: Seq<char>,
    date: Seq<char>,
    check_built: Option<Seq<char>>,
)
    requires
        ascending(keys_of(r.created)),
        found is None ==> rec.absent is Flag,
        found matches Some(f) ==> f.digest.len() > 0 && f.digest == source_digest
            && rec.tag.source_repo != rec.check_repo,
    ensures
        created_of(
            after_reconcile(
                r,
                reconcile_outcome(g, rec, found, source_digest, Some(date), check_built),
            ),
            rec.tag,
        ) == date,
{
    lemma_put(r.created, key3(rec.tag.source_repo, rec.tag.image, rec.tag.tag), date);
}

/// The date of a timestamp is what stands before its first `T`.
pub proof fn law_date_stands_before_the_time(date: Seq<char>, time: Seq<char>)
    requires
        !date.contains('T'),
    ensures
        before_time(date + seq!['T'] + time) == date,
        before_time(date) == date,
{
    law_split_at_the_first(date, 'T', time);
}

/// A conditional delete deletes exactly where the check repository lacks the tag.
pub proof fn law_present_tag_is_kept(r: ResolvedView, cd: ConditionalDeleteView)
    ensures
        after_conditional(r, cd, true) == (ResolvedView { kept: r.kept.push(cd.tag), ..r }),
        after_conditional(r, cd, false).deletes.len() == r.deletes.len() + 1,
        after_conditional(r, cd, false).deletes.last().tag == cd.tag,
        after_conditional(r, cd, false).kept == r.kept,
{
}

/// An unclassified image is reported with what the upstream serves of it, and is
/// neither moved nor deleted.
pub proof fn law_unclassified_image_is_only_reported(
    r: ResolvedView,
    tag: TagRefView,
    f: TriageFactsView,
)
    ensures
        ({
            let after = after_triage(r, tag, f);
            let item = after.needs_classification.last();
            &&& after.moves == r.moves
            &&& after.deletes == r.deletes
            &&& after.needs_classification.len() == r.needs_classification.len() + 1
            &&& item.tag == tag
            &&& item.upstream_present <==> f.upstream is Some
            &&& item.upstream_same_digest <==> f.upstream is Some && f.upstream->Some_0.len() > 0
                && f.upstream->Some_0 == f.source_digest
        }),
{
}

/// Tags outside the first-party prefixes: those under a retired prefix are to be
/// deleted, wherever they are; the others are noted where the repository is to be
/// purged; a first-party tag is neither.
pub proof fn law_leftovers_are_told_apart(
    g: CompiledGroupView,
    repo: Seq<char>,
    is_purge: bool,
    image: Seq<char>,
    tag: Seq<char>,
)
    ensures
        ({
            let ours = begins_with_one(g.first_party_prefixes, image);
            let retired = begins_with_one(g.retired_prefixes, image);
            let t = TagRefView { source_repo: repo, image, tag };
            &&& ours ==> retired_tag(g, repo)((image, tag)) is None && purged_tag(
                g,
                repo,
                is_purge,
            )((image, tag)) is None
            &&& !ours && retired ==> retired_tag(g, repo)((image, tag)) == Some(t) && purged_tag(
                g,
                repo,
                is_purge,
            )((image, tag)) is None
            &&& !ours && !retired ==> retired_tag(g, repo)((image, tag)) is None && (purged_tag(
                g,
                repo,
                is_purge,
            )((image, tag)) == (if is_purge {
                Some(t)
            } else {
                None
            }))
        }),
{
    law_prefixes_begin_names(g.first_party_prefixes, image);
    law_prefixes_begin_names(g.retired_prefixes, image);
}

/// A group scans its source repositories, not to be purged, and then those to be
/// purged.
pub proof fn law_sources_are_scanned_before_purged_repositories(g: CompiledGroupView)
    ensures
        scan_order(g).len() == g.source_repos.len() + g.purge_repos.len(),
        forall|i: int|
            0 <= i < g.source_repos.len() ==> #[trigger] scan_order(g)[i] == (
                g.source_repos[i],
                false,
            ),
        forall|i: int|
            0 <= i < g.purge_repos.len() ==> #[trigger] scan_order(g)[g.source_repos.len() + i] == (
                g.purge_repos[i],
                true,
            ),
{
}

/// What a scan holds: a tag of a scanned repository is held exactly where its
/// inventory lists it.
pub proof fn law_scan_holds_the_inventory(
    repos: Seq<Seq<Seq<char>>>,
    tags: Seq<Seq<Seq<char>>>,
    repo: Seq<char>,
    inventory: Seq<(Seq<char>, Seq<char>)>,
    image: Seq<char>,
    tag: Seq<char>,
)
    requires
        ascending(repos),
        ascending(tags),
        !tags.contains(seq![repo, image, tag]),
    ensures
        ({
            let r2 = insert_key(repos, key1(repo));
            let t2 = insert_keys(tags, inventory_keys(repo, inventory));
            scan_holds(r2, t2, repo, image, tag) == Some(inventory.contains((image, tag)))
        }),
        !repos.contains(key1(repo)) ==> scan_holds(repos, tags, repo, image, tag) is None,
{
    lemma_insert_key(repos, key1(repo));
    let keys = inventory_keys(repo, inventory);
    lemma_insert_keys(tags, keys);
    let k = key3(repo, image, tag);
    assert(k =~= seq![repo, image, tag]);
    assert(keys.contains(k) <==> inventory.contains((image, tag))) by {
        if keys.contains(k) {
            let i = choose|i: int| 0 <= i < keys.len() && keys[i] == k;
            assert(key3(repo, inventory[i].0, inventory[i].1)[1] == k[1]);
            assert(key3(repo, inventory[i].0, inventory[i].1)[2] == k[2]);
            assert(inventory[i] == (image, tag));
        }
        if inventory.contains((image, tag)) {
            let i = choose|i: int| 0 <= i < inventory.len() && inventory[i] == (image, tag);
            assert(keys[i] == k);
        }
    }
}

/// The target of a move is asked for exactly where its repository was not scanned;
/// it is held where the scan, or else the answer, says so.
pub proof fn law_scan_counts_for_more_than_an_answer(
    repos: Seq<Seq<Seq<char>>>,
    tags: Seq<Seq<Seq<char>>>,
    asked: Seq<Seq<Seq<char>>>,
    dest: Seq<char>,
    image: Seq<char>,
    tag: Seq<char>,
)
    ensures
        ({
            let k = key3(dest, image, tag);
            &&& is_unscanned(repos)(k) <==> !repos.contains(seq![dest])
            &&& repos.contains(seq![dest]) ==> (is_held(repos, tags, asked)(k) <==> tags.contains(k))
            &&& !repos.contains(seq![dest]) ==> (is_held(repos, tags, asked)(k) <==> asked.contains(
                k,
            ))
        }),
{
    let k = key3(dest, image, tag);
    assert(k[0] == dest);
}

/// A plan begins empty.
pub proof fn law_plan_begins_empty()
    ensures
        ({
            let r = empty_resolved();
            &&& r.moves.len() == 0 && r.deletes.len() == 0 && r.kept.len() == 0 && r.leaves.len()
                == 0
            &&& r.purges.len() == 0 && r.prefix_deletes.len() == 0 && r.mismatched.len() == 0
            &&& r.insight_absent.len() == 0 && r.needs_classification.len() == 0
            &&& r.superseded.len() == 0 && r.non_released.len() == 0 && r.copy_upstream.len() == 0
            &&& r.non_released_note is None && r.already_placed == 0 && r.created.len() == 0
        }),
{
}

/// A build date is asked for where the destination has the tag already, or where two
/// moves go to one place; a single move to a free place needs none.
pub proof fn law_colliding_moves_are_dated(
    moves: Seq<PlannedMoveView>,
    present: Seq<Seq<Seq<char>>>,
    a: int,
    b: int,
)
    requires
        0 <= a < moves.len(),
        0 <= b < moves.len(),
    ensures
        ({
            let m = moves[a];
            let t = TagRefView { source_repo: m.source_repo, image: m.image, tag: m.tag };
            let dated = moves.filter_map(colliding_tag(moves, present));
            &&& present.contains(seq![m.dest, m.image, m.tag]) ==> dated.contains(t)
            &&& a != b && moves[b].dest == m.dest && moves[b].image == m.image && moves[b].tag
                == m.tag ==> dated.contains(t)
        }),
        (forall|i: int|
            0 <= i < moves.len() && i != a ==> (#[trigger] moves[i]).dest != moves[a].dest
                || moves[i].image != moves[a].image || moves[i].tag != moves[a].tag)
            && !present.contains(seq![moves[a].dest, moves[a].image, moves[a].tag])
            ==> colliding_tag(moves, present)(moves[a]) is None,
{
    let m = moves[a];
    let f = colliding_tag(moves, present);
    let t = TagRefView { source_repo: m.source_repo, image: m.image, tag: m.tag };
    let k = move_key(m);
    assert(k =~= seq![m.dest, m.image, m.tag]);
    lemma_filter_map_contains(moves, f, t);
    let keys = targets(moves);
    if a != b && moves[b].dest == m.dest && moves[b].image == m.image && moves[b].tag == m.tag {
        assert(keys[a] == k && keys[b] == k);
        let (i, j) = if a < b {
            (a, b)
        } else {
            (b, a)
        };
        lemma_twice(keys, k, i, j);
        assert(f(moves[a]) == Some(t));
    }
    if present.contains(k) {
        assert(f(moves[a]) == Some(t));
    }
    if (forall|i: int|
        0 <= i < moves.len() && i != a ==> (#[trigger] moves[i]).dest != moves[a].dest
            || moves[i].image != moves[a].image || moves[i].tag != moves[a].tag) {
        assert forall|i: int| 0 <= i < keys.len() && i != a implies #[trigger] keys[i] != k by {
            assert(keys[i] == move_key(moves[i]));
            if keys[i] == k {
                assert(keys[i][0] == k[0] && keys[i][1] == k[1] && keys[i][2] == k[2]);
            }
        }
        lemma_once(keys, k, a);
    }
}

/// A key that stands at two places occurs more than once.
proof fn lemma_twice(keys: Seq<Seq<Seq<char>>>, k: Seq<Seq<char>>, i: int, j: int)
    requires
        0 <= i < j < keys.len(),
        keys[i] == k,
        keys[j] == k,
    ensures
        occurrences(keys, k) > 1,
    decreases keys.len(),
{
    reveal(Seq::filter);
    let rest = keys.drop_last();
    if j < rest.len() {
        lemma_twice(rest, k, i, j);
    } else {
        lemma_filter_contains(rest, is_key(k), k);
        assert(rest[i] == k);
        assert(rest.contains(k));
        assert(rest.filter(is_key(k)).len() > 0);
    }
}

/// A key that stands at no other place occurs at most once.
proof fn lemma_once(keys: Seq<Seq<Seq<char>>>, k: Seq<Seq<char>>, a: int)
    requires
        forall|i: int| 0 <= i < keys.len() && i != a ==> #[trigger] keys[i] != k,
    ensures
        occurrences(keys, k) <= 1,
        a >= keys.len() ==> occurrences(keys, k) == 0,
    decreases keys.len(),
{
    reveal(Seq::filter);
    if keys.len() > 0 {
        let rest = keys.drop_last();
        assert forall|i: int| 0 <= i < rest.len() && i != a implies #[trigger] rest[i] != k by {
            assert(keys[i] != k);
        }
        lemma_once(rest, k, a);
        if a != keys.len() - 1 {
            assert(keys[keys.len() - 1] != k);
        }
    }
}

/// A dropped move names what was kept: the copy that is there already, or the one of
/// a move that was kept for the same place; with the dates of both.
pub proof fn law_dropped_copy_names_the_kept(
    moves: Seq<PlannedMoveView>,
    present: Seq<Seq<Seq<char>>>,
    ts: Seq<(Seq<Seq<char>>, Option<Seq<char>>)>,
    s: SupersededItemView,
)
    requires
        dropped_moves(moves, present, ts).contains(s),
    ensures
        s.own_built == known_date(ts, s.tag.source_repo, s.tag.image, s.tag.tag),
        present.contains(seq![s.dest, s.tag.image, s.tag.tag]) ==> s.kept
            == "the existing copy already there"@ && s.winner_built == known_date(
            ts,
            s.dest,
            s.tag.image,
            s.tag.tag,
        ),
        !present.contains(seq![s.dest, s.tag.image, s.tag.tag]) ==> exists|i: int|
            0 <= i < moves.len() && (#[trigger] moves[i]).dest == s.dest && moves[i].image
                == s.tag.image && moves[i].tag == s.tag.tag && s.kept == "the newer copy in "@
                + moves[i].source_repo && s.winner_built == known_date(
                ts,
                moves[i].source_repo,
                s.tag.image,
                s.tag.tag,
            ) && kept_moves(moves, present, ts).contains(moves[i]),
{
    let gs = by_target(moves);
    let f = target_dropped(present, ts);
    lemma_spread_contains(gs, f, s);
    let g = choose|g: int| 0 <= g < gs.len() && (#[trigger] f(gs[g])).contains(s);
    lemma_target_nonempty(moves, g);
    let cands = gs[g].1;
    let key = gs[g].0;
    let own = f(gs[g]);
    let j = choose|j: int| 0 <= j < own.len() && own[j] == s;
    if present.contains(key) {
        let m = cands[j];
        assert(move_key(m) == key);
        assert(key =~= seq![m.dest, m.image, m.tag]);
        lemma_date(ts, m.source_repo, m.image, m.tag);
        lemma_date(ts, m.dest, m.image, m.tag);
    } else {
        lemma_newest(ts, cands, cands.len() as int);
        let best = newest(ts, cands, cands.len() as int);
        let rest = cands.remove(best);
        let m = rest[j];
        let at = if j < best {
            j
        } else {
            j + 1
        };
        assert(m == cands[at]);
        let w = cands[best];
        assert(move_key(m) == key && move_key(w) == key);
        assert(key =~= seq![m.dest, m.image, m.tag]);
        assert(key3(w.dest, w.image, w.tag)[0] == key[0]);
        assert(key3(w.dest, w.image, w.tag)[1] == key[1]);
        assert(key3(w.dest, w.image, w.tag)[2] == key[2]);
        lemma_date(ts, m.source_repo, m.image, m.tag);
        lemma_date(ts, w.source_repo, m.image, m.tag);
        assert(moves.contains(w));
        let i = choose|i: int| 0 <= i < moves.len() && moves[i] == w;
        assert(moves[i].dest == s.dest);
        let h = target_kept(present, ts);
        assert(h(gs[g])[0] == w);
        assert(h(gs[g]).contains(w));
        lemma_spread_contains(gs, h, w);
    }
}

/// The date of a copy, where one is known.
pub open spec fn known_date(
    ts: Seq<(Seq<Seq<char>>, Option<Seq<char>>)>,
    repo: Seq<char>,
    image: Seq<char>,
    tag: Seq<char>,
) -> Option<Seq<char>> {
    match lookup(ts, seq![repo, image, tag]) {
        Some(Some(d)) => Some(d),
        _ => None,
    }
}

/// How dates are looked up.
proof fn lemma_date(
    ts: Seq<(Seq<Seq<char>>, Option<Seq<char>>)>,
    repo: Seq<char>,
    image: Seq<char>,
    tag: Seq<char>,
)
    ensures
        age(ts, repo, image, tag) == known_date(ts, repo, image, tag),
{
    assert(key3(repo, image, tag) =~= seq![repo, image, tag]);
}

} // verus!
