//! What settling the pending items of a scanned repository promises.
use crate::laws::resolve::lemma_push_contains;
use crate::reorg::compile::CompiledGroupView;
use crate::reorg::plan::{
    AbsentView, ConditionalDeleteView, DeleteItemView, ReconcileItemView, TagRefView,
};
use crate::reorg::resolve::{after_reconcile, reconcile_outcome, ResolvedView};
use crate::reorg::settle::{
    after_settling, with_conditionals, with_reconciles, with_triage, ReconcileFactsView,
    TriageFactsView,
};
use vstd::prelude::*;

verus! {

/// The plan has everything that another one has.
pub open spec fn goes_on_from(after: ResolvedView, r: ResolvedView) -> bool {
    &&& forall|x| #[trigger] r.deletes.contains(x) ==> after.deletes.contains(x)
    &&& forall|x| #[trigger] r.kept.contains(x) ==> after.kept.contains(x)
    &&& forall|x| #[trigger] r.moves.contains(x) ==> after.moves.contains(x)
    &&& forall|x| #[trigger] r.mismatched.contains(x) ==> after.mismatched.contains(x)
    &&& forall|x| #[trigger] r.insight_absent.contains(x) ==> after.insight_absent.contains(x)
    &&& forall|x| #[trigger]
        r.needs_classification.contains(x) ==> after.needs_classification.contains(x)
}

/// A tag is among the deletes.
pub open spec fn deletes_tag(r: ResolvedView, t: TagRefView) -> bool {
    exists|d: DeleteItemView| #[trigger] r.deletes.contains(d) && d.tag == t
}

/// Of the tags to delete where they are absent, those that are present are kept and
/// the others are deleted.
pub proof fn law_conditional_deletes_follow_the_answers(
    r: ResolvedView,
    items: Seq<ConditionalDeleteView>,
    present: Seq<bool>,
    n: int,
)
    requires
        0 <= n <= items.len(),
        n <= present.len(),
    ensures
        goes_on_from(with_conditionals(r, items, present, n), r),
        forall|i: int|
            0 <= i < n && present[i] ==> with_conditionals(r, items, present, n).kept.contains(
                (#[trigger] items[i]).tag,
            ),
        forall|i: int|
            0 <= i < n && !present[i] ==> deletes_tag(
                with_conditionals(r, items, present, n),
                (#[trigger] items[i]).tag,
            ),
        with_conditionals(r, items, present, n).kept.len() + with_conditionals(
            r,
            items,
            present,
            n,
        ).deletes.len() == r.kept.len() + r.deletes.len() + n,
    decreases n,
{
    if n > 0 {
        law_conditional_deletes_follow_the_answers(r, items, present, n - 1);
        let before = with_conditionals(r, items, present, n - 1);
        let after = with_conditionals(r, items, present, n);
        let cd = items[n - 1];
        if present[n - 1] {
            assert forall|x| before.kept.contains(x) || x == cd.tag implies #[trigger]
                after.kept.contains(x) by {
                lemma_push_contains(before.kept, cd.tag, x);
            }
            assert forall|i: int| 0 <= i < n && !present[i] implies deletes_tag(
                after,
                (#[trigger] items[i]).tag,
            ) by {
                assert(deletes_tag(before, items[i].tag));
                assert(after.deletes == before.deletes);
                let d = choose|d: DeleteItemView| #[trigger]
                    before.deletes.contains(d) && d.tag == items[i].tag;
                assert(after.deletes.contains(d));
            }
        } else {
            let d = after.deletes.last();
            assert(after.deletes =~= before.deletes.push(d));
            assert forall|x| before.deletes.contains(x) || x == d implies #[trigger]
                after.deletes.contains(x) by {
                lemma_push_contains(before.deletes, d, x);
            }
            assert(after.deletes.contains(d));
            assert forall|i: int| 0 <= i < n && !present[i] implies deletes_tag(
                after,
                (#[trigger] items[i]).tag,
            ) by {
                if i < n - 1 {
                    assert(deletes_tag(before, items[i].tag));
                    let x = choose|x: DeleteItemView| #[trigger]
                        before.deletes.contains(x) && x.tag == items[i].tag;
                    assert(after.deletes.contains(x));
                }
            }
        }
    }
}

/// A plan has what the facts say of a tag to reconcile: a move to the destination
/// where the check repository lacks it, a delete where it has the same content
/// elsewhere, a mismatch where it has other content, and a flag where the upstream
/// lacks the tag of an insight image.
pub open spec fn has_reconciled(
    r: ResolvedView,
    rec: ReconcileItemView,
    f: ReconcileFactsView,
) -> bool {
    match f.found {
        None => match rec.absent {
            AbsentView::MoveTo(dest) => dest != rec.tag.source_repo ==> exists|i: int|
                0 <= i < r.moves.len() && (#[trigger] r.moves[i]).dest == dest
                    && r.moves[i].source_repo == rec.tag.source_repo && r.moves[i].image
                    == rec.tag.image && r.moves[i].tag == rec.tag.tag,
            AbsentView::Flag => r.insight_absent.contains(rec.tag),
        },
        Some(c) => if c.digest.len() > 0 && c.digest == f.source_digest {
            if rec.tag.source_repo == rec.check_repo {
                r.kept.contains(rec.tag)
            } else {
                deletes_tag(r, rec.tag)
            }
        } else {
            exists|i: int|
                0 <= i < r.mismatched.len() && (#[trigger] r.mismatched[i]).tag == rec.tag
                    && r.mismatched[i].on_mismatch == rec.on_mismatch
                    && r.mismatched[i].check_digest == c.digest && r.mismatched[i].source_digest
                    == f.source_digest
        },
    }
}

/// What a plan has of a tag stays in a plan that goes on from it.
proof fn lemma_stays(
    after: ResolvedView,
    before: ResolvedView,
    rec: ReconcileItemView,
    f: ReconcileFactsView,
)
    requires
        goes_on_from(after, before),
        has_reconciled(before, rec, f),
    ensures
        has_reconciled(after, rec, f),
{
    match f.found {
        None => match rec.absent {
            AbsentView::MoveTo(dest) => {
                if dest != rec.tag.source_repo {
                    let i = choose|i: int|
                        0 <= i < before.moves.len() && (#[trigger] before.moves[i]).dest == dest
                            && before.moves[i].source_repo == rec.tag.source_repo
                            && before.moves[i].image == rec.tag.image && before.moves[i].tag
                            == rec.tag.tag;
                    assert(before.moves.contains(before.moves[i]));
                    assert(after.moves.contains(before.moves[i]));
                }
            },
            AbsentView::Flag => {},
        },
        Some(c) => {
            if c.digest.len() > 0 && c.digest == f.source_digest {
                if rec.tag.source_repo != rec.check_repo {
                    let d = choose|d: DeleteItemView| #[trigger]
                        before.deletes.contains(d) && d.tag == rec.tag;
                    assert(after.deletes.contains(d));
                }
            } else {
                let i = choose|i: int|
                    0 <= i < before.mismatched.len() && (#[trigger] before.mismatched[i]).tag
                        == rec.tag && before.mismatched[i].on_mismatch == rec.on_mismatch
                        && before.mismatched[i].check_digest == c.digest
                        && before.mismatched[i].source_digest == f.source_digest;
                assert(before.mismatched.contains(before.mismatched[i]));
                assert(after.mismatched.contains(before.mismatched[i]));
            }
        },
    }
}

/// Every tag to reconcile ends where the facts about it say.
pub proof fn law_reconciles_follow_the_facts(
    r: ResolvedView,
    g: CompiledGroupView,
    items: Seq<ReconcileItemView>,
    facts: Seq<ReconcileFactsView>,
    n: int,
)
    requires
        0 <= n <= items.len(),
        n <= facts.len(),
    ensures
        goes_on_from(with_reconciles(r, g, items, facts, n), r),
        forall|i: int|
            0 <= i < n ==> has_reconciled(
                with_reconciles(r, g, items, facts, n),
                #[trigger] items[i],
                facts[i],
            ),
    decreases n,
{
    if n > 0 {
        law_reconciles_follow_the_facts(r, g, items, facts, n - 1);
        let before = with_reconciles(r, g, items, facts, n - 1);
        let after = with_reconciles(r, g, items, facts, n);
        let f = facts[n - 1];
        let rec = items[n - 1];
        assert(after == after_reconcile(
            before,
            reconcile_outcome(
                g,
                rec,
                f.found,
                f.source_digest,
                f.source_built,
                f.check_built,
            ),
        ));
        assert forall|x| #[trigger] before.deletes.contains(x) implies after.deletes.contains(
            x,
        ) by {
            lemma_push_contains(before.deletes, after.deletes.last(), x);
        }
        assert forall|x| #[trigger] before.kept.contains(x) implies after.kept.contains(x) by {
            lemma_push_contains(before.kept, after.kept.last(), x);
        }
        assert forall|x| #[trigger] before.moves.contains(x) implies after.moves.contains(x) by {
            lemma_push_contains(before.moves, after.moves.last(), x);
        }
        assert forall|x| #[trigger] before.mismatched.contains(
            x,
        ) implies after.mismatched.contains(x) by {
            lemma_push_contains(before.mismatched, after.mismatched.last(), x);
        }
        assert forall|x| #[trigger] before.insight_absent.contains(
            x,
        ) implies after.insight_absent.contains(x) by {
            lemma_push_contains(before.insight_absent, after.insight_absent.last(), x);
        }
        assert(goes_on_from(after, before));
        assert(has_reconciled(after, rec, f)) by {
            if after.moves.len() > before.moves.len() {
                assert(after.moves[before.moves.len() as int].dest == after.moves.last().dest);
            }
            if after.mismatched.len() > before.mismatched.len() {
                assert(after.mismatched[before.mismatched.len() as int].tag == rec.tag);
            }
            if after.deletes.len() > before.deletes.len() {
                assert(after.deletes.contains(after.deletes.last()));
            }
            if after.kept.len() > before.kept.len() {
                assert(after.kept.contains(after.kept.last()));
            }
            if after.insight_absent.len() > before.insight_absent.len() {
                assert(after.insight_absent.contains(after.insight_absent.last()));
            }
        }
        assert forall|i: int| 0 <= i < n implies has_reconciled(
            after,
            #[trigger] items[i],
            facts[i],
        ) by {
            if i < n - 1 {
                lemma_stays(after, before, items[i], facts[i]);
            }
        }
    }
}

/// Every unclassified tag is reported once, in order, and nothing else changes.
pub proof fn law_triage_reports_every_tag(
    r: ResolvedView,
    items: Seq<TagRefView>,
    facts: Seq<TriageFactsView>,
    n: int,
)
    requires
        0 <= n <= items.len(),
        n <= facts.len(),
    ensures
        ({
            let after = with_triage(r, items, facts, n);
            let base = r.needs_classification.len();
            &&& after == (ResolvedView { needs_classification: after.needs_classification, ..r })
            &&& after.needs_classification.len() == base + n
            &&& after.needs_classification.take(base as int) == r.needs_classification
            &&& forall|i: int|
                0 <= i < n ==> {
                    let item = #[trigger] after.needs_classification[base + i];
                    &&& item.tag == items[i]
                    &&& item.upstream_present == (facts[i].upstream is Some)
                }
        }),
    decreases n,
{
    if n > 0 {
        law_triage_reports_every_tag(r, items, facts, n - 1);
        let before = with_triage(r, items, facts, n - 1).needs_classification;
        let after = with_triage(r, items, facts, n).needs_classification;
        let base = r.needs_classification.len();
        assert(after.take(base as int) =~= before.take(base as int));
        assert forall|i: int| 0 <= i < n implies ({
            let item = #[trigger] after[base + i];
            &&& item.tag == items[i]
            &&& item.upstream_present == (facts[i].upstream is Some)
        }) by {
            if i < n - 1 {
                assert(after[base + i] == before[base + i]);
            }
        }
    } else {
        assert(r.needs_classification.take(r.needs_classification.len() as int)
            =~= r.needs_classification);
    }
}

/// Settling a repository does all three: the answers, the facts and the evidence.
pub proof fn law_settling_answers_every_pending_item(
    r: ResolvedView,
    g: CompiledGroupView,
    conditionals: Seq<ConditionalDeleteView>,
    present: Seq<bool>,
    reconciles: Seq<ReconcileItemView>,
    facts: Seq<ReconcileFactsView>,
    triage: Seq<TagRefView>,
    evidence: Seq<TriageFactsView>,
    i: int,
)
    requires
        conditionals.len() == present.len(),
        reconciles.len() == facts.len(),
        triage.len() == evidence.len(),
    ensures
        ({
            let after = after_settling(
                r,
                g,
                conditionals,
                present,
                reconciles,
                facts,
                triage,
                evidence,
            );
            &&& 0 <= i < conditionals.len() && present[i] ==> after.kept.contains(
                conditionals[i].tag,
            )
            &&& 0 <= i < conditionals.len() && !present[i] ==> deletes_tag(
                after,
                conditionals[i].tag,
            )
            &&& 0 <= i < reconciles.len() ==> has_reconciled(after, reconciles[i], facts[i])
            &&& 0 <= i < triage.len() ==> exists|k: int|
                0 <= k < after.needs_classification.len() && (
                #[trigger] after.needs_classification[k]).tag == triage[i]
        }),
{
    let a = with_conditionals(r, conditionals, present, conditionals.len() as int);
    let b = with_reconciles(a, g, reconciles, facts, reconciles.len() as int);
    let c = with_triage(b, triage, evidence, triage.len() as int);
    law_conditional_deletes_follow_the_answers(r, conditionals, present, conditionals.len() as int);
    law_reconciles_follow_the_facts(a, g, reconciles, facts, reconciles.len() as int);
    law_triage_reports_every_tag(b, triage, evidence, triage.len() as int);
    if 0 <= i < conditionals.len() {
        let t = conditionals[i].tag;
        if present[i] {
            assert(a.kept.contains(t));
            assert(b.kept.contains(t));
        } else {
            assert(deletes_tag(a, t));
            let d = choose|d: DeleteItemView| #[trigger] a.deletes.contains(d) && d.tag == t;
            assert(b.deletes.contains(d));
            assert(c.deletes.contains(d));
        }
    }
    if 0 <= i < reconciles.len() {
        assert(has_reconciled(b, reconciles[i], facts[i]));
        assert(c.moves == b.moves && c.mismatched == b.mismatched && c.deletes == b.deletes);
        if deletes_tag(b, reconciles[i].tag) {
            assert(deletes_tag(c, reconciles[i].tag));
        }
    }
    if 0 <= i < triage.len() {
        assert(c.needs_classification[b.needs_classification.len() + i].tag == triage[i]);
    }
}

} // verus!
