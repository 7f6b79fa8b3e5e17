//! Taking a scanned repository into the resolved plan, in two steps with a look
//! at the registries in between: the scan hands out what is pending, and the
//! facts that were gathered for it settle it.
use crate::ordered::{insert_key, insert_keys, key1, key3, list_keys, sorted_keys, KeySet, TextKey};
use crate::reorg::collisions::{
    dropped_moves, kept_moves, law_every_move_settled, SupersededItemView,
};
use crate::reorg::compile::{under_prefix, CompiledGroup, CompiledGroupView};
use crate::reorg::evidence::TriageItemView;
use crate::reorg::plan::{
    build_group_plan, dispositions, law_plan_partitions_first_party, plan_of, ConditionalDelete,
    ConditionalDeleteView, DeleteItemView, ReconcileItem, ReconcileItemView, TagRef, TagRefView,
};
use crate::reorg::resolve::{
    after_reconcile, after_superseded, inventory_keys, purged_tag, reconcile_outcome, retired_tag,
    same_content, FoundCopy, FoundCopyView, Pending, ResolvedPlan, ResolvedView, Scanned,
};
use crate::seqs::{lemma_filter_step, lemma_take_all};
use crate::text::copy_option;
use vstd::prelude::*;

verus! {

/// The facts that settle a reconcile.
#[derive(Debug)]
pub struct ReconcileFacts {
    /// The canonical copy, if there is one.
    pub found: Option<FoundCopy>,
    /// The digest of the source copy.
    pub source_digest: String,
    /// Build date of the source copy, if known.
    pub source_built: Option<String>,
    /// Build date of the canonical copy, if known.
    pub check_built: Option<String>,
}

/// The contents of [`ReconcileFacts`].
#[verifier::ext_equal]
pub struct ReconcileFactsView {
    pub found: Option<FoundCopyView>,
    pub source_digest: Seq<char>,
    pub source_built: Option<Seq<char>>,
    pub check_built: Option<Seq<char>>,
}

impl DeepView for ReconcileFacts {
    type V = ReconcileFactsView;

    open spec fn deep_view(&self) -> ReconcileFactsView {
        ReconcileFactsView {
            found: self.found.deep_view(),
            source_digest: self.source_digest@,
            source_built: self.source_built.deep_view(),
            check_built: self.check_built.deep_view(),
        }
    }
}

/// The facts that are shown with a tag that needs classification.
#[derive(Debug)]
pub struct TriageFacts {
    /// The digest that the upstream serves, if any.
    pub upstream: Option<String>,
    /// The digest of the source copy.
    pub source_digest: String,
}

/// The contents of [`TriageFacts`].
#[verifier::ext_equal]
pub struct TriageFactsView {
    pub upstream: Option<Seq<char>>,
    pub source_digest: Seq<char>,
}

impl DeepView for TriageFacts {
    type V = TriageFactsView;

    open spec fn deep_view(&self) -> TriageFactsView {
        TriageFactsView {
            upstream: self.upstream.deep_view(),
            source_digest: self.source_digest@,
        }
    }
}

/// The plan after a repository was scanned: its leftovers are noted and the
/// certain part of its plan is taken over.
pub open spec fn after_scan(
    r: ResolvedView,
    g: CompiledGroupView,
    repo: Seq<char>,
    is_purge: bool,
    inventory: Seq<(Seq<char>, Seq<char>)>,
) -> ResolvedView {
    let p = plan_of(dispositions(g, repo, inventory));
    ResolvedView {
        prefix_deletes: r.prefix_deletes + inventory.filter_map(retired_tag(g, repo)),
        purges: r.purges + inventory.filter_map(purged_tag(g, repo, is_purge)),
        moves: r.moves + p.moves,
        deletes: r.deletes + p.deletes,
        leaves: r.leaves + p.leaves,
        already_placed: r.already_placed + p.already_placed,
        ..r
    }
}

/// The plan after a conditional delete was settled.
pub open spec fn after_conditional(
    r: ResolvedView,
    cd: ConditionalDeleteView,
    present: bool,
) -> ResolvedView {
    if present {
        ResolvedView { kept: r.kept.push(cd.tag), ..r }
    } else {
        ResolvedView {
            deletes: r.deletes.push(
                DeleteItemView {
                    tag: cd.tag,
                    reason: "absent from "@ + cd.check_repo + " (delete-if-absent)"@,
                },
            ),
            ..r
        }
    }
}

/// The plan after a tag that needs classification was reported.
pub open spec fn after_triage(r: ResolvedView, tag: TagRefView, f: TriageFactsView) -> ResolvedView {
    ResolvedView {
        needs_classification: r.needs_classification.push(
            TriageItemView {
                tag,
                upstream_present: f.upstream is Some,
                upstream_same_digest: f.upstream matches Some(d) && same_content(
                    d,
                    f.source_digest,
                ),
            },
        ),
        ..r
    }
}

/// The plan after the first `n` conditional deletes were settled.
pub open spec fn with_conditionals(
    r: ResolvedView,
    items: Seq<ConditionalDeleteView>,
    present: Seq<bool>,
    n: int,
) -> ResolvedView
    decreases n,
{
    if n <= 0 {
        r
    } else {
        after_conditional(with_conditionals(r, items, present, n - 1), items[n - 1], present[n - 1])
    }
}

/// The plan after the first `n` reconciles were settled.
pub open spec fn with_reconciles(
    r: ResolvedView,
    g: CompiledGroupView,
    items: Seq<ReconcileItemView>,
    facts: Seq<ReconcileFactsView>,
    n: int,
) -> ResolvedView
    decreases n,
{
    if n <= 0 {
        r
    } else {
        let f = facts[n - 1];
        after_reconcile(
            with_reconciles(r, g, items, facts, n - 1),
            reconcile_outcome(
                g,
                items[n - 1],
                f.found,
                f.source_digest,
                f.source_built,
                f.check_built,
            ),
        )
    }
}

/// The plan after the first `n` tags that need classification were reported.
pub open spec fn with_triage(
    r: ResolvedView,
    items: Seq<TagRefView>,
    facts: Seq<TriageFactsView>,
    n: int,
) -> ResolvedView
    decreases n,
{
    if n <= 0 {
        r
    } else {
        after_triage(with_triage(r, items, facts, n - 1), items[n - 1], facts[n - 1])
    }
}

/// The plan after everything that was pending of a repository was settled, in
/// order.
pub open spec fn after_settling(
    r: ResolvedView,
    g: CompiledGroupView,
    conditionals: Seq<ConditionalDeleteView>,
    present: Seq<bool>,
    reconciles: Seq<ReconcileItemView>,
    facts: Seq<ReconcileFactsView>,
    triage: Seq<TagRefView>,
    evidence: Seq<TriageFactsView>,
) -> ResolvedView {
    let a = with_conditionals(r, conditionals, present, conditionals.len() as int);
    let b = with_reconciles(a, g, reconciles, facts, reconciles.len() as int);
    with_triage(b, triage, evidence, triage.len() as int)
}

/// Reconciles place at most one tag each.
proof fn lemma_placed_grows(
    r: ResolvedView,
    g: CompiledGroupView,
    items: Seq<ReconcileItemView>,
    facts: Seq<ReconcileFactsView>,
    n: int,
)
    requires
        0 <= n,
    ensures
        r.already_placed <= with_reconciles(r, g, items, facts, n).already_placed
            <= r.already_placed + n,
    decreases n,
{
    if n > 0 {
        lemma_placed_grows(r, g, items, facts, n - 1);
    }
}

/// Conditional deletes place nothing.
proof fn lemma_placed_stays(
    r: ResolvedView,
    items: Seq<ConditionalDeleteView>,
    present: Seq<bool>,
    n: int,
)
    ensures
        with_conditionals(r, items, present, n).already_placed == r.already_placed,
    decreases n,
{
    if n > 0 {
        lemma_placed_stays(r, items, present, n - 1);
    }
}

/// A copy of what was found.
fn copy_found(f: &Option<FoundCopy>) -> (r: Option<FoundCopy>)
    ensures
        r.deep_view() == f.deep_view(),
{
    match f {
        Some(c) => Some(
            FoundCopy {
                repo: c.repo.clone(),
                digest: c.digest.clone(),
                via_authority: c.via_authority,
            },
        ),
        None => None,
    }
}

impl ResolvedPlan {
    /// Take a scanned repository into the plan. What needs a look at a registry
    /// is handed back.
    pub fn scan_repo(
        &mut self,
        scanned: &mut Scanned,
        group: &CompiledGroup,
        repo: &str,
        is_purge: bool,
        inventory: &[(String, String)],
    ) -> (r: Pending)
        requires
            old(self).already_placed + inventory@.len() <= usize::MAX,
        ensures
            final(self).deep_view() == after_scan(
                old(self).deep_view(),
                group.deep_view(),
                repo@,
                is_purge,
                inventory.deep_view(),
            ),
            final(self).already_placed <= old(self).already_placed + inventory@.len(),
            final(scanned).repos() == insert_key(old(scanned).repos(), key1(repo@)),
            final(scanned).tags() == insert_keys(
                old(scanned).tags(),
                inventory_keys(repo@, inventory.deep_view()),
            ),
            ({
                let p = plan_of(dispositions(group.deep_view(), repo@, inventory.deep_view()));
                &&& r.conditional_deletes.deep_view() == p.conditional_deletes
                &&& r.reconciles.deep_view() == p.reconciles
                &&& r.triage.deep_view() == p.triage
                &&& r.reconciles@.len() + p.already_placed <= inventory@.len()
            }),
    {
        scanned.record(repo, inventory);
        self.note_leftovers(group, repo, inventory, is_purge);
        let plan = build_group_plan(group, inventory, repo);
        proof {
            let first = |e: (Seq<char>, Seq<char>)|
                under_prefix(group.deep_view().first_party_prefixes, e.0);
            law_plan_partitions_first_party(group.deep_view(), repo@, inventory.deep_view());
            inventory.deep_view().lemma_filter_len(first);
        }
        let r = self.absorb(plan);
        assert(r.reconciles.deep_view().len() == r.reconciles@.len());
        r
    }

    /// Settle what was pending of a repository with the facts that were gathered
    /// for it, one for each item.
    pub fn settle_repo(
        &mut self,
        group: &CompiledGroup,
        pending: Pending,
        present: &[bool],
        facts: &[ReconcileFacts],
        evidence: &[TriageFacts],
    )
        requires
            pending.conditional_deletes@.len() == present@.len(),
            pending.reconciles@.len() == facts@.len(),
            pending.triage@.len() == evidence@.len(),
            old(self).already_placed + facts@.len() <= usize::MAX,
        ensures
            final(self).deep_view() == after_settling(
                old(self).deep_view(),
                group.deep_view(),
                pending.conditional_deletes.deep_view(),
                present@,
                pending.reconciles.deep_view(),
                facts.deep_view(),
                pending.triage.deep_view(),
                evidence.deep_view(),
            ),
    {
        let ghost start = self.deep_view();
        let ghost g = group.deep_view();
        let ghost cds = pending.conditional_deletes.deep_view();
        let ghost recs = pending.reconciles.deep_view();
        let ghost tags = pending.triage.deep_view();
        let ghost fs = facts.deep_view();
        let ghost es = evidence.deep_view();
        let mut i: usize = 0;
        for cd in iter: pending.conditional_deletes
            invariant
                cds == iter.seq().map_values(|c: ConditionalDelete| c.deep_view()),
                i == iter.index(),
                cds.len() == present@.len(),
                self.deep_view() == with_conditionals(start, cds, present@, i as int),
        {
            assert(cds[i as int] == cd.deep_view());
            self.settle_conditional(cd, present[i]);
            i = i + 1;
        }
        let ghost a = self.deep_view();
        proof {
            lemma_placed_stays(start, cds, present@, cds.len() as int);
        }
        let mut j: usize = 0;
        for rec in iter: pending.reconciles
            invariant
                recs == iter.seq().map_values(|c: ReconcileItem| c.deep_view()),
                j == iter.index(),
                recs.len() == facts@.len(),
                fs == facts.deep_view(),
                g == group.deep_view(),
                a.already_placed + facts@.len() <= usize::MAX,
                self.deep_view() == with_reconciles(a, g, recs, fs, j as int),
        {
            proof {
                assert(recs[j as int] == rec.deep_view());
                assert(fs[j as int] == facts@[j as int].deep_view());
                lemma_placed_grows(a, g, recs, fs, j as int);
            }
            let f = &facts[j];
            self.settle_reconcile(
                group,
                rec,
                copy_found(&f.found),
                f.source_digest.clone(),
                copy_option(&f.source_built),
                copy_option(&f.check_built),
            );
            j = j + 1;
        }
        let ghost b = self.deep_view();
        let mut k: usize = 0;
        for tag in iter: pending.triage
            invariant
                tags == iter.seq().map_values(|t: TagRef| t.deep_view()),
                k == iter.index(),
                tags.len() == evidence@.len(),
                es == evidence.deep_view(),
                self.deep_view() == with_triage(b, tags, es, k as int),
        {
            proof {
                assert(tags[k as int] == tag.deep_view());
                assert(es[k as int] == evidence@[k as int].deep_view());
            }
            let f = &evidence[k];
            self.settle_triage(tag, copy_option(&f.upstream), f.source_digest.as_str());
            k = k + 1;
        }
    }
}

/// The number of first-party tags that a plan accounts for.
pub open spec fn accounted(r: ResolvedView) -> nat {
    r.moves.len() + r.deletes.len() + r.kept.len() + r.leaves.len() + r.mismatched.len()
        + r.insight_absent.len() + r.needs_classification.len() + r.superseded.len()
        + r.already_placed
}

/// Each conditional delete is accounted for.
proof fn lemma_conditionals_accounted(
    r: ResolvedView,
    items: Seq<ConditionalDeleteView>,
    present: Seq<bool>,
    n: int,
)
    requires
        0 <= n,
    ensures
        accounted(with_conditionals(r, items, present, n)) == accounted(r) + n,
    decreases n,
{
    if n > 0 {
        lemma_conditionals_accounted(r, items, present, n - 1);
    }
}

/// Each reconcile is accounted for.
proof fn lemma_reconciles_accounted(
    r: ResolvedView,
    g: CompiledGroupView,
    items: Seq<ReconcileItemView>,
    facts: Seq<ReconcileFactsView>,
    n: int,
)
    requires
        0 <= n,
    ensures
        accounted(with_reconciles(r, g, items, facts, n)) == accounted(r) + n,
    decreases n,
{
    if n > 0 {
        lemma_reconciles_accounted(r, g, items, facts, n - 1);
    }
}

/// Each tag that needs classification is accounted for.
proof fn lemma_triage_accounted(
    r: ResolvedView,
    items: Seq<TagRefView>,
    facts: Seq<TriageFactsView>,
    n: int,
)
    requires
        0 <= n,
    ensures
        accounted(with_triage(r, items, facts, n)) == accounted(r) + n,
    decreases n,
{
    if n > 0 {
        lemma_triage_accounted(r, items, facts, n - 1);
    }
}

/// No first-party tag of a scanned repository is lost, whatever the registries
/// answer: once all that was pending is settled, each of them is in exactly one
/// bucket of the resolved plan.
pub proof fn law_every_tag_is_accounted_for(
    r: ResolvedView,
    g: CompiledGroupView,
    repo: Seq<char>,
    is_purge: bool,
    inventory: Seq<(Seq<char>, Seq<char>)>,
    present: Seq<bool>,
    facts: Seq<ReconcileFactsView>,
    evidence: Seq<TriageFactsView>,
)
    ensures
        ({
            let p = plan_of(dispositions(g, repo, inventory));
            accounted(
                after_settling(
                    after_scan(r, g, repo, is_purge, inventory),
                    g,
                    p.conditional_deletes,
                    present,
                    p.reconciles,
                    facts,
                    p.triage,
                    evidence,
                ),
            ) == accounted(r) + inventory.filter(
                |e: (Seq<char>, Seq<char>)| under_prefix(g.first_party_prefixes, e.0),
            ).len()
        }),
{
    let p = plan_of(dispositions(g, repo, inventory));
    let s = after_scan(r, g, repo, is_purge, inventory);
    law_plan_partitions_first_party(g, repo, inventory);
    let a = with_conditionals(s, p.conditional_deletes, present, p.conditional_deletes.len() as int);
    lemma_conditionals_accounted(
        s,
        p.conditional_deletes,
        present,
        p.conditional_deletes.len() as int,
    );
    let b = with_reconciles(a, g, p.reconciles, facts, p.reconciles.len() as int);
    lemma_reconciles_accounted(a, g, p.reconciles, facts, p.reconciles.len() as int);
    lemma_triage_accounted(b, p.triage, evidence, p.triage.len() as int);
}

/// Each dropped move is accounted for.
proof fn lemma_superseded_accounted(r: ResolvedView, items: Seq<SupersededItemView>)
    ensures
        accounted(after_superseded(r, items)) == accounted(r) + items.len(),
    decreases items.len(),
{
    if items.len() > 0 {
        lemma_superseded_accounted(r, items.drop_last());
    }
}

/// Resolving the collisions among the moves loses no tag: each move is kept, or
/// its source copy is deleted or kept for review.
pub proof fn law_collisions_lose_no_tag(
    r: ResolvedView,
    present: Seq<Seq<Seq<char>>>,
    ts: Seq<(Seq<Seq<char>>, Option<Seq<char>>)>,
)
    ensures
        accounted(
            after_superseded(
                ResolvedView { moves: kept_moves(r.moves, present, ts), ..r },
                dropped_moves(r.moves, present, ts),
            ),
        ) == accounted(r),
{
    law_every_move_settled(r.moves, present, ts);
    lemma_superseded_accounted(
        ResolvedView { moves: kept_moves(r.moves, present, ts), ..r },
        dropped_moves(r.moves, present, ts),
    );
}

/// Tells the targets in repositories that were not scanned.
pub open spec fn is_unscanned(repos: Seq<Seq<Seq<char>>>) -> spec_fn(Seq<Seq<char>>) -> bool {
    |k: Seq<Seq<char>>| !repos.contains(key1(k[0]))
}

/// Tells the targets that their destination holds: as scanned, or as asked where
/// it was not scanned.
pub open spec fn is_held(
    repos: Seq<Seq<Seq<char>>>,
    tags: Seq<Seq<Seq<char>>>,
    asked: Seq<Seq<Seq<char>>>,
) -> spec_fn(Seq<Seq<char>>) -> bool {
    |k: Seq<Seq<char>>|
        if repos.contains(key1(k[0])) {
            tags.contains(k)
        } else {
            asked.contains(k)
        }
}

impl Scanned {
    /// The targets, out of those given, that the scan knows nothing of: their
    /// destinations have to be asked.
    pub fn unscanned_targets(&self, targets: &KeySet<(String, String, String)>) -> (r: Vec<
        (String, String, String),
    >)
        ensures
            list_keys(r@) == targets@.filter(is_unscanned(self.repos())),
    {
        let ghost p = is_unscanned(self.repos());
        let n: usize = targets.len();
        let mut out: Vec<(String, String, String)> = Vec::new();
        let mut i: usize = 0;
        proof {
            reveal(Seq::filter);
            assert(list_keys(out@) =~= targets@.take(0).filter(p));
        }
        while i < n
            invariant
                i <= n,
                n == targets@.len(),
                p == is_unscanned(self.repos()),
                list_keys(out@) == targets@.take(i as int).filter(p),
            decreases n - i,
        {
            let k = targets.at(i);
            let ghost before = out@;
            proof {
                lemma_filter_step(targets@, p, i as int);
                assert(k.parts() == key3(k.0@, k.1@, k.2@));
                assert(k.parts()[0] == k.0@);
            }
            if self.holds(k.0.as_str(), k.1.as_str(), k.2.as_str()).is_none() {
                out.push((k.0.clone(), k.1.clone(), k.2.clone()));
                assert(list_keys(out@) =~= list_keys(before).push(targets@[i as int]));
            }
            i = i + 1;
        }
        proof {
            lemma_take_all(targets@);
        }
        out
    }

    /// The targets, out of those given, that their destination already holds.
    /// `asked` has those of the unscanned targets for which the answer was yes.
    pub fn held_targets(
        &self,
        targets: &KeySet<(String, String, String)>,
        asked: &KeySet<(String, String, String)>,
    ) -> (r: KeySet<(String, String, String)>)
        ensures
            r@ == sorted_keys(
                targets@.filter(is_held(self.repos(), self.tags(), asked@)),
            ),
    {
        let ghost p = is_held(self.repos(), self.tags(), asked@);
        let n: usize = targets.len();
        let mut out: KeySet<(String, String, String)> = KeySet::new();
        let mut i: usize = 0;
        proof {
            reveal(Seq::filter);
            assert(targets@.take(0).filter(p) =~= Seq::<Seq<Seq<char>>>::empty());
        }
        while i < n
            invariant
                i <= n,
                n == targets@.len(),
                p == is_held(self.repos(), self.tags(), asked@),
                out@ == sorted_keys(targets@.take(i as int).filter(p)),
            decreases n - i,
        {
            let k = targets.at(i);
            let ghost before = targets@.take(i as int).filter(p);
            proof {
                lemma_filter_step(targets@, p, i as int);
                assert(k.parts() == key3(k.0@, k.1@, k.2@));
                assert(k.parts()[0] == k.0@);
            }
            let held = match self.holds(k.0.as_str(), k.1.as_str(), k.2.as_str()) {
                Some(h) => h,
                None => asked.contains(k),
            };
            if held {
                out.insert((k.0.clone(), k.1.clone(), k.2.clone()));
                assert(before.push(targets@[i as int]).drop_last() =~= before);
            }
            i = i + 1;
        }
        proof {
            lemma_take_all(targets@);
        }
        out
    }
}

} // verus!
