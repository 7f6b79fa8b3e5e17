//! From plans to a resolved plan: every question that needs a look at a
//! registry is asked by the caller, and the answers are settled here.
use crate::ordered::{
    insert_key, insert_keys, is_key, key1, key3, keys_of, lemma_rank, lemma_sorted_keys, list_keys,
    lookup, occurrences, put, sorted_keys, tally, tally_of, KeySet, OrderedMap, TextKey,
};
use crate::reorg::collisions::{
    dropped_moves, kept_moves, move_key, resolve_move_collisions, targets, SupersededItem,
    SupersededItemView,
};
use crate::reorg::compile::{under_prefix, CompiledGroup, CompiledGroupView};
use crate::reorg::evidence::{MismatchInfo, MismatchInfoView, TriageItem, TriageItemView};
use crate::reorg::plan::{
    move_class, routed_class, AbsentAction, AbsentView, ConditionalDelete, DeleteItem,
    DeleteItemView, Plan, PlannedMove, PlannedMoveView, ReconcileItem, ReconcileItemView, TagRef,
    TagRefView,
};
use crate::seqs::{
    lemma_filter_map_step, lemma_map_step, lemma_take_all, lemma_take_push, push_all, push_item,
};
use crate::text::{
    compare_text, lemma_text_lt_irreflexive, same_text, split_first, split_once, text_lt, Order,
};
use vstd::prelude::*;

verus! {

/// A plan that is ready to be shown and executed.
#[derive(Debug)]
pub struct ResolvedPlan {
    pub moves: Vec<PlannedMove>,
    pub deletes: Vec<DeleteItem>,
    pub kept: Vec<TagRef>,
    pub leaves: Vec<TagRef>,
    /// Third-party tags in a repository that is to be purged.
    pub purges: Vec<TagRef>,
    /// Tags under a retired namespace.
    pub prefix_deletes: Vec<TagRef>,
    /// Tags present in the check repo with a different digest.
    pub mismatched: Vec<MismatchInfo>,
    /// Insight images whose tag the upstream lacks; never dropped.
    pub insight_absent: Vec<TagRef>,
    /// Released tags whose image is on neither classify list; never touched.
    pub needs_classification: Vec<TriageItem>,
    /// Dropped moves whose source copy is newer than the kept one.
    pub superseded: Vec<SupersededItem>,
    /// Non-released first-party tags of the local cache that the upstream lacks.
    pub non_released: Vec<TagRef>,
    /// Released first-party tags of the local cache that the upstream lacks.
    pub copy_upstream: Vec<TagRef>,
    /// Why the comparison with the upstream could not be made.
    pub non_released_note: Option<String>,
    /// Count of tags already in their correct repo.
    pub already_placed: usize,
    /// Build dates by `(repo, image, tag)`.
    pub created: OrderedMap<(String, String, String), String>,
}

/// The contents of a [`ResolvedPlan`].
#[verifier::ext_equal]
pub struct ResolvedView {
    pub moves: Seq<PlannedMoveView>,
    pub deletes: Seq<DeleteItemView>,
    pub kept: Seq<TagRefView>,
    pub leaves: Seq<TagRefView>,
    pub purges: Seq<TagRefView>,
    pub prefix_deletes: Seq<TagRefView>,
    pub mismatched: Seq<MismatchInfoView>,
    pub insight_absent: Seq<TagRefView>,
    pub needs_classification: Seq<TriageItemView>,
    pub superseded: Seq<SupersededItemView>,
    pub non_released: Seq<TagRefView>,
    pub copy_upstream: Seq<TagRefView>,
    pub non_released_note: Option<Seq<char>>,
    pub already_placed: nat,
    pub created: Seq<(Seq<Seq<char>>, Seq<char>)>,
}

impl DeepView for ResolvedPlan {
    type V = ResolvedView;

    open spec fn deep_view(&self) -> ResolvedView {
        ResolvedView {
            moves: self.moves.deep_view(),
            deletes: self.deletes.deep_view(),
            kept: self.kept.deep_view(),
            leaves: self.leaves.deep_view(),
            purges: self.purges.deep_view(),
            prefix_deletes: self.prefix_deletes.deep_view(),
            mismatched: self.mismatched.deep_view(),
            insight_absent: self.insight_absent.deep_view(),
            needs_classification: self.needs_classification.deep_view(),
            superseded: self.superseded.deep_view(),
            non_released: self.non_released.deep_view(),
            copy_upstream: self.copy_upstream.deep_view(),
            non_released_note: self.non_released_note.deep_view(),
            already_placed: self.already_placed as nat,
            created: self.created@,
        }
    }
}

/// The plan before anything was looked at.
pub open spec fn empty_resolved() -> ResolvedView {
    ResolvedView {
        moves: Seq::empty(),
        deletes: Seq::empty(),
        kept: Seq::empty(),
        leaves: Seq::empty(),
        purges: Seq::empty(),
        prefix_deletes: Seq::empty(),
        mismatched: Seq::empty(),
        insight_absent: Seq::empty(),
        needs_classification: Seq::empty(),
        superseded: Seq::empty(),
        non_released: Seq::empty(),
        copy_upstream: Seq::empty(),
        non_released_note: None,
        already_placed: 0,
        created: Seq::empty(),
    }
}

/// The build date recorded for a tag, `?` where there is none.
pub open spec fn created_of(r: ResolvedView, t: TagRefView) -> Seq<char> {
    match lookup(r.created, key3(t.source_repo, t.image, t.tag)) {
        Some(d) => d,
        None => "?"@,
    }
}

/// The tags of a scanned repository, to find out whether a destination already
/// holds a tag.
#[derive(Debug)]
pub struct Scanned {
    repos: KeySet<String>,
    tags: KeySet<(String, String, String)>,
}

/// What a scan knows of a repository's tag: nothing where the repository was not
/// scanned.
pub open spec fn scan_holds(
    repos: Seq<Seq<Seq<char>>>,
    tags: Seq<Seq<Seq<char>>>,
    repo: Seq<char>,
    image: Seq<char>,
    tag: Seq<char>,
) -> Option<bool> {
    if repos.contains(key1(repo)) {
        Some(tags.contains(key3(repo, image, tag)))
    } else {
        None
    }
}

/// The keys of a repository's inventory.
pub open spec fn inventory_keys(
    repo: Seq<char>,
    inventory: Seq<(Seq<char>, Seq<char>)>,
) -> Seq<Seq<Seq<char>>> {
    inventory.map_values(|e: (Seq<char>, Seq<char>)| key3(repo, e.0, e.1))
}

impl Scanned {
    /// The scanned repositories.
    pub closed spec fn repos(&self) -> Seq<Seq<Seq<char>>> {
        self.repos@
    }

    /// The tags found, as `(repo, image, tag)` keys.
    pub closed spec fn tags(&self) -> Seq<Seq<Seq<char>>> {
        self.tags@
    }

    /// Nothing scanned yet.
    pub fn new() -> (r: Self)
        ensures
            r.repos().len() == 0,
            r.tags().len() == 0,
    {
        Scanned { repos: KeySet::new(), tags: KeySet::new() }
    }

    /// Record the inventory of a repository.
    pub fn record(&mut self, repo: &str, inventory: &[(String, String)])
        ensures
            final(self).repos() == insert_key(old(self).repos(), key1(repo@)),
            final(self).tags() == insert_keys(
                old(self).tags(),
                inventory_keys(repo@, inventory.deep_view()),
            ),
    {
        self.repos.insert(repo.to_string());
        let ghost keys = inventory_keys(repo@, inventory.deep_view());
        let ghost before = old(self).tags();
        let ghost scanned = self.repos@;
        let mut i: usize = 0;
        assert(keys.take(0) =~= Seq::<Seq<Seq<char>>>::empty());
        while i < inventory.len()
            invariant
                keys == inventory_keys(repo@, inventory.deep_view()),
                i <= inventory@.len(),
                self.repos@ == scanned,
                self.tags@ == insert_keys(before, keys.take(i as int)),
            decreases inventory@.len() - i,
        {
            let (image, tag) = &inventory[i];
            self.tags.insert((repo.to_string(), image.clone(), tag.clone()));
            proof {
                lemma_take_push(keys, i as int);
                assert(keys.take(i + 1).drop_last() =~= keys.take(i as int));
                assert(inventory.deep_view()[i as int] == (image@, tag@));
                assert(keys[i as int] =~= key3(repo@, image@, tag@));
            }
            i = i + 1;
        }
        proof {
            lemma_take_all(keys);
        }
    }

    /// Whether a scanned repository holds a tag; `None` where the repository was
    /// not scanned and has to be asked.
    pub fn holds(&self, repo: &str, image: &str, tag: &str) -> (r: Option<bool>)
        ensures
            r == scan_holds(self.repos(), self.tags(), repo@, image@, tag@),
    {
        let name = repo.to_string();
        if self.repos.contains(&name) {
            let key = (name, image.to_string(), tag.to_string());
            Some(self.tags.contains(&key))
        } else {
            None
        }
    }
}

/// The repositories that a group scans: its sources, then those it purges.
pub open spec fn scan_order(g: CompiledGroupView) -> Seq<(Seq<char>, bool)> {
    g.source_repos.map_values(|r: Seq<char>| (r, false)) + g.purge_repos.map_values(
        |r: Seq<char>| (r, true),
    )
}

/// The repositories that a group scans, each with whether it is to be purged.
pub fn scan_list(group: &CompiledGroup) -> (r: Vec<(String, bool)>)
    ensures
        r.deep_view() == scan_order(group.deep_view()),
{
    let mut out: Vec<(String, bool)> = Vec::new();
    let ghost sources = group.source_repos.deep_view();
    let ghost purged = group.purge_repos.deep_view();
    let ghost f = |r: Seq<char>| (r, false);
    let ghost h = |r: Seq<char>| (r, true);
    let mut i: usize = 0;
    assert(out.deep_view() =~= sources.take(0).map_values(f));
    while i < group.source_repos.len()
        invariant
            sources == group.source_repos.deep_view(),
            f == (|r: Seq<char>| (r, false)),
            i <= group.source_repos@.len(),
            out.deep_view() == sources.take(i as int).map_values(f),
        decreases group.source_repos@.len() - i,
    {
        proof {
            lemma_map_step(sources, f, i as int);
        }
        push_item(&mut out, (group.source_repos[i].clone(), false));
        i = i + 1;
    }
    proof {
        lemma_take_all(sources);
    }
    let ghost base = out.deep_view();
    let mut j: usize = 0;
    assert(out.deep_view() =~= base + purged.take(0).map_values(h));
    while j < group.purge_repos.len()
        invariant
            purged == group.purge_repos.deep_view(),
            h == (|r: Seq<char>| (r, true)),
            j <= group.purge_repos@.len(),
            out.deep_view() == base + purged.take(j as int).map_values(h),
        decreases group.purge_repos@.len() - j,
    {
        proof {
            lemma_map_step(purged, h, j as int);
        }
        push_item(&mut out, (group.purge_repos[j].clone(), true));
        assert(out.deep_view() =~= base + purged.take(j + 1).map_values(h));
        j = j + 1;
    }
    proof {
        lemma_take_all(purged);
    }
    out
}

/// Takes the tags under a retired namespace that are not first-party.
pub open spec fn retired_tag(g: CompiledGroupView, repo: Seq<char>) -> spec_fn(
    (Seq<char>, Seq<char>),
) -> Option<TagRefView> {
    |e: (Seq<char>, Seq<char>)|
        if !under_prefix(g.first_party_prefixes, e.0) && under_prefix(g.retired_prefixes, e.0) {
            Some(TagRefView { source_repo: repo, image: e.0, tag: e.1 })
        } else {
            None
        }
}

/// Takes the third-party remainder of a repository that is to be purged.
pub open spec fn purged_tag(g: CompiledGroupView, repo: Seq<char>, is_purge: bool) -> spec_fn(
    (Seq<char>, Seq<char>),
) -> Option<TagRefView> {
    |e: (Seq<char>, Seq<char>)|
        if is_purge && !under_prefix(g.first_party_prefixes, e.0) && !under_prefix(
            g.retired_prefixes,
            e.0,
        ) {
            Some(TagRefView { source_repo: repo, image: e.0, tag: e.1 })
        } else {
            None
        }
}

/// What is left of a plan once its certain part was taken over.
#[derive(Debug)]
pub struct Pending {
    pub conditional_deletes: Vec<ConditionalDelete>,
    pub reconciles: Vec<ReconcileItem>,
    pub triage: Vec<TagRef>,
}

/// Where the canonical copy of a reconcile is looked up.
#[derive(Debug, PartialEq, Eq)]
pub enum CheckTarget {
    /// At the upstream authority, never in the local cache.
    Upstream,
    /// In this local repository.
    Repo(String),
}

/// The canonical copy that was found for a reconcile.
#[derive(Debug)]
pub struct FoundCopy {
    pub repo: String,
    pub digest: String,
    /// Whether the upstream authority served it.
    pub via_authority: bool,
}

/// The contents of a [`FoundCopy`].
#[verifier::ext_equal]
pub struct FoundCopyView {
    pub repo: Seq<char>,
    pub digest: Seq<char>,
    pub via_authority: bool,
}

impl DeepView for FoundCopy {
    type V = FoundCopyView;

    open spec fn deep_view(&self) -> FoundCopyView {
        FoundCopyView {
            repo: self.repo@,
            digest: self.digest@,
            via_authority: self.via_authority,
        }
    }
}

/// Two copies have the same content: the digest is known and equal.
pub open spec fn same_content(check_digest: Seq<char>, source_digest: Seq<char>) -> bool {
    check_digest.len() > 0 && check_digest == source_digest
}

/// What becomes of a reconcile.
pub enum ReconcileOutcome {
    /// Absent from the check repo: move it to its destination.
    Moved(PlannedMoveView),
    /// Absent from the check repo and already in its destination.
    Placed,
    /// Absent upstream: flagged, with its build date.
    Flagged(TagRefView, Option<Seq<char>>),
    /// The source is the canonical copy itself.
    Kept(TagRefView),
    /// A redundant duplicate, with its build date.
    Redundant(DeleteItemView, Option<Seq<char>>),
    /// The contents differ.
    Mismatched(MismatchInfoView),
}

/// Why a redundant duplicate is deleted.
pub open spec fn redundant_reason(found: FoundCopyView) -> Seq<char> {
    if found.via_authority {
        "identical digest already upstream in "@ + found.repo + " (redundant duplicate)"@
    } else {
        "identical digest already in "@ + found.repo + " (redundant duplicate)"@
    }
}

/// What becomes of a reconcile, given what was found.
pub open spec fn reconcile_outcome(
    g: CompiledGroupView,
    rec: ReconcileItemView,
    found: Option<FoundCopyView>,
    source_digest: Seq<char>,
    source_built: Option<Seq<char>>,
    check_built: Option<Seq<char>>,
) -> ReconcileOutcome {
    match found {
        None => match rec.absent {
            AbsentView::MoveTo(dest) => if dest != rec.tag.source_repo {
                ReconcileOutcome::Moved(
                    PlannedMoveView {
                        source_repo: rec.tag.source_repo,
                        image: rec.tag.image,
                        tag: rec.tag.tag,
                        dest,
                        class: routed_class(g, rec.tag.image, rec.tag.tag),
                    },
                )
            } else {
                ReconcileOutcome::Placed
            },
            AbsentView::Flag => ReconcileOutcome::Flagged(rec.tag, source_built),
        },
        Some(f) => if same_content(f.digest, source_digest) {
            if rec.tag.source_repo == rec.check_repo {
                ReconcileOutcome::Kept(rec.tag)
            } else {
                ReconcileOutcome::Redundant(
                    DeleteItemView { tag: rec.tag, reason: redundant_reason(f) },
                    source_built,
                )
            }
        } else {
            ReconcileOutcome::Mismatched(
                MismatchInfoView {
                    tag: rec.tag,
                    check_repo: f.repo,
                    source_digest,
                    check_digest: f.digest,
                    source_built,
                    check_built,
                    on_mismatch: rec.on_mismatch,
                },
            )
        },
    }
}

/// A build date recorded under a tag, where it is known.
pub open spec fn with_created(
    created: Seq<(Seq<Seq<char>>, Seq<char>)>,
    t: TagRefView,
    built: Option<Seq<char>>,
) -> Seq<(Seq<Seq<char>>, Seq<char>)> {
    match built {
        Some(d) => put(created, key3(t.source_repo, t.image, t.tag), d),
        None => created,
    }
}

/// The plan after a reconcile was settled.
pub open spec fn after_reconcile(r: ResolvedView, o: ReconcileOutcome) -> ResolvedView {
    match o {
        ReconcileOutcome::Moved(m) => ResolvedView { moves: r.moves.push(m), ..r },
        ReconcileOutcome::Placed => ResolvedView { already_placed: r.already_placed + 1, ..r },
        ReconcileOutcome::Flagged(t, built) => ResolvedView {
            insight_absent: r.insight_absent.push(t),
            created: with_created(r.created, t, built),
            ..r
        },
        ReconcileOutcome::Kept(t) => ResolvedView { kept: r.kept.push(t), ..r },
        ReconcileOutcome::Redundant(d, built) => ResolvedView {
            deletes: r.deletes.push(d),
            created: with_created(r.created, d.tag, built),
            ..r
        },
        ReconcileOutcome::Mismatched(m) => ResolvedView { mismatched: r.mismatched.push(m), ..r },
    }
}

/// Which build dates a reconcile needs before it can be settled.
pub struct DatesNeeded {
    pub source: bool,
    pub check: bool,
}

/// Where the canonical copy of a reconcile is looked up: an insight image at the
/// upstream authority, any other in its check repo.
pub fn check_target(rec: &ReconcileItem) -> (r: CheckTarget)
    ensures
        rec.deep_view().absent is Flag <==> r is Upstream,
        r matches CheckTarget::Repo(n) ==> n@ == rec.deep_view().check_repo,
{
    match &rec.absent {
        AbsentAction::Flag => CheckTarget::Upstream,
        AbsentAction::MoveTo(_) => CheckTarget::Repo(rec.check_repo.clone()),
    }
}

/// Which build dates a reconcile needs: the source copy's where it is flagged,
/// dropped as redundant or compared, and the check copy's where the two are
/// compared.
pub fn dates_needed(rec: &ReconcileItem, found: &Option<FoundCopy>, source_digest: &str) -> (r:
    DatesNeeded)
    ensures
        r.source == (match found.deep_view() {
            None => rec.deep_view().absent is Flag,
            Some(f) => !same_content(f.digest, source_digest@) || rec.deep_view().tag.source_repo
                != rec.deep_view().check_repo,
        }),
        r.check == (found.deep_view() matches Some(f) && !same_content(f.digest, source_digest@)),
{
    match found {
        None => {
            let flagged = match &rec.absent {
                AbsentAction::Flag => true,
                AbsentAction::MoveTo(_) => false,
            };
            DatesNeeded { source: flagged, check: false }
        },
        Some(f) => {
            let same = !f.digest.as_str().is_empty() && same_text(
                f.digest.as_str(),
                source_digest,
            );
            if same {
                let own = same_text(rec.tag.source_repo.as_str(), rec.check_repo.as_str());
                DatesNeeded { source: !own, check: false }
            } else {
                DatesNeeded { source: true, check: true }
            }
        },
    }
}

/// The date before the first `T` of a timestamp.
pub open spec fn before_time(s: Seq<char>) -> Seq<char> {
    match split_first(s, 'T') {
        Some((d, _)) => d,
        None => s,
    }
}

/// A dropped move whose source copy is provably newer than the kept copy.
pub open spec fn source_newer(s: SupersededItemView) -> bool {
    s.own_built matches Some(o) && s.winner_built matches Some(w) && text_lt(w, o)
}

/// The plan after dropped moves were settled: a provably newer source copy is
/// kept for review, any other is deleted and its build date recorded.
pub open spec fn after_superseded(r: ResolvedView, items: Seq<SupersededItemView>) -> ResolvedView
    decreases items.len(),
{
    if items.len() == 0 {
        r
    } else {
        let before = after_superseded(r, items.drop_last());
        let s = items.last();
        if source_newer(s) {
            ResolvedView { superseded: before.superseded.push(s), ..before }
        } else {
            ResolvedView {
                deletes: before.deletes.push(
                    DeleteItemView {
                        tag: s.tag,
                        reason: "superseded (a newer copy is kept elsewhere)"@,
                    },
                ),
                created: put(
                    before.created,
                    key3(s.tag.source_repo, s.tag.image, s.tag.tag),
                    match s.own_built {
                        Some(d) => before_time(d),
                        None => "?"@,
                    },
                ),
                ..before
            }
        }
    }
}

impl ResolvedPlan {
    /// An empty plan.
    pub fn new() -> (r: Self)
        ensures
            r.deep_view() == empty_resolved(),
    {
        let r = ResolvedPlan {
            moves: Vec::new(),
            deletes: Vec::new(),
            kept: Vec::new(),
            leaves: Vec::new(),
            purges: Vec::new(),
            prefix_deletes: Vec::new(),
            mismatched: Vec::new(),
            insight_absent: Vec::new(),
            needs_classification: Vec::new(),
            superseded: Vec::new(),
            non_released: Vec::new(),
            copy_upstream: Vec::new(),
            non_released_note: None,
            already_placed: 0,
            created: OrderedMap::new(),
        };
        assert(r.deep_view() =~= empty_resolved());
        r
    }

    /// The build date recorded for a tag, or `?`.
    pub fn created_date(&self, t: &TagRef) -> (r: String)
        ensures
            r@ == created_of(self.deep_view(), t.deep_view()),
    {
        let key = (t.source_repo.clone(), t.image.clone(), t.tag.clone());
        match self.created.get(&key) {
            Some(d) => d.clone(),
            None => "?".to_string(),
        }
    }

    /// Note the tags of a scanned repository that are not first-party: those
    /// under a retired namespace, and the remainder where the repository is to
    /// be purged. Third-party tags elsewhere are none of our business.
    pub fn note_leftovers(
        &mut self,
        group: &CompiledGroup,
        repo: &str,
        inventory: &[(String, String)],
        is_purge: bool,
    )
        ensures
            final(self).deep_view() == (ResolvedView {
                prefix_deletes: old(self).deep_view().prefix_deletes
                    + inventory.deep_view().filter_map(retired_tag(group.deep_view(), repo@)),
                purges: old(self).deep_view().purges + inventory.deep_view().filter_map(
                    purged_tag(group.deep_view(), repo@, is_purge),
                ),
                ..old(self).deep_view()
            }),
    {
        let ghost inv = inventory.deep_view();
        let ghost f = retired_tag(group.deep_view(), repo@);
        let ghost h = purged_tag(group.deep_view(), repo@, is_purge);
        let mut retired: Vec<TagRef> = Vec::new();
        let mut rest: Vec<TagRef> = Vec::new();
        let mut i: usize = 0;
        assert(retired.deep_view() =~= inv.take(0).filter_map(f));
        assert(rest.deep_view() =~= inv.take(0).filter_map(h));
        while i < inventory.len()
            invariant
                inv == inventory.deep_view(),
                f == retired_tag(group.deep_view(), repo@),
                h == purged_tag(group.deep_view(), repo@, is_purge),
                i <= inventory@.len(),
                retired.deep_view() == inv.take(i as int).filter_map(f),
                rest.deep_view() == inv.take(i as int).filter_map(h),
            decreases inventory@.len() - i,
        {
            let (image, tag) = &inventory[i];
            proof {
                lemma_filter_map_step(inv, f, i as int);
                lemma_filter_map_step(inv, h, i as int);
                assert(inv[i as int] == (image@, tag@));
            }
            if !group.is_first_party(image.as_str()) {
                let t = TagRef {
                    source_repo: repo.to_string(),
                    image: image.clone(),
                    tag: tag.clone(),
                };
                if group.is_retired(image.as_str()) {
                    push_item(&mut retired, t);
                } else if is_purge {
                    push_item(&mut rest, t);
                }
            }
            i = i + 1;
        }
        proof {
            lemma_take_all(inv);
        }
        push_all(&mut self.prefix_deletes, retired);
        push_all(&mut self.purges, rest);
    }

    /// Take over the certain part of a repository's plan. What needs a look at a
    /// registry is handed back.
    pub fn absorb(&mut self, plan: Plan) -> (r: Pending)
        requires
            old(self).already_placed + plan.already_placed <= usize::MAX,
        ensures
            final(self).deep_view() == (ResolvedView {
                moves: old(self).deep_view().moves + plan.deep_view().moves,
                deletes: old(self).deep_view().deletes + plan.deep_view().deletes,
                leaves: old(self).deep_view().leaves + plan.deep_view().leaves,
                already_placed: old(self).deep_view().already_placed
                    + plan.deep_view().already_placed,
                ..old(self).deep_view()
            }),
            r.conditional_deletes.deep_view() == plan.deep_view().conditional_deletes,
            r.reconciles.deep_view() == plan.deep_view().reconciles,
            r.triage.deep_view() == plan.deep_view().triage,
    {
        self.already_placed = self.already_placed + plan.already_placed;
        push_all(&mut self.moves, plan.moves);
        push_all(&mut self.deletes, plan.deletes);
        push_all(&mut self.leaves, plan.leaves);
        Pending {
            conditional_deletes: plan.conditional_deletes,
            reconciles: plan.reconciles,
            triage: plan.triage,
        }
    }

    /// Settle a conditional delete: kept where the check repo has the tag,
    /// deleted where it does not.
    pub fn settle_conditional(&mut self, cd: ConditionalDelete, present: bool)
        ensures
            final(self).deep_view() == (if present {
                ResolvedView {
                    kept: old(self).deep_view().kept.push(cd.deep_view().tag),
                    ..old(self).deep_view()
                }
            } else {
                ResolvedView {
                    deletes: old(self).deep_view().deletes.push(
                        DeleteItemView {
                            tag: cd.deep_view().tag,
                            reason: "absent from "@ + cd.deep_view().check_repo
                                + " (delete-if-absent)"@,
                        },
                    ),
                    ..old(self).deep_view()
                }
            }),
    {
        if present {
            push_item(&mut self.kept, cd.tag);
        } else {
            let mut reason = "absent from ".to_string();
            reason.append(cd.check_repo.as_str());
            reason.append(" (delete-if-absent)");
            push_item(&mut self.deletes, DeleteItem { tag: cd.tag, reason });
        }
    }

    /// Record a build date under a tag, where it is known.
    fn record_created(&mut self, t: &TagRef, built: &Option<String>)
        ensures
            final(self).deep_view() == (ResolvedView {
                created: with_created(
                    old(self).deep_view().created,
                    t.deep_view(),
                    built.deep_view(),
                ),
                ..old(self).deep_view()
            }),
    {
        if let Some(d) = built {
            self.created.insert(
                (t.source_repo.clone(), t.image.clone(), t.tag.clone()),
                d.clone(),
            );
        }
    }

    /// Settle a reconcile. `found` is the canonical copy, if there is one;
    /// `source_digest` counts only where there is; the build dates count where
    /// [`dates_needed`] asks for them.
    pub fn settle_reconcile(
        &mut self,
        group: &CompiledGroup,
        rec: ReconcileItem,
        found: Option<FoundCopy>,
        source_digest: String,
        source_built: Option<String>,
        check_built: Option<String>,
    )
        requires
            old(self).already_placed < usize::MAX,
        ensures
            final(self).deep_view() == after_reconcile(
                old(self).deep_view(),
                reconcile_outcome(
                    group.deep_view(),
                    rec.deep_view(),
                    found.deep_view(),
                    source_digest@,
                    source_built.deep_view(),
                    check_built.deep_view(),
                ),
            ),
    {
        match found {
            None => match rec.absent {
                AbsentAction::MoveTo(dest) => {
                    if !same_text(dest.as_str(), rec.tag.source_repo.as_str()) {
                        let class = move_class(
                            group,
                            rec.tag.image.as_str(),
                            rec.tag.tag.as_str(),
                        ).to_string();
                        push_item(
                            &mut self.moves,
                            PlannedMove {
                                source_repo: rec.tag.source_repo,
                                image: rec.tag.image,
                                tag: rec.tag.tag,
                                dest,
                                class,
                            },
                        );
                    } else {
                        self.already_placed = self.already_placed + 1;
                    }
                },
                AbsentAction::Flag => {
                    self.record_created(&rec.tag, &source_built);
                    push_item(&mut self.insight_absent, rec.tag);
                },
            },
            Some(f) => {
                let same = !f.digest.as_str().is_empty() && same_text(
                    f.digest.as_str(),
                    source_digest.as_str(),
                );
                if same {
                    if same_text(rec.tag.source_repo.as_str(), rec.check_repo.as_str()) {
                        push_item(&mut self.kept, rec.tag);
                    } else {
                        let mut reason = if f.via_authority {
                            "identical digest already upstream in ".to_string()
                        } else {
                            "identical digest already in ".to_string()
                        };
                        reason.append(f.repo.as_str());
                        reason.append(" (redundant duplicate)");
                        self.record_created(&rec.tag, &source_built);
                        push_item(&mut self.deletes, DeleteItem { tag: rec.tag, reason });
                    }
                } else {
                    push_item(
                        &mut self.mismatched,
                        MismatchInfo {
                            tag: rec.tag,
                            check_repo: f.repo,
                            source_digest,
                            check_digest: f.digest,
                            source_built,
                            check_built,
                            on_mismatch: rec.on_mismatch,
                        },
                    );
                }
            },
        }
    }

    /// Report a tag whose image is on neither classify list, with the evidence:
    /// the digest that the upstream serves, if any, and the source digest.
    pub fn settle_triage(&mut self, tag: TagRef, upstream: Option<String>, source_digest: &str)
        ensures
            final(self).deep_view() == (ResolvedView {
                needs_classification: old(self).deep_view().needs_classification.push(
                    TriageItemView {
                        tag: tag.deep_view(),
                        upstream_present: upstream is Some,
                        upstream_same_digest: upstream.deep_view() matches Some(d) && same_content(
                            d,
                            source_digest@,
                        ),
                    },
                ),
                ..old(self).deep_view()
            }),
    {
        let (present, same) = match &upstream {
            Some(d) => (
                true,
                !d.as_str().is_empty() && same_text(d.as_str(), source_digest),
            ),
            None => (false, false),
        };
        push_item(
            &mut self.needs_classification,
            TriageItem { tag, upstream_present: present, upstream_same_digest: same },
        );
    }

    /// Settle dropped moves.
    fn settle_superseded(&mut self, items: Vec<SupersededItem>)
        ensures
            final(self).deep_view() == after_superseded(old(self).deep_view(), items.deep_view()),
    {
        let ghost all = items.deep_view();
        let ghost start = self.deep_view();
        assert(all.take(0) =~= Seq::<SupersededItemView>::empty());
        for s in iter: items
            invariant
                all.len() == iter.seq().len(),
                forall|i: int| 0 <= i < all.len() ==> #[trigger] all[i] == iter.seq()[i].deep_view(),
                self.deep_view() == after_superseded(start, all.take(iter.index() as int)),
        {
            let ghost i = iter.index() as int;
            proof {
                assert(all[i] == s.deep_view());
                assert(all.take(i + 1).drop_last() =~= all.take(i));
                assert(all.take(i + 1).last() == s.deep_view());
            }
            let newer = match &s.own_built {
                Some(o) => match &s.winner_built {
                    Some(w) => compare_text(w.as_str(), o.as_str()) == Order::Less,
                    None => false,
                },
                None => false,
            };
            proof {
                if s.own_built is Some && s.winner_built is Some {
                    lemma_text_lt_irreflexive(s.own_built->Some_0@);
                }
            }
            if newer {
                push_item(&mut self.superseded, s);
            } else {
                let date = match &s.own_built {
                    Some(d) => match split_once(d.as_str(), 'T') {
                        Some((head, _)) => head,
                        None => d.clone(),
                    },
                    None => "?".to_string(),
                };
                self.created.insert(
                    (s.tag.source_repo.clone(), s.tag.image.clone(), s.tag.tag.clone()),
                    date,
                );
                push_item(
                    &mut self.deletes,
                    DeleteItem {
                        tag: s.tag,
                        reason: "superseded (a newer copy is kept elsewhere)".to_string(),
                    },
                );
            }
        }
        proof {
            lemma_take_all(all);
        }
    }

    /// Resolve the collisions among the planned moves: `present` holds the
    /// targets that their destination already has, `ts` the build dates by
    /// `(repo, image, tag)`.
    pub fn settle_collisions(
        &mut self,
        present: &KeySet<(String, String, String)>,
        ts: &OrderedMap<(String, String, String), Option<String>>,
    )
        ensures
            final(self).deep_view() == after_superseded(
                ResolvedView {
                    moves: kept_moves(old(self).deep_view().moves, present@, ts@),
                    ..old(self).deep_view()
                },
                dropped_moves(old(self).deep_view().moves, present@, ts@),
            ),
    {
        let mut moves: Vec<PlannedMove> = Vec::new();
        core::mem::swap(&mut moves, &mut self.moves);
        let (kept, superseded) = resolve_move_collisions(moves, present, ts);
        self.moves = kept;
        self.settle_superseded(superseded);
    }
}

/// The key of where a move would put its tag.
fn key_of_move(m: &PlannedMove) -> (r: (String, String, String))
    ensures
        r.parts() == move_key(m.deep_view()),
{
    (m.dest.clone(), m.image.clone(), m.tag.clone())
}

/// The distinct targets of some moves, ascending.
pub fn target_keys(moves: &[PlannedMove]) -> (r: KeySet<(String, String, String)>)
    ensures
        r@ == sorted_keys(targets(moves.deep_view())),
{
    let ghost keys = targets(moves.deep_view());
    let mut out: KeySet<(String, String, String)> = KeySet::new();
    let mut i: usize = 0;
    assert(keys.take(0) =~= Seq::<Seq<Seq<char>>>::empty());
    while i < moves.len()
        invariant
            keys == targets(moves.deep_view()),
            i <= moves@.len(),
            out@ == sorted_keys(keys.take(i as int)),
        decreases moves@.len() - i,
    {
        proof {
            assert(keys.take(i + 1).drop_last() =~= keys.take(i as int));
            assert(keys[i as int] == move_key(moves@[i as int].deep_view()));
        }
        out.insert(key_of_move(&moves[i]));
        i = i + 1;
    }
    proof {
        lemma_take_all(keys);
    }
    out
}

/// Takes the source tag of a move whose target collides: the destination holds
/// it already, or another move has the same target.
pub open spec fn colliding_tag(
    all: Seq<PlannedMoveView>,
    present: Seq<Seq<Seq<char>>>,
) -> spec_fn(PlannedMoveView) -> Option<TagRefView> {
    |m: PlannedMoveView|
        if present.contains(move_key(m)) || occurrences(targets(all), move_key(m)) > 1 {
            Some(TagRefView { source_repo: m.source_repo, image: m.image, tag: m.tag })
        } else {
            None
        }
}

/// The tally of a key that occurs.
proof fn lemma_tally_lookup(keys: Seq<Seq<Seq<char>>>, k: Seq<Seq<char>>)
    requires
        keys.contains(k),
    ensures
        lookup(tally_of(keys), k) == Some(occurrences(keys, k) as usize),
        occurrences(keys, k) <= keys.len(),
{
    let sorted = sorted_keys(keys);
    lemma_sorted_keys(keys);
    assert(keys_of(tally_of(keys)) =~= sorted);
    lemma_rank(sorted, k);
    assert(sorted.contains(k));
    keys.lemma_filter_len(is_key(k));
}

/// The source tags whose build dates are needed to resolve collisions.
pub fn colliding_tags(
    moves: &[PlannedMove],
    present: &KeySet<(String, String, String)>,
) -> (r: Vec<TagRef>)
    ensures
        r.deep_view() == moves.deep_view().filter_map(
            colliding_tag(moves.deep_view(), present@),
        ),
{
    let ghost all = moves.deep_view();
    let ghost keys = targets(all);
    let mut list: Vec<(String, String, String)> = Vec::new();
    let mut j: usize = 0;
    assert(list_keys(list@) =~= keys.take(0));
    while j < moves.len()
        invariant
            all == moves.deep_view(),
            keys == targets(all),
            j <= moves@.len(),
            list_keys(list@) == keys.take(j as int),
        decreases moves@.len() - j,
    {
        let ghost before = list@;
        let k = key_of_move(&moves[j]);
        list.push(k);
        proof {
            lemma_take_push(keys, j as int);
            assert(keys[j as int] == move_key(moves@[j as int].deep_view()));
            assert(list_keys(list@) =~= list_keys(before).push(keys[j as int]));
        }
        j = j + 1;
    }
    proof {
        lemma_take_all(keys);
    }
    let counts = tally(list);
    let ghost f = colliding_tag(all, present@);
    let mut out: Vec<TagRef> = Vec::new();
    let mut i: usize = 0;
    assert(out.deep_view() =~= all.take(0).filter_map(f));
    while i < moves.len()
        invariant
            all == moves.deep_view(),
            keys == targets(all),
            counts@ == tally_of(keys),
            f == colliding_tag(all, present@),
            i <= moves@.len(),
            out.deep_view() == all.take(i as int).filter_map(f),
        decreases moves@.len() - i,
    {
        let m = &moves[i];
        let k = key_of_move(m);
        proof {
            lemma_filter_map_step(all, f, i as int);
            assert(all[i as int] == m.deep_view());
            assert(keys[i as int] == move_key(m.deep_view()));
            lemma_tally_lookup(keys, move_key(m.deep_view()));
        }
        let several = match counts.get(&k) {
            Some(n) => *n > 1,
            None => false,
        };
        if several || present.contains(&k) {
            push_item(
                &mut out,
                TagRef {
                    source_repo: m.source_repo.clone(),
                    image: m.image.clone(),
                    tag: m.tag.clone(),
                },
            );
        }
        i = i + 1;
    }
    proof {
        lemma_take_all(all);
    }
    out
}

/// A reconcile deletes a source copy only where the canonical copy has the same
/// known digest, and never out of the check repo itself.
pub proof fn law_only_identical_copies_are_redundant(
    g: CompiledGroupView,
    rec: ReconcileItemView,
    found: Option<FoundCopyView>,
    source_digest: Seq<char>,
    source_built: Option<Seq<char>>,
    check_built: Option<Seq<char>>,
    r: ResolvedView,
)
    ensures
        ({
            let o = reconcile_outcome(
                g,
                rec,
                found,
                source_digest,
                source_built,
                check_built,
            );
            let after = after_reconcile(r, o);
            after.deletes != r.deletes ==> (found matches Some(f) && f.digest.len() > 0 && f.digest
                == source_digest && rec.tag.source_repo != rec.check_repo && after.deletes
                == r.deletes.push(DeleteItemView { tag: rec.tag, reason: redundant_reason(f) }))
        }),
{
}

/// An insight image that the upstream lacks is flagged: it is neither moved nor
/// deleted.
pub proof fn law_flagged_image_is_untouched(
    g: CompiledGroupView,
    rec: ReconcileItemView,
    source_digest: Seq<char>,
    source_built: Option<Seq<char>>,
    check_built: Option<Seq<char>>,
    r: ResolvedView,
)
    requires
        rec.absent is Flag,
    ensures
        ({
            let o = reconcile_outcome(g, rec, None, source_digest, source_built, check_built);
            let after = after_reconcile(r, o);
            after.moves == r.moves && after.deletes == r.deletes && after.insight_absent
                == r.insight_absent.push(rec.tag)
        }),
{
}

/// A dropped move is deleted exactly where its source copy is not provably newer
/// than the kept copy; every other one stays for review. Moves are untouched.
pub proof fn law_newer_dropped_copy_is_kept(r: ResolvedView, items: Seq<SupersededItemView>)
    ensures
        after_superseded(r, items).moves == r.moves,
        after_superseded(r, items).superseded == r.superseded + items.filter(
            |s: SupersededItemView| source_newer(s),
        ),
        after_superseded(r, items).deletes == r.deletes + items.filter(
            |s: SupersededItemView| !source_newer(s),
        ).map_values(
            |s: SupersededItemView|
                DeleteItemView {
                    tag: s.tag,
                    reason: "superseded (a newer copy is kept elsewhere)"@,
                },
        ),
    decreases items.len(),
{
    let newer = |s: SupersededItemView| source_newer(s);
    let other = |s: SupersededItemView| !source_newer(s);
    let item = |s: SupersededItemView|
        DeleteItemView { tag: s.tag, reason: "superseded (a newer copy is kept elsewhere)"@ };
    reveal(Seq::filter);
    if items.len() == 0 {
        assert(r.superseded + items.filter(newer) =~= r.superseded);
        assert(r.deletes + items.filter(other).map_values(item) =~= r.deletes);
    } else {
        let rest = items.drop_last();
        law_newer_dropped_copy_is_kept(r, rest);
        let s = items.last();
        if source_newer(s) {
            assert(items.filter(newer) == rest.filter(newer).push(s));
            assert(items.filter(other) == rest.filter(other));
            assert(r.superseded + rest.filter(newer).push(s) =~= (r.superseded + rest.filter(
                newer,
            )).push(s));
        } else {
            assert(items.filter(newer) == rest.filter(newer));
            assert(items.filter(other) == rest.filter(other).push(s));
            assert(r.deletes + rest.filter(other).push(s).map_values(item) =~= (r.deletes
                + rest.filter(other).map_values(item)).push(item(s)));
        }
    }
}

} // verus!
