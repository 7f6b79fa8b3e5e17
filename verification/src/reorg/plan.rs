//! What to do with each tag of a repository, and the plan for a whole group.
use crate::ordered::{key1, list_keys, tally, tally_of, OrderedMap};
use crate::reorg::compile::{
    under_prefix, CompiledGroup, CompiledGroupView, CompiledRule, CompiledRuleView,
};
use crate::reorg::patterns::regex_matches;
use crate::reorg::rules::{Action, MismatchPolicy};
use crate::seqs::{
    first_where, lemma_filter_map_contains, lemma_filter_map_step, lemma_first_found,
    lemma_first_none, lemma_take_all, push_item,
};
use crate::text::{list_has, same_text};
use vstd::prelude::*;

verus! {

/// What a reconcile does when the tag is absent from the check repo.
#[derive(Debug, PartialEq, Eq)]
pub enum AbsentDest<'a> {
    /// Move the source copy to this repo.
    MoveTo(&'a str),
    /// Flag it for review and leave it; it may be the only copy.
    Flag,
}

/// What to do with one `image:tag`, resolved from the first matching rule.
#[derive(Debug, PartialEq, Eq)]
pub enum Decision<'a> {
    Move(&'a str),
    DeleteIfAbsent(&'a str),
    Reconcile { check: &'a str, absent: AbsentDest<'a>, on_mismatch: MismatchPolicy },
    /// A released tag whose image is on neither classify list.
    Triage,
    Delete,
    Leave,
}

/// The contents of an [`AbsentDest`] or [`AbsentAction`].
pub enum AbsentView {
    MoveTo(Seq<char>),
    Flag,
}

/// The contents of a [`Decision`].
pub enum DecisionView {
    Move(Seq<char>),
    DeleteIfAbsent(Seq<char>),
    Reconcile { check: Seq<char>, absent: AbsentView, on_mismatch: MismatchPolicy },
    Triage,
    Delete,
    Leave,
}

impl<'a> DeepView for AbsentDest<'a> {
    type V = AbsentView;

    open spec fn deep_view(&self) -> AbsentView {
        match self {
            AbsentDest::MoveTo(d) => AbsentView::MoveTo(d@),
            AbsentDest::Flag => AbsentView::Flag,
        }
    }
}

impl<'a> DeepView for Decision<'a> {
    type V = DecisionView;

    open spec fn deep_view(&self) -> DecisionView {
        match self {
            Decision::Move(d) => DecisionView::Move(d@),
            Decision::DeleteIfAbsent(c) => DecisionView::DeleteIfAbsent(c@),
            Decision::Reconcile { check, absent, on_mismatch } => DecisionView::Reconcile {
                check: check@,
                absent: absent.deep_view(),
                on_mismatch: *on_mismatch,
            },
            Decision::Triage => DecisionView::Triage,
            Decision::Delete => DecisionView::Delete,
            Decision::Leave => DecisionView::Leave,
        }
    }
}

/// Whether a rule applies: the image filter passes and the pattern matches the
/// tag.
pub open spec fn rule_applies(r: CompiledRuleView, image: Seq<char>, tag: Seq<char>) -> bool {
    (r.images.len() == 0 || r.images.contains(image)) && regex_matches(r.pattern, tag)
}

/// The first rule that applies to an `image:tag`.
pub open spec fn matched(
    rules: Seq<CompiledRuleView>,
    image: Seq<char>,
    tag: Seq<char>,
) -> Option<CompiledRuleView> {
    first_where(rules, |r: CompiledRuleView| rule_applies(r, image, tag))
}

/// An optional text, empty where there is none.
pub open spec fn or_empty(s: Option<Seq<char>>) -> Seq<char> {
    match s {
        Some(t) => t,
        None => Seq::empty(),
    }
}

/// What a rule's action makes of an image.
pub open spec fn action_decision(r: CompiledRuleView, image: Seq<char>) -> DecisionView {
    match r.action {
        Action::Move => DecisionView::Move(or_empty(r.dest)),
        Action::DeleteIfAbsent => DecisionView::DeleteIfAbsent(or_empty(r.check)),
        Action::Reconcile => DecisionView::Reconcile {
            check: or_empty(r.check),
            absent: AbsentView::MoveTo(or_empty(r.dest)),
            on_mismatch: r.on_mismatch,
        },
        Action::Classify => if r.aux_images.contains(key1(image)) {
            DecisionView::Move(or_empty(r.aux_dest))
        } else if r.insight_images.contains(key1(image)) {
            DecisionView::Reconcile {
                check: or_empty(r.insight_repo),
                absent: AbsentView::Flag,
                on_mismatch: r.on_mismatch,
            }
        } else {
            DecisionView::Triage
        },
        Action::Delete => DecisionView::Delete,
        Action::Leave => DecisionView::Leave,
    }
}

/// What to do with an `image:tag`: what the first matching rule says, and leave
/// it where no rule matches.
pub open spec fn decision(g: CompiledGroupView, image: Seq<char>, tag: Seq<char>) -> DecisionView {
    match matched(g.rules, image, tag) {
        Some(r) => action_decision(r, image),
        None => DecisionView::Leave,
    }
}

/// The class label of the rule that routes an `image:tag`.
pub open spec fn routed_class(g: CompiledGroupView, image: Seq<char>, tag: Seq<char>) -> Seq<char> {
    match matched(g.rules, image, tag) {
        Some(r) => r.class,
        None => "unmatched"@,
    }
}

/// The first rule whose image filter and pattern match this `image:tag`.
pub fn matched_rule<'a>(group: &'a CompiledGroup, image: &str, tag: &str) -> (r: Option<
    &'a CompiledRule,
>)
    ensures
        r.deep_view() == matched(group.deep_view().rules, image@, tag@),
{
    let ghost rules = group.deep_view().rules;
    let ghost p = |r: CompiledRuleView| rule_applies(r, image@, tag@);
    let mut i: usize = 0;
    while i < group.rules.len()
        invariant
            rules == group.deep_view().rules,
            p == (|r: CompiledRuleView| rule_applies(r, image@, tag@)),
            i <= group.rules@.len(),
            forall|j: int| 0 <= j < i ==> !p(#[trigger] rules[j]),
        decreases group.rules@.len() - i,
    {
        let r = &group.rules[i];
        assert(rules[i as int] == r.deep_view());
        let image_ok = r.images.len() == 0 || list_has(r.images.as_slice(), image);
        if image_ok && r.re.is_match(tag) {
            proof {
                lemma_first_found(rules, p, i as int);
            }
            return Some(r);
        }
        i = i + 1;
    }
    proof {
        lemma_first_none(rules, p);
    }
    None
}

/// The class label of the rule routing this tag.
pub fn move_class<'a>(group: &'a CompiledGroup, image: &str, tag: &str) -> (r: &'a str)
    ensures
        r@ == routed_class(group.deep_view(), image@, tag@),
{
    match matched_rule(group, image, tag) {
        Some(r) => r.class.as_str(),
        None => "unmatched",
    }
}

/// A borrowed optional text, empty where there is none.
fn text_or_empty(s: &Option<String>) -> (r: &str)
    ensures
        r@ == or_empty(s.deep_view()),
{
    match s {
        Some(t) => t.as_str(),
        None => {
            proof {
                reveal_strlit("");
                assert(""@ =~= Seq::<char>::empty());
            }
            ""
        },
    }
}

/// Apply the group's rules to an `image:tag`: the first match wins.
pub fn decide<'a>(group: &'a CompiledGroup, image: &str, tag: &str) -> (r: Decision<'a>)
    ensures
        r.deep_view() == decision(group.deep_view(), image@, tag@),
{
    match matched_rule(group, image, tag) {
        Some(r) => match r.action {
            Action::Move => Decision::Move(text_or_empty(&r.dest)),
            Action::DeleteIfAbsent => Decision::DeleteIfAbsent(text_or_empty(&r.check)),
            Action::Reconcile => Decision::Reconcile {
                check: text_or_empty(&r.check),
                absent: AbsentDest::MoveTo(text_or_empty(&r.dest)),
                on_mismatch: r.on_mismatch,
            },
            Action::Classify => {
                let name = image.to_string();
                if r.aux_images.contains(&name) {
                    Decision::Move(text_or_empty(&r.aux_dest))
                } else if r.insight_images.contains(&name) {
                    Decision::Reconcile {
                        check: text_or_empty(&r.insight_repo),
                        absent: AbsentDest::Flag,
                        on_mismatch: r.on_mismatch,
                    }
                } else {
                    Decision::Triage
                }
            },
            Action::Delete => Decision::Delete,
            Action::Leave => Decision::Leave,
        },
        None => Decision::Leave,
    }
}

/// A tag in a source repository.
#[derive(Debug, PartialEq, Eq)]
pub struct TagRef {
    pub source_repo: String,
    pub image: String,
    pub tag: String,
}

/// The contents of a [`TagRef`].
#[verifier::ext_equal]
pub struct TagRefView {
    pub source_repo: Seq<char>,
    pub image: Seq<char>,
    pub tag: Seq<char>,
}

impl DeepView for TagRef {
    type V = TagRefView;

    open spec fn deep_view(&self) -> TagRefView {
        TagRefView { source_repo: self.source_repo@, image: self.image@, tag: self.tag@ }
    }
}

impl Clone for TagRef {
    fn clone(&self) -> (r: Self)
        ensures
            r == *self,
    {
        TagRef {
            source_repo: self.source_repo.clone(),
            image: self.image.clone(),
            tag: self.tag.clone(),
        }
    }
}

/// A tag to be relocated.
#[derive(Debug, PartialEq, Eq)]
pub struct PlannedMove {
    pub source_repo: String,
    pub image: String,
    pub tag: String,
    pub dest: String,
    /// The class of the rule that routed this move.
    pub class: String,
}

/// The contents of a [`PlannedMove`].
#[verifier::ext_equal]
pub struct PlannedMoveView {
    pub source_repo: Seq<char>,
    pub image: Seq<char>,
    pub tag: Seq<char>,
    pub dest: Seq<char>,
    pub class: Seq<char>,
}

impl DeepView for PlannedMove {
    type V = PlannedMoveView;

    open spec fn deep_view(&self) -> PlannedMoveView {
        PlannedMoveView {
            source_repo: self.source_repo@,
            image: self.image@,
            tag: self.tag@,
            dest: self.dest@,
            class: self.class@,
        }
    }
}

impl Clone for PlannedMove {
    fn clone(&self) -> (r: Self)
        ensures
            r == *self,
    {
        PlannedMove {
            source_repo: self.source_repo.clone(),
            image: self.image.clone(),
            tag: self.tag.clone(),
            dest: self.dest.clone(),
            class: self.class.clone(),
        }
    }
}

/// A delete gated on absence from a presence-check repo.
#[derive(Debug, PartialEq, Eq)]
pub struct ConditionalDelete {
    pub tag: TagRef,
    pub check_repo: String,
}

/// The contents of a [`ConditionalDelete`].
#[verifier::ext_equal]
pub struct ConditionalDeleteView {
    pub tag: TagRefView,
    pub check_repo: Seq<char>,
}

impl DeepView for ConditionalDelete {
    type V = ConditionalDeleteView;

    open spec fn deep_view(&self) -> ConditionalDeleteView {
        ConditionalDeleteView { tag: self.tag.deep_view(), check_repo: self.check_repo@ }
    }
}

/// What to do if a tag is absent from its check repo.
#[derive(Debug, PartialEq, Eq)]
pub enum AbsentAction {
    /// Move the source copy here.
    MoveTo(String),
    /// Flag for review, never drop.
    Flag,
}

impl DeepView for AbsentAction {
    type V = AbsentView;

    open spec fn deep_view(&self) -> AbsentView {
        match self {
            AbsentAction::MoveTo(d) => AbsentView::MoveTo(d@),
            AbsentAction::Flag => AbsentView::Flag,
        }
    }
}

/// A released-image reconcile pending a digest comparison against `check_repo`.
#[derive(Debug, PartialEq, Eq)]
pub struct ReconcileItem {
    pub tag: TagRef,
    pub check_repo: String,
    pub absent: AbsentAction,
    pub on_mismatch: MismatchPolicy,
}

/// The contents of a [`ReconcileItem`].
#[verifier::ext_equal]
pub struct ReconcileItemView {
    pub tag: TagRefView,
    pub check_repo: Seq<char>,
    pub absent: AbsentView,
    pub on_mismatch: MismatchPolicy,
}

impl DeepView for ReconcileItem {
    type V = ReconcileItemView;

    open spec fn deep_view(&self) -> ReconcileItemView {
        ReconcileItemView {
            tag: self.tag.deep_view(),
            check_repo: self.check_repo@,
            absent: self.absent.deep_view(),
            on_mismatch: self.on_mismatch,
        }
    }
}

/// A planned source-tag deletion together with the reason it is removed for.
#[derive(Debug, PartialEq, Eq)]
pub struct DeleteItem {
    pub tag: TagRef,
    pub reason: String,
}

/// The contents of a [`DeleteItem`].
#[verifier::ext_equal]
pub struct DeleteItemView {
    pub tag: TagRefView,
    pub reason: Seq<char>,
}

impl DeepView for DeleteItem {
    type V = DeleteItemView;

    open spec fn deep_view(&self) -> DeleteItemView {
        DeleteItemView { tag: self.tag.deep_view(), reason: self.reason@ }
    }
}

/// The plan for one repository of a group.
#[derive(Debug)]
pub struct Plan {
    pub moves: Vec<PlannedMove>,
    pub conditional_deletes: Vec<ConditionalDelete>,
    pub reconciles: Vec<ReconcileItem>,
    pub deletes: Vec<DeleteItem>,
    pub leaves: Vec<TagRef>,
    /// Released tags whose image is on neither classify list.
    pub triage: Vec<TagRef>,
    /// Tags already in their correct repo.
    pub already_placed: usize,
    /// Per-class breakdown of `already_placed`.
    pub already_placed_by_class: OrderedMap<String, usize>,
}

/// The contents of a [`Plan`].
#[verifier::ext_equal]
pub struct PlanView {
    pub moves: Seq<PlannedMoveView>,
    pub conditional_deletes: Seq<ConditionalDeleteView>,
    pub reconciles: Seq<ReconcileItemView>,
    pub deletes: Seq<DeleteItemView>,
    pub leaves: Seq<TagRefView>,
    pub triage: Seq<TagRefView>,
    pub already_placed: nat,
    pub already_placed_by_class: Seq<(Seq<Seq<char>>, usize)>,
}

impl DeepView for Plan {
    type V = PlanView;

    open spec fn deep_view(&self) -> PlanView {
        PlanView {
            moves: self.moves.deep_view(),
            conditional_deletes: self.conditional_deletes.deep_view(),
            reconciles: self.reconciles.deep_view(),
            deletes: self.deletes.deep_view(),
            leaves: self.leaves.deep_view(),
            triage: self.triage.deep_view(),
            already_placed: self.already_placed as nat,
            already_placed_by_class: self.already_placed_by_class@,
        }
    }
}

/// Where an `image:tag` of a repository ends up in the plan.
pub enum Disposition {
    /// Not one of ours: not touched.
    Ignored,
    /// Already where its rule would move it; carries the rule's class.
    Placed(Seq<char>),
    Moved(PlannedMoveView),
    CheckedDelete(ConditionalDeleteView),
    Reconciled(ReconcileItemView),
    Triaged(TagRefView),
    Deleted(DeleteItemView),
    Left(TagRefView),
}

/// The disposition of one `image:tag` of `source_repo`.
pub open spec fn disposition(
    g: CompiledGroupView,
    source_repo: Seq<char>,
    image: Seq<char>,
    tag: Seq<char>,
) -> Disposition {
    let tagref = TagRefView { source_repo, image, tag };
    if !under_prefix(g.first_party_prefixes, image) {
        Disposition::Ignored
    } else {
        match decision(g, image, tag) {
            DecisionView::Move(dest) => if dest == source_repo {
                Disposition::Placed(routed_class(g, image, tag))
            } else {
                Disposition::Moved(
                    PlannedMoveView {
                        source_repo,
                        image,
                        tag,
                        dest,
                        class: routed_class(g, image, tag),
                    },
                )
            },
            DecisionView::DeleteIfAbsent(check) => Disposition::CheckedDelete(
                ConditionalDeleteView { tag: tagref, check_repo: check },
            ),
            DecisionView::Reconcile { check, absent, on_mismatch } => Disposition::Reconciled(
                ReconcileItemView { tag: tagref, check_repo: check, absent, on_mismatch },
            ),
            DecisionView::Triage => Disposition::Triaged(tagref),
            DecisionView::Delete => Disposition::Deleted(
                DeleteItemView { tag: tagref, reason: "matched a delete rule"@ },
            ),
            DecisionView::Leave => Disposition::Left(tagref),
        }
    }
}

/// The disposition of every tag of an inventory.
pub open spec fn dispositions(
    g: CompiledGroupView,
    source_repo: Seq<char>,
    inventory: Seq<(Seq<char>, Seq<char>)>,
) -> Seq<Disposition> {
    inventory.map_values(|e: (Seq<char>, Seq<char>)| disposition(g, source_repo, e.0, e.1))
}

/// The planned moves among some dispositions.
pub open spec fn moved(ds: Seq<Disposition>) -> Seq<PlannedMoveView> {
    ds.filter_map(
        |d: Disposition|
            match d {
                Disposition::Moved(m) => Some(m),
                _ => None,
            },
    )
}

/// The conditional deletes among some dispositions.
pub open spec fn checked_deletes(ds: Seq<Disposition>) -> Seq<ConditionalDeleteView> {
    ds.filter_map(
        |d: Disposition|
            match d {
                Disposition::CheckedDelete(c) => Some(c),
                _ => None,
            },
    )
}

/// The reconciles among some dispositions.
pub open spec fn reconciled(ds: Seq<Disposition>) -> Seq<ReconcileItemView> {
    ds.filter_map(
        |d: Disposition|
            match d {
                Disposition::Reconciled(c) => Some(c),
                _ => None,
            },
    )
}

/// The deletes among some dispositions.
pub open spec fn deleted(ds: Seq<Disposition>) -> Seq<DeleteItemView> {
    ds.filter_map(
        |d: Disposition|
            match d {
                Disposition::Deleted(c) => Some(c),
                _ => None,
            },
    )
}

/// The tags left in place among some dispositions.
pub open spec fn left(ds: Seq<Disposition>) -> Seq<TagRefView> {
    ds.filter_map(
        |d: Disposition|
            match d {
                Disposition::Left(t) => Some(t),
                _ => None,
            },
    )
}

/// The tags to be classified among some dispositions.
pub open spec fn triaged(ds: Seq<Disposition>) -> Seq<TagRefView> {
    ds.filter_map(
        |d: Disposition|
            match d {
                Disposition::Triaged(t) => Some(t),
                _ => None,
            },
    )
}

/// The classes of the tags already in place among some dispositions.
pub open spec fn placed(ds: Seq<Disposition>) -> Seq<Seq<Seq<char>>> {
    ds.filter_map(
        |d: Disposition|
            match d {
                Disposition::Placed(c) => Some(key1(c)),
                _ => None,
            },
    )
}

/// The plan that some dispositions make.
pub open spec fn plan_of(ds: Seq<Disposition>) -> PlanView {
    PlanView {
        moves: moved(ds),
        conditional_deletes: checked_deletes(ds),
        reconciles: reconciled(ds),
        deletes: deleted(ds),
        leaves: left(ds),
        triage: triaged(ds),
        already_placed: placed(ds).len(),
        already_placed_by_class: tally_of(placed(ds)),
    }
}

/// How every bucket grows by one disposition.
proof fn lemma_buckets_step(ds: Seq<Disposition>, i: int)
    requires
        0 <= i < ds.len(),
    ensures
        moved(ds.take(i + 1)) == match ds[i] {
            Disposition::Moved(m) => moved(ds.take(i)).push(m),
            _ => moved(ds.take(i)),
        },
        checked_deletes(ds.take(i + 1)) == match ds[i] {
            Disposition::CheckedDelete(c) => checked_deletes(ds.take(i)).push(c),
            _ => checked_deletes(ds.take(i)),
        },
        reconciled(ds.take(i + 1)) == match ds[i] {
            Disposition::Reconciled(c) => reconciled(ds.take(i)).push(c),
            _ => reconciled(ds.take(i)),
        },
        deleted(ds.take(i + 1)) == match ds[i] {
            Disposition::Deleted(c) => deleted(ds.take(i)).push(c),
            _ => deleted(ds.take(i)),
        },
        left(ds.take(i + 1)) == match ds[i] {
            Disposition::Left(t) => left(ds.take(i)).push(t),
            _ => left(ds.take(i)),
        },
        triaged(ds.take(i + 1)) == match ds[i] {
            Disposition::Triaged(t) => triaged(ds.take(i)).push(t),
            _ => triaged(ds.take(i)),
        },
        placed(ds.take(i + 1)) == match ds[i] {
            Disposition::Placed(c) => placed(ds.take(i)).push(key1(c)),
            _ => placed(ds.take(i)),
        },
{
    lemma_filter_map_step(
        ds,
        |d: Disposition|
            match d {
                Disposition::Moved(m) => Some(m),
                _ => None,
            },
        i,
    );
    lemma_filter_map_step(
        ds,
        |d: Disposition|
            match d {
                Disposition::CheckedDelete(c) => Some(c),
                _ => None,
            },
        i,
    );
    lemma_filter_map_step(
        ds,
        |d: Disposition|
            match d {
                Disposition::Reconciled(c) => Some(c),
                _ => None,
            },
        i,
    );
    lemma_filter_map_step(
        ds,
        |d: Disposition|
            match d {
                Disposition::Deleted(c) => Some(c),
                _ => None,
            },
        i,
    );
    lemma_filter_map_step(
        ds,
        |d: Disposition|
            match d {
                Disposition::Left(t) => Some(t),
                _ => None,
            },
        i,
    );
    lemma_filter_map_step(
        ds,
        |d: Disposition|
            match d {
                Disposition::Triaged(t) => Some(t),
                _ => None,
            },
        i,
    );
    lemma_filter_map_step(
        ds,
        |d: Disposition|
            match d {
                Disposition::Placed(c) => Some(key1(c)),
                _ => None,
            },
        i,
    );
}

/// A tag of a repository.
fn tag_ref(source_repo: &str, image: &str, tag: &str) -> (r: TagRef)
    ensures
        r.deep_view() == (TagRefView { source_repo: source_repo@, image: image@, tag: tag@ }),
{
    TagRef {
        source_repo: source_repo.to_string(),
        image: image.to_string(),
        tag: tag.to_string(),
    }
}

/// Build the plan for one repository of a group from its `(image, tag)`
/// inventory.
pub fn build_group_plan(
    group: &CompiledGroup,
    inventory: &[(String, String)],
    source_repo: &str,
) -> (r: Plan)
    ensures
        r.deep_view() == plan_of(
            dispositions(group.deep_view(), source_repo@, inventory.deep_view()),
        ),
{
    let ghost g = group.deep_view();
    let ghost inv = inventory.deep_view();
    let ghost ds = dispositions(g, source_repo@, inv);
    let mut moves: Vec<PlannedMove> = Vec::new();
    let mut conditional_deletes: Vec<ConditionalDelete> = Vec::new();
    let mut reconciles: Vec<ReconcileItem> = Vec::new();
    let mut deletes: Vec<DeleteItem> = Vec::new();
    let mut leaves: Vec<TagRef> = Vec::new();
    let mut triage: Vec<TagRef> = Vec::new();
    let mut in_place: Vec<String> = Vec::new();
    let mut i: usize = 0;
    proof {
        assert(moves.deep_view() =~= moved(ds.take(0)));
        assert(conditional_deletes.deep_view() =~= checked_deletes(ds.take(0)));
        assert(reconciles.deep_view() =~= reconciled(ds.take(0)));
        assert(deletes.deep_view() =~= deleted(ds.take(0)));
        assert(leaves.deep_view() =~= left(ds.take(0)));
        assert(triage.deep_view() =~= triaged(ds.take(0)));
        assert(list_keys(in_place@) =~= placed(ds.take(0)));
    }
    while i < inventory.len()
        invariant
            g == group.deep_view(),
            inv == inventory.deep_view(),
            ds == dispositions(g, source_repo@, inv),
            i <= inventory@.len(),
            moves.deep_view() == moved(ds.take(i as int)),
            conditional_deletes.deep_view() == checked_deletes(ds.take(i as int)),
            reconciles.deep_view() == reconciled(ds.take(i as int)),
            deletes.deep_view() == deleted(ds.take(i as int)),
            leaves.deep_view() == left(ds.take(i as int)),
            triage.deep_view() == triaged(ds.take(i as int)),
            list_keys(in_place@) == placed(ds.take(i as int)),
        decreases inventory@.len() - i,
    {
        let image = inventory[i].0.as_str();
        let tag = inventory[i].1.as_str();
        proof {
            lemma_buckets_step(ds, i as int);
            assert(inv[i as int] == (image@, tag@));
            assert(ds[i as int] == disposition(g, source_repo@, image@, tag@));
        }
        if group.is_first_party(image) {
            match decide(group, image, tag) {
                Decision::Move(dest) => {
                    let class = move_class(group, image, tag).to_string();
                    if same_text(dest, source_repo) {
                        let ghost before = in_place@;
                        in_place.push(class);
                        assert(list_keys(in_place@) =~= list_keys(before).push(key1(class@)));
                    } else {
                        push_item(
                            &mut moves,
                            PlannedMove {
                                source_repo: source_repo.to_string(),
                                image: image.to_string(),
                                tag: tag.to_string(),
                                dest: dest.to_string(),
                                class,
                            },
                        );
                    }
                },
                Decision::DeleteIfAbsent(check) => push_item(
                    &mut conditional_deletes,
                    ConditionalDelete {
                        tag: tag_ref(source_repo, image, tag),
                        check_repo: check.to_string(),
                    },
                ),
                Decision::Reconcile { check, absent, on_mismatch } => push_item(
                    &mut reconciles,
                    ReconcileItem {
                        tag: tag_ref(source_repo, image, tag),
                        check_repo: check.to_string(),
                        absent: match absent {
                            AbsentDest::MoveTo(d) => AbsentAction::MoveTo(d.to_string()),
                            AbsentDest::Flag => AbsentAction::Flag,
                        },
                        on_mismatch,
                    },
                ),
                Decision::Triage => push_item(&mut triage, tag_ref(source_repo, image, tag)),
                Decision::Delete => push_item(
                    &mut deletes,
                    DeleteItem {
                        tag: tag_ref(source_repo, image, tag),
                        reason: "matched a delete rule".to_string(),
                    },
                ),
                Decision::Leave => push_item(&mut leaves, tag_ref(source_repo, image, tag)),
            }
        }
        i = i + 1;
    }
    proof {
        lemma_take_all(ds);
    }
    let already_placed: usize = in_place.len();
    Plan {
        moves,
        conditional_deletes,
        reconciles,
        deletes,
        leaves,
        triage,
        already_placed,
        already_placed_by_class: tally(in_place),
    }
}

/// Every first-party tag lands in exactly one bucket of the plan, and nothing
/// else does: the sizes of the buckets add up to the number of first-party tags.
pub proof fn law_plan_partitions_first_party(
    g: CompiledGroupView,
    source_repo: Seq<char>,
    inventory: Seq<(Seq<char>, Seq<char>)>,
)
    ensures
        ({
            let p = plan_of(dispositions(g, source_repo, inventory));
            p.moves.len() + p.conditional_deletes.len() + p.reconciles.len() + p.deletes.len()
                + p.leaves.len() + p.triage.len() + p.already_placed == inventory.filter(
                |e: (Seq<char>, Seq<char>)| under_prefix(g.first_party_prefixes, e.0),
            ).len()
        }),
    decreases inventory.len(),
{
    let ds = dispositions(g, source_repo, inventory);
    let first = |e: (Seq<char>, Seq<char>)| under_prefix(g.first_party_prefixes, e.0);
    reveal(Seq::filter);
    if inventory.len() > 0 {
        let rest = inventory.drop_last();
        law_plan_partitions_first_party(g, source_repo, rest);
        let n = inventory.len() - 1;
        assert(dispositions(g, source_repo, rest) =~= ds.take(n));
        lemma_buckets_step(ds, n);
        assert(ds.take(n + 1) =~= ds);
        assert(ds[n] == disposition(g, source_repo, inventory[n].0, inventory[n].1));
    }
}

/// A tag that is not first-party is in no bucket of the plan.
pub proof fn law_plan_ignores_third_party(
    g: CompiledGroupView,
    source_repo: Seq<char>,
    inventory: Seq<(Seq<char>, Seq<char>)>,
)
    ensures
        ({
            let p = plan_of(dispositions(g, source_repo, inventory));
            &&& forall|m: PlannedMoveView| #[trigger]
                p.moves.contains(m) ==> under_prefix(g.first_party_prefixes, m.image)
            &&& forall|c: ConditionalDeleteView| #[trigger]
                p.conditional_deletes.contains(c) ==> under_prefix(
                    g.first_party_prefixes,
                    c.tag.image,
                )
            &&& forall|c: ReconcileItemView| #[trigger]
                p.reconciles.contains(c) ==> under_prefix(g.first_party_prefixes, c.tag.image)
            &&& forall|d: DeleteItemView| #[trigger]
                p.deletes.contains(d) ==> under_prefix(g.first_party_prefixes, d.tag.image)
            &&& forall|t: TagRefView| #[trigger]
                p.leaves.contains(t) ==> under_prefix(g.first_party_prefixes, t.image)
            &&& forall|t: TagRefView| #[trigger]
                p.triage.contains(t) ==> under_prefix(g.first_party_prefixes, t.image)
        }),
{
    let ds = dispositions(g, source_repo, inventory);
    let p = plan_of(ds);
    assert forall|m: PlannedMoveView| #[trigger] p.moves.contains(m) implies under_prefix(
        g.first_party_prefixes,
        m.image,
    ) by {
        lemma_filter_map_contains(
            ds,
            |d: Disposition|
                match d {
                    Disposition::Moved(m) => Some(m),
                    _ => None,
                },
            m,
        );
    }
    assert forall|c: ConditionalDeleteView| #[trigger]
        p.conditional_deletes.contains(c) implies under_prefix(
        g.first_party_prefixes,
        c.tag.image,
    ) by {
        lemma_filter_map_contains(
            ds,
            |d: Disposition|
                match d {
                    Disposition::CheckedDelete(c) => Some(c),
                    _ => None,
                },
            c,
        );
    }
    assert forall|c: ReconcileItemView| #[trigger] p.reconciles.contains(c) implies under_prefix(
        g.first_party_prefixes,
        c.tag.image,
    ) by {
        lemma_filter_map_contains(
            ds,
            |d: Disposition|
                match d {
                    Disposition::Reconciled(c) => Some(c),
                    _ => None,
                },
            c,
        );
    }
    assert forall|c: DeleteItemView| #[trigger] p.deletes.contains(c) implies under_prefix(
        g.first_party_prefixes,
        c.tag.image,
    ) by {
        lemma_filter_map_contains(
            ds,
            |d: Disposition|
                match d {
                    Disposition::Deleted(c) => Some(c),
                    _ => None,
                },
            c,
        );
    }
    assert forall|t: TagRefView| #[trigger] p.leaves.contains(t) implies under_prefix(
        g.first_party_prefixes,
        t.image,
    ) by {
        lemma_filter_map_contains(
            ds,
            |d: Disposition|
                match d {
                    Disposition::Left(t) => Some(t),
                    _ => None,
                },
            t,
        );
    }
    assert forall|t: TagRefView| #[trigger] p.triage.contains(t) implies under_prefix(
        g.first_party_prefixes,
        t.image,
    ) by {
        lemma_filter_map_contains(
            ds,
            |d: Disposition|
                match d {
                    Disposition::Triaged(t) => Some(t),
                    _ => None,
                },
            t,
        );
    }
}

/// No planned move leads back to the repository it starts from.
pub proof fn law_no_self_move(
    g: CompiledGroupView,
    source_repo: Seq<char>,
    inventory: Seq<(Seq<char>, Seq<char>)>,
)
    ensures
        forall|m: PlannedMoveView| #[trigger]
            plan_of(dispositions(g, source_repo, inventory)).moves.contains(m) ==> m.source_repo
                == source_repo && m.dest != source_repo,
{
    let ds = dispositions(g, source_repo, inventory);
    assert forall|m: PlannedMoveView| #[trigger] plan_of(ds).moves.contains(m) implies m.source_repo
        == source_repo && m.dest != source_repo by {
        lemma_filter_map_contains(
            ds,
            |d: Disposition|
                match d {
                    Disposition::Moved(m) => Some(m),
                    _ => None,
                },
            m,
        );
    }
}

} // verus!
