//! What planning the reorganisation of docker repositories promises.
use crate::laws::seqs::{is_first, law_first_that_passes};
use crate::laws::text::{law_comparison_is_fair, law_prefix_is_followed_by_the_rest};
use crate::reorg::compile::{under_prefix, CompiledGroupView, CompiledRuleView};
use crate::reorg::evidence::MismatchInfoView;
use crate::reorg::patterns::regex_matches;
use crate::reorg::plan::{
    decision, disposition, dispositions, matched, plan_of, routed_class, rule_applies, AbsentView,
    ConditionalDeleteView, DecisionView, DeleteItemView, Disposition, PlannedMoveView,
    ReconcileItemView, TagRefView,
};
use crate::reorg::resolve::{reconcile_outcome, FoundCopyView, ReconcileOutcome};
use crate::reorg::rules::{Action, MismatchPolicy};
use crate::seqs::lemma_filter_map_contains;
use crate::text::{has_prefix, text_lt};
use vstd::prelude::*;

verus! {

/// The rule at a position is the first whose images allow the image, or allow any,
/// and whose pattern matches the tag.
pub open spec fn first_to_apply(
    rules: Seq<CompiledRuleView>,
    image: Seq<char>,
    tag: Seq<char>,
    i: int,
) -> bool {
    &&& 0 <= i < rules.len()
    &&& rules[i].images.len() == 0 || rules[i].images.contains(image)
    &&& regex_matches(rules[i].pattern, tag)
    &&& forall|j: int|
        0 <= j < i && ((#[trigger] rules[j]).images.len() == 0 || rules[j].images.contains(image))
            ==> !regex_matches(rules[j].pattern, tag)
}

/// The first rule to apply is the one that is matched.
proof fn lemma_matched(rules: Seq<CompiledRuleView>, image: Seq<char>, tag: Seq<char>, i: int)
    requires
        first_to_apply(rules, image, tag, i),
    ensures
        matched(rules, image, tag) == Some(rules[i]),
{
    let p = |r: CompiledRuleView| rule_applies(r, image, tag);
    law_first_that_passes(rules, p);
    assert(is_first(rules, p, i));
}

/// Where a rule is matched, some rule is the first to apply.
proof fn lemma_some_rule(rules: Seq<CompiledRuleView>, image: Seq<char>, tag: Seq<char>) -> (i: int)
    requires
        matched(rules, image, tag) is Some,
    ensures
        first_to_apply(rules, image, tag, i),
        matched(rules, image, tag) == Some(rules[i]),
{
    let p = |r: CompiledRuleView| rule_applies(r, image, tag);
    law_first_that_passes(rules, p);
    let i = choose|i: int| #[trigger] is_first(rules, p, i);
    assert forall|j: int|
        0 <= j < i && ((#[trigger] rules[j]).images.len() == 0 || rules[j].images.contains(
            image,
        )) implies !regex_matches(rules[j].pattern, tag) by {
        assert(!p(rules[j]));
    }
    i
}

/// The first rule that applies decides: a move goes to the rule's destination, a
/// conditional delete looks into the rule's check repository, a reconcile does so
/// and moves what is absent to the rule's destination, and a classified image moves
/// to the aux destination, is verified, or waits for its class.
pub proof fn law_first_rule_decides(
    g: CompiledGroupView,
    image: Seq<char>,
    tag: Seq<char>,
    i: int,
)
    requires
        first_to_apply(g.rules, image, tag, i),
    ensures
        ({
            let r = g.rules[i];
            let d = decision(g, image, tag);
            &&& routed_class(g, image, tag) == r.class
            &&& r.action == Action::Leave ==> d is Leave
            &&& r.action == Action::Delete ==> d is Delete
            &&& r.action == Action::Move && r.dest is Some ==> d == DecisionView::Move(
                r.dest->Some_0,
            )
            &&& r.action == Action::DeleteIfAbsent && r.check is Some ==> d
                == DecisionView::DeleteIfAbsent(r.check->Some_0)
            &&& r.action == Action::Reconcile && r.check is Some && r.dest is Some ==> d is Reconcile
                && d->check == r.check->Some_0 && d->absent == AbsentView::MoveTo(r.dest->Some_0)
            &&& r.action == Action::Classify && r.aux_images.contains(seq![image])
                && r.aux_dest is Some ==> d == DecisionView::Move(r.aux_dest->Some_0)
            &&& r.action == Action::Classify && !r.aux_images.contains(seq![image])
                && r.insight_images.contains(seq![image]) && r.insight_repo is Some
                ==> d is Reconcile && d->check == r.insight_repo->Some_0 && d->absent is Flag
            &&& r.action == Action::Classify && !r.aux_images.contains(seq![image])
                && !r.insight_images.contains(seq![image]) ==> d is Triage
        }),
{
    lemma_matched(g.rules, image, tag, i);
}

/// A tag that no rule applies to is left in place.
pub proof fn law_tag_without_a_rule_is_left(g: CompiledGroupView, image: Seq<char>, tag: Seq<char>)
    requires
        forall|i: int|
            0 <= i < g.rules.len() ==> !regex_matches((#[trigger] g.rules[i]).pattern, tag) || (
            g.rules[i].images.len() > 0 && !g.rules[i].images.contains(image)),
    ensures
        decision(g, image, tag) is Leave,
        routed_class(g, image, tag) == "unmatched"@,
{
    if matched(g.rules, image, tag) is Some {
        let i = lemma_some_rule(g.rules, image, tag);
    }
}

/// Whatever is added behind a rule that applies does not matter.
pub proof fn law_later_rules_do_not_matter(
    g: CompiledGroupView,
    more: Seq<CompiledRuleView>,
    image: Seq<char>,
    tag: Seq<char>,
    i: int,
)
    requires
        first_to_apply(g.rules, image, tag, i),
    ensures
        decision(CompiledGroupView { rules: g.rules + more, ..g }, image, tag) == decision(
            g,
            image,
            tag,
        ),
{
    let all = g.rules + more;
    lemma_matched(g.rules, image, tag, i);
    assert forall|j: int|
        0 <= j < i && ((#[trigger] all[j]).images.len() == 0 || all[j].images.contains(
            image,
        )) implies !regex_matches(all[j].pattern, tag) by {
        assert(all[j] == g.rules[j]);
    }
    lemma_matched(all, image, tag, i);
}

/// The mismatch policy of a reconcile is that of the first rule that applies,
/// whether that rule reconciles or classifies.
pub proof fn law_reconcile_follows_the_policy_of_its_rule(
    g: CompiledGroupView,
    image: Seq<char>,
    tag: Seq<char>,
    i: int,
)
    requires
        decision(g, image, tag) is Reconcile,
        first_to_apply(g.rules, image, tag, i),
    ensures
        decision(g, image, tag)->on_mismatch == g.rules[i].on_mismatch,
        g.rules[i].action == Action::Reconcile || g.rules[i].action == Action::Classify,
{
    lemma_matched(g.rules, image, tag, i);
}

/// Under a rule that parks mismatches, no mismatch of a tag is ever deleted: neither
/// does the plan's reconcile make it deletable, whatever copy is found and whenever
/// it was built.
pub proof fn law_parking_rule_deletes_no_mismatch(
    g: CompiledGroupView,
    source_repo: Seq<char>,
    inventory: Seq<(Seq<char>, Seq<char>)>,
    rec: ReconcileItemView,
    i: int,
    found: Option<FoundCopyView>,
    source_digest: Seq<char>,
    source_built: Option<Seq<char>>,
    check_built: Option<Seq<char>>,
)
    requires
        plan_of(dispositions(g, source_repo, inventory)).reconciles.contains(rec),
        first_to_apply(g.rules, rec.tag.image, rec.tag.tag, i),
        g.rules[i].on_mismatch == MismatchPolicy::Leave,
    ensures
        reconcile_outcome(g, rec, found, source_digest, source_built, check_built) matches
            ReconcileOutcome::Mismatched(m) ==> !m.deletable(),
{
    lemma_reconcile_comes_from(g, source_repo, inventory, rec);
    law_reconcile_follows_the_policy_of_its_rule(g, rec.tag.image, rec.tag.tag, i);
}

/// An image is first-party: its name begins with one of the prefixes.
pub open spec fn begins_with_one(prefixes: Seq<Seq<char>>, image: Seq<char>) -> bool {
    exists|i: int, rest: Seq<char>|
        0 <= i < prefixes.len() && image == #[trigger] (prefixes[i] + rest)
}

/// An image is under a prefix exactly where its name begins with it.
pub proof fn law_prefixes_begin_names(prefixes: Seq<Seq<char>>, image: Seq<char>)
    ensures
        under_prefix(prefixes, image) <==> begins_with_one(prefixes, image),
{
    if under_prefix(prefixes, image) {
        let i = choose|i: int| 0 <= i < prefixes.len() && has_prefix(image, #[trigger] prefixes[i]);
        law_prefix_is_followed_by_the_rest(image, prefixes[i]);
        let rest = choose|rest: Seq<char>| image == #[trigger] (prefixes[i] + rest);
        assert(image == prefixes[i] + rest);
    }
    if begins_with_one(prefixes, image) {
        let (i, rest) = choose|i: int, rest: Seq<char>|
            0 <= i < prefixes.len() && image == #[trigger] (prefixes[i] + rest);
        law_prefix_is_followed_by_the_rest(image, prefixes[i]);
    }
}

/// A reconcile of the plan is that of a first-party tag of the inventory.
proof fn lemma_reconcile_comes_from(
    g: CompiledGroupView,
    source_repo: Seq<char>,
    inventory: Seq<(Seq<char>, Seq<char>)>,
    rec: ReconcileItemView,
)
    requires
        plan_of(dispositions(g, source_repo, inventory)).reconciles.contains(rec),
    ensures
        inventory.contains((rec.tag.image, rec.tag.tag)),
        rec.tag.source_repo == source_repo,
        under_prefix(g.first_party_prefixes, rec.tag.image),
        decision(g, rec.tag.image, rec.tag.tag) == (DecisionView::Reconcile {
            check: rec.check_repo,
            absent: rec.absent,
            on_mismatch: rec.on_mismatch,
        }),
{
    let ds = dispositions(g, source_repo, inventory);
    let f = |d: Disposition|
        match d {
            Disposition::Reconciled(c) => Some(c),
            _ => None,
        };
    lemma_filter_map_contains(ds, f, rec);
    let k = choose|k: int| 0 <= k < ds.len() && #[trigger] f(ds[k]) == Some(rec);
    assert(ds[k] == disposition(g, source_repo, inventory[k].0, inventory[k].1));
    assert(inventory[k] == (rec.tag.image, rec.tag.tag));
}

/// A first-party tag is planned for what is decided of it: it is moved unless it is
/// in its place already, deleted, deleted on a condition, reconciled, classified or
/// left.
pub proof fn law_tag_is_planned_as_decided(
    g: CompiledGroupView,
    source_repo: Seq<char>,
    inventory: Seq<(Seq<char>, Seq<char>)>,
    k: int,
)
    requires
        0 <= k < inventory.len(),
        begins_with_one(g.first_party_prefixes, inventory[k].0),
    ensures
        ({
            let p = plan_of(dispositions(g, source_repo, inventory));
            let image = inventory[k].0;
            let tag = inventory[k].1;
            let t = TagRefView { source_repo, image, tag };
            match decision(g, image, tag) {
                DecisionView::Move(dest) => dest != source_repo ==> p.moves.contains(
                    PlannedMoveView {
                        source_repo,
                        image,
                        tag,
                        dest,
                        class: routed_class(g, image, tag),
                    },
                ),
                DecisionView::DeleteIfAbsent(check) => p.conditional_deletes.contains(
                    ConditionalDeleteView { tag: t, check_repo: check },
                ),
                DecisionView::Reconcile { check, absent, on_mismatch } => p.reconciles.contains(
                    ReconcileItemView { tag: t, check_repo: check, absent, on_mismatch },
                ),
                DecisionView::Triage => p.triage.contains(t),
                DecisionView::Delete => p.deletes.contains(
                    DeleteItemView { tag: t, reason: "matched a delete rule"@ },
                ),
                DecisionView::Leave => p.leaves.contains(t),
            }
        }),
{
    law_prefixes_begin_names(g.first_party_prefixes, inventory[k].0);
    let ds = dispositions(g, source_repo, inventory);
    let image = inventory[k].0;
    let tag = inventory[k].1;
    let t = TagRefView { source_repo, image, tag };
    assert(ds[k] == disposition(g, source_repo, image, tag));
    match decision(g, image, tag) {
        DecisionView::Move(dest) => {
            if dest != source_repo {
                let f = |d: Disposition|
                    match d {
                        Disposition::Moved(m) => Some(m),
                        _ => None,
                    };
                let m = PlannedMoveView {
                    source_repo,
                    image,
                    tag,
                    dest,
                    class: routed_class(g, image, tag),
                };
                lemma_filter_map_contains(ds, f, m);
                assert(f(ds[k]) == Some(m));
            }
        },
        DecisionView::DeleteIfAbsent(check) => {
            let f = |d: Disposition|
                match d {
                    Disposition::CheckedDelete(c) => Some(c),
                    _ => None,
                };
            let c = ConditionalDeleteView { tag: t, check_repo: check };
            lemma_filter_map_contains(ds, f, c);
            assert(f(ds[k]) == Some(c));
        },
        DecisionView::Reconcile { check, absent, on_mismatch } => {
            let f = |d: Disposition|
                match d {
                    Disposition::Reconciled(c) => Some(c),
                    _ => None,
                };
            let c = ReconcileItemView { tag: t, check_repo: check, absent, on_mismatch };
            lemma_filter_map_contains(ds, f, c);
            assert(f(ds[k]) == Some(c));
        },
        DecisionView::Triage => {
            let f = |d: Disposition|
                match d {
                    Disposition::Triaged(t) => Some(t),
                    _ => None,
                };
            lemma_filter_map_contains(ds, f, t);
            assert(f(ds[k]) == Some(t));
        },
        DecisionView::Delete => {
            let f = |d: Disposition|
                match d {
                    Disposition::Deleted(c) => Some(c),
                    _ => None,
                };
            let c = DeleteItemView { tag: t, reason: "matched a delete rule"@ };
            lemma_filter_map_contains(ds, f, c);
            assert(f(ds[k]) == Some(c));
        },
        DecisionView::Leave => {
            let f = |d: Disposition|
                match d {
                    Disposition::Left(t) => Some(t),
                    _ => None,
                };
            lemma_filter_map_contains(ds, f, t);
            assert(f(ds[k]) == Some(t));
        },
    }
}

/// Nothing is moved or deleted but what is decided so of a tag of the inventory.
pub proof fn law_only_decided_tags_are_touched(
    g: CompiledGroupView,
    source_repo: Seq<char>,
    inventory: Seq<(Seq<char>, Seq<char>)>,
)
    ensures
        forall|m: PlannedMoveView| #[trigger]
            plan_of(dispositions(g, source_repo, inventory)).moves.contains(m)
                ==> inventory.contains((m.image, m.tag)) && decision(g, m.image, m.tag)
                == DecisionView::Move(m.dest) && m.class == routed_class(g, m.image, m.tag),
        forall|d: DeleteItemView| #[trigger]
            plan_of(dispositions(g, source_repo, inventory)).deletes.contains(d)
                ==> inventory.contains((d.tag.image, d.tag.tag)) && d.tag.source_repo == source_repo
                && decision(g, d.tag.image, d.tag.tag) is Delete,
        forall|c: ConditionalDeleteView| #[trigger]
            plan_of(dispositions(g, source_repo, inventory)).conditional_deletes.contains(c)
                ==> inventory.contains((c.tag.image, c.tag.tag)) && c.tag.source_repo == source_repo
                && decision(g, c.tag.image, c.tag.tag) == DecisionView::DeleteIfAbsent(
                c.check_repo,
            ),
{
    let ds = dispositions(g, source_repo, inventory);
    let p = plan_of(ds);
    assert forall|m: PlannedMoveView| #[trigger] p.moves.contains(m) implies inventory.contains(
        (m.image, m.tag),
    ) && decision(g, m.image, m.tag) == DecisionView::Move(m.dest) && m.class == routed_class(
        g,
        m.image,
        m.tag,
    ) by {
        let f = |d: Disposition|
            match d {
                Disposition::Moved(m) => Some(m),
                _ => None,
            };
        lemma_filter_map_contains(ds, f, m);
        let k = choose|k: int| 0 <= k < ds.len() && #[trigger] f(ds[k]) == Some(m);
        assert(ds[k] == disposition(g, source_repo, inventory[k].0, inventory[k].1));
        assert(inventory[k] == (m.image, m.tag));
    }
    assert forall|d: DeleteItemView| #[trigger] p.deletes.contains(d) implies inventory.contains(
        (d.tag.image, d.tag.tag),
    ) && d.tag.source_repo == source_repo && decision(g, d.tag.image, d.tag.tag) is Delete by {
        let f = |d: Disposition|
            match d {
                Disposition::Deleted(c) => Some(c),
                _ => None,
            };
        lemma_filter_map_contains(ds, f, d);
        let k = choose|k: int| 0 <= k < ds.len() && #[trigger] f(ds[k]) == Some(d);
        assert(ds[k] == disposition(g, source_repo, inventory[k].0, inventory[k].1));
        assert(inventory[k] == (d.tag.image, d.tag.tag));
    }
    assert forall|c: ConditionalDeleteView| #[trigger]
        p.conditional_deletes.contains(c) implies inventory.contains((c.tag.image, c.tag.tag))
        && c.tag.source_repo == source_repo && decision(g, c.tag.image, c.tag.tag)
        == DecisionView::DeleteIfAbsent(c.check_repo) by {
        let f = |d: Disposition|
            match d {
                Disposition::CheckedDelete(c) => Some(c),
                _ => None,
            };
        lemma_filter_map_contains(ds, f, c);
        let k = choose|k: int| 0 <= k < ds.len() && #[trigger] f(ds[k]) == Some(c);
        assert(ds[k] == disposition(g, source_repo, inventory[k].0, inventory[k].1));
        assert(inventory[k] == (c.tag.image, c.tag.tag));
    }
}

/// A mismatch can be deleted exactly where the policy allows it, both build dates
/// are known, and the check copy is not the older one.
pub proof fn law_deletable_unless_newer(m: MismatchInfoView)
    ensures
        m.deletable() <==> m.on_mismatch == MismatchPolicy::Delete && (m.source_built matches Some(
            s,
        ) && m.check_built matches Some(c) && !text_lt(c, s)),
{
    if m.source_built is Some && m.check_built is Some {
        law_comparison_is_fair(m.source_built->Some_0, m.check_built->Some_0);
    }
}

/// The recommendation is to delete exactly where both build dates are known and the
/// check copy is not the older one; the assessment and the recommendation go
/// together.
pub proof fn law_recommendation_follows_the_dates(m: MismatchInfoView)
    ensures
        has_prefix(m.recommendation(), "recommend: DELETE"@) <==> (m.source_built matches Some(s)
            && m.check_built matches Some(c) && !text_lt(c, s)),
        has_prefix(m.recommendation(), "recommend: KEEP"@) <==> (m.source_built matches Some(s)
            && m.check_built matches Some(c) && text_lt(c, s)),
        has_prefix(m.assessment(), "source build is OLDER"@) <==> (m.source_built matches Some(s)
            && m.check_built matches Some(c) && text_lt(s, c)),
        has_prefix(m.assessment(), "source build is NEWER"@) <==> (m.source_built matches Some(s)
            && m.check_built matches Some(c) && text_lt(c, s)),
        has_prefix(m.assessment(), "same build date"@) <==> (m.source_built is Some
            && m.source_built == m.check_built),
{
    if m.source_built is Some && m.check_built is Some {
        law_comparison_is_fair(m.source_built->Some_0, m.check_built->Some_0);
    }
    reveal_strlit("recommend: DELETE");
    reveal_strlit("recommend: KEEP");
    reveal_strlit("recommend: DELETE the source copy \u{2014} the insight copy is newer");
    reveal_strlit(
        "recommend: KEEP the source and review \u{2014} it may be a newer build that never reached insight",
    );
    reveal_strlit(
        "recommend: DELETE the source copy \u{2014} same build, keep the customer-facing insight copy",
    );
    reveal_strlit("recommend: inspect both manifests before deciding");
    reveal_strlit("source build is OLDER");
    reveal_strlit("source build is NEWER");
    reveal_strlit("same build date");
    reveal_strlit("source build is OLDER than the check copy \u{2014} likely stale");
    reveal_strlit(
        "source build is NEWER than the check copy \u{2014} may be un-propagated; review carefully",
    );
    reveal_strlit(
        "same build date \u{2014} likely the same image re-serialized (different manifest format)",
    );
    reveal_strlit("build time unavailable for one or both \u{2014} review manually");
    lemma_words();
    let r = m.recommendation();
    let a = m.assessment();
    if has_prefix(r, "recommend: DELETE"@) {
        assert(r.take("recommend: DELETE"@.len() as int)[11] == "recommend: DELETE"@[11]);
    }
    if has_prefix(r, "recommend: KEEP"@) {
        assert(r.take("recommend: KEEP"@.len() as int)[11] == "recommend: KEEP"@[11]);
    }
    if has_prefix(a, "source build is OLDER"@) {
        assert(a.take("source build is OLDER"@.len() as int)[16] == "source build is OLDER"@[16]);
        assert(a.take("source build is OLDER"@.len() as int)[1] == "source build is OLDER"@[1]);
    }
    if has_prefix(a, "source build is NEWER"@) {
        assert(a.take("source build is NEWER"@.len() as int)[16] == "source build is NEWER"@[16]);
        assert(a.take("source build is NEWER"@.len() as int)[1] == "source build is NEWER"@[1]);
    }
    if has_prefix(a, "same build date"@) {
        assert(a.take("same build date"@.len() as int)[1] == "same build date"@[1]);
    }
}

/// How the recommendations and assessments begin.
proof fn lemma_words()
    ensures
        has_prefix(
            "recommend: DELETE the source copy \u{2014} the insight copy is newer"@,
            "recommend: DELETE"@,
        ),
        has_prefix(
            "recommend: DELETE the source copy \u{2014} same build, keep the customer-facing insight copy"@,
            "recommend: DELETE"@,
        ),
        has_prefix(
            "recommend: KEEP the source and review \u{2014} it may be a newer build that never reached insight"@,
            "recommend: KEEP"@,
        ),
        has_prefix(
            "source build is OLDER than the check copy \u{2014} likely stale"@,
            "source build is OLDER"@,
        ),
        has_prefix(
            "source build is NEWER than the check copy \u{2014} may be un-propagated; review carefully"@,
            "source build is NEWER"@,
        ),
        has_prefix(
            "same build date \u{2014} likely the same image re-serialized (different manifest format)"@,
            "same build date"@,
        ),
{
    reveal_strlit("recommend: DELETE");
    reveal_strlit("recommend: KEEP");
    reveal_strlit("recommend: DELETE the source copy \u{2014} the insight copy is newer");
    reveal_strlit(
        "recommend: KEEP the source and review \u{2014} it may be a newer build that never reached insight",
    );
    reveal_strlit(
        "recommend: DELETE the source copy \u{2014} same build, keep the customer-facing insight copy",
    );
    reveal_strlit("source build is OLDER");
    reveal_strlit("source build is NEWER");
    reveal_strlit("same build date");
    reveal_strlit("source build is OLDER than the check copy \u{2014} likely stale");
    reveal_strlit(
        "source build is NEWER than the check copy \u{2014} may be un-propagated; review carefully",
    );
    reveal_strlit(
        "same build date \u{2014} likely the same image re-serialized (different manifest format)",
    );
    let d = "recommend: DELETE"@;
    let a = "recommend: DELETE the source copy \u{2014} the insight copy is newer"@;
    assert(a.take(d.len() as int) =~= d);
    let b =
        "recommend: DELETE the source copy \u{2014} same build, keep the customer-facing insight copy"@;
    assert(b.take(d.len() as int) =~= d);
    let k = "recommend: KEEP"@;
    let c =
        "recommend: KEEP the source and review \u{2014} it may be a newer build that never reached insight"@;
    assert(c.take(k.len() as int) =~= k);
    let o = "source build is OLDER"@;
    let e = "source build is OLDER than the check copy \u{2014} likely stale"@;
    assert(e.take(o.len() as int) =~= o);
    let n = "source build is NEWER"@;
    let f =
        "source build is NEWER than the check copy \u{2014} may be un-propagated; review carefully"@;
    assert(f.take(n.len() as int) =~= n);
    let s = "same build date"@;
    let h =
        "same build date \u{2014} likely the same image re-serialized (different manifest format)"@;
    assert(h.take(s.len() as int) =~= s);
}

} // verus!
