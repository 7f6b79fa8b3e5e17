//! What scanning a repository, and the preflight of a run, promise.
use crate::laws::manifest::lemma_sum_contains;
use crate::laws::ordered::law_distinct_texts_stand_once;
use crate::laws::plan::{begins_with_one, law_prefixes_begin_names, law_tag_is_planned_as_decided};
use crate::laws::rules::{is_hosted, is_there};
use crate::ordered::{key1, lemma_sorted_keys, lemma_text_keys, sorted_keys, text_keys};
use crate::reorg::compile::{CompiledGroupView, CompiledRuleView};
use crate::reorg::plan::{
    decision, dispositions, plan_of, routed_class, DecisionView, DeleteItemView, PlannedMoveView,
    ReconcileItemView, TagRefView,
};
use crate::reorg::preflight::{
    distinct, group_uses, law_preflight_clean, list_uses, optional_use, preflight_error, repo_info,
    repo_problems, rule_uses, usage_problems, use_ok, use_problems, RepoUseView,
};
use crate::reorg::resolve::{
    after_reconcile, purged_tag, reconcile_outcome, retired_tag, FoundCopyView, ResolvedView,
};
use crate::reorg::settle::after_scan;
use crate::reorg::upstream::listed_key;
use crate::seqs::{lemma_filter_map_contains, lemma_spread_contains, spread};
use crate::text::joined;
use vstd::prelude::*;

verus! {

/// A scan plans every first-party tag as its rule decides, and keeps what was
/// planned before.
pub proof fn law_scan_plans_every_tag(
    r: ResolvedView,
    g: CompiledGroupView,
    repo: Seq<char>,
    is_purge: bool,
    inventory: Seq<(Seq<char>, Seq<char>)>,
    k: int,
)
    requires
        0 <= k < inventory.len(),
        begins_with_one(g.first_party_prefixes, inventory[k].0),
    ensures
        ({
            let after = after_scan(r, g, repo, is_purge, inventory);
            let image = inventory[k].0;
            let tag = inventory[k].1;
            let t = TagRefView { source_repo: repo, image, tag };
            match decision(g, image, tag) {
                DecisionView::Move(dest) => dest != repo ==> after.moves.contains(
                    PlannedMoveView {
                        source_repo: repo,
                        image,
                        tag,
                        dest,
                        class: routed_class(g, image, tag),
                    },
                ),
                DecisionView::Delete => after.deletes.contains(
                    DeleteItemView { tag: t, reason: "matched a delete rule"@ },
                ),
                DecisionView::Leave => after.leaves.contains(t),
                _ => true,
            }
        }),
{
    law_tag_is_planned_as_decided(g, repo, inventory, k);
    let p = plan_of(dispositions(g, repo, inventory));
    let image = inventory[k].0;
    let tag = inventory[k].1;
    let t = TagRefView { source_repo: repo, image, tag };
    match decision(g, image, tag) {
        DecisionView::Move(dest) => {
            lemma_sum_contains(
                r.moves,
                p.moves,
                PlannedMoveView {
                    source_repo: repo,
                    image,
                    tag,
                    dest,
                    class: routed_class(g, image, tag),
                },
            );
        },
        DecisionView::Delete => {
            lemma_sum_contains(
                r.deletes,
                p.deletes,
                DeleteItemView { tag: t, reason: "matched a delete rule"@ },
            );
        },
        DecisionView::Leave => {
            lemma_sum_contains(r.leaves, p.leaves, t);
        },
        _ => {},
    }
}

/// A scan keeps what was planned before, in front of what it adds, and leaves alone
/// what is settled later.
pub proof fn law_scan_keeps_the_plan(
    r: ResolvedView,
    g: CompiledGroupView,
    repo: Seq<char>,
    is_purge: bool,
    inventory: Seq<(Seq<char>, Seq<char>)>,
)
    ensures
        ({
            let after = after_scan(r, g, repo, is_purge, inventory);
            &&& after.moves.len() >= r.moves.len() && after.moves.take(r.moves.len() as int)
                == r.moves
            &&& after.deletes.len() >= r.deletes.len() && after.deletes.take(r.deletes.len() as int)
                == r.deletes
            &&& after.leaves.len() >= r.leaves.len() && after.leaves.take(r.leaves.len() as int)
                == r.leaves
            &&& after.purges.len() >= r.purges.len() && after.purges.take(r.purges.len() as int)
                == r.purges
            &&& after.prefix_deletes.len() >= r.prefix_deletes.len() && after.prefix_deletes.take(
                r.prefix_deletes.len() as int,
            ) == r.prefix_deletes
            &&& after.already_placed >= r.already_placed
            &&& after.kept == r.kept && after.mismatched == r.mismatched && after.insight_absent
                == r.insight_absent && after.needs_classification == r.needs_classification
                && after.superseded == r.superseded && after.created == r.created
        }),
{
    let after = after_scan(r, g, repo, is_purge, inventory);
    assert(after.moves.take(r.moves.len() as int) =~= r.moves);
    assert(after.deletes.take(r.deletes.len() as int) =~= r.deletes);
    assert(after.leaves.take(r.leaves.len() as int) =~= r.leaves);
    assert(after.purges.take(r.purges.len() as int) =~= r.purges);
    assert(after.prefix_deletes.take(r.prefix_deletes.len() as int) =~= r.prefix_deletes);
}

/// A scan deletes the tags under retired prefixes, and of a repository to purge notes
/// all others that are not first-party.
pub proof fn law_scan_finds_the_leftovers(
    r: ResolvedView,
    g: CompiledGroupView,
    repo: Seq<char>,
    is_purge: bool,
    inventory: Seq<(Seq<char>, Seq<char>)>,
    k: int,
)
    requires
        0 <= k < inventory.len(),
        !begins_with_one(g.first_party_prefixes, inventory[k].0),
    ensures
        ({
            let after = after_scan(r, g, repo, is_purge, inventory);
            let t = TagRefView { source_repo: repo, image: inventory[k].0, tag: inventory[k].1 };
            &&& begins_with_one(g.retired_prefixes, inventory[k].0)
                ==> after.prefix_deletes.contains(t)
            &&& !begins_with_one(g.retired_prefixes, inventory[k].0) && is_purge
                ==> after.purges.contains(t)
        }),
{
    let t = TagRefView { source_repo: repo, image: inventory[k].0, tag: inventory[k].1 };
    law_prefixes_begin_names(g.first_party_prefixes, inventory[k].0);
    law_prefixes_begin_names(g.retired_prefixes, inventory[k].0);
    let a = retired_tag(g, repo);
    let b = purged_tag(g, repo, is_purge);
    lemma_filter_map_contains(inventory, a, t);
    lemma_filter_map_contains(inventory, b, t);
    lemma_sum_contains(r.prefix_deletes, inventory.filter_map(a), t);
    lemma_sum_contains(r.purges, inventory.filter_map(b), t);
    if begins_with_one(g.retired_prefixes, inventory[k].0) {
        assert(a(inventory[k]) == Some(t));
    } else if is_purge {
        assert(b(inventory[k]) == Some(t));
    }
}

/// An insight image that the upstream lacks is flagged, and nothing else happens to
/// it; a redundant copy is deleted with the place of its twin as the reason.
pub proof fn law_flag_and_reason(
    r: ResolvedView,
    g: CompiledGroupView,
    rec: ReconcileItemView,
    found: FoundCopyView,
    digest: Seq<char>,
    source_built: Option<Seq<char>>,
    check_built: Option<Seq<char>>,
)
    ensures
        rec.absent is Flag ==> ({
            let after = after_reconcile(
                r,
                reconcile_outcome(g, rec, None, digest, source_built, check_built),
            );
            &&& after.insight_absent == r.insight_absent.push(rec.tag)
            &&& after.moves == r.moves && after.deletes == r.deletes && after.mismatched
                == r.mismatched
        }),
        found.digest.len() > 0 && found.digest == digest && rec.tag.source_repo != rec.check_repo
            ==> ({
            let after = after_reconcile(
                r,
                reconcile_outcome(g, rec, Some(found), digest, source_built, check_built),
            );
            &&& found.via_authority ==> after.deletes.last().reason
                == "identical digest already upstream in "@ + found.repo
                + " (redundant duplicate)"@
            &&& !found.via_authority ==> after.deletes.last().reason
                == "identical digest already in "@ + found.repo + " (redundant duplicate)"@
        }),
{
}

/// A tag is listed upstream exactly where the listing has its image and tag.
pub proof fn law_listing_has_the_upstream_tags(
    listing: Seq<(Seq<char>, Seq<char>)>,
    key: Seq<char>,
)
    ensures
        sorted_keys(text_keys(listing.map_values(listed_key()))).contains(seq![key])
            <==> exists|i: int|
            0 <= i < listing.len() && key == (#[trigger] listing[i]).0 + ":"@ + listing[i].1,
{
    let texts = listing.map_values(listed_key());
    lemma_sorted_keys(text_keys(texts));
    lemma_text_keys(texts, key);
    assert(key1(key) =~= seq![key]);
    if texts.contains(key) {
        let i = choose|i: int| 0 <= i < texts.len() && texts[i] == key;
        assert(key == listing[i].0 + ":"@ + listing[i].1);
    }
    if exists|i: int|
        0 <= i < listing.len() && key == (#[trigger] listing[i]).0 + ":"@ + listing[i].1 {
        let i = choose|i: int|
            0 <= i < listing.len() && key == (#[trigger] listing[i]).0 + ":"@ + listing[i].1;
        assert(texts[i] == key);
    }
}

/// Every repository that a rule names is there as the rule needs it.
pub open spec fn rule_is_served(
    inventory: Seq<(Seq<char>, Seq<char>, Seq<char>)>,
    format: Seq<char>,
    r: CompiledRuleView,
) -> bool {
    &&& r.dest matches Some(d) ==> is_hosted(inventory, d, format)
    &&& r.aux_dest matches Some(d) ==> is_hosted(inventory, d, format)
    &&& r.check matches Some(d) ==> is_there(inventory, d, format)
    &&& r.insight_repo matches Some(d) ==> is_there(inventory, d, format)
}

/// Every repository that a group names is there as the group needs it.
pub open spec fn group_is_served(
    inventory: Seq<(Seq<char>, Seq<char>, Seq<char>)>,
    g: CompiledGroupView,
) -> bool {
    &&& forall|k: int|
        0 <= k < g.source_repos.len() ==> is_there(inventory, #[trigger] g.source_repos[k], g.format)
    &&& forall|k: int|
        0 <= k < g.purge_repos.len() ==> is_there(inventory, #[trigger] g.purge_repos[k], g.format)
    &&& forall|k: int|
        0 <= k < g.rules.len() ==> rule_is_served(inventory, g.format, #[trigger] g.rules[k])
}

/// Rules pass the preflight where every repository that they name is there as they
/// need it: sources, checks and caches need not be hosted.
pub proof fn law_preflight_passes_sound_rules(
    inventory: Seq<(Seq<char>, Seq<char>, Seq<char>)>,
    groups: Seq<CompiledGroupView>,
    usage_repo: Option<Seq<char>>,
)
    requires
        forall|i: int| 0 <= i < groups.len() ==> group_is_served(inventory, #[trigger] groups[i]),
        usage_repo matches Some(u) ==> repo_info(inventory, u) is Some,
    ensures
        preflight_error(distinct(repo_problems(inventory, groups, usage_repo))) is None,
{
    law_preflight_clean(inventory, groups, usage_repo);
    assert forall|u: RepoUseView| #[trigger] spread(groups, group_uses()).contains(
        u,
    ) implies use_ok(inventory, u) by {
        lemma_spread_contains(groups, group_uses(), u);
        let i = choose|i: int|
            0 <= i < groups.len() && (#[trigger] group_uses()(groups[i])).contains(u);
        let g = groups[i];
        assert(group_is_served(inventory, g));
        let a = g.source_repos.map_values(list_uses(g.format, "source"@));
        let b = g.purge_repos.map_values(list_uses(g.format, "purge"@));
        let c = spread(g.rules, rule_uses(g.format));
        lemma_sum_contains(a, b, u);
        lemma_sum_contains(a + b, c, u);
        if a.contains(u) {
            let k = choose|k: int| 0 <= k < a.len() && a[k] == u;
            assert(is_there(inventory, g.source_repos[k], g.format));
        } else if b.contains(u) {
            let k = choose|k: int| 0 <= k < b.len() && b[k] == u;
            assert(is_there(inventory, g.purge_repos[k], g.format));
        } else {
            lemma_spread_contains(g.rules, rule_uses(g.format), u);
            let k = choose|k: int|
                0 <= k < g.rules.len() && (#[trigger] rule_uses(g.format)(g.rules[k])).contains(u);
            let r = g.rules[k];
            assert(rule_is_served(inventory, g.format, r));
            let x = optional_use(r.dest, g.format, true, "destination"@);
            let y = optional_use(r.check, g.format, false, "check"@);
            let z = optional_use(r.aux_dest, g.format, true, "aux destination"@);
            let w = optional_use(r.insight_repo, g.format, false, "insight"@);
            lemma_sum_contains(x, y, u);
            lemma_sum_contains(x + y, z, u);
            lemma_sum_contains(x + y + z, w, u);
        }
    }
}

/// What is wrong with a repository is told by its role and name: that it is not
/// there, that it has another format, that it is not hosted.
pub proof fn law_problems_name_the_repository(
    inventory: Seq<(Seq<char>, Seq<char>, Seq<char>)>,
    u: RepoUseView,
)
    ensures
        ({
            let problems = use_problems(inventory)(u);
            &&& repo_info(inventory, u.name) is None ==> problems == seq![
                u.role + " repo '"@ + u.name + "' does not exist"@,
            ]
            &&& repo_info(inventory, u.name) matches Some(info) ==> {
                &&& info.1 != u.format ==> problems.len() > 0 && problems[0] == u.role + " repo '"@
                    + u.name + "' is format '"@ + info.1 + "', expected '"@ + u.format + "'"@
                &&& u.hosted && info.0 != "hosted"@ ==> problems.len() > 0 && problems.last()
                    == u.role + " repo '"@ + u.name + "' is type '"@ + info.0
                    + "', but a move/copy destination must be 'hosted'"@
                &&& info.1 == u.format && (u.hosted ==> info.0 == "hosted"@) ==> problems.len() == 0
            }
        }),
{
    if repo_info(inventory, u.name) is Some {
        let info = repo_info(inventory, u.name)->Some_0;
        let problems = use_problems(inventory)(u);
        if u.hosted && info.0 != "hosted"@ {
            assert(problems.last() == u.role + " repo '"@ + u.name + "' is type '"@ + info.0
                + "', but a move/copy destination must be 'hosted'"@);
        }
    }
}

/// A refusal lists every problem once.
pub proof fn law_refusal_lists_every_problem(
    inventory: Seq<(Seq<char>, Seq<char>, Seq<char>)>,
    groups: Seq<CompiledGroupView>,
    usage_repo: Option<Seq<char>>,
    i: int,
    u: RepoUseView,
    problem: Seq<char>,
)
    requires
        0 <= i < groups.len(),
        group_uses()(groups[i]).contains(u),
        use_problems(inventory)(u).contains(problem),
    ensures
        ({
            let problems = distinct(repo_problems(inventory, groups, usage_repo));
            &&& problems.contains(problem)
            &&& problems.no_duplicates()
            &&& preflight_error(problems) == Some(
                "reorg rules reference invalid repositories:\n  - "@ + joined(
                    problems,
                    "\n  - "@,
                ),
            )
        }),
{
    let uses = spread(groups, group_uses());
    lemma_spread_contains(groups, group_uses(), u);
    let k = choose|k: int| 0 <= k < uses.len() && uses[k] == u;
    assert(use_problems(inventory)(uses[k]).contains(problem));
    lemma_spread_contains(uses, use_problems(inventory), problem);
    let all = repo_problems(inventory, groups, usage_repo);
    lemma_sum_contains(
        spread(uses, use_problems(inventory)),
        usage_problems(inventory, usage_repo),
        problem,
    );
    law_distinct_texts_stand_once(all);
    assert(distinct(all).contains(problem));
}

/// A usage repository that is not there is named.
pub proof fn law_missing_usage_repository_is_named(
    inventory: Seq<(Seq<char>, Seq<char>, Seq<char>)>,
    groups: Seq<CompiledGroupView>,
    u: Seq<char>,
)
    requires
        repo_info(inventory, u) is None,
    ensures
        distinct(repo_problems(inventory, groups, Some(u))).contains(
            "usage_repo '"@ + u + "' does not exist"@,
        ),
{
    let problem = "usage_repo '"@ + u + "' does not exist"@;
    let b = usage_problems(inventory, Some(u));
    assert(b[0] == problem);
    lemma_sum_contains(
        spread(spread(groups, group_uses()), use_problems(inventory)),
        b,
        problem,
    );
    law_distinct_texts_stand_once(repo_problems(inventory, groups, Some(u)));
    assert(repo_problems(inventory, groups, Some(u)).contains(problem));
}

} // verus!
