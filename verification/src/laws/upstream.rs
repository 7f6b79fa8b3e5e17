//! What comparing a cache with its upstream, and the repositories of a run, promise.
use crate::laws::manifest::lemma_sum_contains;
use crate::laws::ordered::{law_distinct_texts_stand_once, law_sorted_list_has_the_same_texts};
use crate::laws::plan::{begins_with_one, law_prefixes_begin_names};
use crate::laws::seqs::{is_first, law_first_that_passes};
use crate::ordered::{
    group_by, key1, keys_of, lemma_sorted_keys, sorted_groups, sorted_keys, sorted_texts,
    value_under, values_for,
};
use crate::reorg::compile::CompiledGroupView;
use crate::reorg::patterns::regex_matches;
use crate::reorg::plan::{PlannedMoveView, TagRefView};
use crate::reorg::resolve::FoundCopyView;
use crate::reorg::rules::{Action, Group, Rule};
use crate::reorg::summary::{
    changed_lines, changed_row, changed_store, current_lines, current_row, current_store,
    logical_bytes, row_named, settle_step, stat_by_name, stat_of, store_named, RepoInfo,
    RepoRowView, RepoStatView, RepoSummary, SettleStep, SummaryRowsView,
};
use crate::reorg::upstream::{
    absent_upstream, authority_use, classifies, first_copy, group_checks, group_prefixes,
    group_routes, group_scope, group_sources, image_tags, is_known, is_ours, is_released, is_served,
    is_unreleased, known_cache, optional, polluted, pollution, protected, rule_checks, rule_route,
    rule_scope, run_scope, served, tag_in, tag_pairs, AuthorityUse,
};
use crate::seqs::{lemma_filter_contains, lemma_filter_map_contains, lemma_spread_contains, spread};
use crate::text::{decimal, padded_left, padded_right};
use vstd::prelude::*;

verus! {

/// A sorted list holds a text exactly where the list does.
pub proof fn lemma_sorted_contains(s: Seq<Seq<char>>, t: Seq<char>)
    ensures
        sorted_texts(s).contains(t) <==> s.contains(t),
{
    law_sorted_list_has_the_same_texts(s);
    let out = sorted_texts(s);
    broadcast use vstd::seq_lib::group_to_multiset_ensures;

    assert(out.contains(t) <==> out.to_multiset().count(t) > 0);
    assert(s.contains(t) <==> s.to_multiset().count(t) > 0);
}

/// The sorted groups of some items hold a value under a key exactly where it is that
/// of an item.
pub proof fn lemma_sorted_groups(
    items: Seq<(Seq<Seq<char>>, Seq<char>)>,
    k: Seq<Seq<char>>,
    t: Seq<char>,
)
    ensures
        items.contains((k, t)) <==> exists|i: int|
            0 <= i < sorted_groups(group_by(items)).len() && (#[trigger] sorted_groups(
                group_by(items),
            )[i]).0 == k && sorted_groups(group_by(items))[i].1.contains(t),
{
    let gs = sorted_groups(group_by(items));
    let keys = keys_of(items);
    let sorted = sorted_keys(keys);
    lemma_sorted_keys(keys);
    assert forall|i: int| 0 <= i < gs.len() implies (#[trigger] gs[i]).0 == sorted[i] && gs[i].1
        == sorted_texts(values_for(items, sorted[i])) by {
        assert(group_by(items)[i] == (sorted[i], values_for(items, sorted[i])));
    }
    lemma_filter_map_contains(items, value_under(k), t);
    lemma_sorted_contains(values_for(items, k), t);
    if items.contains((k, t)) {
        let j = choose|j: int| 0 <= j < items.len() && items[j] == (k, t);
        assert(keys[j] == k);
        assert(sorted.contains(k));
        let i = choose|i: int| 0 <= i < sorted.len() && sorted[i] == k;
        assert(value_under::<Seq<char>>(k)(items[j]) == Some(t));
        assert(values_for(items, k).contains(t));
        assert(gs[i].0 == k && gs[i].1.contains(t));
    }
    if exists|i: int| 0 <= i < gs.len() && (#[trigger] gs[i]).0 == k && gs[i].1.contains(t) {
        let i = choose|i: int|
            0 <= i < gs.len() && (#[trigger] gs[i]).0 == k && gs[i].1.contains(t);
        assert(values_for(items, k).contains(t));
        let j = choose|j: int|
            0 <= j < items.len() && #[trigger] value_under::<Seq<char>>(k)(items[j]) == Some(t);
        assert(items[j] == (k, t));
    }
}

/// A cache is polluted by exactly those of its tags that are first-party and that
/// the upstream does not have.
pub proof fn law_pollution_is_what_the_upstream_lacks(
    repo: Seq<char>,
    tags: Seq<(Seq<char>, Seq<char>)>,
    prefixes: Seq<Seq<char>>,
    upstream: Seq<Seq<Seq<char>>>,
    t: TagRefView,
)
    ensures
        polluted(repo, tags, prefixes, upstream).contains(t) <==> t.source_repo == repo
            && tags.contains((t.image, t.tag)) && begins_with_one(prefixes, t.image)
            && !upstream.contains(seq![t.image + ":"@ + t.tag]),
{
    let ours = tags.filter(is_ours(prefixes));
    let f = absent_upstream(upstream);
    let items = ours.filter_map(f);
    let gs = pollution(ours, upstream);
    let e = (t.image, t.tag);
    law_prefixes_begin_names(prefixes, t.image);
    lemma_filter_contains(tags, is_ours(prefixes), e);
    lemma_filter_map_contains(ours, f, (key1(t.image), t.tag));
    lemma_sorted_groups(items, key1(t.image), t.tag);
    lemma_spread_contains(gs, image_tags(repo), t);
    assert(key1(t.image + ":"@ + t.tag) =~= seq![t.image + ":"@ + t.tag]);
    assert(items.contains((key1(t.image), t.tag)) <==> ours.contains(e) && !upstream.contains(
        seq![t.image + ":"@ + t.tag],
    )) by {
        if items.contains((key1(t.image), t.tag)) {
            let i = choose|i: int|
                0 <= i < ours.len() && #[trigger] f(ours[i]) == Some((key1(t.image), t.tag));
            assert(key1(ours[i].0)[0] == key1(t.image)[0]);
            assert(ours[i] == e);
        }
        if ours.contains(e) && !upstream.contains(seq![t.image + ":"@ + t.tag]) {
            let i = choose|i: int| 0 <= i < ours.len() && ours[i] == e;
            assert(f(ours[i]) == Some((key1(t.image), t.tag)));
        }
    }
    if polluted(repo, tags, prefixes, upstream).contains(t) {
        let i = choose|i: int|
            0 <= i < gs.len() && (#[trigger] image_tags(repo)(gs[i])).contains(t);
        let ts = image_tags(repo)(gs[i]);
        let j = choose|j: int| 0 <= j < ts.len() && ts[j] == t;
        assert(tag_in(repo, gs[i].0[0])(gs[i].1[j]) == t);
        lemma_group_key(ours, upstream, i);
        assert(gs[i].0 == key1(t.image));
        assert(gs[i].1.contains(t.tag));
    }
    if t.source_repo == repo && items.contains((key1(t.image), t.tag)) {
        let i = choose|i: int|
            0 <= i < gs.len() && (#[trigger] gs[i]).0 == key1(t.image) && gs[i].1.contains(t.tag);
        let j = choose|j: int| 0 <= j < gs[i].1.len() && gs[i].1[j] == t.tag;
        let ts = image_tags(repo)(gs[i]);
        assert(ts[j] == tag_in(repo, gs[i].0[0])(gs[i].1[j]));
        assert(gs[i].0[0] == t.image);
        assert(ts[j] == t);
        assert(ts.contains(t));
    }
}

/// The key of a group of polluting tags is that of its image.
proof fn lemma_group_key(
    ours: Seq<(Seq<char>, Seq<char>)>,
    upstream: Seq<Seq<Seq<char>>>,
    i: int,
)
    requires
        0 <= i < pollution(ours, upstream).len(),
    ensures
        pollution(ours, upstream)[i].0 == key1(pollution(ours, upstream)[i].0[0]),
{
    let f = absent_upstream(upstream);
    let items = ours.filter_map(f);
    let keys = keys_of(items);
    let sorted = sorted_keys(keys);
    lemma_sorted_keys(keys);
    let k = pollution(ours, upstream)[i].0;
    assert(group_by(items)[i].0 == sorted[i]);
    assert(k == sorted[i]);
    assert(sorted.contains(k));
    let j = choose|j: int| 0 <= j < keys.len() && keys[j] == k;
    let item = items[j];
    assert(items.contains(item));
    lemma_filter_map_contains(ours, f, item);
    let e = choose|e: int| 0 <= e < ours.len() && #[trigger] f(ours[e]) == Some(item);
    assert(k == key1(ours[e].0));
}

/// Of the polluting tags those that the released pattern matches are to be copied
/// upstream and the others to be deleted: each is one of the two, none is both.
pub proof fn law_pollution_is_split_by_the_pattern(
    found: Seq<TagRefView>,
    pattern: Seq<char>,
    t: TagRefView,
)
    ensures
        found.filter(is_released(pattern)).contains(t) <==> found.contains(t)
            && regex_matches(pattern, t.tag),
        found.filter(is_unreleased(pattern)).contains(t) <==> found.contains(t)
            && !regex_matches(pattern, t.tag),
{
    lemma_filter_contains(found, is_released(pattern), t);
    lemma_filter_contains(found, is_unreleased(pattern), t);
}

/// A copy is served exactly where the answer's status is 200, and then with the
/// digest of the answer.
pub proof fn law_copy_is_served_with_status_200(
    repo: Seq<char>,
    status: u16,
    digest: Seq<char>,
    via: bool,
)
    ensures
        served(repo, status, digest, via) is Some <==> status == 200,
        served(repo, status, digest, via) matches Some(c) ==> c.repo == repo && c.digest == digest
            && c.via_authority == via,
{
}

/// Of several answers the first that serves the tag counts, as the authority's.
pub proof fn law_first_served_answer_counts(answers: Seq<(Seq<char>, u16, Seq<char>)>, i: int)
    ensures
        first_copy(answers) is None <==> forall|j: int|
            0 <= j < answers.len() ==> (#[trigger] answers[j]).1 != 200,
        0 <= i < answers.len() && answers[i].1 == 200 && (forall|j: int|
            0 <= j < i ==> (#[trigger] answers[j]).1 != 200) ==> first_copy(answers) == Some(
            FoundCopyView { repo: answers[i].0, digest: answers[i].2, via_authority: true },
        ),
{
    law_first_that_passes(answers, is_served());
    if first_copy(answers) is None {
        assert forall|j: int| 0 <= j < answers.len() implies (#[trigger] answers[j]).1 != 200 by {
            assert(!is_served()(answers[j]));
        }
    }
    if 0 <= i < answers.len() && answers[i].1 == 200 && (forall|j: int|
        0 <= j < i ==> (#[trigger] answers[j]).1 != 200) {
        assert(is_first(answers, is_served(), i));
    }
}

/// A run that classifies needs the upstream authority: without one that answers it
/// is refused; a run that does not classify never is.
pub proof fn law_classifying_needs_the_authority(
    configured: bool,
    failure: Option<String>,
    classify: bool,
    r: Result<AuthorityUse, String>,
)
    requires
        call_ensures(authority_use, (configured, failure, classify), r),
    ensures
        configured && failure is None ==> r == Ok::<AuthorityUse, String>(AuthorityUse::Ready),
        !classify ==> r is Ok,
        classify && !configured ==> r is Err,
        classify && failure is Some ==> r is Err,
        !classify && !configured ==> r == Ok::<AuthorityUse, String>(AuthorityUse::Unconfigured),
{
}

/// A listing has a pair for each tag of each image.
pub proof fn law_listing_has_every_tag(
    images: Seq<(Seq<char>, Seq<Seq<char>>)>,
    image: Seq<char>,
    tag: Seq<char>,
)
    ensures
        spread(images, tag_pairs()).contains((image, tag)) <==> exists|i: int|
            0 <= i < images.len() && (#[trigger] images[i]).0 == image && images[i].1.contains(tag),
{
    let f = tag_pairs();
    lemma_spread_contains(images, f, (image, tag));
    if spread(images, f).contains((image, tag)) {
        let i = choose|i: int|
            0 <= i < images.len() && (#[trigger] f(images[i])).contains((image, tag));
        let ps = f(images[i]);
        let j = choose|j: int| 0 <= j < ps.len() && ps[j] == (image, tag);
        assert(images[i].1[j] == tag);
        assert(images[i].0 == image);
    }
    if exists|i: int|
        0 <= i < images.len() && (#[trigger] images[i]).0 == image && images[i].1.contains(tag) {
        let i = choose|i: int|
            0 <= i < images.len() && (#[trigger] images[i]).0 == image && images[i].1.contains(tag);
        let j = choose|j: int| 0 <= j < images[i].1.len() && images[i].1[j] == tag;
        assert(f(images[i])[j] == (image, tag));
        assert(f(images[i]).contains((image, tag)));
    }
}

/// A rule compares with a repository: as its check repository or its insight
/// repository.
pub open spec fn compares_with(g: CompiledGroupView, repo: Seq<char>) -> bool {
    exists|k: int|
        0 <= k < g.rules.len() && ((#[trigger] g.rules[k]).check == Some(repo)
            || g.rules[k].insight_repo == Some(repo))
}

/// The protected repositories are those that a rule compares with, and the cache.
pub proof fn law_compared_repositories_are_protected(
    groups: Seq<CompiledGroupView>,
    cache_repo: Option<Seq<char>>,
    repo: Seq<char>,
)
    ensures
        protected(groups, cache_repo).contains(repo) <==> cache_repo == Some(repo) || exists|i: int|
            0 <= i < groups.len() && compares_with(#[trigger] groups[i], repo),
{
    let a = spread(groups, group_checks());
    let b = optional(cache_repo);
    lemma_sum_contains(a, b, repo);
    lemma_spread_contains(groups, group_checks(), repo);
    if cache_repo == Some(repo) {
        assert(b[0] == repo);
    }
    assert forall|i: int| 0 <= i < groups.len() implies (group_checks()(
        #[trigger] groups[i],
    ).contains(repo) <==> compares_with(groups[i], repo)) by {
        let g = groups[i];
        lemma_spread_contains(g.rules, rule_checks(), repo);
        assert forall|k: int| 0 <= k < g.rules.len() implies (rule_checks()(
            #[trigger] g.rules[k],
        ).contains(repo) <==> g.rules[k].check == Some(repo) || g.rules[k].insight_repo == Some(
            repo,
        )) by {
            let x = optional(g.rules[k].check);
            let y = optional(g.rules[k].insight_repo);
            lemma_sum_contains(x, y, repo);
            lemma_optional(g.rules[k].check, repo);
            lemma_optional(g.rules[k].insight_repo, repo);
        }
        if group_checks()(g).contains(repo) {
            let k = choose|k: int|
                0 <= k < g.rules.len() && (#[trigger] rule_checks()(g.rules[k])).contains(repo);
            assert(g.rules[k].check == Some(repo) || g.rules[k].insight_repo == Some(repo));
        }
        if compares_with(g, repo) {
            let k = choose|k: int|
                0 <= k < g.rules.len() && ((#[trigger] g.rules[k]).check == Some(repo)
                    || g.rules[k].insight_repo == Some(repo));
            assert(rule_checks()(g.rules[k]).contains(repo));
        }
    }
    if exists|i: int| 0 <= i < groups.len() && compares_with(#[trigger] groups[i], repo) {
        let i = choose|i: int| 0 <= i < groups.len() && compares_with(#[trigger] groups[i], repo);
        assert(group_checks()(groups[i]).contains(repo));
    }
    if a.contains(repo) {
        let i = choose|i: int|
            0 <= i < groups.len() && (#[trigger] group_checks()(groups[i])).contains(repo);
        assert(compares_with(groups[i], repo));
    }
}

/// What an optional text holds.
proof fn lemma_optional(s: Option<Seq<char>>, t: Seq<char>)
    ensures
        optional(s).contains(t) <==> s == Some(t),
{
    if s == Some(t) {
        assert(optional(s)[0] == t);
    }
}

/// A group names a repository among those that a run looks at.
pub open spec fn looks_at(g: CompiledGroupView, repo: Seq<char>) -> bool {
    ||| g.source_repos.contains(repo)
    ||| g.purge_repos.contains(repo)
    ||| exists|k: int|
        0 <= k < g.rules.len() && ((#[trigger] g.rules[k]).check == Some(repo)
            || g.rules[k].insight_repo == Some(repo) || g.rules[k].aux_dest == Some(repo))
}

/// The scope of a run has each repository that a group looks at, each destination of
/// a move and the cache, once, and no other.
pub proof fn law_scope_has_what_a_run_touches(
    groups: Seq<CompiledGroupView>,
    moves: Seq<PlannedMoveView>,
    cache_repo: Option<Seq<char>>,
    repo: Seq<char>,
)
    ensures
        run_scope(groups, moves, cache_repo).no_duplicates(),
        run_scope(groups, moves, cache_repo).contains(repo) <==> cache_repo == Some(repo) || (
        exists|i: int| 0 <= i < moves.len() && (#[trigger] moves[i]).dest == repo) || exists|
            i: int,
        |
            0 <= i < groups.len() && looks_at(#[trigger] groups[i], repo),
{
    let a = spread(groups, group_sources());
    let b = moves.map_values(|m: PlannedMoveView| m.dest);
    let c = spread(groups, group_scope());
    let d = optional(cache_repo);
    law_distinct_texts_stand_once(a + b + c + d);
    lemma_sum_contains(a, b, repo);
    lemma_sum_contains(a + b, c, repo);
    lemma_sum_contains(a + b + c, d, repo);
    lemma_optional(cache_repo, repo);
    lemma_spread_contains(groups, group_sources(), repo);
    lemma_spread_contains(groups, group_scope(), repo);
    if b.contains(repo) {
        let i = choose|i: int| 0 <= i < b.len() && b[i] == repo;
        assert(moves[i].dest == repo);
    }
    if exists|i: int| 0 <= i < moves.len() && (#[trigger] moves[i]).dest == repo {
        let i = choose|i: int| 0 <= i < moves.len() && (#[trigger] moves[i]).dest == repo;
        assert(b[i] == repo);
    }
    assert forall|i: int| 0 <= i < groups.len() implies (looks_at(#[trigger] groups[i], repo)
        <==> group_sources()(groups[i]).contains(repo) || group_scope()(groups[i]).contains(
        repo,
    )) by {
        let g = groups[i];
        let x = spread(g.rules, rule_scope());
        lemma_sum_contains(g.purge_repos, x, repo);
        lemma_spread_contains(g.rules, rule_scope(), repo);
        assert forall|k: int| 0 <= k < g.rules.len() implies (rule_scope()(
            #[trigger] g.rules[k],
        ).contains(repo) <==> g.rules[k].check == Some(repo) || g.rules[k].insight_repo == Some(
            repo,
        ) || g.rules[k].aux_dest == Some(repo)) by {
            let u = optional(g.rules[k].check);
            let v = optional(g.rules[k].insight_repo);
            let w = optional(g.rules[k].aux_dest);
            lemma_sum_contains(u, v, repo);
            lemma_sum_contains(u + v, w, repo);
            lemma_optional(g.rules[k].check, repo);
            lemma_optional(g.rules[k].insight_repo, repo);
            lemma_optional(g.rules[k].aux_dest, repo);
        }
        if x.contains(repo) {
            let k = choose|k: int|
                0 <= k < g.rules.len() && (#[trigger] rule_scope()(g.rules[k])).contains(repo);
            assert(g.rules[k].check == Some(repo) || g.rules[k].insight_repo == Some(repo)
                || g.rules[k].aux_dest == Some(repo));
        }
        if exists|k: int|
            0 <= k < g.rules.len() && ((#[trigger] g.rules[k]).check == Some(repo)
                || g.rules[k].insight_repo == Some(repo) || g.rules[k].aux_dest == Some(repo)) {
            let k = choose|k: int|
                0 <= k < g.rules.len() && ((#[trigger] g.rules[k]).check == Some(repo)
                    || g.rules[k].insight_repo == Some(repo) || g.rules[k].aux_dest == Some(repo));
            assert(rule_scope()(g.rules[k]).contains(repo));
        }
    }
    if a.contains(repo) {
        let i = choose|i: int|
            0 <= i < groups.len() && (#[trigger] group_sources()(groups[i])).contains(repo);
        assert(looks_at(groups[i], repo));
    }
    if c.contains(repo) {
        let i = choose|i: int|
            0 <= i < groups.len() && (#[trigger] group_scope()(groups[i])).contains(repo);
        assert(looks_at(groups[i], repo));
    }
    if exists|i: int| 0 <= i < groups.len() && looks_at(#[trigger] groups[i], repo) {
        let i = choose|i: int| 0 <= i < groups.len() && looks_at(#[trigger] groups[i], repo);
        assert(group_sources()(groups[i]).contains(repo) || group_scope()(groups[i]).contains(
            repo,
        ));
    }
}

/// A rule routes to its destination, or without one to its auxiliary destination,
/// under its class: "catch-all" for the pattern that matches everything.
pub proof fn law_rule_routes_to_its_destination(r: Rule)
    ensures
        ({
            let class = if r.match_@ == ".*"@ {
                "catch-all"@
            } else {
                r.match_@
            };
            &&& r.dest matches Some(d) ==> rule_route()(r) == Some((seq![d@], class))
            &&& r.dest is None ==> (r.aux_dest matches Some(d) ==> rule_route()(r) == Some(
                (seq![d@], class),
            ))
            &&& rule_route()(r) is None <==> r.dest is None && r.aux_dest is None
        }),
{
    if let Some(d) = r.dest {
        assert(key1(d@) =~= seq![d@]);
    }
    if let Some(d) = r.aux_dest {
        assert(key1(d@) =~= seq![d@]);
    }
}

/// The statistics of a repository are those of the last entry of its name.
pub proof fn law_statistics_are_those_of_the_last_entry(
    all: Seq<RepoInfo>,
    name: Seq<char>,
    i: int,
)
    ensures
        0 <= i < all.len() && all[i].name@ == name && (forall|j: int|
            i < j < all.len() ==> (#[trigger] all[j]).name@ != name) ==> stat_of(all, name) == Some(
            RepoStatView {
                name,
                repo_type: all[i].repo_type@,
                artifacts: all[i].artifact_count,
                bytes: all[i].total_bytes,
            },
        ),
        (forall|j: int| 0 <= j < all.len() ==> (#[trigger] all[j]).name@ != name) ==> stat_of(
            all,
            name,
        ) is None,
    decreases all.len(),
{
    if all.len() > 0 {
        let rest = all.drop_last();
        law_statistics_are_those_of_the_last_entry(rest, name, i);
        assert forall|j: int| 0 <= j < rest.len() implies #[trigger] rest[j] == all[j] by {}
        if all.last().name@ == name {
            assert(all[all.len() - 1].name@ == name);
        } else {
            if forall|j: int| 0 <= j < all.len() ==> (#[trigger] all[j]).name@ != name {
                assert forall|j: int| 0 <= j < rest.len() implies (#[trigger] rest[j]).name@
                    != name by {
                    assert(all[j].name@ != name);
                }
            }
            if 0 <= i < all.len() && all[i].name@ == name && (forall|j: int|
                i < j < all.len() ==> (#[trigger] all[j]).name@ != name) {
                assert forall|j: int| i < j < rest.len() implies (#[trigger] rest[j]).name@
                    != name by {
                    assert(all[j].name@ != name);
                }
            }
        }
    }
}

/// The bytes of two lists of repositories add up; a proxy adds nothing, and where
/// only docker counts, neither does a repository of another format.
pub proof fn law_logical_bytes_add_up(a: Seq<RepoInfo>, b: Seq<RepoInfo>, docker_only: bool)
    ensures
        logical_bytes(a + b, docker_only) == logical_bytes(a, docker_only) + logical_bytes(
            b,
            docker_only,
        ),
        a.len() == 1 ==> logical_bytes(a, docker_only) == (if a[0].repo_type@ == "proxy"@ || (
        docker_only && a[0].format@ != "docker"@) {
            0
        } else {
            a[0].total_bytes as nat
        }),
        a.len() == 0 ==> logical_bytes(a, docker_only) == 0,
    decreases b.len(),
{
    if b.len() > 0 {
        law_logical_bytes_add_up(a, b.drop_last(), docker_only);
        assert((a + b).drop_last() =~= a + b.drop_last());
    } else {
        assert(a + b =~= a);
    }
    if a.len() == 1 {
        assert(logical_bytes(a.drop_last(), docker_only) == 0);
    }
}

/// A run is settled once two looks in a row count the same artifacts, and waits for
/// no more than ten looks.
pub proof fn law_settling_ends(tries: u32, prev: RepoSummary, cur: RepoSummary, r: SettleStep)
    requires
        call_ensures(settle_step, (tries, &prev, &cur), r),
    ensures
        tries >= 10 ==> r == SettleStep::Done,
        prev.repos.deep_view() == cur.repos.deep_view() ==> r == SettleStep::Done,
        tries < 10 && prev.repos@.len() != cur.repos@.len() ==> r == SettleStep::Wait,
        forall|i: int|
            tries < 10 && 0 <= i < prev.repos@.len() && i < cur.repos@.len() && (
            #[trigger] prev.repos.deep_view()[i]).artifacts != cur.repos.deep_view()[i].artifacts
                ==> r == SettleStep::Wait,
{
}

/// A changed row ends with what the row of its name says afterwards; a repository
/// that is gone keeps what it had.
pub proof fn law_changed_row_shows_both(after: SummaryRowsView, b: RepoRowView, i: int)
    ensures
        ({
            let start = "  "@ + padded_right(b.name, 28) + " "@ + padded_right(b.repo_type, 8)
                + " "@ + padded_left(decimal(b.artifacts as nat), 9) + " → "@;
            &&& 0 <= i < after.repos.len() && after.repos[i].name == b.name && (forall|j: int|
                0 <= j < i ==> (#[trigger] after.repos[j]).name != b.name) ==> changed_row(after)(b)
                == start + padded_left(decimal(after.repos[i].artifacts as nat), 9) + " "@
                + padded_left(b.size, 10) + " → "@ + padded_left(after.repos[i].size, 10)
            &&& (forall|j: int|
                0 <= j < after.repos.len() ==> (#[trigger] after.repos[j]).name != b.name)
                ==> changed_row(after)(b) == start + padded_left(decimal(b.artifacts as nat), 9)
                + " "@ + padded_left(b.size, 10) + " → "@ + padded_left(b.size, 10)
        }),
{
    let p = row_named(b.name);
    law_first_that_passes(after.repos, p);
    if 0 <= i < after.repos.len() && after.repos[i].name == b.name && (forall|j: int|
        0 <= j < i ==> (#[trigger] after.repos[j]).name != b.name) {
        assert(is_first(after.repos, p, i));
    }
}

/// The store of a name is shown with what it holds afterwards.
pub proof fn law_changed_store_shows_both(
    after: SummaryRowsView,
    b: (Seq<char>, Seq<char>, u64),
    i: int,
)
    ensures
        ({
            let start = "  store '"@ + b.0 + "' physical total      = "@ + b.1 + " ("@ + decimal(
                b.2 as nat,
            ) + " blobs) → "@;
            &&& 0 <= i < after.stores.len() && after.stores[i].0 == b.0 && (forall|j: int|
                0 <= j < i ==> (#[trigger] after.stores[j]).0 != b.0) ==> changed_store(after)(b)
                == start + after.stores[i].1 + " ("@ + decimal(after.stores[i].2 as nat)
                + " blobs)"@
            &&& (forall|j: int|
                0 <= j < after.stores.len() ==> (#[trigger] after.stores[j]).0 != b.0)
                ==> changed_store(after)(b) == start + b.1 + " ("@ + decimal(b.2 as nat)
                + " blobs)"@
        }),
{
    let p = store_named(b.0);
    law_first_that_passes(after.stores, p);
    if 0 <= i < after.stores.len() && after.stores[i].0 == b.0 && (forall|j: int|
        0 <= j < i ==> (#[trigger] after.stores[j]).0 != b.0) {
        assert(is_first(after.stores, p, i));
    }
}

/// The current summary shows every repository and every store.
pub proof fn law_current_summary_shows_everything(b: SummaryRowsView, i: int)
    ensures
        0 <= i < b.repos.len() ==> current_lines(b).contains(
            "  "@ + padded_right(b.repos[i].name, 28) + " "@ + padded_right(b.repos[i].repo_type, 8)
                + " "@ + padded_left(decimal(b.repos[i].artifacts as nat), 12) + " "@ + padded_left(
                b.repos[i].size,
                12,
            ),
        ),
        0 <= i < b.stores.len() ==> current_lines(b).contains(
            "  store '"@ + b.stores[i].0 + "' physical total      = "@ + b.stores[i].1 + " ("@
                + decimal(b.stores[i].2 as nat) + " blobs, dedup)"@,
        ),
        current_lines(b).contains("\n  sum(all hosted/cache repos)    = "@ + b.logical),
        current_lines(b).contains("  sum(docker hosted/cache repos) = "@ + b.docker),
{
    let lines = current_lines(b);
    let n = b.repos.len() as int;
    if 0 <= i < n {
        assert(lines[2 + i] == current_row()(b.repos[i]));
    }
    assert(lines[2 + n] == "\n  sum(all hosted/cache repos)    = "@ + b.logical);
    assert(lines[3 + n] == "  sum(docker hosted/cache repos) = "@ + b.docker);
    if 0 <= i < b.stores.len() {
        assert(lines[4 + n + i] == current_store()(b.stores[i]));
    }
}

/// The summary after a run shows every repository, store and sum before and after.
pub proof fn law_changed_summary_shows_everything(b: SummaryRowsView, a: SummaryRowsView, i: int)
    ensures
        0 <= i < b.repos.len() ==> changed_lines(b, a).contains(changed_row(a)(b.repos[i])),
        0 <= i < b.stores.len() ==> changed_lines(b, a).contains(changed_store(a)(b.stores[i])),
        changed_lines(b, a).contains(
            "\n  sum(all hosted/cache repos)    = "@ + b.logical + " → "@ + a.logical,
        ),
        changed_lines(b, a).contains(
            "  sum(docker hosted/cache repos) = "@ + b.docker + " → "@ + a.docker,
        ),
{
    let lines = changed_lines(b, a);
    let n = b.repos.len() as int;
    if 0 <= i < n {
        assert(lines[2 + i] == changed_row(a)(b.repos[i]));
    }
    assert(lines[2 + n] == "\n  sum(all hosted/cache repos)    = "@ + b.logical + " → "@
        + a.logical);
    assert(lines[3 + n] == "  sum(docker hosted/cache repos) = "@ + b.docker + " → "@ + a.docker);
    if 0 <= i < b.stores.len() {
        assert(lines[4 + n + i] == changed_store(a)(b.stores[i]));
    }
}

/// A summary has the statistics of each repository of the scope that is known.
pub proof fn law_summary_has_the_scope(all: Seq<RepoInfo>, scope: Seq<Seq<char>>, name: Seq<char>)
    requires
        scope.contains(name),
        stat_of(all, name) is Some,
    ensures
        scope.filter_map(stat_by_name(all)).contains(stat_of(all, name)->Some_0),
{
    let i = choose|i: int| 0 <= i < scope.len() && scope[i] == name;
    assert(stat_by_name(all)(scope[i]) == Some(stat_of(all, name)->Some_0));
    lemma_filter_map_contains(scope, stat_by_name(all), stat_of(all, name)->Some_0);
}

/// A rule of some group classifies.
pub open spec fn some_rule_classifies(groups: Seq<CompiledGroupView>) -> bool {
    exists|i: int, k: int|
        0 <= i < groups.len() && 0 <= k < groups[i].rules.len() && (
        #[trigger] groups[i].rules[k]).action == Action::Classify
}

/// A group of a run classifies exactly where a rule of some group does.
pub proof fn law_rules_classify_by_their_action(groups: Seq<CompiledGroupView>)
    ensures
        some_rule_classifies(groups) <==> exists|i: int|
            0 <= i < groups.len() && classifies(#[trigger] groups[i]),
{
    if exists|i: int| 0 <= i < groups.len() && classifies(#[trigger] groups[i]) {
        let i = choose|i: int| 0 <= i < groups.len() && classifies(#[trigger] groups[i]);
        let k = choose|k: int|
            0 <= k < groups[i].rules.len() && (#[trigger] groups[i].rules[k]).action
                == Action::Classify;
        assert(groups[i].rules[k].action == Action::Classify);
    }
    if some_rule_classifies(groups) {
        let (i, k) = choose|i: int, k: int|
            0 <= i < groups.len() && 0 <= k < groups[i].rules.len() && (
            #[trigger] groups[i].rules[k]).action == Action::Classify;
        assert(classifies(groups[i]));
    }
}

/// Every rule with a destination routes to it, under its class.
pub proof fn law_every_rule_routes(groups: Seq<Group>, i: int, k: int)
    requires
        0 <= i < groups.len(),
        0 <= k < groups[i].rules@.len(),
        rule_route()(groups[i].rules@[k]) is Some,
    ensures
        spread(groups, group_routes()).contains(rule_route()(groups[i].rules@[k])->Some_0),
{
    let route = rule_route()(groups[i].rules@[k])->Some_0;
    lemma_filter_map_contains(groups[i].rules@, rule_route(), route);
    assert(group_routes()(groups[i]).contains(route));
    lemma_spread_contains(groups, group_routes(), route);
}

/// The cache counts exactly where the inventory has it.
pub proof fn law_cache_counts_where_it_is_there(
    inventory: &[(String, String, String)],
    cache: Option<String>,
    r: Option<String>,
    i: int,
)
    requires
        call_ensures(known_cache, (inventory, &cache), r),
    ensures
        cache is None ==> r is None,
        cache matches Some(c) ==> (0 <= i < inventory.deep_view().len() && inventory.deep_view()[i].0
            == c@ ==> (r matches Some(d) && d@ == c@)),
        cache matches Some(c) ==> ((forall|j: int|
            0 <= j < inventory.deep_view().len() ==> (#[trigger] inventory.deep_view()[j]).0 != c@)
            ==> r is None),
{
    assert(r.deep_view() is Some <==> r is Some);
    if let Some(c) = cache {
        if 0 <= i < inventory.deep_view().len() && inventory.deep_view()[i].0 == c@ {
            assert(is_known(inventory.deep_view(), c@));
        }
    }
}

/// The first-party prefixes of a run are those of all its groups.
pub proof fn law_prefixes_are_those_of_all_groups(
    groups: Seq<CompiledGroupView>,
    prefix: Seq<char>,
)
    ensures
        spread(groups, group_prefixes()).contains(prefix) <==> exists|i: int|
            0 <= i < groups.len() && (#[trigger] groups[i]).first_party_prefixes.contains(prefix),
{
    let f = group_prefixes();
    lemma_spread_contains(groups, f, prefix);
    if spread(groups, f).contains(prefix) {
        let i = choose|i: int| 0 <= i < groups.len() && (#[trigger] f(groups[i])).contains(prefix);
        assert(groups[i].first_party_prefixes.contains(prefix));
    }
    if exists|i: int|
        0 <= i < groups.len() && (#[trigger] groups[i]).first_party_prefixes.contains(prefix) {
        let i = choose|i: int|
            0 <= i < groups.len() && (#[trigger] groups[i]).first_party_prefixes.contains(prefix);
        assert(f(groups[i]).contains(prefix));
    }
}

} // verus!
