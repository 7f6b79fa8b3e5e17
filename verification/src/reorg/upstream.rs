//! What the rules and the upstream registry say of the repositories involved.
use crate::ordered::{
    entry_views, group, group_by, key1, lemma_sorted_keys, lemma_text_keys, set_of, sort_groups,
    sorted_groups, sorted_keys, text_keys, KeySet, OrderedMap,
};
use crate::reorg::compile::{
    class_label, class_of, has_any_prefix, under_prefix, CompiledGroup, CompiledGroupView,
    CompiledRuleView,
};
use crate::reorg::patterns::{regex_matches, TagPattern};
use crate::reorg::plan::{PlannedMove, PlannedMoveView, TagRef, TagRefView};
use crate::reorg::preflight::{distinct, keep_distinct};
use crate::reorg::resolve::{FoundCopy, FoundCopyView, ResolvedPlan, ResolvedView};
use crate::reorg::rules::{Action, Group, Rule, RulesFile};
use crate::seqs::{
    first_where, lemma_filter_map_step, lemma_filter_step, lemma_first_found, lemma_first_none,
    lemma_map_step, lemma_spread_step, lemma_take_all, push_all, push_item, spread,
};
use crate::text::{copy_texts, same_text};
use vstd::prelude::*;

verus! {

/// Whether a rule classifies released images.
pub open spec fn classifies(g: CompiledGroupView) -> bool {
    exists|i: int| 0 <= i < g.rules.len() && (#[trigger] g.rules[i]).action == Action::Classify
}

/// Whether any group has a classify rule.
pub fn classify_configured(groups: &[CompiledGroup]) -> (r: bool)
    ensures
        r == exists|i: int|
            0 <= i < groups.deep_view().len() && classifies(#[trigger] groups.deep_view()[i]),
{
    let ghost gs = groups.deep_view();
    let mut i: usize = 0;
    while i < groups.len()
        invariant
            gs == groups.deep_view(),
            i <= groups@.len(),
            forall|j: int| 0 <= j < i ==> !classifies(#[trigger] gs[j]),
        decreases groups@.len() - i,
    {
        let g = &groups[i];
        assert(gs[i as int] == g.deep_view());
        let ghost rules = gs[i as int].rules;
        let mut k: usize = 0;
        while k < g.rules.len()
            invariant
                rules == g.rules.deep_view(),
                k <= g.rules@.len(),
                forall|j: int| 0 <= j < k ==> (#[trigger] rules[j]).action != Action::Classify,
                gs == groups.deep_view(),
                i < gs.len(),
                gs[i as int].rules == rules,
            decreases g.rules@.len() - k,
        {
            assert(rules[k as int] == g.rules@[k as int].deep_view());
            if g.rules[k].action == Action::Classify {
                assert(classifies(gs[i as int]));
                return true;
            }
            k = k + 1;
        }
        i = i + 1;
    }
    false
}

/// Whether the upstream authority can be consulted.
#[derive(Debug, PartialEq, Eq)]
pub enum AuthorityUse {
    /// It can.
    Ready,
    /// None is configured.
    Unconfigured,
    /// It failed, for this reason, and no rule depends on it.
    Failed(String),
}

/// Decide whether a run can go on with the upstream authority as it is:
/// `configured` tells whether the rules name one, `failure` why it could not be
/// reached. Classify rules cannot do without it.
pub fn authority_use(
    configured: bool,
    failure: Option<String>,
    classify: bool,
) -> (r: Result<AuthorityUse, String>)
    ensures
        r is Err <==> classify && (!configured || failure is Some),
        r matches Err(e) ==> e@ == (if configured {
            "classify rules verify released tags against the upstream authority; it must be reachable"@
        } else {
            "classify rules require a [check_authority] section: released tags are verified against the upstream registry, never the local cache"@
        }),
        r matches Ok(u) ==> u == (if !configured {
            AuthorityUse::Unconfigured
        } else {
            match failure {
                Some(e) => AuthorityUse::Failed(e),
                None => AuthorityUse::Ready,
            }
        }),
{
    if !configured {
        if classify {
            return Err(
                "classify rules require a [check_authority] section: released tags are verified against the upstream registry, never the local cache".to_string(),
            );
        }
        return Ok(AuthorityUse::Unconfigured);
    }
    match failure {
        None => Ok(AuthorityUse::Ready),
        Some(e) => if classify {
            Err(
                "classify rules verify released tags against the upstream authority; it must be reachable".to_string(),
            )
        } else {
            Ok(AuthorityUse::Failed(e))
        },
    }
}

/// Only docker groups can be executed.
pub fn check_format(group: &CompiledGroup) -> (r: Result<(), String>)
    ensures
        r is Ok <==> group.deep_view().format == "docker"@,
        r matches Err(e) ==> e@ == "format '"@ + group.deep_view().format
            + "' is not supported yet (only 'docker'); add server-side movers before using it"@,
{
    if same_text(group.format.as_str(), "docker") {
        Ok(())
    } else {
        let mut s = "format '".to_string();
        s.append(group.format.as_str());
        s.append(
            "' is not supported yet (only 'docker'); add server-side movers before using it",
        );
        Err(s)
    }
}

/// The key under which the upstream's tags are kept.
pub open spec fn image_tag(image: Seq<char>, tag: Seq<char>) -> Seq<char> {
    image + ":"@ + tag
}

/// The `image:tag` key of a tag.
pub fn tag_key(image: &str, tag: &str) -> (r: String)
    ensures
        r@ == image_tag(image@, tag@),
{
    let mut s = image.to_string();
    s.append(":");
    s.append(tag);
    s
}

/// The `image:tag` key of a listed tag.
pub open spec fn listed_key() -> spec_fn((Seq<char>, Seq<char>)) -> Seq<char> {
    |e: (Seq<char>, Seq<char>)| image_tag(e.0, e.1)
}

/// The `image:tag` keys of the tags that the upstream repositories list.
pub fn upstream_tags(listing: &[(String, String)]) -> (r: KeySet<String>)
    ensures
        r@ == sorted_keys(text_keys(listing.deep_view().map_values(listed_key()))),
{
    let ghost all = listing.deep_view();
    let ghost f = listed_key();
    let mut keys: Vec<String> = Vec::new();
    let mut i: usize = 0;
    assert(keys.deep_view() =~= all.take(0).map_values(f));
    while i < listing.len()
        invariant
            all == listing.deep_view(),
            f == listed_key(),
            i <= listing@.len(),
            keys.deep_view() == all.take(i as int).map_values(f),
        decreases listing@.len() - i,
    {
        let (image, tag) = &listing[i];
        proof {
            lemma_map_step(all, f, i as int);
            assert(all[i as int] == (image@, tag@));
        }
        push_item(&mut keys, tag_key(image.as_str(), tag.as_str()));
        i = i + 1;
    }
    proof {
        lemma_take_all(all);
    }
    set_of(keys.as_slice())
}

/// Where the names of images hold no colon, the key of a tag is among those of a
/// listing exactly where the listing has the tag of that image.
pub proof fn law_keys_tell_tags_apart(
    listing: Seq<(Seq<char>, Seq<char>)>,
    e: (Seq<char>, Seq<char>),
)
    requires
        !e.0.contains(':'),
        forall|i: int| 0 <= i < listing.len() ==> !(#[trigger] listing[i]).0.contains(':'),
    ensures
        sorted_keys(text_keys(listing.map_values(listed_key()))).contains(
            key1(image_tag(e.0, e.1)),
        ) <==> listing.contains(e),
{
    let keys = listing.map_values(listed_key());
    let k = image_tag(e.0, e.1);
    lemma_sorted_keys(text_keys(keys));
    lemma_text_keys(keys, k);
    assert(sorted_keys(text_keys(keys)).contains(key1(k)) <==> text_keys(keys).contains(key1(k)));
    if listing.contains(e) {
        let i = choose|i: int| 0 <= i < listing.len() && listing[i] == e;
        assert(keys[i] == k);
    }
    if keys.contains(k) {
        let i = choose|i: int| 0 <= i < keys.len() && keys[i] == k;
        assert(image_tag(listing[i].0, listing[i].1) == k);
        lemma_image_tag(listing[i].0, listing[i].1, e.0, e.1);
        assert(listing[i] == e);
    }
}

/// A key is that of one image without a colon, and of one tag.
proof fn lemma_image_tag(a: Seq<char>, s: Seq<char>, b: Seq<char>, t: Seq<char>)
    requires
        !a.contains(':'),
        !b.contains(':'),
        image_tag(a, s) == image_tag(b, t),
    ensures
        a == b,
        s == t,
{
    reveal_strlit(":");
    let x = image_tag(a, s);
    let y = image_tag(b, t);
    assert(x[a.len() as int] == ':');
    assert(y[b.len() as int] == ':');
    if a.len() < b.len() {
        assert(b[a.len() as int] == y[a.len() as int]);
        assert(b.contains(':'));
    }
    if b.len() < a.len() {
        assert(a[b.len() as int] == x[b.len() as int]);
        assert(a.contains(':'));
    }
    assert(a =~= x.take(a.len() as int));
    assert(b =~= y.take(b.len() as int));
    assert(s =~= x.skip(a.len() as int + 1));
    assert(t =~= y.skip(b.len() as int + 1));
}

/// Pairs an image with each of its tags.
pub open spec fn tag_pairs() -> spec_fn((Seq<char>, Seq<Seq<char>>)) -> Seq<
    (Seq<char>, Seq<char>),
> {
    |e: (Seq<char>, Seq<Seq<char>>)| e.1.map_values(|t: Seq<char>| (e.0, t))
}

/// The tags of a repository as `(image, tag)` pairs, image by image.
pub fn list_repo_tags(images: &[(String, Vec<String>)]) -> (r: Vec<(String, String)>)
    ensures
        r.deep_view() == spread(images.deep_view(), tag_pairs()),
{
    let ghost all = images.deep_view();
    let ghost f = tag_pairs();
    let mut out: Vec<(String, String)> = Vec::new();
    let mut i: usize = 0;
    assert(out.deep_view() =~= spread(all.take(0), f));
    while i < images.len()
        invariant
            all == images.deep_view(),
            f == tag_pairs(),
            i <= images@.len(),
            out.deep_view() == spread(all.take(i as int), f),
        decreases images@.len() - i,
    {
        let (image, tags) = &images[i];
        let ghost base = out.deep_view();
        let ghost names = tags.deep_view();
        let ghost pair = |t: Seq<char>| (image@, t);
        proof {
            lemma_spread_step(all, f, i as int);
            assert(all[i as int] == (image@, names));
        }
        let mut j: usize = 0;
        assert(out.deep_view() =~= base + names.take(0).map_values(pair));
        while j < tags.len()
            invariant
                j <= tags@.len(),
                names == tags.deep_view(),
                pair == (|t: Seq<char>| (image@, t)),
                out.deep_view() == base + names.take(j as int).map_values(pair),
            decreases tags@.len() - j,
        {
            proof {
                lemma_map_step(names, pair, j as int);
            }
            push_item(&mut out, (image.clone(), tags[j].clone()));
            assert(out.deep_view() =~= base + names.take(j + 1).map_values(pair));
            j = j + 1;
        }
        proof {
            lemma_take_all(names);
            assert(f(all[i as int]) =~= names.map_values(pair));
        }
        i = i + 1;
    }
    proof {
        lemma_take_all(all);
    }
    out
}

/// What a registry answers to a request for the head of a manifest is a copy
/// exactly where the status is 200.
pub open spec fn served(
    repo: Seq<char>,
    status: u16,
    digest: Seq<char>,
    via_authority: bool,
) -> Option<FoundCopyView> {
    if status == 200 {
        Some(FoundCopyView { repo, digest, via_authority })
    } else {
        None
    }
}

/// The copy that a registry serves, if it answers with status 200.
pub fn head(repo: &str, status: u16, digest: String, via_authority: bool) -> (r: Option<FoundCopy>)
    ensures
        r.deep_view() == served(repo@, status, digest@, via_authority),
{
    if status == 200 {
        Some(FoundCopy { repo: repo.to_string(), digest, via_authority })
    } else {
        None
    }
}

/// Tells an answer that serves a copy.
pub open spec fn is_served() -> spec_fn((Seq<char>, u16, Seq<char>)) -> bool {
    |a: (Seq<char>, u16, Seq<char>)| a.1 == 200
}

/// The copy in the first upstream repository that serves one.
pub open spec fn first_copy(answers: Seq<(Seq<char>, u16, Seq<char>)>) -> Option<FoundCopyView> {
    match first_where(answers, is_served()) {
        Some(a) => served(a.0, a.1, a.2, true),
        None => None,
    }
}

/// The copy in the first upstream repository that serves one. Each answer is a
/// repository with the status and the digest that it gave, in the order in which
/// the repositories are configured.
pub fn first_served(answers: &[(String, u16, String)]) -> (r: Option<FoundCopy>)
    ensures
        r.deep_view() == first_copy(answers.deep_view()),
{
    let ghost all = answers.deep_view();
    let mut i: usize = 0;
    while i < answers.len()
        invariant
            all == answers.deep_view(),
            i <= answers@.len(),
            forall|j: int| 0 <= j < i ==> !is_served()(#[trigger] all[j]),
        decreases answers@.len() - i,
    {
        let (repo, status, digest) = &answers[i];
        assert(all[i as int] == (repo@, *status, digest@));
        if *status == 200 {
            proof {
                lemma_first_found(all, is_served(), i as int);
            }
            return head(repo.as_str(), *status, digest.clone(), true);
        }
        i = i + 1;
    }
    proof {
        lemma_first_none(all, is_served());
    }
    None
}

/// Takes the tags that the upstream lacks, keyed by image.
pub open spec fn absent_upstream(upstream: Seq<Seq<Seq<char>>>) -> spec_fn(
    (Seq<char>, Seq<char>),
) -> Option<(Seq<Seq<char>>, Seq<char>)> {
    |e: (Seq<char>, Seq<char>)|
        if upstream.contains(key1(image_tag(e.0, e.1))) {
            None
        } else {
            Some((key1(e.0), e.1))
        }
}

/// The local tags that the upstream lacks, by image, tags sorted.
pub open spec fn pollution(
    local: Seq<(Seq<char>, Seq<char>)>,
    upstream: Seq<Seq<Seq<char>>>,
) -> Seq<(Seq<Seq<char>>, Seq<Seq<char>>)> {
    sorted_groups(group_by(local.filter_map(absent_upstream(upstream))))
}

/// Local `(image, tag)` entries whose `image:tag` key is absent from `upstream`,
/// grouped by image with sorted tags.
pub fn cache_pollution(local: &[(String, String)], upstream: &KeySet<String>) -> (r: OrderedMap<
    String,
    Vec<String>,
>)
    ensures
        r@ == pollution(local.deep_view(), upstream@),
{
    let ghost all = local.deep_view();
    let ghost f = absent_upstream(upstream@);
    let mut items: Vec<(String, String)> = Vec::new();
    let mut i: usize = 0;
    assert(entry_views(items@) =~= all.take(0).filter_map(f));
    while i < local.len()
        invariant
            all == local.deep_view(),
            f == absent_upstream(upstream@),
            i <= local@.len(),
            entry_views(items@) == all.take(i as int).filter_map(f),
        decreases local@.len() - i,
    {
        let (image, tag) = &local[i];
        proof {
            lemma_filter_map_step(all, f, i as int);
            assert(all[i as int] == (image@, tag@));
        }
        let key = tag_key(image.as_str(), tag.as_str());
        if !upstream.contains(&key) {
            let ghost before = items@;
            items.push((image.clone(), tag.clone()));
            assert(entry_views(items@) =~= entry_views(before).push(
                (key1(image@), tag@),
            ));
        }
        i = i + 1;
    }
    proof {
        lemma_take_all(all);
    }
    sort_groups(group(items))
}

/// The tags by image.
pub open spec fn image_items(tags: Seq<TagRefView>) -> Seq<(Seq<Seq<char>>, Seq<char>)> {
    tags.map_values(|t: TagRefView| (key1(t.image), t.tag))
}

/// Group a list of tags by image, tags sorted.
pub fn tags_by_image(tags: &[TagRef]) -> (r: OrderedMap<String, Vec<String>>)
    ensures
        r@ == sorted_groups(group_by(image_items(tags.deep_view()))),
{
    let ghost all = tags.deep_view();
    let mut items: Vec<(String, String)> = Vec::new();
    let mut i: usize = 0;
    assert(entry_views(items@) =~= image_items(all.take(0)));
    while i < tags.len()
        invariant
            all == tags.deep_view(),
            i <= tags@.len(),
            entry_views(items@) == image_items(all.take(i as int)),
        decreases tags@.len() - i,
    {
        let t = &tags[i];
        let ghost before = items@;
        items.push((t.image.clone(), t.tag.clone()));
        proof {
            assert(all[i as int] == t.deep_view());
            assert(entry_views(items@) =~= entry_views(before).push(
                (key1(t.image@), t.tag@),
            ));
            assert(image_items(all.take(i + 1)) =~= image_items(all.take(i as int)).push(
                (key1(t.image@), t.tag@),
            ));
        }
        i = i + 1;
    }
    proof {
        lemma_take_all(all);
    }
    sort_groups(group(items))
}

/// Where a rule routes tags to, with its class: its destination, or its aux
/// destination where it has no other.
pub open spec fn rule_route() -> spec_fn(Rule) -> Option<(Seq<Seq<char>>, Seq<char>)> {
    |r: Rule|
        match r.dest {
            Some(d) => Some((key1(d@), class_of(r.match_@))),
            None => match r.aux_dest {
                Some(d) => Some((key1(d@), class_of(r.match_@))),
                None => None,
            },
        }
}

/// The routes of a group's rules.
pub open spec fn group_routes() -> spec_fn(Group) -> Seq<(Seq<Seq<char>>, Seq<char>)> {
    |g: Group| g.rules@.filter_map(rule_route())
}

/// The tag classes that route to each destination, in rule order.
pub fn dest_classes(rules: &RulesFile) -> (r: OrderedMap<String, Vec<String>>)
    ensures
        r@ == group_by(spread(rules.group@, group_routes())),
{
    let ghost gs = rules.group@;
    let mut items: Vec<(String, String)> = Vec::new();
    let mut i: usize = 0;
    assert(entry_views(items@) =~= spread(gs.take(0), group_routes()));
    while i < rules.group.len()
        invariant
            gs == rules.group@,
            i <= rules.group@.len(),
            entry_views(items@) == spread(gs.take(i as int), group_routes()),
        decreases rules.group@.len() - i,
    {
        let g = &rules.group[i];
        let ghost base = entry_views(items@);
        let ghost rs = g.rules@;
        let mut k: usize = 0;
        assert(entry_views(items@) =~= base + rs.take(0).filter_map(rule_route()));
        while k < g.rules.len()
            invariant
                rs == g.rules@,
                k <= g.rules@.len(),
                entry_views(items@) == base + rs.take(k as int).filter_map(
                    rule_route(),
                ),
            decreases g.rules@.len() - k,
        {
            let r = &g.rules[k];
            proof {
                lemma_filter_map_step(rs, rule_route(), k as int);
            }
            let ghost before = items@;
            let target = match &r.dest {
                Some(d) => Some(d),
                None => match &r.aux_dest {
                    Some(d) => Some(d),
                    None => None,
                },
            };
            if let Some(d) = target {
                let class = class_label(r.match_.as_str()).to_string();
                items.push((d.clone(), class));
                assert(entry_views(items@) =~= entry_views(
                    before,
                ).push((key1(d@), class_of(r.match_@))));
            }
            assert(entry_views(items@) =~= base + rs.take(k + 1).filter_map(
                rule_route(),
            ));
            k = k + 1;
        }
        proof {
            lemma_take_all(rs);
            lemma_spread_step(gs, group_routes(), i as int);
        }
        i = i + 1;
    }
    proof {
        lemma_take_all(gs);
    }
    group(items)
}

/// An optional text as a list.
pub open spec fn optional(s: Option<Seq<char>>) -> Seq<Seq<char>> {
    match s {
        Some(t) => seq![t],
        None => Seq::empty(),
    }
}

/// An optional text as a list.
fn optional_list(s: &Option<String>) -> (r: Vec<String>)
    ensures
        r.deep_view() == optional(s.deep_view()),
{
    let mut out: Vec<String> = Vec::new();
    if let Some(t) = s {
        out.push(t.clone());
    }
    assert(out.deep_view() =~= optional(s.deep_view()));
    out
}

/// The check and insight repositories of a rule.
pub open spec fn rule_checks() -> spec_fn(CompiledRuleView) -> Seq<Seq<char>> {
    |r: CompiledRuleView| optional(r.check) + optional(r.insight_repo)
}

/// The check and insight repositories of a group.
pub open spec fn group_checks() -> spec_fn(CompiledGroupView) -> Seq<Seq<char>> {
    |g: CompiledGroupView| spread(g.rules, rule_checks())
}

/// The check and insight repositories of a group.
fn checks_of_group(g: &CompiledGroup) -> (out: Vec<String>)
    ensures
        out.deep_view() == group_checks()(g.deep_view()),
{
    let ghost rules = g.rules.deep_view();
    let mut out: Vec<String> = Vec::new();
    let mut i: usize = 0;
    assert(out.deep_view() =~= spread(rules.take(0), rule_checks()));
    while i < g.rules.len()
        invariant
            rules == g.rules.deep_view(),
            i <= g.rules@.len(),
            out.deep_view() == spread(rules.take(i as int), rule_checks()),
        decreases g.rules@.len() - i,
    {
        proof {
            lemma_spread_step(rules, rule_checks(), i as int);
        }
        let mut repos = optional_list(&g.rules[i].check);
        push_all(&mut repos, optional_list(&g.rules[i].insight_repo));
        push_all(&mut out, repos);
        i = i + 1;
    }
    proof {
        lemma_take_all(rules);
    }
    out
}

/// The check and insight repositories of all groups, in rule order.
fn checks_of_groups(groups: &[CompiledGroup]) -> (out: Vec<String>)
    ensures
        out.deep_view() == spread(groups.deep_view(), group_checks()),
{
    let ghost gs = groups.deep_view();
    let mut out: Vec<String> = Vec::new();
    let mut i: usize = 0;
    assert(out.deep_view() =~= spread(gs.take(0), group_checks()));
    while i < groups.len()
        invariant
            gs == groups.deep_view(),
            i <= groups@.len(),
            out.deep_view() == spread(gs.take(i as int), group_checks()),
        decreases groups@.len() - i,
    {
        proof {
            lemma_spread_step(gs, group_checks(), i as int);
        }
        push_all(&mut out, checks_of_group(&groups[i]));
        i = i + 1;
    }
    proof {
        lemma_take_all(gs);
    }
    out
}

/// The repositories that nothing is ever deleted from: every check and insight
/// repository, and the cache that the upstream authority is compared with.
pub open spec fn protected(
    groups: Seq<CompiledGroupView>,
    cache_repo: Option<Seq<char>>,
) -> Seq<Seq<char>> {
    spread(groups, group_checks()) + optional(cache_repo)
}

/// The set of protected repositories.
pub fn protected_repos(groups: &[CompiledGroup], cache_repo: &Option<String>) -> (r: KeySet<String>)
    ensures
        r@ == sorted_keys(text_keys(protected(groups.deep_view(), cache_repo.deep_view()))),
{
    let mut repos = checks_of_groups(groups);
    push_all(&mut repos, optional_list(cache_repo));
    set_of(repos.as_slice())
}

/// A repository is on the depot.
pub open spec fn is_known(
    inventory: Seq<(Seq<char>, Seq<char>, Seq<char>)>,
    repo: Seq<char>,
) -> bool {
    exists|i: int| 0 <= i < inventory.len() && (#[trigger] inventory[i]).0 == repo
}

/// The cache that mirrors the upstream authority, if it is on the depot: there is
/// nothing to compare where it is not.
pub fn known_cache(
    inventory: &[(String, String, String)],
    cache_repo: &Option<String>,
) -> (r: Option<String>)
    ensures
        r.deep_view() == match cache_repo.deep_view() {
            Some(c) => if is_known(inventory.deep_view(), c) {
                Some(c)
            } else {
                None
            },
            None => None,
        },
{
    let ghost all = inventory.deep_view();
    if let Some(cache) = cache_repo {
        let mut i: usize = 0;
        while i < inventory.len()
            invariant
                all == inventory.deep_view(),
                cache_repo.deep_view() == Some(cache@),
                i <= inventory@.len(),
                forall|j: int| 0 <= j < i ==> (#[trigger] all[j]).0 != cache@,
            decreases inventory@.len() - i,
        {
            assert(all[i as int] == inventory@[i as int].deep_view());
            if same_text(inventory[i].0.as_str(), cache.as_str()) {
                assert(is_known(all, cache@));
                return Some(cache.clone());
            }
            i = i + 1;
        }
    }
    None
}

/// The repositories whose tags are compared with the upstream: every check and
/// insight repository, and the cache that mirrors the upstream authority.
pub fn compared_repos(groups: &[CompiledGroup], cache_repo: &Option<String>) -> (r: KeySet<String>)
    ensures
        r@ == sorted_keys(text_keys(protected(groups.deep_view(), cache_repo.deep_view()))),
{
    protected_repos(groups, cache_repo)
}

/// The cache of the upstream authority is always compared with the upstream, and
/// so is every check and insight repository.
pub proof fn law_authority_cache_is_compared(
    groups: Seq<CompiledGroupView>,
    cache_repo: Option<Seq<char>>,
    repo: Seq<char>,
)
    ensures
        sorted_keys(text_keys(protected(groups, cache_repo))).contains(key1(repo)) <==> cache_repo
            == Some(repo) || spread(groups, group_checks()).contains(repo),
{
    let checks = spread(groups, group_checks());
    let all = protected(groups, cache_repo);
    lemma_sorted_keys(text_keys(all));
    lemma_text_keys(all, repo);
    if checks.contains(repo) {
        let i = choose|i: int| 0 <= i < checks.len() && checks[i] == repo;
        assert(all[i] == repo);
    }
    if cache_repo == Some(repo) {
        assert(all[checks.len() as int] == repo);
    }
    if all.contains(repo) {
        let i = choose|i: int| 0 <= i < all.len() && all[i] == repo;
        if i < checks.len() {
            assert(checks[i] == repo);
        } else {
            assert(optional(cache_repo)[i - checks.len()] == repo);
        }
    }
}

/// The first-party prefixes of a group.
pub open spec fn group_prefixes() -> spec_fn(CompiledGroupView) -> Seq<Seq<char>> {
    |g: CompiledGroupView| g.first_party_prefixes
}

/// The distinct first-party prefixes of all groups, ascending.
pub fn all_prefixes(groups: &[CompiledGroup]) -> (r: KeySet<String>)
    ensures
        r@ == sorted_keys(text_keys(spread(groups.deep_view(), group_prefixes()))),
{
    let ghost gs = groups.deep_view();
    let mut out: Vec<String> = Vec::new();
    let mut i: usize = 0;
    assert(out.deep_view() =~= spread(gs.take(0), group_prefixes()));
    while i < groups.len()
        invariant
            gs == groups.deep_view(),
            i <= groups@.len(),
            out.deep_view() == spread(gs.take(i as int), group_prefixes()),
        decreases groups@.len() - i,
    {
        proof {
            lemma_spread_step(gs, group_prefixes(), i as int);
        }
        push_all(&mut out, copy_texts(groups[i].first_party_prefixes.as_slice()));
        i = i + 1;
    }
    proof {
        lemma_take_all(gs);
    }
    set_of(out.as_slice())
}

/// The source repositories of a group.
pub open spec fn group_sources() -> spec_fn(CompiledGroupView) -> Seq<Seq<char>> {
    |g: CompiledGroupView| g.source_repos
}

/// The other repositories that a rule involves.
pub open spec fn rule_scope() -> spec_fn(CompiledRuleView) -> Seq<Seq<char>> {
    |r: CompiledRuleView| optional(r.check) + optional(r.insight_repo) + optional(r.aux_dest)
}

/// The other repositories that a group involves.
pub open spec fn group_scope() -> spec_fn(CompiledGroupView) -> Seq<Seq<char>> {
    |g: CompiledGroupView| g.purge_repos + spread(g.rules, rule_scope())
}

/// The repositories that a run involves, in the order in which they are listed:
/// sources, destinations of moves, then the others.
pub open spec fn run_scope(
    groups: Seq<CompiledGroupView>,
    moves: Seq<PlannedMoveView>,
    cache_repo: Option<Seq<char>>,
) -> Seq<Seq<char>> {
    distinct(
        spread(groups, group_sources()) + moves.map_values(|m: PlannedMoveView| m.dest) + spread(
            groups,
            group_scope(),
        ) + optional(cache_repo),
    )
}

/// The other repositories that a group involves.
fn scope_of_group(g: &CompiledGroup) -> (out: Vec<String>)
    ensures
        out.deep_view() == group_scope()(g.deep_view()),
{
    let mut out = copy_texts(g.purge_repos.as_slice());
    let ghost base = out.deep_view();
    let ghost rules = g.rules.deep_view();
    let mut i: usize = 0;
    assert(out.deep_view() =~= base + spread(rules.take(0), rule_scope()));
    while i < g.rules.len()
        invariant
            rules == g.rules.deep_view(),
            i <= g.rules@.len(),
            out.deep_view() == base + spread(rules.take(i as int), rule_scope()),
        decreases g.rules@.len() - i,
    {
        proof {
            lemma_spread_step(rules, rule_scope(), i as int);
        }
        let mut repos = optional_list(&g.rules[i].check);
        push_all(&mut repos, optional_list(&g.rules[i].insight_repo));
        push_all(&mut repos, optional_list(&g.rules[i].aux_dest));
        push_all(&mut out, repos);
        assert(out.deep_view() =~= base + spread(rules.take(i + 1), rule_scope()));
        i = i + 1;
    }
    proof {
        lemma_take_all(rules);
    }
    out
}

/// The repositories that a run involves.
pub fn scope(groups: &[CompiledGroup], moves: &[PlannedMove], cache_repo: &Option<String>) -> (r: Vec<
    String,
>)
    ensures
        r.deep_view() == run_scope(
            groups.deep_view(),
            moves.deep_view(),
            cache_repo.deep_view(),
        ),
{
    let ghost gs = groups.deep_view();
    let ghost ms = moves.deep_view();
    let ghost dest = |m: PlannedMoveView| m.dest;
    let mut out: Vec<String> = Vec::new();
    let mut i: usize = 0;
    assert(out.deep_view() =~= spread(gs.take(0), group_sources()));
    while i < groups.len()
        invariant
            gs == groups.deep_view(),
            i <= groups@.len(),
            out.deep_view() == spread(gs.take(i as int), group_sources()),
        decreases groups@.len() - i,
    {
        proof {
            lemma_spread_step(gs, group_sources(), i as int);
        }
        push_all(&mut out, copy_texts(groups[i].source_repos.as_slice()));
        i = i + 1;
    }
    proof {
        lemma_take_all(gs);
    }
    let ghost base = out.deep_view();
    let mut j: usize = 0;
    assert(out.deep_view() =~= base + ms.take(0).map_values(dest));
    while j < moves.len()
        invariant
            ms == moves.deep_view(),
            dest == (|m: PlannedMoveView| m.dest),
            j <= moves@.len(),
            out.deep_view() == base + ms.take(j as int).map_values(dest),
        decreases moves@.len() - j,
    {
        proof {
            lemma_map_step(ms, dest, j as int);
        }
        push_item(&mut out, moves[j].dest.clone());
        assert(out.deep_view() =~= base + ms.take(j + 1).map_values(dest));
        j = j + 1;
    }
    proof {
        lemma_take_all(ms);
    }
    let ghost base2 = out.deep_view();
    let mut k: usize = 0;
    assert(out.deep_view() =~= base2 + spread(gs.take(0), group_scope()));
    while k < groups.len()
        invariant
            gs == groups.deep_view(),
            k <= groups@.len(),
            out.deep_view() == base2 + spread(gs.take(k as int), group_scope()),
        decreases groups@.len() - k,
    {
        proof {
            lemma_spread_step(gs, group_scope(), k as int);
        }
        push_all(&mut out, scope_of_group(&groups[k]));
        assert(out.deep_view() =~= base2 + spread(gs.take(k + 1), group_scope()));
        k = k + 1;
    }
    push_all(&mut out, optional_list(cache_repo));
    keep_distinct(out.as_slice())
}

/// Tells first-party tags.
pub open spec fn is_ours(prefixes: Seq<Seq<char>>) -> spec_fn((Seq<char>, Seq<char>)) -> bool {
    |e: (Seq<char>, Seq<char>)| under_prefix(prefixes, e.0)
}

/// The tags of one image of a repository.
pub open spec fn image_tags(repo: Seq<char>) -> spec_fn((Seq<Seq<char>>, Seq<Seq<char>>)) -> Seq<
    TagRefView,
> {
    |g: (Seq<Seq<char>>, Seq<Seq<char>>)|
        g.1.map_values(tag_in(repo, g.0[0]))
}

/// Places a tag in a repository.
pub open spec fn tag_in(repo: Seq<char>, image: Seq<char>) -> spec_fn(Seq<char>) -> TagRefView {
    |t: Seq<char>| TagRefView { source_repo: repo, image, tag: t }
}

/// The first-party tags of a cache that the upstream lacks, by image.
pub open spec fn polluted(
    repo: Seq<char>,
    tags: Seq<(Seq<char>, Seq<char>)>,
    prefixes: Seq<Seq<char>>,
    upstream: Seq<Seq<Seq<char>>>,
) -> Seq<TagRefView> {
    spread(pollution(tags.filter(is_ours(prefixes)), upstream), image_tags(repo))
}

/// Tells released tags.
pub open spec fn is_released(pattern: Seq<char>) -> spec_fn(TagRefView) -> bool {
    |t: TagRefView| regex_matches(pattern, t.tag)
}

/// Tells tags that are not released.
pub open spec fn is_unreleased(pattern: Seq<char>) -> spec_fn(TagRefView) -> bool {
    |t: TagRefView| !regex_matches(pattern, t.tag)
}

/// The first-party tags of a cache that the upstream lacks.
pub fn polluted_tags(
    repo: &str,
    tags: &[(String, String)],
    prefixes: &[String],
    upstream: &KeySet<String>,
) -> (r: Vec<TagRef>)
    ensures
        r.deep_view() == polluted(repo@, tags.deep_view(), prefixes.deep_view(), upstream@),
{
    let ghost all = tags.deep_view();
    let ghost ours = is_ours(prefixes.deep_view());
    let mut local: Vec<(String, String)> = Vec::new();
    let mut i: usize = 0;
    proof {
        reveal(Seq::filter);
    }
    assert(local.deep_view() =~= all.take(0).filter(ours));
    while i < tags.len()
        invariant
            all == tags.deep_view(),
            ours == is_ours(prefixes.deep_view()),
            i <= tags@.len(),
            local.deep_view() == all.take(i as int).filter(ours),
        decreases tags@.len() - i,
    {
        let (image, tag) = &tags[i];
        proof {
            lemma_filter_step(all, ours, i as int);
            assert(all[i as int] == (image@, tag@));
        }
        if has_any_prefix(prefixes, image.as_str()) {
            push_item(&mut local, (image.clone(), tag.clone()));
        }
        i = i + 1;
    }
    proof {
        lemma_take_all(all);
    }
    let groups = cache_pollution(local.as_slice(), upstream);
    let ghost gs = groups@;
    let mut out: Vec<TagRef> = Vec::new();
    let mut j: usize = 0;
    assert(out.deep_view() =~= spread(gs.take(0), image_tags(repo@)));
    while j < groups.len()
        invariant
            gs == groups@,
            j <= gs.len(),
            out.deep_view() == spread(gs.take(j as int), image_tags(repo@)),
        decreases gs.len() - j,
    {
        let image = groups.key_at(j);
        let list = groups.value_at(j);
        let ghost base = out.deep_view();
        let ghost ts = list.deep_view();
        let ghost place = tag_in(repo@, image@);
        proof {
            lemma_spread_step(gs, image_tags(repo@), j as int);
            assert(gs[j as int].0 == key1(image@));
            assert(gs[j as int].0[0] == image@);
            assert(gs[j as int].1 == ts);
        }
        let mut k: usize = 0;
        assert(out.deep_view() =~= base + ts.take(0).map_values(place));
        while k < list.len()
            invariant
                ts == list.deep_view(),
                place == tag_in(repo@, image@),
                k <= list@.len(),
                out.deep_view() == base + ts.take(k as int).map_values(place),
            decreases list@.len() - k,
        {
            proof {
                lemma_map_step(ts, place, k as int);
            }
            push_item(
                &mut out,
                TagRef {
                    source_repo: repo.to_string(),
                    image: image.clone(),
                    tag: list[k].clone(),
                },
            );
            assert(out.deep_view() =~= base + ts.take(k + 1).map_values(place));
            k = k + 1;
        }
        proof {
            lemma_take_all(ts);
        }
        j = j + 1;
    }
    proof {
        lemma_take_all(gs);
    }
    out
}

impl ResolvedPlan {
    /// Compare a cache repository with the upstream: what the upstream lacks is
    /// to be copied up where it is released, and pollution where it is not.
    pub fn compare_cache(
        &mut self,
        repo: &str,
        tags: &[(String, String)],
        prefixes: &[String],
        upstream: &KeySet<String>,
        released: &TagPattern,
    )
        ensures
            ({
                let found = polluted(repo@, tags.deep_view(), prefixes.deep_view(), upstream@);
                final(self).deep_view() == (ResolvedView {
                    copy_upstream: old(self).deep_view().copy_upstream + found.filter(
                        is_released(released@),
                    ),
                    non_released: old(self).deep_view().non_released + found.filter(
                        is_unreleased(released@),
                    ),
                    ..old(self).deep_view()
                })
            }),
    {
        let found = polluted_tags(repo, tags, prefixes, upstream);
        let ghost all = found.deep_view();
        let ghost yes = is_released(released@);
        let ghost no = is_unreleased(released@);
        let mut up: Vec<TagRef> = Vec::new();
        let mut down: Vec<TagRef> = Vec::new();
        let mut i: usize = 0;
        proof {
            reveal(Seq::filter);
        }
        assert(up.deep_view() =~= all.take(0).filter(yes));
        assert(down.deep_view() =~= all.take(0).filter(no));
        while i < found.len()
            invariant
                all == found.deep_view(),
                yes == is_released(released@),
                no == is_unreleased(released@),
                i <= found@.len(),
                up.deep_view() == all.take(i as int).filter(yes),
                down.deep_view() == all.take(i as int).filter(no),
            decreases found@.len() - i,
        {
            proof {
                lemma_filter_step(all, yes, i as int);
                lemma_filter_step(all, no, i as int);
                assert(all[i as int] == found@[i as int].deep_view());
            }
            let t = found[i].clone();
            if released.is_match(t.tag.as_str()) {
                push_item(&mut up, t);
            } else {
                push_item(&mut down, t);
            }
            i = i + 1;
        }
        proof {
            lemma_take_all(all);
        }
        push_all(&mut self.copy_upstream, up);
        push_all(&mut self.non_released, down);
    }

    /// Say why the caches could not be compared with the upstream: there is no
    /// authority to ask (an earlier reason stands), or no `released` pattern.
    pub fn note_comparison(&mut self, authority_ready: bool, released_known: bool)
        ensures
            final(self).deep_view() == (ResolvedView {
                non_released_note: if !authority_ready {
                    match old(self).deep_view().non_released_note {
                        Some(n) => Some(n),
                        None => Some("no [check_authority] upstream configured"@),
                    }
                } else if !released_known {
                    Some("no `released` pattern in rules"@)
                } else {
                    old(self).deep_view().non_released_note
                },
                ..old(self).deep_view()
            }),
    {
        if !authority_ready {
            if self.non_released_note.is_none() {
                self.non_released_note = Some(
                    "no [check_authority] upstream configured".to_string(),
                );
            }
        } else if !released_known {
            self.non_released_note = Some("no `released` pattern in rules".to_string());
        }
    }
}

/// The distinct images of the planned moves, ascending: those whose usage is
/// looked up.
pub fn moved_images(moves: &[PlannedMove]) -> (r: KeySet<String>)
    ensures
        r@ == sorted_keys(
            text_keys(moves.deep_view().map_values(|m: PlannedMoveView| m.image)),
        ),
{
    let ghost ms = moves.deep_view();
    let ghost image = |m: PlannedMoveView| m.image;
    let mut out: Vec<String> = Vec::new();
    let mut j: usize = 0;
    assert(out.deep_view() =~= ms.take(0).map_values(image));
    while j < moves.len()
        invariant
            ms == moves.deep_view(),
            image == (|m: PlannedMoveView| m.image),
            j <= moves@.len(),
            out.deep_view() == ms.take(j as int).map_values(image),
        decreases moves@.len() - j,
    {
        proof {
            lemma_map_step(ms, image, j as int);
        }
        push_item(&mut out, moves[j].image.clone());
        j = j + 1;
    }
    proof {
        lemma_take_all(ms);
    }
    set_of(out.as_slice())
}

} // verus!
