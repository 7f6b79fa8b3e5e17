//! Checks of every repository that a rules file refers to.
use crate::reorg::compile::{CompiledGroup, CompiledGroupView, CompiledRule, CompiledRuleView};
use crate::seqs::{lemma_map_step, lemma_spread_step, lemma_take_all, push_all, push_item, spread};
use crate::text::{join, joined, list_has, same_text};
use vstd::prelude::*;

verus! {

/// One reference to a repository: its name, the format it must have, whether it
/// must be hosted, and the role it plays.
pub struct RepoUse {
    pub name: String,
    pub format: String,
    pub hosted: bool,
    pub role: String,
}

/// The contents of a [`RepoUse`].
#[verifier::ext_equal]
pub struct RepoUseView {
    pub name: Seq<char>,
    pub format: Seq<char>,
    pub hosted: bool,
    pub role: Seq<char>,
}

impl DeepView for RepoUse {
    type V = RepoUseView;

    open spec fn deep_view(&self) -> RepoUseView {
        RepoUseView {
            name: self.name@,
            format: self.format@,
            hosted: self.hosted,
            role: self.role@,
        }
    }
}

/// The use of an optional repository.
pub open spec fn optional_use(
    name: Option<Seq<char>>,
    format: Seq<char>,
    hosted: bool,
    role: Seq<char>,
) -> Seq<RepoUseView> {
    match name {
        Some(n) => seq![RepoUseView { name: n, format, hosted, role }],
        None => Seq::empty(),
    }
}

/// The repositories that a rule refers to. A destination must be hosted.
pub open spec fn rule_uses(format: Seq<char>) -> spec_fn(CompiledRuleView) -> Seq<RepoUseView> {
    |r: CompiledRuleView|
        optional_use(r.dest, format, true, "destination"@) + optional_use(
            r.check,
            format,
            false,
            "check"@,
        ) + optional_use(r.aux_dest, format, true, "aux destination"@) + optional_use(
            r.insight_repo,
            format,
            false,
            "insight"@,
        )
}

/// A plain use of each repository of a list.
pub open spec fn list_uses(format: Seq<char>, role: Seq<char>) -> spec_fn(Seq<char>) -> RepoUseView {
    |n: Seq<char>| RepoUseView { name: n, format, hosted: false, role }
}

/// The repositories that a group refers to: its sources, the repositories it
/// purges, and those of its rules.
pub open spec fn group_uses() -> spec_fn(CompiledGroupView) -> Seq<RepoUseView> {
    |g: CompiledGroupView|
        g.source_repos.map_values(list_uses(g.format, "source"@)) + g.purge_repos.map_values(
            list_uses(g.format, "purge"@),
        ) + spread(g.rules, rule_uses(g.format))
}

/// Type and format of a repository, taken from its last inventory entry.
pub open spec fn repo_info(
    inventory: Seq<(Seq<char>, Seq<char>, Seq<char>)>,
    name: Seq<char>,
) -> Option<(Seq<char>, Seq<char>)>
    decreases inventory.len(),
{
    if inventory.len() == 0 {
        None
    } else if inventory.last().0 == name {
        Some((inventory.last().1, inventory.last().2))
    } else {
        repo_info(inventory.drop_last(), name)
    }
}

/// What is wrong with one reference.
pub open spec fn use_problems(
    inventory: Seq<(Seq<char>, Seq<char>, Seq<char>)>,
) -> spec_fn(RepoUseView) -> Seq<Seq<char>> {
    |u: RepoUseView|
        match repo_info(inventory, u.name) {
            None => seq![u.role + " repo '"@ + u.name + "' does not exist"@],
            Some((repo_type, format)) => (if format != u.format {
                seq![
                    u.role + " repo '"@ + u.name + "' is format '"@ + format + "', expected '"@
                        + u.format + "'"@,
                ]
            } else {
                Seq::empty()
            }) + (if u.hosted && repo_type != "hosted"@ {
                seq![
                    u.role + " repo '"@ + u.name + "' is type '"@ + repo_type
                        + "', but a move/copy destination must be 'hosted'"@,
                ]
            } else {
                Seq::empty()
            }),
        }
}

/// What is wrong with the usage repository.
pub open spec fn usage_problems(
    inventory: Seq<(Seq<char>, Seq<char>, Seq<char>)>,
    usage_repo: Option<Seq<char>>,
) -> Seq<Seq<char>> {
    match usage_repo {
        Some(u) => if repo_info(inventory, u) is None {
            seq!["usage_repo '"@ + u + "' does not exist"@]
        } else {
            Seq::empty()
        },
        None => Seq::empty(),
    }
}

/// Each text once, in the order of first appearance.
pub open spec fn distinct(s: Seq<Seq<char>>) -> Seq<Seq<char>>
    decreases s.len(),
{
    if s.len() == 0 {
        s
    } else {
        let d = distinct(s.drop_last());
        if d.contains(s.last()) {
            d
        } else {
            d.push(s.last())
        }
    }
}

/// Every problem with the repositories that the groups refer to.
pub open spec fn repo_problems(
    inventory: Seq<(Seq<char>, Seq<char>, Seq<char>)>,
    groups: Seq<CompiledGroupView>,
    usage_repo: Option<Seq<char>>,
) -> Seq<Seq<char>> {
    spread(spread(groups, group_uses()), use_problems(inventory)) + usage_problems(
        inventory,
        usage_repo,
    )
}

/// Keep the first appearance of each text.
pub fn keep_distinct(items: &[String]) -> (r: Vec<String>)
    ensures
        r.deep_view() == distinct(items.deep_view()),
{
    let ghost all = items.deep_view();
    let mut out: Vec<String> = Vec::new();
    let mut i: usize = 0;
    assert(out.deep_view() =~= distinct(all.take(0)));
    while i < items.len()
        invariant
            all == items.deep_view(),
            i <= items@.len(),
            out.deep_view() == distinct(all.take(i as int)),
        decreases items@.len() - i,
    {
        proof {
            assert(all.take(i + 1).drop_last() =~= all.take(i as int));
            assert(all.take(i + 1).last() == items@[i as int]@);
        }
        if !list_has(out.as_slice(), items[i].as_str()) {
            push_item(&mut out, items[i].clone());
        }
        i = i + 1;
    }
    proof {
        lemma_take_all(all);
    }
    out
}

/// The use of an optional repository.
fn use_of(name: &Option<String>, format: &str, hosted: bool, role: &str) -> (r: Vec<RepoUse>)
    ensures
        r.deep_view() == optional_use(name.deep_view(), format@, hosted, role@),
{
    let mut out: Vec<RepoUse> = Vec::new();
    assert(out.deep_view() =~= Seq::<RepoUseView>::empty());
    if let Some(n) = name {
        push_item(
            &mut out,
            RepoUse {
                name: n.clone(),
                format: format.to_string(),
                hosted,
                role: role.to_string(),
            },
        );
    }
    assert(out.deep_view() =~= optional_use(name.deep_view(), format@, hosted, role@));
    out
}

/// The repositories that a rule refers to.
fn uses_of_rule(r: &CompiledRule, format: &str) -> (out: Vec<RepoUse>)
    ensures
        out.deep_view() == rule_uses(format@)(r.deep_view()),
{
    let mut out = use_of(&r.dest, format, true, "destination");
    push_all(&mut out, use_of(&r.check, format, false, "check"));
    push_all(&mut out, use_of(&r.aux_dest, format, true, "aux destination"));
    push_all(&mut out, use_of(&r.insight_repo, format, false, "insight"));
    out
}

/// A plain use of each repository of a list.
fn uses_of_list(names: &[String], format: &str, role: &str) -> (out: Vec<RepoUse>)
    ensures
        out.deep_view() == names.deep_view().map_values(list_uses(format@, role@)),
{
    let ghost all = names.deep_view();
    let ghost f = list_uses(format@, role@);
    let mut out: Vec<RepoUse> = Vec::new();
    let mut i: usize = 0;
    assert(out.deep_view() =~= all.take(0).map_values(f));
    while i < names.len()
        invariant
            all == names.deep_view(),
            f == list_uses(format@, role@),
            i <= names@.len(),
            out.deep_view() == all.take(i as int).map_values(f),
        decreases names@.len() - i,
    {
        proof {
            lemma_map_step(all, f, i as int);
        }
        push_item(
            &mut out,
            RepoUse {
                name: names[i].clone(),
                format: format.to_string(),
                hosted: false,
                role: role.to_string(),
            },
        );
        i = i + 1;
    }
    proof {
        lemma_take_all(all);
    }
    out
}

/// The repositories that a group refers to.
fn uses_of_group(g: &CompiledGroup) -> (out: Vec<RepoUse>)
    ensures
        out.deep_view() == group_uses()(g.deep_view()),
{
    let format = g.format.as_str();
    let mut out = uses_of_list(g.source_repos.as_slice(), format, "source");
    push_all(&mut out, uses_of_list(g.purge_repos.as_slice(), format, "purge"));
    let ghost base = out.deep_view();
    let ghost rules = g.rules.deep_view();
    let ghost f = rule_uses(format@);
    let mut i: usize = 0;
    assert(out.deep_view() =~= base + spread(rules.take(0), f));
    while i < g.rules.len()
        invariant
            rules == g.rules.deep_view(),
            f == rule_uses(format@),
            i <= g.rules@.len(),
            out.deep_view() == base + spread(rules.take(i as int), f),
        decreases g.rules@.len() - i,
    {
        proof {
            lemma_spread_step(rules, f, i as int);
        }
        push_all(&mut out, uses_of_rule(&g.rules[i], format));
        assert(out.deep_view() =~= base + spread(rules.take(i + 1), f));
        i = i + 1;
    }
    proof {
        lemma_take_all(rules);
    }
    out
}

/// Type and format of a repository.
fn info_of<'a>(inventory: &'a [(String, String, String)], name: &str) -> (r: Option<
    (&'a String, &'a String),
>)
    ensures
        r.deep_view() == repo_info(inventory.deep_view(), name@),
{
    let ghost all = inventory.deep_view();
    let mut i: usize = inventory.len();
    proof {
        lemma_take_all(all);
    }
    while i > 0
        invariant
            all == inventory.deep_view(),
            i <= inventory@.len(),
            repo_info(all, name@) == repo_info(all.take(i as int), name@),
        decreases i,
    {
        proof {
            assert(all.take(i as int).drop_last() =~= all.take(i - 1));
            assert(all.take(i as int).last() == inventory@[i - 1].deep_view());
        }
        if same_text(inventory[i - 1].0.as_str(), name) {
            return Some((&inventory[i - 1].1, &inventory[i - 1].2));
        }
        i = i - 1;
    }
    None
}

/// What is wrong with one reference.
fn problems_of(inventory: &[(String, String, String)], u: &RepoUse) -> (out: Vec<String>)
    ensures
        out.deep_view() == use_problems(inventory.deep_view())(u.deep_view()),
{
    let mut out: Vec<String> = Vec::new();
    assert(out.deep_view() =~= Seq::<Seq<char>>::empty());
    let mut lead = u.role.clone();
    lead.append(" repo '");
    lead.append(u.name.as_str());
    match info_of(inventory, u.name.as_str()) {
        None => {
            lead.append("' does not exist");
            push_item(&mut out, lead);
        },
        Some((repo_type, format)) => {
            if !same_text(format.as_str(), u.format.as_str()) {
                let mut s = lead.clone();
                s.append("' is format '");
                s.append(format.as_str());
                s.append("', expected '");
                s.append(u.format.as_str());
                s.append("'");
                push_item(&mut out, s);
            }
            if u.hosted && !same_text(repo_type.as_str(), "hosted") {
                let mut s = lead.clone();
                s.append("' is type '");
                s.append(repo_type.as_str());
                s.append("', but a move/copy destination must be 'hosted'");
                push_item(&mut out, s);
            }
        },
    }
    assert(out.deep_view() =~= use_problems(inventory.deep_view())(u.deep_view()));
    out
}

/// Validate every repository that the groups refer to against the live
/// `(name, type, format)` inventory. The result lists each distinct problem
/// once, in the order found; it is empty when all is well.
pub fn validate_repo_refs(
    inventory: &[(String, String, String)],
    groups: &[CompiledGroup],
    usage_repo: Option<&str>,
) -> (r: Vec<String>)
    ensures
        r.deep_view() == distinct(
            repo_problems(inventory.deep_view(), groups.deep_view(), usage_repo.deep_view()),
        ),
{
    let ghost inv = inventory.deep_view();
    let ghost gs = groups.deep_view();
    let mut uses: Vec<RepoUse> = Vec::new();
    let mut i: usize = 0;
    assert(uses.deep_view() =~= spread(gs.take(0), group_uses()));
    while i < groups.len()
        invariant
            gs == groups.deep_view(),
            i <= groups@.len(),
            uses.deep_view() == spread(gs.take(i as int), group_uses()),
        decreases groups@.len() - i,
    {
        proof {
            lemma_spread_step(gs, group_uses(), i as int);
        }
        push_all(&mut uses, uses_of_group(&groups[i]));
        i = i + 1;
    }
    proof {
        lemma_take_all(gs);
    }
    let ghost us = uses.deep_view();
    let mut errs: Vec<String> = Vec::new();
    let mut j: usize = 0;
    assert(errs.deep_view() =~= spread(us.take(0), use_problems(inv)));
    while j < uses.len()
        invariant
            inv == inventory.deep_view(),
            us == uses.deep_view(),
            j <= uses@.len(),
            errs.deep_view() == spread(us.take(j as int), use_problems(inv)),
        decreases uses@.len() - j,
    {
        proof {
            lemma_spread_step(us, use_problems(inv), j as int);
        }
        push_all(&mut errs, problems_of(inventory, &uses[j]));
        j = j + 1;
    }
    proof {
        lemma_take_all(us);
    }
    let ghost before = errs.deep_view();
    if let Some(u) = usage_repo {
        if info_of(inventory, u).is_none() {
            let mut s = "usage_repo '".to_string();
            s.append(u);
            s.append("' does not exist");
            push_item(&mut errs, s);
        }
    }
    assert(errs.deep_view() =~= before + usage_problems(inv, usage_repo.deep_view()));
    keep_distinct(errs.as_slice())
}

/// The error that names every problem, or nothing where there is none.
pub open spec fn preflight_error(problems: Seq<Seq<char>>) -> Option<Seq<char>> {
    if problems.len() == 0 {
        None
    } else {
        Some(
            "reorg rules reference invalid repositories:\n  - "@ + joined(problems, "\n  - "@),
        )
    }
}

/// Turn the problems found into one message before anything is planned.
pub fn preflight_repos(
    inventory: &[(String, String, String)],
    groups: &[CompiledGroup],
    usage_repo: Option<&str>,
) -> (r: Option<String>)
    ensures
        r.deep_view() == preflight_error(
            distinct(
                repo_problems(inventory.deep_view(), groups.deep_view(), usage_repo.deep_view()),
            ),
        ),
{
    let errs = validate_repo_refs(inventory, groups, usage_repo);
    if errs.len() == 0 {
        None
    } else {
        let mut s = "reorg rules reference invalid repositories:\n  - ".to_string();
        let list = join(errs.as_slice(), "\n  - ");
        s.append(list.as_str());
        Some(s)
    }
}

/// Whether a reference is in order: the repository exists with the right format
/// and is hosted where it must be.
pub open spec fn use_ok(
    inventory: Seq<(Seq<char>, Seq<char>, Seq<char>)>,
    u: RepoUseView,
) -> bool {
    repo_info(inventory, u.name) matches Some(info) && info.1 == u.format && (u.hosted ==> info.0
        == "hosted"@)
}

/// The preflight is clean exactly when every reference is in order and the usage
/// repository, if any, exists.
pub proof fn law_preflight_clean(
    inventory: Seq<(Seq<char>, Seq<char>, Seq<char>)>,
    groups: Seq<CompiledGroupView>,
    usage_repo: Option<Seq<char>>,
)
    ensures
        preflight_error(distinct(repo_problems(inventory, groups, usage_repo))) is None <==> (
        forall|u: RepoUseView| #[trigger]
            spread(groups, group_uses()).contains(u) ==> use_ok(inventory, u)) && (
        usage_repo matches Some(n) ==> repo_info(inventory, n) is Some),
{
    let uses = spread(groups, group_uses());
    let f = use_problems(inventory);
    let problems = repo_problems(inventory, groups, usage_repo);
    lemma_distinct_empty(problems);
    lemma_spread_empty(uses, f);
    assert forall|u: RepoUseView| #[trigger] f(u).len() == 0 <==> use_ok(inventory, u) by {}
    if spread(uses, f).len() == 0 {
        assert forall|u: RepoUseView| #[trigger] uses.contains(u) implies use_ok(
            inventory,
            u,
        ) by {
            let i = choose|i: int| 0 <= i < uses.len() && uses[i] == u;
            assert(f(uses[i]).len() == 0);
        }
    } else {
        let i = choose|i: int| 0 <= i < uses.len() && (#[trigger] f(uses[i])).len() > 0;
        assert(uses.contains(uses[i]));
        assert(!use_ok(inventory, uses[i]));
    }
}

/// A spread is empty exactly when every piece is.
proof fn lemma_spread_empty<T, U>(s: Seq<T>, f: spec_fn(T) -> Seq<U>)
    ensures
        spread(s, f).len() == 0 <==> forall|i: int|
            0 <= i < s.len() ==> (#[trigger] f(s[i])).len() == 0,
    decreases s.len(),
{
    if s.len() > 0 {
        let rest = s.drop_last();
        lemma_spread_empty(rest, f);
        if spread(rest, f).len() == 0 && f(s.last()).len() == 0 {
            assert forall|i: int| 0 <= i < s.len() implies (#[trigger] f(s[i])).len() == 0 by {
                if i < rest.len() {
                    assert(f(rest[i]).len() == 0);
                }
            }
        }
        if forall|i: int| 0 <= i < s.len() ==> (#[trigger] f(s[i])).len() == 0 {
            assert forall|i: int| 0 <= i < rest.len() implies (#[trigger] f(rest[i])).len() == 0 by {
                assert(f(s[i]).len() == 0);
            }
            assert(f(s[s.len() - 1]).len() == 0);
        }
    }
}

/// Nothing is left of a list only where it was empty.
proof fn lemma_distinct_empty(s: Seq<Seq<char>>)
    ensures
        distinct(s).len() == 0 <==> s.len() == 0,
    decreases s.len(),
{
    if s.len() > 0 {
        lemma_distinct_empty(s.drop_last());
        let d = distinct(s.drop_last());
        if d.contains(s.last()) {
            let i = choose|i: int| 0 <= i < d.len() && d[i] == s.last();
            assert(d.len() > 0);
        }
    }
}

} // verus!
